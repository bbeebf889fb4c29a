//! The Elm intermediate representation: modules, fields, union branches and
//! Elm types, with the type-level queries and expressions the code
//! generator renders from them.
use vstd::prelude::*;

use crate::text::{concat_all, join, owned, views_of};

verus! {

/// The IEEE-754 bit pattern of a float, in the width it was given.
#[derive(Clone, Copy, PartialEq, Eq, Structural)]
pub enum FloatBits {
    Single(u32),
    Double(u64),
}

/// A data-section default value, used as the XOR mask of a field.
/// A float default is held by its IEEE-754 bit pattern.
#[derive(Clone, Copy)]
pub enum ElmDefaultValue {
    Bool(bool),
    Int(i64),
    Float(FloatBits),
    Enum(u16),
}

#[derive(Clone, Copy, PartialEq, Eq, Structural)]
pub enum ElmPrimitiveType {
    Bool,
    Int(u8),
    Float(u8),
    String,
    Bytes,
    Unit,
}

pub enum ElmType {
    Primitive(ElmPrimitiveType),
    StructRef(String, &'static str, Vec<ElmType>),
    EnumRef(String, &'static str, Vec<ElmEnumVariant>, Vec<ElmType>),
    InterfaceRef(String, &'static str, Vec<ElmType>),
    AnyPointer,
    List(Box<ElmType>),
    /// Branches and the generic parameters of the enclosing struct.
    UnionInline(Vec<ElmUnionBranch>, Vec<String>),
    GenericParam(String),
}

pub struct ElmModule {
    pub id: u64,
    pub name: String,
    pub path: String,
    pub imports: Vec<String>,
    pub type_def: ElmTypeDef,
    pub data_words: u32,
    pub pointer_words: u32,
    pub fields: Vec<ElmField>,
    /// Union discriminant offset, in 16-bit units.
    pub discriminant_offset: u32,
    pub methods: Vec<ElmMethod>,
    pub generic_params: Vec<String>,
    /// Whether decoding this struct needs the message's capability table.
    pub needs_cap_table: bool,
    /// Structs rendered into this module's file after the module itself.
    pub merged_members: Vec<ElmModule>,
}

#[derive(Clone, Copy, PartialEq, Eq, Structural)]
pub enum ElmTypeDef {
    Struct,
    Enum,
    Interface,
}

pub struct ElmField {
    pub name: String,
    pub discriminant: Option<u16>,
    pub elm_type: ElmType,
    /// Offset of a data field.
    pub offset: u32,
    /// Whether this field holds the struct's union.
    pub is_union_container: bool,
    pub default_value: Option<ElmDefaultValue>,
    /// Slot of a capability field in the payload capability table.
    pub cap_slot: Option<u32>,
    pub needs_cap_table: bool,
}

pub struct ElmUnionBranch {
    pub name: String,
    pub discriminant: u16,
    pub elm_type: ElmType,
    /// Offset of the branch's value within the struct.
    pub offset: u32,
    /// Whether the branch's value lives in the pointer section.
    pub is_pointer: bool,
    pub default_value: Option<ElmDefaultValue>,
    pub needs_cap_table: bool,
}

pub struct ElmEnumVariant {
    pub name: String,
    pub ordinal: u16,
}

impl Clone for ElmEnumVariant {
    fn clone(&self) -> (r: Self)
        ensures
            r == *self,
    {
        ElmEnumVariant { name: self.name.clone(), ordinal: self.ordinal }
    }
}

pub struct ElmMethod {
    pub id: u16,
    pub name: String,
    pub implicit_parameters: Vec<String>,
    pub param_type: ElmType,
    pub result_type: ElmType,
    /// Whether the parameter struct carries capabilities.
    pub param_has_caps: bool,
    /// Whether decoding the result needs the capability table.
    pub result_has_caps: bool,
}

pub struct ElmInterface {
    pub id: u64,
    pub name: String,
    pub path: String,
    pub methods: Vec<ElmMethod>,
}

pub struct ElmContext {
    pub modules: Vec<ElmModule>,
}

// ── Zero defaults ─────────────────────────────────────────────────────

/// Whether a default is the zero value, which needs no XOR mask: a
/// value whose bits are all zero. A float is zero only as `0.0`; `-0.0`
/// has its sign bit set and is masked like any other default.
pub open spec fn default_is_zero(v: ElmDefaultValue) -> bool {
    match v {
        ElmDefaultValue::Bool(b) => !b,
        ElmDefaultValue::Int(i) => i == 0,
        ElmDefaultValue::Float(FloatBits::Single(bits)) => bits == 0,
        ElmDefaultValue::Float(FloatBits::Double(bits)) => bits == 0,
        ElmDefaultValue::Enum(e) => e == 0,
    }
}

/// The Elm literal of a non-float default; a float default has none here.
pub open spec fn default_literal(v: ElmDefaultValue) -> Option<Seq<char>> {
    match v {
        ElmDefaultValue::Bool(b) => Some(if b { "True"@ } else { "False"@ }),
        ElmDefaultValue::Int(i) => Some(crate::text::signed_decimal(i as int)),
        ElmDefaultValue::Float(_) => None,
        ElmDefaultValue::Enum(e) => Some(crate::text::decimal(e as nat)),
    }
}

/// The Elm literal of a float whose `Display` spelling is `shown`: Elm
/// float literals need a decimal point, so `.0` is added when there is
/// none.
pub open spec fn float_literal(shown: Seq<char>) -> Seq<char> {
    if shown.contains('.') {
        shown
    } else {
        shown + ".0"@
    }
}

/// Completes the `Display` spelling of a float into an Elm float literal.
pub fn float_literal_from_display(shown: String) -> (r: String)
    ensures
        r@ == float_literal(shown@),
{
    let mut i: usize = 0;
    let n = shown.as_str().unicode_len();
    while i < n
        invariant
            i <= n,
            n == shown@.len(),
            forall|j: int| 0 <= j < i ==> shown@[j] != '.',
        decreases n - i,
    {
        if shown.as_str().get_char(i) == '.' {
            return shown;
        }
        i += 1;
    }
    let mut r = shown;
    r.append(".0");
    r
}

impl ElmDefaultValue {
    /// The Elm literal of this default. A float's literal depends on how
    /// the float is displayed, which is done outside this library (see
    /// `float_literal_from_display`), so a float gives `None`.
    pub fn to_elm_literal(&self) -> (r: Option<String>)
        ensures
            r matches Some(s) ==> default_literal(*self) == Some(s@),
            r is None ==> default_literal(*self) is None,
    {
        match self {
            ElmDefaultValue::Bool(true) => Some(owned("True")),
            ElmDefaultValue::Bool(false) => Some(owned("False")),
            ElmDefaultValue::Int(i) => Some(crate::text::i64_to_decimal(*i)),
            ElmDefaultValue::Float(_) => None,
            ElmDefaultValue::Enum(v) => Some(crate::text::u64_to_decimal(*v as u64)),
        }
    }

    pub fn is_zero(&self) -> (b: bool)
        ensures
            b == default_is_zero(*self),
    {
        match self {
            ElmDefaultValue::Bool(b) => !*b,
            ElmDefaultValue::Int(i) => *i == 0,
            ElmDefaultValue::Float(FloatBits::Single(bits)) => *bits == 0,
            ElmDefaultValue::Float(FloatBits::Double(bits)) => *bits == 0,
            ElmDefaultValue::Enum(v) => *v == 0,
        }
    }
}

// ── Interface references ─────────────────────────────────────────────

/// Whether some element is `true`.
pub open spec fn any_true(s: Seq<bool>) -> bool {
    exists|i: int| 0 <= i < s.len() && #[trigger] s[i]
}

/// Whether a type mentions a capability, through type arguments, list
/// elements and union branches.
pub open spec fn has_interface_ref(t: ElmType) -> bool
    decreases t,
{
    match t {
        ElmType::InterfaceRef(_, _, _) => true,
        ElmType::StructRef(_, _, args) => any_true(types_have_interface_ref(args@)),
        ElmType::EnumRef(_, _, _, args) => any_true(types_have_interface_ref(args@)),
        ElmType::List(inner) => has_interface_ref(*inner),
        ElmType::UnionInline(branches, _) => any_true(branches_have_interface_ref(branches@)),
        _ => false,
    }
}

/// For each type, whether it mentions a capability.
pub open spec fn types_have_interface_ref(ts: Seq<ElmType>) -> Seq<bool>
    decreases ts,
{
    Seq::new(ts.len(), |i: int| 0 <= i < ts.len() && has_interface_ref(ts[i]))
}

/// For each union branch, whether its type mentions a capability.
pub open spec fn branches_have_interface_ref(bs: Seq<ElmUnionBranch>) -> Seq<bool>
    decreases bs,
{
    Seq::new(bs.len(), |i: int| 0 <= i < bs.len() && has_interface_ref(bs[i].elm_type))
}

/// The module names of the capabilities a type mentions, in order; a
/// capability without a module contributes nothing.
pub open spec fn interface_refs(t: ElmType) -> Seq<Seq<char>>
    decreases t,
{
    match t {
        ElmType::InterfaceRef(m, _, _) => if m@.len() == 0 {
            Seq::empty()
        } else {
            seq![m@]
        },
        ElmType::StructRef(_, _, args) => concat_all(types_interface_refs(args@)),
        ElmType::EnumRef(_, _, _, args) => concat_all(types_interface_refs(args@)),
        ElmType::List(inner) => interface_refs(*inner),
        ElmType::UnionInline(branches, _) => concat_all(branches_interface_refs(branches@)),
        _ => Seq::empty(),
    }
}

pub open spec fn types_interface_refs(ts: Seq<ElmType>) -> Seq<Seq<Seq<char>>>
    decreases ts,
{
    Seq::new(ts.len(), |i: int| if 0 <= i < ts.len() { interface_refs(ts[i]) } else { Seq::empty() })
}

pub open spec fn branches_interface_refs(bs: Seq<ElmUnionBranch>) -> Seq<Seq<Seq<char>>>
    decreases bs,
{
    Seq::new(
        bs.len(),
        |i: int| if 0 <= i < bs.len() { interface_refs(bs[i].elm_type) } else { Seq::empty() },
    )
}

proof fn lemma_concat_names(parts: Seq<Seq<Seq<char>>>)
    requires
        forall|i: int, j: int| 0 <= i < parts.len() && 0 <= j < parts[i].len() ==> (#[trigger] parts[i][j]).len() > 0,
    ensures
        forall|k: int| 0 <= k < concat_all(parts).len() ==> (#[trigger] concat_all(parts)[k]).len() > 0,
        (forall|i: int| 0 <= i < parts.len() ==> (#[trigger] parts[i]).len() == 0) ==> concat_all(parts).len() == 0,
    decreases parts.len(),
{
    if parts.len() > 0 {
        let front = parts.drop_last();
        assert forall|i: int, j: int| 0 <= i < front.len() && 0 <= j < front[i].len() implies (#[trigger] front[i][j]).len() > 0 by {
            assert(front[i] == parts[i]);
        }
        lemma_concat_names(front);
        let c = concat_all(parts);
        assert forall|k: int| 0 <= k < c.len() implies (#[trigger] c[k]).len() > 0 by {
            if k >= concat_all(front).len() {
                assert(c[k] == parts.last()[k - concat_all(front).len()]);
                assert(parts[parts.len() - 1][k - concat_all(front).len()] == c[k]);
            } else {
                assert(c[k] == concat_all(front)[k]);
            }
        }
        if forall|i: int| 0 <= i < parts.len() ==> (#[trigger] parts[i]).len() == 0 {
            assert forall|i: int| 0 <= i < front.len() implies (#[trigger] front[i]).len() == 0 by {
                assert(front[i] == parts[i]);
            }
            assert(parts[parts.len() - 1].len() == 0);
        }
    }
}

/// The interfaces a type refers to are named by non-empty module names,
/// and a type that mentions no capability refers to none.
pub proof fn law_interface_refs_named(t: ElmType)
    ensures
        forall|k: int| 0 <= k < interface_refs(t).len() ==> (#[trigger] interface_refs(t)[k]).len() > 0,
        !has_interface_ref(t) ==> interface_refs(t).len() == 0,
    decreases t, 1nat,
{
    match t {
        ElmType::StructRef(_, _, args) => {
            lemma_types_refs_named(args@, t);
            let c = concat_all(types_interface_refs(args@));
            assert(interface_refs(t) == c);
            assert forall|k: int| 0 <= k < interface_refs(t).len() implies (#[trigger] interface_refs(t)[k]).len() > 0 by {
                assert(c[k].len() > 0);
            }
            assert(has_interface_ref(t) == any_true(types_have_interface_ref(args@)));
        },
        ElmType::EnumRef(_, _, _, args) => {
            lemma_types_refs_named(args@, t);
            let c = concat_all(types_interface_refs(args@));
            assert(interface_refs(t) == c);
            assert forall|k: int| 0 <= k < interface_refs(t).len() implies (#[trigger] interface_refs(t)[k]).len() > 0 by {
                assert(c[k].len() > 0);
            }
            assert(has_interface_ref(t) == any_true(types_have_interface_ref(args@)));
        },
        ElmType::List(inner) => {
            law_interface_refs_named(*inner);
            assert(interface_refs(t) == interface_refs(*inner));
        },
        ElmType::UnionInline(bs, _) => {
            let parts = branches_interface_refs(bs@);
            assert forall|i: int| 0 <= i < bs@.len() implies {
                &&& forall|k: int| 0 <= k < interface_refs(bs@[i].elm_type).len() ==> (#[trigger] interface_refs(bs@[i].elm_type)[k]).len() > 0
                &&& !has_interface_ref(bs@[i].elm_type) ==> interface_refs(bs@[i].elm_type).len() == 0
            } by {
                assert(decreases_to!(t => bs));
                assert(decreases_to!(bs => bs@));
                assert(decreases_to!(bs@ => bs@[i]));
                law_interface_refs_named(bs@[i].elm_type);
            }
            assert forall|i: int, j: int| 0 <= i < parts.len() && 0 <= j < parts[i].len() implies (#[trigger] parts[i][j]).len() > 0 by {
                assert(parts[i] == interface_refs(bs@[i].elm_type));
            }
            lemma_concat_names(parts);
            assert(interface_refs(t) == concat_all(parts));
            if !has_interface_ref(t) {
                assert forall|i: int| 0 <= i < parts.len() implies (#[trigger] parts[i]).len() == 0 by {
                    assert(!branches_have_interface_ref(bs@)[i]);
                }
            }
        },
        ElmType::InterfaceRef(m, _, _) => {
            if m@.len() > 0 {
                assert forall|k: int| 0 <= k < interface_refs(t).len() implies (#[trigger] interface_refs(t)[k]).len() > 0 by {
                    assert(interface_refs(t) == seq![m@]);
                }
            }
        },
        _ => {
            assert(interface_refs(t).len() == 0);
        },
    }
}

proof fn lemma_types_refs_named(args: Seq<ElmType>, t: ElmType)
    requires
        (t matches ElmType::StructRef(_, _, a) && a@ == args) || (t matches ElmType::EnumRef(_, _, _, a) && a@ == args),
    ensures
        forall|k: int|
            0 <= k < concat_all(types_interface_refs(args)).len() ==> (#[trigger] concat_all(types_interface_refs(args))[k]).len() > 0,
        !any_true(types_have_interface_ref(args)) ==> concat_all(types_interface_refs(args)).len() == 0,
    decreases t, 0nat,
{
    let parts = types_interface_refs(args);
    assert forall|i: int| 0 <= i < args.len() implies {
        &&& forall|k: int| 0 <= k < interface_refs(args[i]).len() ==> (#[trigger] interface_refs(args[i])[k]).len() > 0
        &&& !has_interface_ref(args[i]) ==> interface_refs(args[i]).len() == 0
    } by {
        match t {
            ElmType::StructRef(_, _, a) => {
                assert(decreases_to!(t => a));
                assert(decreases_to!(a => a@));
                assert(decreases_to!(a@ => a@[i]));
            },
            ElmType::EnumRef(_, _, _, a) => {
                assert(decreases_to!(t => a));
                assert(decreases_to!(a => a@));
                assert(decreases_to!(a@ => a@[i]));
            },
            _ => {},
        }
        law_interface_refs_named(args[i]);
    }
    assert forall|i: int, j: int| 0 <= i < parts.len() && 0 <= j < parts[i].len() implies (#[trigger] parts[i][j]).len() > 0 by {
        assert(parts[i] == interface_refs(args[i]));
    }
    lemma_concat_names(parts);
    if !any_true(types_have_interface_ref(args)) {
        assert forall|i: int| 0 <= i < parts.len() implies (#[trigger] parts[i]).len() == 0 by {
            assert(!types_have_interface_ref(args)[i]);
        }
    }
}

proof fn lemma_views_of_append(a: Seq<String>, b: Seq<String>)
    ensures
        views_of(a + b) == views_of(a) + views_of(b),
{
    assert(views_of(a + b) =~= views_of(a) + views_of(b));
}

fn collect_from_types(args: &Vec<ElmType>) -> (r: Vec<String>)
    ensures
        views_of(r@) == concat_all(types_interface_refs(args@)),
    decreases args, 0nat,
{
    let mut r: Vec<String> = Vec::new();
    let mut i: usize = 0;
    while i < args.len()
        invariant
            i <= args.len(),
            views_of(r@) == concat_all(types_interface_refs(args@).take(i as int)),
            decreases_to!(*args => args@),
        decreases args.len() - i,
    {
        assert(decreases_to!(args@ => args@[i as int]));
        let mut more = args[i].collect_interface_refs();
        proof {
            lemma_views_of_append(r@, more@);
            assert(types_interface_refs(args@).take(i + 1).drop_last()
                =~= types_interface_refs(args@).take(i as int));
        }
        r.append(&mut more);
        i += 1;
    }
    assert(types_interface_refs(args@).take(args.len() as int) =~= types_interface_refs(args@));
    r
}


// ── Elm type expressions ────────────────────────────────────────────

/// The Elm spelling of a primitive type.
pub open spec fn primitive_string(p: ElmPrimitiveType) -> Seq<char> {
    match p {
        ElmPrimitiveType::Bool => "Bool"@,
        ElmPrimitiveType::Int(w) => if w == 64 {
            "Capnproto.Word64"@
        } else {
            "Int"@
        },
        ElmPrimitiveType::Float(_) => "Float"@,
        ElmPrimitiveType::String => "String"@,
        ElmPrimitiveType::Bytes => "Bytes.Bytes"@,
        ElmPrimitiveType::Unit => Seq::empty(),
    }
}

/// `module.Entity`, or `Entity` when the module is empty.
pub open spec fn qualified(module: Seq<char>, entity: Seq<char>) -> Seq<char> {
    if module.len() == 0 {
        entity
    } else {
        module + "."@ + entity
    }
}

/// A type constructor applied to its arguments, separated by spaces.
pub open spec fn applied(base: Seq<char>, args: Seq<Seq<char>>) -> Seq<char> {
    if args.len() == 0 {
        base
    } else {
        base + " "@ + join(args, " "@)
    }
}

/// The Elm spelling of a union's type, applied to the struct's generic
/// parameters.
pub open spec fn union_type_string(gps: Seq<Seq<char>>) -> Seq<char> {
    if gps.len() == 0 {
        "Union"@
    } else if gps.len() > 1 {
        "(Union "@ + join(gps, " "@) + ")"@
    } else {
        "Union "@ + join(gps, Seq::empty())
    }
}

/// The Elm type expression of a type.
pub open spec fn elm_type_string(t: ElmType) -> Seq<char>
    decreases t,
{
    match t {
        ElmType::Primitive(p) => primitive_string(p),
        ElmType::AnyPointer => "Capnproto.AnyPointer"@,
        ElmType::InterfaceRef(_, _, _) => "Rpc.Capability"@,
        ElmType::List(inner) => "List ("@ + elm_type_string(*inner) + ")"@,
        ElmType::StructRef(m, s, args) => applied(qualified(m@, s@), type_strings(args@)),
        ElmType::EnumRef(m, e, _, args) => applied(qualified(m@, e@), type_strings(args@)),
        ElmType::UnionInline(_, gps) => union_type_string(views_of(gps@)),
        ElmType::GenericParam(name) => name@,
    }
}

pub open spec fn type_strings(ts: Seq<ElmType>) -> Seq<Seq<char>>
    decreases ts,
{
    Seq::new(ts.len(), |i: int| if 0 <= i < ts.len() { elm_type_string(ts[i]) } else { Seq::empty() })
}

/// The module a type belongs to, for imports and qualified references.
pub open spec fn type_module(t: ElmType) -> Seq<char> {
    match t {
        ElmType::StructRef(m, _, _) => m@,
        ElmType::UnionInline(_, _) => "Union"@,
        ElmType::EnumRef(m, _, _, _) => m@,
        _ => Seq::empty(),
    }
}

/// The name of the raw accessor used to write or read a data field.
pub open spec fn raw_type_name(t: ElmType) -> Seq<char> {
    match t {
        ElmType::Primitive(ElmPrimitiveType::Bool) => "Bool"@,
        ElmType::Primitive(ElmPrimitiveType::Int(w)) => if w == 16 {
            "UInt16"@
        } else if w == 32 {
            "UInt32"@
        } else if w == 64 {
            "UInt64"@
        } else {
            "UInt8"@
        },
        ElmType::Primitive(ElmPrimitiveType::Float(w)) => if w == 32 {
            "Float32"@
        } else {
            "Float64"@
        },
        _ => "Int"@,
    }
}

/// Bytes a type occupies in the data section (0 for booleans and
/// pointers).
pub open spec fn data_byte_width(t: ElmType) -> u32 {
    match t {
        ElmType::Primitive(ElmPrimitiveType::Int(w)) => (w / 8) as u32,
        ElmType::Primitive(ElmPrimitiveType::Float(w)) => (w / 8) as u32,
        _ => 0,
    }
}

/// The Elm expression that turns a value of the type into an AnyPointer.
pub open spec fn encoder_string(t: ElmType) -> Seq<char>
    decreases t,
{
    match t {
        ElmType::Primitive(ElmPrimitiveType::String) => "Capnproto.textToAnyPointer"@,
        ElmType::Primitive(ElmPrimitiveType::Bytes) => "Capnproto.bytesToAnyPointer"@,
        ElmType::Primitive(ElmPrimitiveType::Int(w)) if w == 64 => "Capnproto.word64ToAnyPointer"@,
        ElmType::StructRef(module, _, args) => if args.len() == 0 {
            module@ + ".toAnyPointer"@
        } else {
            join(encoder_strings(args@), " "@)
        },
        ElmType::GenericParam(_) => "toAnyPointer"@,
        ElmType::InterfaceRef(_, _, _) => "identity"@,
        ElmType::EnumRef(_, _, _, _) => "identity"@,
        ElmType::AnyPointer => "identity"@,
        _ => "Capnproto.unknownTypeEncoder"@,
    }
}

pub open spec fn encoder_strings(ts: Seq<ElmType>) -> Seq<Seq<char>>
    decreases ts,
{
    Seq::new(ts.len(), |i: int| if 0 <= i < ts.len() { encoder_string(ts[i]) } else { Seq::empty() })
}

/// The Elm expression that reads a value of the type from an AnyPointer;
/// a generic struct is decoded through the encoders of its arguments.
pub open spec fn decoder_string(t: ElmType) -> Seq<char> {
    match t {
        ElmType::Primitive(ElmPrimitiveType::String) => "Capnproto.anyPointerToText"@,
        ElmType::Primitive(ElmPrimitiveType::Bytes) => "Capnproto.anyPointerToBytes"@,
        ElmType::Primitive(ElmPrimitiveType::Int(w)) if w == 64 => "Capnproto.anyPointerToWord64"@,
        ElmType::StructRef(module, _, args) => if args.len() == 0 {
            module@ + ".fromAnyPointer"@
        } else {
            join(encoder_strings(args@), " "@)
        },
        ElmType::GenericParam(_) => "fromAnyPointer"@,
        ElmType::InterfaceRef(_, _, _) => "Just"@,
        ElmType::EnumRef(_, _, _, _) => "Just"@,
        ElmType::AnyPointer => "Just"@,
        _ => "Capnproto.unknownTypeDecoder"@,
    }
}

/// The default encoder of a list of structs from the same module.
pub open spec fn local_struct_list_encoder() -> Seq<char> {
    "Capnproto.encodeStructList encode dataWords pointerWords"@
}

/// The Elm expression that encodes a list of the element type.
pub open spec fn list_encoder_string(t: ElmType) -> Seq<char> {
    match t {
        ElmType::List(inner) => match *inner {
            ElmType::Primitive(ElmPrimitiveType::Int(w)) if w == 8 => "Capnproto.encodePrimitiveIntList 1 1"@,
            ElmType::Primitive(ElmPrimitiveType::Int(w)) if w == 16 => "Capnproto.encodePrimitiveIntList 3 2"@,
            ElmType::Primitive(ElmPrimitiveType::Int(w)) if w == 32 => "Capnproto.encodePrimitiveIntList 4 4"@,
            ElmType::Primitive(ElmPrimitiveType::Int(w)) if w == 64 => "Capnproto.encodePrimitiveIntList 5 8"@,
            ElmType::Primitive(ElmPrimitiveType::Bool) => "Capnproto.encodeBoolList"@,
            ElmType::Primitive(ElmPrimitiveType::Float(w)) if w == 32 => "Capnproto.encodeFloat32List"@,
            ElmType::Primitive(ElmPrimitiveType::Float(w)) if w == 64 => "Capnproto.encodeFloat64List"@,
            ElmType::Primitive(ElmPrimitiveType::String) => "Capnproto.encodeTextList"@,
            ElmType::StructRef(m, _, _) => if m@.len() == 0 {
                local_struct_list_encoder()
            } else {
                "Capnproto.encodeStructList "@ + m@ + ".encode "@ + m@ + ".dataWords "@ + m@
                    + ".pointerWords"@
            },
            _ => local_struct_list_encoder(),
        },
        _ => local_struct_list_encoder(),
    }
}

/// The Elm lambda that reads one element of a list of the element type.
pub open spec fn list_element_reader_string(t: ElmType) -> Seq<char> {
    match t {
        ElmType::List(inner) => match *inner {
            ElmType::Primitive(ElmPrimitiveType::Int(w)) if w == 8 => "\\r -> Capnproto.readUInt8 r 0"@,
            ElmType::Primitive(ElmPrimitiveType::Int(w)) if w == 16 => "\\r -> Capnproto.readUInt16 r 0"@,
            ElmType::Primitive(ElmPrimitiveType::Int(w)) if w == 32 => "\\r -> Capnproto.readUInt32 r 0"@,
            ElmType::Primitive(ElmPrimitiveType::Int(w)) if w == 64 => "\\r -> Capnproto.readUInt64 r 0"@,
            ElmType::Primitive(ElmPrimitiveType::Bool) => "\\r -> Capnproto.readBool r 0 0"@,
            ElmType::Primitive(ElmPrimitiveType::Float(w)) if w == 32 => "\\r -> Capnproto.readFloat32 r 0"@,
            ElmType::Primitive(ElmPrimitiveType::Float(w)) if w == 64 => "\\r -> Capnproto.readFloat64 r 0"@,
            ElmType::Primitive(ElmPrimitiveType::String) => "\\r -> Capnproto.readText r 0"@,
            ElmType::StructRef(m, _, _) => if m@.len() == 0 {
                "\\r -> decode r |> Result.toMaybe"@
            } else {
                "\\r -> "@ + m@ + ".decode r |> Result.toMaybe"@
            },
            ElmType::EnumRef(m, _, _, _) => if m@.len() == 0 {
                "\\r -> Capnproto.readUInt16 r 0"@
            } else {
                "\\r -> Capnproto.readUInt16 r 0 |> Maybe.andThen "@ + m@ + ".fromCode"@
            },
            _ => "\\r -> Nothing"@,
        },
        _ => "\\r -> Nothing"@,
    }
}

/// Whether a value of the type lives in the pointer section.
pub open spec fn type_is_pointer(t: ElmType) -> bool {
    match t {
        ElmType::Primitive(ElmPrimitiveType::String) => true,
        ElmType::Primitive(ElmPrimitiveType::Bytes) => true,
        ElmType::Primitive(_) => false,
        ElmType::List(_) => true,
        ElmType::StructRef(_, _, _) => true,
        ElmType::EnumRef(_, _, _, _) => false,
        ElmType::InterfaceRef(_, _, _) => true,
        ElmType::AnyPointer => true,
        ElmType::UnionInline(_, _) => false,
        ElmType::GenericParam(_) => true,
    }
}


fn qualified_name(module: &String, entity: &str) -> (r: String)
    ensures
        r@ == qualified(module@, entity@),
{
    if module.as_str().is_empty() {
        owned(entity)
    } else {
        let mut r = module.clone();
        r.append(".");
        r.append(entity);
        r
    }
}

fn apply_args(base: String, args: &Vec<String>) -> (r: String)
    ensures
        r@ == applied(base@, views_of(args@)),
{
    if args.len() == 0 {
        base
    } else {
        let joined = crate::text::join_strings(args, " ");
        let mut r = base;
        r.append(" ");
        r.append(joined.as_str());
        r
    }
}

fn type_strings_of(args: &Vec<ElmType>) -> (r: Vec<String>)
    ensures
        views_of(r@) == type_strings(args@),
    decreases args, 0nat,
{
    let mut r: Vec<String> = Vec::new();
    let mut i: usize = 0;
    while i < args.len()
        invariant
            i <= args.len(),
            r.len() == i,
            forall|j: int| 0 <= j < i ==> #[trigger] r@[j]@ == elm_type_string(args@[j]),
            decreases_to!(*args => args@),
        decreases args.len() - i,
    {
        assert(decreases_to!(args@ => args@[i as int]));
        let s = args[i].to_elm_string();
        r.push(s);
        i += 1;
    }
    assert(views_of(r@) =~= type_strings(args@));
    r
}

fn encoder_strings_of(args: &Vec<ElmType>) -> (r: Vec<String>)
    ensures
        views_of(r@) == encoder_strings(args@),
    decreases args, 0nat,
{
    let mut r: Vec<String> = Vec::new();
    let mut i: usize = 0;
    while i < args.len()
        invariant
            i <= args.len(),
            r.len() == i,
            forall|j: int| 0 <= j < i ==> #[trigger] r@[j]@ == encoder_string(args@[j]),
            decreases_to!(*args => args@),
        decreases args.len() - i,
    {
        assert(decreases_to!(args@ => args@[i as int]));
        let s = args[i].encoder_expr();
        r.push(s);
        i += 1;
    }
    assert(views_of(r@) =~= encoder_strings(args@));
    r
}

fn union_type_name(gps: &Vec<String>) -> (r: String)
    ensures
        r@ == union_type_string(views_of(gps@)),
{
    if gps.len() == 0 {
        owned("Union")
    } else if gps.len() > 1 {
        let mut r = owned("(Union ");
        let j = crate::text::join_strings(gps, " ");
        r.append(j.as_str());
        r.append(")");
        r
    } else {
        let mut r = owned("Union ");
        let j = crate::text::join_strings(gps, "");
        r.append(j.as_str());
        r
    }
}

fn any_type_has_interface_ref(args: &Vec<ElmType>) -> (b: bool)
    ensures
        b == any_true(types_have_interface_ref(args@)),
    decreases args, 0nat,
{
    let mut i: usize = 0;
    while i < args.len()
        invariant
            i <= args.len(),
            forall|j: int| 0 <= j < i ==> !#[trigger] types_have_interface_ref(args@)[j],
            decreases_to!(*args => args@),
        decreases args.len() - i,
    {
        assert(decreases_to!(args@ => args@[i as int]));
        if args[i].contains_interface_ref() {
            assert(types_have_interface_ref(args@)[i as int]);
            return true;
        }
        i += 1;
    }
    false
}

impl ElmType {
    pub fn is_primitive(&self) -> (b: bool)
        ensures
            b == (*self is Primitive),
    {
        match self {
            ElmType::Primitive(_) => true,
            _ => false,
        }
    }

    pub fn is_text(&self) -> (b: bool)
        ensures
            b == (*self == ElmType::Primitive(ElmPrimitiveType::String)),
    {
        matches!(self, ElmType::Primitive(ElmPrimitiveType::String))
    }

    pub fn is_data(&self) -> (b: bool)
        ensures
            b == (*self == ElmType::Primitive(ElmPrimitiveType::Bytes)),
    {
        matches!(self, ElmType::Primitive(ElmPrimitiveType::Bytes))
    }

    pub fn is_void(&self) -> (b: bool)
        ensures
            b == (*self == ElmType::Primitive(ElmPrimitiveType::Unit)),
    {
        matches!(self, ElmType::Primitive(ElmPrimitiveType::Unit))
    }

    pub fn is_struct_ref(&self) -> (b: bool)
        ensures
            b == (*self is StructRef),
    {
        matches!(self, ElmType::StructRef(_, _, _))
    }

    pub fn is_interface_ref(&self) -> (b: bool)
        ensures
            b == (*self is InterfaceRef),
    {
        matches!(self, ElmType::InterfaceRef(_, _, _))
    }

    pub fn is_pointer(&self) -> (b: bool)
        ensures
            b == type_is_pointer(*self),
    {
        match self {
            ElmType::Primitive(ElmPrimitiveType::String) => true,
            ElmType::Primitive(ElmPrimitiveType::Bytes) => true,
            ElmType::Primitive(_) => false,
            ElmType::List(_) => true,
            ElmType::StructRef(_, _, _) => true,
            ElmType::EnumRef(_, _, _, _) => false,
            ElmType::InterfaceRef(_, _, _) => true,
            ElmType::AnyPointer => true,
            ElmType::UnionInline(..) => false,
            ElmType::GenericParam(_) => true,
        }
    }

    pub fn is_anypointer(&self) -> (b: bool)
        ensures
            b == (*self is AnyPointer),
    {
        matches!(self, ElmType::AnyPointer)
    }

    pub fn is_generic_param(&self) -> (b: bool)
        ensures
            b == (*self is GenericParam),
    {
        matches!(self, ElmType::GenericParam(_))
    }

    pub fn is_enum_ref(&self) -> (b: bool)
        ensures
            b == (*self is EnumRef),
    {
        matches!(self, ElmType::EnumRef(_, _, _, _))
    }

    pub fn is_list(&self) -> (b: bool)
        ensures
            b == (*self is List),
    {
        matches!(self, ElmType::List(_))
    }

    pub fn is_primitive_list(&self) -> (b: bool)
        ensures
            b == (*self matches ElmType::List(inner) && *inner is Primitive),
    {
        match self {
            ElmType::List(inner) => inner.is_primitive(),
            _ => false,
        }
    }

    pub fn is_union(&self) -> (b: bool)
        ensures
            b == (*self is UnionInline),
    {
        matches!(self, ElmType::UnionInline(..))
    }

    pub fn is_boolean(&self) -> (b: bool)
        ensures
            b == (*self == ElmType::Primitive(ElmPrimitiveType::Bool)),
    {
        matches!(self, ElmType::Primitive(ElmPrimitiveType::Bool))
    }

    pub fn is_integer(&self) -> (b: bool)
        ensures
            b == (*self matches ElmType::Primitive(ElmPrimitiveType::Int(_))),
    {
        matches!(self, ElmType::Primitive(ElmPrimitiveType::Int(_)))
    }

    pub fn is_float(&self) -> (b: bool)
        ensures
            b == (*self matches ElmType::Primitive(ElmPrimitiveType::Float(_))),
    {
        matches!(self, ElmType::Primitive(ElmPrimitiveType::Float(_)))
    }

    /// The Elm type expression of this type.
    pub fn to_elm_string(&self) -> (r: String)
        ensures
            r@ == elm_type_string(*self),
        decreases *self, 1nat,
    {
        match self {
            ElmType::Primitive(ElmPrimitiveType::Bool) => owned("Bool"),
            ElmType::Primitive(ElmPrimitiveType::Int(64)) => owned("Capnproto.Word64"),
            ElmType::Primitive(ElmPrimitiveType::Int(_)) => owned("Int"),
            ElmType::Primitive(ElmPrimitiveType::Float(_)) => owned("Float"),
            ElmType::Primitive(ElmPrimitiveType::String) => owned("String"),
            ElmType::Primitive(ElmPrimitiveType::Bytes) => owned("Bytes.Bytes"),
            ElmType::Primitive(ElmPrimitiveType::Unit) => String::new(),
            ElmType::AnyPointer => owned("Capnproto.AnyPointer"),
            ElmType::InterfaceRef(_, _, _) => owned("Rpc.Capability"),
            ElmType::List(inner) => {
                let mut r = owned("List (");
                let s = inner.to_elm_string();
                r.append(s.as_str());
                r.append(")");
                r
            },
            ElmType::StructRef(m, s, args) => {
                let base = qualified_name(m, s);
                let strs = type_strings_of(args);
                apply_args(base, &strs)
            },
            ElmType::EnumRef(m, e, _, args) => {
                let base = qualified_name(m, e);
                let strs = type_strings_of(args);
                apply_args(base, &strs)
            },
            ElmType::UnionInline(_, gps) => union_type_name(gps),
            ElmType::GenericParam(name) => name.clone(),
        }
    }

    /// The module this type belongs to.
    pub fn module_name(&self) -> (r: String)
        ensures
            r@ == type_module(*self),
    {
        match self {
            ElmType::StructRef(m, _, _) => m.clone(),
            ElmType::UnionInline(_, _) => owned("Union"),
            ElmType::EnumRef(m, _, _, _) => m.clone(),
            _ => String::new(),
        }
    }

    /// The raw type name of the write accessor (`UInt8`, `Float32`, ...).
    pub fn write_type(&self) -> (r: String)
        ensures
            r@ == raw_type_name(*self),
    {
        match self {
            ElmType::Primitive(ElmPrimitiveType::Bool) => owned("Bool"),
            ElmType::Primitive(ElmPrimitiveType::Int(bitwidth)) => match bitwidth {
                8 => owned("UInt8"),
                16 => owned("UInt16"),
                32 => owned("UInt32"),
                64 => owned("UInt64"),
                _ => owned("UInt8"),
            },
            ElmType::Primitive(ElmPrimitiveType::Float(bitwidth)) => match bitwidth {
                32 => owned("Float32"),
                _ => owned("Float64"),
            },
            _ => owned("Int"),
        }
    }

    /// The raw type name of the read accessor; the same as the write one.
    pub fn read_type(&self) -> (r: String)
        ensures
            r@ == raw_type_name(*self),
    {
        self.write_type()
    }

    /// Bytes this type occupies in the data section.
    pub fn byte_width(&self) -> (r: u32)
        ensures
            r == data_byte_width(*self),
    {
        match self {
            ElmType::Primitive(ElmPrimitiveType::Int(bitwidth)) => (*bitwidth / 8) as u32,
            ElmType::Primitive(ElmPrimitiveType::Float(bitwidth)) => (*bitwidth / 8) as u32,
            _ => 0,
        }
    }

    /// The Elm expression encoding a value of this type into an AnyPointer.
    pub fn encoder_expr(&self) -> (r: String)
        ensures
            r@ == encoder_string(*self),
        decreases *self, 1nat,
    {
        match self {
            ElmType::Primitive(ElmPrimitiveType::String) => owned("Capnproto.textToAnyPointer"),
            ElmType::Primitive(ElmPrimitiveType::Bytes) => owned("Capnproto.bytesToAnyPointer"),
            ElmType::Primitive(ElmPrimitiveType::Int(64)) => owned("Capnproto.word64ToAnyPointer"),
            ElmType::StructRef(module, _, args) => {
                let encoders = encoder_strings_of(args);
                if encoders.len() == 0 {
                    let mut r = module.clone();
                    r.append(".toAnyPointer");
                    r
                } else {
                    crate::text::join_strings(&encoders, " ")
                }
            },
            ElmType::GenericParam(_) => owned("toAnyPointer"),
            ElmType::InterfaceRef(_, _, _) | ElmType::EnumRef(_, _, _, _) | ElmType::AnyPointer => {
                owned("identity")
            },
            _ => owned("Capnproto.unknownTypeEncoder"),
        }
    }

    /// The Elm expression decoding a value of this type from an AnyPointer.
    pub fn decoder_expr(&self) -> (r: String)
        ensures
            r@ == decoder_string(*self),
    {
        match self {
            ElmType::Primitive(ElmPrimitiveType::String) => owned("Capnproto.anyPointerToText"),
            ElmType::Primitive(ElmPrimitiveType::Bytes) => owned("Capnproto.anyPointerToBytes"),
            ElmType::Primitive(ElmPrimitiveType::Int(64)) => owned("Capnproto.anyPointerToWord64"),
            ElmType::StructRef(module, _, args) => {
                let encoders = encoder_strings_of(args);
                if encoders.len() == 0 {
                    let mut r = module.clone();
                    r.append(".fromAnyPointer");
                    r
                } else {
                    crate::text::join_strings(&encoders, " ")
                }
            },
            ElmType::GenericParam(_) => owned("fromAnyPointer"),
            ElmType::InterfaceRef(_, _, _) | ElmType::EnumRef(_, _, _, _) | ElmType::AnyPointer => {
                owned("Just")
            },
            _ => owned("Capnproto.unknownTypeDecoder"),
        }
    }

    /// The Elm expression encoding a list whose type is `self`.
    pub fn list_encoder_expr(&self) -> (r: String)
        ensures
            r@ == list_encoder_string(*self),
    {
        match self {
            ElmType::List(inner) => match &**inner {
                ElmType::Primitive(ElmPrimitiveType::Int(8)) => owned("Capnproto.encodePrimitiveIntList 1 1"),
                ElmType::Primitive(ElmPrimitiveType::Int(16)) => owned("Capnproto.encodePrimitiveIntList 3 2"),
                ElmType::Primitive(ElmPrimitiveType::Int(32)) => owned("Capnproto.encodePrimitiveIntList 4 4"),
                ElmType::Primitive(ElmPrimitiveType::Int(64)) => owned("Capnproto.encodePrimitiveIntList 5 8"),
                ElmType::Primitive(ElmPrimitiveType::Bool) => owned("Capnproto.encodeBoolList"),
                ElmType::Primitive(ElmPrimitiveType::Float(32)) => owned("Capnproto.encodeFloat32List"),
                ElmType::Primitive(ElmPrimitiveType::Float(64)) => owned("Capnproto.encodeFloat64List"),
                ElmType::Primitive(ElmPrimitiveType::String) => owned("Capnproto.encodeTextList"),
                ElmType::StructRef(module_name, _, _) => {
                    if module_name.as_str().is_empty() {
                        owned("Capnproto.encodeStructList encode dataWords pointerWords")
                    } else {
                        let mut r = owned("Capnproto.encodeStructList ");
                        r.append(module_name.as_str());
                        r.append(".encode ");
                        r.append(module_name.as_str());
                        r.append(".dataWords ");
                        r.append(module_name.as_str());
                        r.append(".pointerWords");
                        r
                    }
                },
                _ => owned("Capnproto.encodeStructList encode dataWords pointerWords"),
            },
            _ => owned("Capnproto.encodeStructList encode dataWords pointerWords"),
        }
    }

    /// The Elm lambda reading one element of a list whose type is `self`.
    pub fn list_element_reader_expr(&self) -> (r: String)
        ensures
            r@ == list_element_reader_string(*self),
    {
        match self {
            ElmType::List(inner) => match &**inner {
                ElmType::Primitive(ElmPrimitiveType::Int(8)) => owned("\\r -> Capnproto.readUInt8 r 0"),
                ElmType::Primitive(ElmPrimitiveType::Int(16)) => owned("\\r -> Capnproto.readUInt16 r 0"),
                ElmType::Primitive(ElmPrimitiveType::Int(32)) => owned("\\r -> Capnproto.readUInt32 r 0"),
                ElmType::Primitive(ElmPrimitiveType::Int(64)) => owned("\\r -> Capnproto.readUInt64 r 0"),
                ElmType::Primitive(ElmPrimitiveType::Bool) => owned("\\r -> Capnproto.readBool r 0 0"),
                ElmType::Primitive(ElmPrimitiveType::Float(32)) => owned("\\r -> Capnproto.readFloat32 r 0"),
                ElmType::Primitive(ElmPrimitiveType::Float(64)) => owned("\\r -> Capnproto.readFloat64 r 0"),
                ElmType::Primitive(ElmPrimitiveType::String) => owned("\\r -> Capnproto.readText r 0"),
                ElmType::StructRef(module_name, _, _) => {
                    if module_name.as_str().is_empty() {
                        owned("\\r -> decode r |> Result.toMaybe")
                    } else {
                        let mut r = owned("\\r -> ");
                        r.append(module_name.as_str());
                        r.append(".decode r |> Result.toMaybe");
                        r
                    }
                },
                ElmType::EnumRef(module_name, _, _, _) => {
                    if module_name.as_str().is_empty() {
                        owned("\\r -> Capnproto.readUInt16 r 0")
                    } else {
                        let mut r = owned("\\r -> Capnproto.readUInt16 r 0 |> Maybe.andThen ");
                        r.append(module_name.as_str());
                        r.append(".fromCode");
                        r
                    }
                },
                _ => owned("\\r -> Nothing"),
            },
            _ => owned("\\r -> Nothing"),
        }
    }

    /// Whether this type (recursively) mentions a capability.
    pub fn contains_interface_ref(&self) -> (b: bool)
        ensures
            b == has_interface_ref(*self),
        decreases *self, 1nat,
    {
        match self {
            ElmType::InterfaceRef(_, _, _) => true,
            ElmType::StructRef(_, _, args) => any_type_has_interface_ref(args),
            ElmType::EnumRef(_, _, _, args) => any_type_has_interface_ref(args),
            ElmType::List(inner) => inner.contains_interface_ref(),
            ElmType::UnionInline(branches, gps) => {
                let mut i: usize = 0;
                while i < branches.len()
                    invariant
                        i <= branches.len(),
                        *self == ElmType::UnionInline(*branches, *gps),
                        forall|j: int|
                            0 <= j < i ==> !#[trigger] branches_have_interface_ref(branches@)[j],
                        decreases_to!(*self => branches@),
                    decreases branches.len() - i,
                {
                    assert(decreases_to!(branches@ => branches@[i as int]));
                    if branches[i].elm_type.contains_interface_ref() {
                        assert(branches_have_interface_ref(branches@)[i as int]);
                        return true;
                    }
                    i += 1;
                }
                assert(!any_true(branches_have_interface_ref(branches@)));
                false
            },
            _ => false,
        }
    }

    /// The module names of all capabilities this type mentions.
    pub fn collect_interface_refs(&self) -> (r: Vec<String>)
        ensures
            views_of(r@) == interface_refs(*self),
        decreases *self, 1nat,
    {
        match self {
            ElmType::InterfaceRef(module_name, _, _) => {
                if module_name.as_str().is_empty() {
                    assert(module_name@.len() == 0);
                    assert(views_of(Seq::<String>::empty()) =~= Seq::<Seq<char>>::empty());
                    Vec::new()
                } else {
                    let mut v = Vec::new();
                    v.push(module_name.clone());
                    assert(views_of(v@) =~= seq![module_name@]);
                    v
                }
            },
            ElmType::StructRef(_, _, args) => collect_from_types(args),
            ElmType::EnumRef(_, _, _, args) => collect_from_types(args),
            ElmType::List(inner) => inner.collect_interface_refs(),
            ElmType::UnionInline(branches, gps) => {
                let mut r: Vec<String> = Vec::new();
                let mut i: usize = 0;
                while i < branches.len()
                    invariant
                        i <= branches.len(),
                        *self == ElmType::UnionInline(*branches, *gps),
                        views_of(r@) == concat_all(
                            branches_interface_refs(branches@).take(i as int),
                        ),
                        decreases_to!(*self => branches@),
                    decreases branches.len() - i,
                {
                    assert(decreases_to!(branches@ => branches@[i as int]));
                    let mut more = branches[i].elm_type.collect_interface_refs();
                    proof {
                        lemma_views_of_append(r@, more@);
                        assert(branches_interface_refs(branches@).take(i + 1).drop_last()
                            =~= branches_interface_refs(branches@).take(i as int));
                    }
                    r.append(&mut more);
                    i += 1;
                }
                assert(branches_interface_refs(branches@).take(branches.len() as int)
                    =~= branches_interface_refs(branches@));
                r
            },
            _ => {
                assert(views_of(Seq::<String>::empty()) =~= Seq::<Seq<char>>::empty());
                Vec::new()
            },
        }
    }
}

} // verus!

verus! {

/// The full dotted name of a module: `path.name`, or `name` at the top.
pub open spec fn full_name(path: Seq<char>, name: Seq<char>) -> Seq<char> {
    if path.len() == 0 {
        name
    } else {
        path + "."@ + name
    }
}

/// The full dotted name of a module.
pub fn module_full_name(module: &ElmModule) -> (r: String)
    ensures
        r@ == full_name(module.path@, module.name@),
{
    if module.path.as_str().is_empty() {
        module.name.clone()
    } else {
        let mut r = module.path.clone();
        r.append(".");
        r.append(module.name.as_str());
        r
    }
}

/// Whether a module is an interface.
pub open spec fn is_interface_module(m: ElmModule) -> bool {
    m.type_def == ElmTypeDef::Interface
}

impl ElmContext {
    pub fn new() -> (r: Self)
        ensures
            r.modules@.len() == 0,
    {
        ElmContext { modules: Vec::new() }
    }

    /// Whether some module of the context is an interface.
    pub fn has_interfaces(&self) -> (b: bool)
        ensures
            b == exists|i: int|
                0 <= i < self.modules.len() && is_interface_module(#[trigger] self.modules@[i]),
    {
        let mut i: usize = 0;
        while i < self.modules.len()
            invariant
                i <= self.modules.len(),
                forall|j: int| 0 <= j < i ==> !is_interface_module(#[trigger] self.modules@[j]),
            decreases self.modules.len() - i,
        {
            if self.modules[i].type_def == ElmTypeDef::Interface {
                return true;
            }
            i += 1;
        }
        false
    }
}


// ── Laws of the list codecs ───────────────────────────────────────────

/// A list of the primitive `p`.
pub open spec fn list_of(p: ElmPrimitiveType) -> ElmType {
    ElmType::List(Box::new(ElmType::Primitive(p)))
}

/// A list of integers of 8, 16, 32 or 64 bits is encoded by the
/// primitive-integer list encoder: `Capnproto.encodePrimitiveIntList`, the
/// element-size code, and the byte width of one element, the same width
/// `byte_width` gives the element type. Its elements are read back by the
/// reader of the element's raw type, the one `read_type` names.
pub proof fn law_int_list_codecs(w: u8)
    requires
        w == 8 || w == 16 || w == 32 || w == 64,
    ensures
        exists|code: char|
            list_encoder_string(list_of(ElmPrimitiveType::Int(w))) == "Capnproto.encodePrimitiveIntList "@ + seq![code, ' ']
                + crate::text::decimal(data_byte_width(ElmType::Primitive(ElmPrimitiveType::Int(w))) as nat),
        list_element_reader_string(list_of(ElmPrimitiveType::Int(w))) == "\\r -> Capnproto.read"@ + raw_type_name(
            ElmType::Primitive(ElmPrimitiveType::Int(w)),
        ) + " r 0"@,
{
    reveal_strlit("Capnproto.encodePrimitiveIntList ");
    reveal_strlit("\\r -> Capnproto.read");
    reveal_strlit(" r 0");
    if w == 8 {
        reveal_strlit("Capnproto.encodePrimitiveIntList 1 1");
        reveal_strlit("\\r -> Capnproto.readUInt8 r 0");
        reveal_strlit("UInt8");
        assert(list_encoder_string(list_of(ElmPrimitiveType::Int(w))) =~= "Capnproto.encodePrimitiveIntList "@ + seq!['1', ' ']
            + seq!['1']);
        assert(list_element_reader_string(list_of(ElmPrimitiveType::Int(w))) =~= "\\r -> Capnproto.read"@ + "UInt8"@ + " r 0"@);
    } else if w == 16 {
        reveal_strlit("Capnproto.encodePrimitiveIntList 3 2");
        reveal_strlit("\\r -> Capnproto.readUInt16 r 0");
        reveal_strlit("UInt16");
        assert(list_encoder_string(list_of(ElmPrimitiveType::Int(w))) =~= "Capnproto.encodePrimitiveIntList "@ + seq!['3', ' ']
            + seq!['2']);
        assert(list_element_reader_string(list_of(ElmPrimitiveType::Int(w))) =~= "\\r -> Capnproto.read"@ + "UInt16"@ + " r 0"@);
    } else if w == 32 {
        reveal_strlit("Capnproto.encodePrimitiveIntList 4 4");
        reveal_strlit("\\r -> Capnproto.readUInt32 r 0");
        reveal_strlit("UInt32");
        assert(list_encoder_string(list_of(ElmPrimitiveType::Int(w))) =~= "Capnproto.encodePrimitiveIntList "@ + seq!['4', ' ']
            + seq!['4']);
        assert(list_element_reader_string(list_of(ElmPrimitiveType::Int(w))) =~= "\\r -> Capnproto.read"@ + "UInt32"@ + " r 0"@);
    } else {
        reveal_strlit("Capnproto.encodePrimitiveIntList 5 8");
        reveal_strlit("\\r -> Capnproto.readUInt64 r 0");
        reveal_strlit("UInt64");
        assert(list_encoder_string(list_of(ElmPrimitiveType::Int(w))) =~= "Capnproto.encodePrimitiveIntList "@ + seq!['5', ' ']
            + seq!['8']);
        assert(list_element_reader_string(list_of(ElmPrimitiveType::Int(w))) =~= "\\r -> Capnproto.read"@ + "UInt64"@ + " r 0"@);
    }
}

/// A list of booleans, of floats of 32 or 64 bits, of texts, or of
/// integers of 8, 16, 32 or 64 bits never takes the struct-list encoder:
/// each has an encoder of its own, starting with `Capnproto.encode`.
pub proof fn law_primitive_lists_not_struct_encoded(p: ElmPrimitiveType)
    requires
        p == ElmPrimitiveType::Bool || p == ElmPrimitiveType::String || p == ElmPrimitiveType::Float(32) || p
            == ElmPrimitiveType::Float(64) || p == ElmPrimitiveType::Int(8) || p == ElmPrimitiveType::Int(16) || p
            == ElmPrimitiveType::Int(32) || p == ElmPrimitiveType::Int(64),
    ensures
        list_encoder_string(list_of(p)) != local_struct_list_encoder(),
        list_encoder_string(list_of(p)).take(17) == "Capnproto.encode"@.push(list_encoder_string(list_of(p))[16]),
        list_encoder_string(list_of(p)).len() < local_struct_list_encoder().len(),
{
    reveal_strlit("Capnproto.encodeStructList encode dataWords pointerWords");
    reveal_strlit("Capnproto.encode");
    reveal_strlit("Capnproto.encodePrimitiveIntList 1 1");
    reveal_strlit("Capnproto.encodePrimitiveIntList 3 2");
    reveal_strlit("Capnproto.encodePrimitiveIntList 4 4");
    reveal_strlit("Capnproto.encodePrimitiveIntList 5 8");
    reveal_strlit("Capnproto.encodeBoolList");
    reveal_strlit("Capnproto.encodeFloat32List");
    reveal_strlit("Capnproto.encodeFloat64List");
    reveal_strlit("Capnproto.encodeTextList");
    assert(list_encoder_string(list_of(p)).take(17) =~= "Capnproto.encode"@.push(list_encoder_string(list_of(p))[16]));
}


/// Booleans, integers and floats are read and written by the raw accessor
/// named after their kind and width (`UInt8` to `UInt64`, `Float32`,
/// `Float64`), and take `width / 8` bytes of the data section (a boolean
/// a bit, counted as none).
pub proof fn law_raw_accessors(w: u8)
    ensures
        (w == 8 || w == 16 || w == 32 || w == 64) ==> raw_type_name(ElmType::Primitive(ElmPrimitiveType::Int(w)))
            == "UInt"@ + crate::text::decimal(w as nat) && data_byte_width(
            ElmType::Primitive(ElmPrimitiveType::Int(w)),
        ) * 8 == w,
        (w == 32 || w == 64) ==> raw_type_name(ElmType::Primitive(ElmPrimitiveType::Float(w))) == "Float"@
            + crate::text::decimal(w as nat) && data_byte_width(ElmType::Primitive(ElmPrimitiveType::Float(w))) * 8 == w,
        raw_type_name(ElmType::Primitive(ElmPrimitiveType::Bool)) == "Bool"@,
        data_byte_width(ElmType::Primitive(ElmPrimitiveType::Bool)) == 0,
{
    reveal_strlit("UInt");
    reveal_strlit("Float");
    reveal_strlit("UInt8");
    reveal_strlit("UInt16");
    reveal_strlit("UInt32");
    reveal_strlit("UInt64");
    reveal_strlit("Float32");
    reveal_strlit("Float64");
    assert(crate::text::decimal(1) == seq!['1']);
    assert(crate::text::decimal(3) == seq!['3']);
    assert(crate::text::decimal(6) == seq!['6']);
    assert(crate::text::decimal(8) == seq!['8']);
    assert(crate::text::decimal(16) =~= seq!['1', '6']);
    assert(crate::text::decimal(32) =~= seq!['3', '2']);
    assert(crate::text::decimal(64) =~= seq!['6', '4']);
    if w == 8 {
        assert(raw_type_name(ElmType::Primitive(ElmPrimitiveType::Int(w))) =~= "UInt"@ + seq!['8']);
    } else if w == 16 {
        assert(raw_type_name(ElmType::Primitive(ElmPrimitiveType::Int(w))) =~= "UInt"@ + seq!['1', '6']);
    } else if w == 32 {
        assert(raw_type_name(ElmType::Primitive(ElmPrimitiveType::Int(w))) =~= "UInt"@ + seq!['3', '2']);
        assert(raw_type_name(ElmType::Primitive(ElmPrimitiveType::Float(w))) =~= "Float"@ + seq!['3', '2']);
    } else if w == 64 {
        assert(raw_type_name(ElmType::Primitive(ElmPrimitiveType::Int(w))) =~= "UInt"@ + seq!['6', '4']);
        assert(raw_type_name(ElmType::Primitive(ElmPrimitiveType::Float(w))) =~= "Float"@ + seq!['6', '4']);
    }
}

/// A list of floats of 32 or 64 bits is encoded by the float list encoder
/// of that width, and its elements are read by the reader of the element's
/// raw type.
pub proof fn law_float_list_codecs(w: u8)
    requires
        w == 32 || w == 64,
    ensures
        list_encoder_string(list_of(ElmPrimitiveType::Float(w))) == "Capnproto.encodeFloat"@ + crate::text::decimal(
            w as nat,
        ) + "List"@,
        list_element_reader_string(list_of(ElmPrimitiveType::Float(w))) == "\\r -> Capnproto.read"@ + raw_type_name(
            ElmType::Primitive(ElmPrimitiveType::Float(w)),
        ) + " r 0"@,
{
    reveal_strlit("Capnproto.encodeFloat");
    reveal_strlit("List");
    reveal_strlit("\\r -> Capnproto.read");
    reveal_strlit(" r 0");
    reveal_strlit("Float32");
    reveal_strlit("Float64");
    reveal_strlit("Capnproto.encodeFloat32List");
    reveal_strlit("Capnproto.encodeFloat64List");
    reveal_strlit("\\r -> Capnproto.readFloat32 r 0");
    reveal_strlit("\\r -> Capnproto.readFloat64 r 0");
    assert(crate::text::decimal(3) == seq!['3']);
    assert(crate::text::decimal(6) == seq!['6']);
    if w == 32 {
        assert(crate::text::decimal(32) =~= seq!['3', '2']);
        assert(list_encoder_string(list_of(ElmPrimitiveType::Float(w))) =~= "Capnproto.encodeFloat"@ + seq!['3', '2'] + "List"@);
        assert(list_element_reader_string(list_of(ElmPrimitiveType::Float(w))) =~= "\\r -> Capnproto.read"@ + "Float32"@ + " r 0"@);
    } else {
        assert(crate::text::decimal(64) =~= seq!['6', '4']);
        assert(list_encoder_string(list_of(ElmPrimitiveType::Float(w))) =~= "Capnproto.encodeFloat"@ + seq!['6', '4'] + "List"@);
        assert(list_element_reader_string(list_of(ElmPrimitiveType::Float(w))) =~= "\\r -> Capnproto.read"@ + "Float64"@ + " r 0"@);
    }
}

/// How types are spelled and converted: a list is `List (` its element
/// `)`; a struct without arguments is its module's `Entity`, converted to
/// and from an `AnyPointer` by that module's `toAnyPointer` and
/// `fromAnyPointer`; enums, capabilities and `AnyPointer` pass through
/// (`identity` one way, `Just` the other).
pub proof fn law_type_spelling(x: ElmType, m: String, s: &'static str, args: Vec<ElmType>, vs: Vec<ElmEnumVariant>)
    ensures
        elm_type_string(ElmType::List(Box::new(x))) == "List ("@ + elm_type_string(x) + ")"@,
        args@.len() == 0 && m@.len() > 0 ==> elm_type_string(ElmType::StructRef(m, s, args)) == m@ + "."@ + s@
            && encoder_string(ElmType::StructRef(m, s, args)) == m@ + ".toAnyPointer"@ && decoder_string(
            ElmType::StructRef(m, s, args),
        ) == m@ + ".fromAnyPointer"@,
        encoder_string(ElmType::EnumRef(m, s, vs, args)) == "identity"@ && decoder_string(ElmType::EnumRef(m, s, vs, args))
            == "Just"@,
        encoder_string(ElmType::InterfaceRef(m, s, args)) == "identity"@ && decoder_string(ElmType::InterfaceRef(m, s, args))
            == "Just"@,
        encoder_string(ElmType::AnyPointer) == "identity"@ && decoder_string(ElmType::AnyPointer) == "Just"@,
{
    if args@.len() == 0 {
        assert(type_strings(args@) =~= Seq::<Seq<char>>::empty());
    }
}

} // verus!
