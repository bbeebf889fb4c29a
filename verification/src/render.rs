//! What the renderer derives from the Elm IR: the file of each module,
//! the names a module exports, how a struct's fields divide between the
//! data and pointer sections, the data of an interface's server module,
//! and which files a context renders to.
use vstd::prelude::*;

use crate::elm::{
    default_is_zero, default_literal, elm_type_string, full_name, ElmDefaultValue, ElmContext, ElmEnumVariant, ElmField, ElmMethod, ElmModule,
    ElmPrimitiveType, ElmType, ElmTypeDef, ElmUnionBranch,
};
use crate::binding::{fields_have_caps, has_direct_caps};
use crate::naming::{split_at_char, split_on, to_upper_camel_case, upper_camel_case};
use crate::symbols::{
    internal_symbols, lookup, lookup_entry, member_symbol_prefix, rename_identifiers, renamed,
    renamed_symbols, replace_all, replaced, strip_canon_prefix, stripped, symbol_head,
    symbol_target,
};
use crate::output::{OutputWriter, WriteError};
use crate::text::{
    concat_all, join, join_strings, lemma_views_of_add, lemma_views_of_push, owned, views_of,
};

verus! {

// ── Files ─────────────────────────────────────────────────────────────

/// The file path of a dotted module name: each dotted part in upper camel
/// case, joined with `/`.
pub open spec fn file_path_of(module_name: Seq<char>) -> Seq<char> {
    join(split_on(module_name, '.').map_values(|p: Seq<char>| upper_camel_case(p)), "/"@)
}

pub fn module_file_path(module_name: &str) -> (r: String)
    ensures
        r@ == file_path_of(module_name@),
{
    let parts = split_at_char(module_name, '.');
    let mut camel: Vec<String> = Vec::new();
    let mut i: usize = 0;
    while i < parts.len()
        invariant
            i <= parts.len(),
            views_of(camel@) == views_of(parts@).take(i as int).map_values(|p: Seq<char>| upper_camel_case(p)),
        decreases parts.len() - i,
    {
        let c = to_upper_camel_case(parts[i].as_str());
        proof {
            lemma_views_of_push(camel@, c);
            assert(views_of(parts@).take(i + 1).map_values(|p: Seq<char>| upper_camel_case(p))
                =~= views_of(parts@).take(i as int).map_values(|p: Seq<char>| upper_camel_case(p)).push(c@));
        }
        camel.push(c);
        i += 1;
    }
    assert(views_of(parts@).take(parts.len() as int) =~= views_of(parts@));
    join_strings(&camel, "/")
}

/// The file a module renders to: its full name (see `full_name`) as a
/// file path, with `.elm`, so a module at the top is `Name.elm`.
pub open spec fn module_output_path(m: ElmModule) -> Seq<char> {
    file_path_of(full_name(m.path@, m.name@)) + ".elm"@
}

pub fn module_output_file(module: &ElmModule) -> (r: String)
    ensures
        r@ == module_output_path(*module),
{
    let full = crate::elm::module_full_name(module);
    let mut r = module_file_path(full.as_str());
    r.append(".elm");
    r
}

/// The file of an interface's server module: the interface's full name
/// as a file path, with `/Server.elm`.
pub open spec fn server_output_path(m: ElmModule) -> Seq<char> {
    file_path_of(full_name(m.path@, m.name@)) + "/Server.elm"@
}

pub fn server_output_file(module: &ElmModule) -> (r: String)
    ensures
        r@ == server_output_path(*module),
{
    let full = crate::elm::module_full_name(module);
    let mut r = module_file_path(full.as_str());
    r.append("/Server.elm");
    r
}

/// What the file of a module without merged members is rendered from:
/// the module's name as its header writes it, whether it has a capability
/// field, the names it exports, and its file.
pub struct ModuleRenderData {
    pub full_module_name: String,
    pub has_interface_fields: bool,
    pub exports: Vec<String>,
    pub file_path: String,
}

pub fn module_render_data(module: &ElmModule) -> (r: ModuleRenderData)
    ensures
        r.full_module_name@ == full_name(module.path@, module.name@),
        r.has_interface_fields == has_direct_caps(*module),
        views_of(r.exports@) == module_exports(*module, has_direct_caps(*module)),
        r.file_path@ == module_output_path(*module),
{
    let has_interface_fields = fields_have_caps(&module.fields);
    ModuleRenderData {
        full_module_name: crate::elm::module_full_name(module),
        has_interface_fields,
        exports: generate_exports(module, has_interface_fields),
        file_path: module_output_file(module),
    }
}

// ── Exports ───────────────────────────────────────────────────────────

/// `get` followed by a name in upper camel case and a suffix.
pub open spec fn accessor(name: Seq<char>, suffix: Seq<char>) -> Seq<char> {
    "get"@ + upper_camel_case(name) + suffix
}

/// The accessors a union branch exports: a getter (and a reader for a
/// struct, `AnyPointer` or generic value) unless the branch is void, and
/// its `is` test.
pub open spec fn branch_exports(b: ElmUnionBranch) -> Seq<Seq<char>> {
    let getters = if b.elm_type != ElmType::Primitive(ElmPrimitiveType::Unit) {
        seq![accessor(b.name@, ""@)] + if b.elm_type is StructRef || b.elm_type is AnyPointer
            || b.elm_type is GenericParam {
            seq![accessor(b.name@, "Reader"@)]
        } else {
            Seq::empty()
        }
    } else {
        Seq::empty()
    };
    getters + seq!["is"@ + upper_camel_case(b.name@)]
}

/// The accessors a struct field exports.
pub open spec fn field_exports(f: ElmField) -> Seq<Seq<char>> {
    match f.elm_type {
        ElmType::List(_) => seq![accessor(f.name@, "Count"@), accessor(f.name@, "At"@)],
        ElmType::AnyPointer => seq![accessor(f.name@, "Reader"@), accessor(f.name@, ""@)],
        ElmType::StructRef(_, _, _) => seq![accessor(f.name@, "Reader"@), accessor(f.name@, ""@)],
        ElmType::UnionInline(bs, _) => seq!["Union(..)"@] + concat_all(
            bs@.map_values(|b: ElmUnionBranch| branch_exports(b)),
        ),
        _ => if f.elm_type != ElmType::Primitive(ElmPrimitiveType::Unit) && elm_type_string(f.elm_type)
            != "Union"@ {
            seq![accessor(f.name@, ""@)]
        } else {
            Seq::empty()
        },
    }
}

/// The names an interface method exports: the method and its implicit
/// parameters.
pub open spec fn method_exports(m: ElmMethod) -> Seq<Seq<char>> {
    seq![m.name@] + views_of(m.implicit_parameters@)
}

/// The names a module exports.
pub open spec fn module_exports(m: ElmModule, has_interface_fields: bool) -> Seq<Seq<char>> {
    match m.type_def {
        ElmTypeDef::Struct => seq!["Entity"@, "dataWords"@, "pointerWords"@, "encode"@] + (if has_interface_fields {
            seq!["encodeWithCaps"@]
        } else {
            Seq::empty()
        }) + seq!["decode"@, "toAnyPointer"@, "fromAnyPointer"@] + concat_all(
            m.fields@.map_values(|f: ElmField| field_exports(f)),
        ),
        ElmTypeDef::Enum => seq!["Entity(..)"@, "fromCode"@, "toCode"@],
        ElmTypeDef::Interface => seq!["interfaceId"@] + concat_all(
            m.methods@.map_values(|x: ElmMethod| method_exports(x)),
        ),
    }
}

fn accessor_name(name: &String, suffix: &str) -> (r: String)
    ensures
        r@ == accessor(name@, suffix@),
{
    let mut r = owned("get");
    let camel = to_upper_camel_case(name.as_str());
    r.append(camel.as_str());
    r.append(suffix);
    r
}

/// Appends `s` to `out`.
fn push_name(out: &mut Vec<String>, s: String)
    ensures
        views_of(final(out)@) == views_of(old(out)@).push(s@),
{
    proof {
        lemma_views_of_push(out@, s);
    }
    out.push(s);
}

fn push_branch_exports(out: &mut Vec<String>, b: &ElmUnionBranch)
    ensures
        views_of(final(out)@) == views_of(old(out)@) + branch_exports(*b),
{
    let ghost start = views_of(out@);
    if !b.elm_type.is_void() {
        push_name(out, accessor_name(&b.name, ""));
        if b.elm_type.is_struct_ref() || b.elm_type.is_anypointer() || b.elm_type.is_generic_param() {
            push_name(out, accessor_name(&b.name, "Reader"));
        }
    }
    let mut is_name = owned("is");
    let camel = to_upper_camel_case(b.name.as_str());
    is_name.append(camel.as_str());
    push_name(out, is_name);
    assert(views_of(out@) =~= start + branch_exports(*b));
}

fn push_field_exports(out: &mut Vec<String>, f: &ElmField)
    ensures
        views_of(final(out)@) == views_of(old(out)@) + field_exports(*f),
{
    let ghost start = views_of(out@);
    if f.elm_type.is_list() {
        push_name(out, accessor_name(&f.name, "Count"));
        push_name(out, accessor_name(&f.name, "At"));
    } else if f.elm_type.is_anypointer() || f.elm_type.is_struct_ref() {
        push_name(out, accessor_name(&f.name, "Reader"));
        push_name(out, accessor_name(&f.name, ""));
    } else if let ElmType::UnionInline(branches, _) = &f.elm_type {
        push_name(out, owned("Union(..)"));
        let ghost mid = views_of(out@);
        let mut i: usize = 0;
        while i < branches.len()
            invariant
                i <= branches.len(),
                views_of(out@) == mid + concat_all(branches@.take(i as int).map_values(|b: ElmUnionBranch| branch_exports(b))),
            decreases branches.len() - i,
        {
            push_branch_exports(out, &branches[i]);
            proof {
                assert(branches@.take(i + 1).map_values(|b: ElmUnionBranch| branch_exports(b)).drop_last()
                    =~= branches@.take(i as int).map_values(|b: ElmUnionBranch| branch_exports(b)));
            }
            i += 1;
        }
        assert(branches@.take(branches.len() as int) =~= branches@);
    } else {
        let shown = f.elm_type.to_elm_string();
        if !f.elm_type.is_void() && !crate::text::str_eq(shown.as_str(), "Union") {
            push_name(out, accessor_name(&f.name, ""));
        }
    }
    assert(views_of(out@) =~= start + field_exports(*f));
}

/// The names a module exports: for a struct its entity, layout, codecs
/// (`encodeWithCaps` when it has capability fields) and field accessors;
/// for an enum its entity and code conversions; for an interface its id,
/// methods and their implicit parameters.
pub fn generate_exports(module: &ElmModule, has_interface_fields: bool) -> (r: Vec<String>)
    ensures
        views_of(r@) == module_exports(*module, has_interface_fields),
{
    let mut exports: Vec<String> = Vec::new();
    match module.type_def {
        ElmTypeDef::Struct => {
            push_name(&mut exports, owned("Entity"));
            push_name(&mut exports, owned("dataWords"));
            push_name(&mut exports, owned("pointerWords"));
            push_name(&mut exports, owned("encode"));
            if has_interface_fields {
                push_name(&mut exports, owned("encodeWithCaps"));
            }
            push_name(&mut exports, owned("decode"));
            push_name(&mut exports, owned("toAnyPointer"));
            push_name(&mut exports, owned("fromAnyPointer"));
            let ghost head = views_of(exports@);
            let mut i: usize = 0;
            while i < module.fields.len()
                invariant
                    i <= module.fields.len(),
                    views_of(exports@) == head + concat_all(module.fields@.take(i as int).map_values(|f: ElmField| field_exports(f))),
                decreases module.fields.len() - i,
            {
                push_field_exports(&mut exports, &module.fields[i]);
                proof {
                    assert(module.fields@.take(i + 1).map_values(|f: ElmField| field_exports(f)).drop_last()
                        =~= module.fields@.take(i as int).map_values(|f: ElmField| field_exports(f)));
                }
                i += 1;
            }
            assert(module.fields@.take(module.fields.len() as int) =~= module.fields@);
        },
        ElmTypeDef::Enum => {
            push_name(&mut exports, owned("Entity(..)"));
            push_name(&mut exports, owned("fromCode"));
            push_name(&mut exports, owned("toCode"));
        },
        ElmTypeDef::Interface => {
            push_name(&mut exports, owned("interfaceId"));
            let ghost head = views_of(exports@);
            let mut i: usize = 0;
            while i < module.methods.len()
                invariant
                    i <= module.methods.len(),
                    views_of(exports@) == head + concat_all(module.methods@.take(i as int).map_values(|x: ElmMethod| method_exports(x))),
                decreases module.methods.len() - i,
            {
                let ghost before = views_of(exports@);
                let method = &module.methods[i];
                push_name(&mut exports, method.name.clone());
                let mut j: usize = 0;
                while j < method.implicit_parameters.len()
                    invariant
                        j <= method.implicit_parameters.len(),
                        views_of(exports@) == before + seq![method.name@] + views_of(method.implicit_parameters@.take(j as int)),
                    decreases method.implicit_parameters.len() - j,
                {
                    push_name(&mut exports, method.implicit_parameters[j].clone());
                    assert(views_of(method.implicit_parameters@.take(j + 1)) =~= views_of(method.implicit_parameters@.take(j as int)).push(method.implicit_parameters@[j as int]@));
                    j += 1;
                }
                proof {
                    assert(method.implicit_parameters@.take(method.implicit_parameters.len() as int) =~= method.implicit_parameters@);
                    assert(module.methods@.take(i + 1).map_values(|x: ElmMethod| method_exports(x)).drop_last()
                        =~= module.methods@.take(i as int).map_values(|x: ElmMethod| method_exports(x)));
                }
                i += 1;
            }
            assert(module.methods@.take(module.methods.len() as int) =~= module.methods@);
        },
    }
    exports
}

// ── Enum variants ─────────────────────────────────────────────────────

/// The variants an enum field carries; none for other fields.
pub open spec fn field_variants(f: ElmField) -> Seq<ElmEnumVariant> {
    match f.elm_type {
        ElmType::EnumRef(_, _, variants, _) => variants@,
        _ => Seq::empty(),
    }
}

/// The variants of all enum fields, in order.
pub fn extract_enum_variants(fields: &Vec<ElmField>) -> (r: Vec<ElmEnumVariant>)
    ensures
        r@ == concat_all(fields@.map_values(|f: ElmField| field_variants(f))),
{
    let mut r: Vec<ElmEnumVariant> = Vec::new();
    let mut i: usize = 0;
    while i < fields.len()
        invariant
            i <= fields.len(),
            r@ == concat_all(fields@.take(i as int).map_values(|f: ElmField| field_variants(f))),
        decreases fields.len() - i,
    {
        let ghost before = r@;
        if let ElmType::EnumRef(_, _, variants, _) = &fields[i].elm_type {
            let mut j: usize = 0;
            while j < variants.len()
                invariant
                    j <= variants.len(),
                    r@ == before + variants@.take(j as int),
                decreases variants.len() - j,
            {
                let v = variants[j].clone();
                r.push(v);
                assert(r@ =~= before + variants@.take(j + 1));
                j += 1;
            }
            assert(variants@.take(variants.len() as int) =~= variants@);
        } else {
            assert(r@ =~= before + field_variants(fields@[i as int]));
        }
        proof {
            assert(fields@.take(i + 1).map_values(|f: ElmField| field_variants(f)).drop_last()
                =~= fields@.take(i as int).map_values(|f: ElmField| field_variants(f)));
        }
        i += 1;
    }
    assert(fields@.take(fields.len() as int) =~= fields@);
    r
}

// ── Struct sections ───────────────────────────────────────────────────

/// Whether a union has a branch in the pointer section.
pub open spec fn union_has_pointer(bs: Seq<ElmUnionBranch>) -> bool {
    exists|i: int| 0 <= i < bs.len() && (#[trigger] bs[i]).is_pointer
}

/// Whether a union has a non-void branch in the data section.
pub open spec fn union_has_data(bs: Seq<ElmUnionBranch>) -> bool {
    exists|i: int|
        0 <= i < bs.len() && !(#[trigger] bs[i]).is_pointer && bs[i].elm_type != ElmType::Primitive(
            ElmPrimitiveType::Unit,
        )
}

/// Whether a field is encoded in the data section: booleans, numbers,
/// enums, and a union with a data branch.
pub open spec fn in_data_section(f: ElmField) -> bool {
    match f.elm_type {
        ElmType::Primitive(p) => p != ElmPrimitiveType::Unit && p != ElmPrimitiveType::String && p
            != ElmPrimitiveType::Bytes,
        ElmType::EnumRef(_, _, _, _) => true,
        ElmType::UnionInline(bs, _) => union_has_data(bs@),
        _ => false,
    }
}

/// Whether a field is encoded in the pointer section: text, data, lists,
/// structs, capabilities, `AnyPointer`, generic values, and a union with
/// a pointer branch.
pub open spec fn in_pointer_section(f: ElmField) -> bool {
    match f.elm_type {
        ElmType::Primitive(p) => p == ElmPrimitiveType::String || p == ElmPrimitiveType::Bytes,
        ElmType::EnumRef(_, _, _, _) => false,
        ElmType::UnionInline(bs, _) => union_has_pointer(bs@),
        _ => true,
    }
}

/// The positions of the fields that satisfy `pred`, in order.
pub open spec fn positions(fs: Seq<ElmField>, pred: spec_fn(ElmField) -> bool) -> Seq<usize>
    decreases fs.len(),
{
    if fs.len() == 0 {
        Seq::empty()
    } else {
        positions(fs.drop_last(), pred) + if pred(fs.last()) {
            seq![(fs.len() - 1) as usize]
        } else {
            Seq::empty()
        }
    }
}

/// The position of the last union field, if any.
pub open spec fn last_union_position(fs: Seq<ElmField>) -> Option<usize>
    decreases fs.len(),
{
    if fs.len() == 0 {
        None
    } else if fs.last().elm_type is UnionInline {
        Some((fs.len() - 1) as usize)
    } else {
        last_union_position(fs.drop_last())
    }
}

/// How a struct's fields divide between the data and the pointer section
/// (by position in the module's fields), and its union field.
pub struct StructSections {
    pub data_fields: Vec<usize>,
    pub pointer_fields: Vec<usize>,
    pub has_union: bool,
    pub union_field: Option<usize>,
}

/// Divides a struct's fields between the data and pointer sections; a
/// union goes to each section it has a branch in, and a void field to
/// neither. The last union field is the struct's union.
pub fn struct_sections(module: &ElmModule) -> (r: StructSections)
    ensures
        r.data_fields@ == positions(module.fields@, |f: ElmField| in_data_section(f)),
        r.pointer_fields@ == positions(module.fields@, |f: ElmField| in_pointer_section(f)),
        r.union_field == last_union_position(module.fields@),
        r.has_union == (r.union_field is Some),
{
    let fields = &module.fields;
    let mut data_fields: Vec<usize> = Vec::new();
    let mut pointer_fields: Vec<usize> = Vec::new();
    let mut union_field: Option<usize> = None;
    let mut i: usize = 0;
    while i < fields.len()
        invariant
            i <= fields.len(),
            data_fields@ == positions(fields@.take(i as int), |f: ElmField| in_data_section(f)),
            pointer_fields@ == positions(fields@.take(i as int), |f: ElmField| in_pointer_section(f)),
            union_field == last_union_position(fields@.take(i as int)),
        decreases fields.len() - i,
    {
        let field = &fields[i];
        let mut data = false;
        let mut pointer = false;
        match &field.elm_type {
            ElmType::Primitive(ElmPrimitiveType::Unit) => {},
            ElmType::Primitive(ElmPrimitiveType::String) => {
                pointer = true;
            },
            ElmType::Primitive(ElmPrimitiveType::Bytes) => {
                pointer = true;
            },
            ElmType::Primitive(_) => {
                data = true;
            },
            ElmType::EnumRef(_, _, _, _) => {
                data = true;
            },
            ElmType::UnionInline(branches, _) => {
                union_field = Some(i);
                let mut j: usize = 0;
                while j < branches.len()
                    invariant
                        j <= branches.len(),
                        pointer == exists|k: int| 0 <= k < j && (#[trigger] branches@[k]).is_pointer,
                        data == exists|k: int|
                            0 <= k < j && !(#[trigger] branches@[k]).is_pointer && branches@[k].elm_type
                                != ElmType::Primitive(ElmPrimitiveType::Unit),
                    decreases branches.len() - j,
                {
                    if branches[j].is_pointer {
                        pointer = true;
                    } else if !branches[j].elm_type.is_void() {
                        data = true;
                    }
                    j += 1;
                }
            },
            _ => {
                pointer = true;
            },
        }
        proof {
            assert(fields@.take(i + 1).drop_last() =~= fields@.take(i as int));
            assert(data == in_data_section(fields@[i as int]));
            assert(pointer == in_pointer_section(fields@[i as int]));
        }
        if data {
            data_fields.push(i);
        }
        if pointer {
            pointer_fields.push(i);
        }
        i += 1;
    }
    assert(fields@.take(fields.len() as int) =~= fields@);
    let has_union = union_field.is_some();
    StructSections { data_fields, pointer_fields, has_union, union_field }
}

// ── Interface ids and server modules ──────────────────────────────────

/// An interface id's upper and lower 32 bits, each as `0x` and eight
/// upper-case hexadecimal digits.
pub open spec fn id_words(id: u64) -> (Seq<char>, Seq<char>) {
    (
        seq!['0', 'x'] + crate::text::hex_padded((id / 0x1_0000_0000) as nat, 8),
        seq!['0', 'x'] + crate::text::hex_padded((id % 0x1_0000_0000) as nat, 8),
    )
}

pub fn interface_id_words(id: u64) -> (r: (String, String))
    ensures
        (r.0@, r.1@) == id_words(id),
{
    let high = crate::text::hex8((id / 0x1_0000_0000) as u32);
    let low = crate::text::hex8((id % 0x1_0000_0000) as u32);
    (high, low)
}

/// What the server module of an interface lists for a method.
pub struct ServerMethodData {
    pub id: u16,
    pub name: String,
    pub param_module: String,
    pub result_module: String,
    pub param_has_caps: bool,
}

/// What the server module of an interface is rendered from, and its file.
pub struct ServerModuleData {
    pub full_module_name: String,
    pub interface_high: String,
    pub interface_low: String,
    pub methods: Vec<ServerMethodData>,
    pub imports: Vec<String>,
    pub file_path: String,
}

/// `names` with `x` added, unless `x` is empty or already there.
pub open spec fn add_import_name(names: Seq<Seq<char>>, x: Seq<char>) -> Seq<Seq<char>> {
    if x.len() > 0 && !names.contains(x) {
        names.push(x)
    } else {
        names
    }
}

/// `names` with each name of `more` added in order, as by
/// `add_import_name`.
pub open spec fn add_imports(names: Seq<Seq<char>>, more: Seq<Seq<char>>) -> Seq<Seq<char>>
    decreases more.len(),
{
    if more.len() == 0 {
        names
    } else {
        add_import_name(add_imports(names, more.drop_last()), more.last())
    }
}

/// The modules of each method's parameter and result types, in order.
pub open spec fn method_modules(ms: Seq<ElmMethod>) -> Seq<Seq<char>>
    decreases ms.len(),
{
    if ms.len() == 0 {
        Seq::empty()
    } else {
        method_modules(ms.drop_last()) + seq![
            crate::elm::type_module(ms.last().param_type),
            crate::elm::type_module(ms.last().result_type),
        ]
    }
}

/// Whether the server data lists the interface's methods.
pub open spec fn server_methods_listed(ds: Seq<ServerMethodData>, ms: Seq<ElmMethod>) -> bool {
    &&& ds.len() == ms.len()
    &&& forall|k: int|
        0 <= k < ms.len() ==> {
            &&& (#[trigger] ds[k]).id == ms[k].id
            &&& ds[k].name@ == ms[k].name@
            &&& ds[k].param_module@ == crate::elm::type_module(ms[k].param_type)
            &&& ds[k].result_module@ == crate::elm::type_module(ms[k].result_type)
            &&& ds[k].param_has_caps == ms[k].param_has_caps
        }
}

fn add_import(imports: &mut Vec<String>, name: String)
    ensures
        views_of(final(imports)@) == add_import_name(views_of(old(imports)@), name@),
{
    let ghost start = views_of(imports@);
    if name.as_str().is_empty() {
        return;
    }
    let mut i: usize = 0;
    while i < imports.len()
        invariant
            i <= imports.len(),
            views_of(imports@) == start,
            forall|j: int| 0 <= j < i ==> imports@[j]@ != name@,
        decreases imports.len() - i,
    {
        if crate::text::str_eq(imports[i].as_str(), name.as_str()) {
            assert(start[i as int] == name@);
            return;
        }
        i += 1;
    }
    proof {
        assert(!start.contains(name@));
        lemma_views_of_push(imports@, name);
    }
    imports.push(name);
}

/// The data of an interface's server module: its full name, the halves of
/// its id, each method with the modules of its parameter and result
/// types, those modules as imports (each once, empty ones left out), and
/// the module's file.
pub fn server_module_data(module: &ElmModule) -> (r: ServerModuleData)
    ensures
        r.full_module_name@ == full_name(module.path@, module.name@),
        (r.interface_high@, r.interface_low@) == id_words(module.id),
        server_methods_listed(r.methods@, module.methods@),
        views_of(r.imports@) == add_imports(Seq::empty(), method_modules(module.methods@)),
        r.file_path@ == server_output_path(*module),
{
    let full_module_name = crate::elm::module_full_name(module);
    let (interface_high, interface_low) = interface_id_words(module.id);
    let mut methods: Vec<ServerMethodData> = Vec::new();
    let mut imports: Vec<String> = Vec::new();
    let mut k: usize = 0;
    while k < module.methods.len()
        invariant
            k <= module.methods.len(),
            server_methods_listed(methods@, module.methods@.take(k as int)),
            views_of(imports@) == add_imports(Seq::empty(), method_modules(module.methods@.take(k as int))),
        decreases module.methods.len() - k,
    {
        let m = &module.methods[k];
        let data = ServerMethodData {
            id: m.id,
            name: m.name.clone(),
            param_module: m.param_type.module_name(),
            result_module: m.result_type.module_name(),
            param_has_caps: m.param_has_caps,
        };
        let ghost before = views_of(imports@);
        let ghost pm = data.param_module@;
        let ghost rm = data.result_module@;
        add_import(&mut imports, data.param_module.clone());
        add_import(&mut imports, data.result_module.clone());
        proof {
            let prev = method_modules(module.methods@.take(k as int));
            assert(module.methods@.take(k + 1).drop_last() =~= module.methods@.take(k as int));
            assert(method_modules(module.methods@.take(k + 1)) == prev + seq![pm, rm]);
            assert((prev + seq![pm, rm]).drop_last() =~= prev.push(pm));
            assert(prev.push(pm).drop_last() =~= prev);
            assert(add_imports(Seq::empty(), prev.push(pm)) == add_import_name(add_imports(Seq::empty(), prev), pm));
            assert(add_imports(Seq::empty(), prev + seq![pm, rm]) == add_import_name(add_imports(Seq::empty(), prev.push(pm)), rm));
        }
        methods.push(data);
        proof {
            assert forall|q: int| 0 <= q < k + 1 implies {
                &&& (#[trigger] methods@[q]).id == module.methods@.take(k + 1)[q].id
                &&& methods@[q].name@ == module.methods@.take(k + 1)[q].name@
                &&& methods@[q].param_module@ == crate::elm::type_module(module.methods@.take(k + 1)[q].param_type)
                &&& methods@[q].result_module@ == crate::elm::type_module(module.methods@.take(k + 1)[q].result_type)
                &&& methods@[q].param_has_caps == module.methods@.take(k + 1)[q].param_has_caps
            } by {
                if q < k {
                    assert(module.methods@.take(k + 1)[q] == module.methods@.take(k as int)[q]);
                }
            }
        }
        k += 1;
    }
    assert(module.methods@.take(module.methods.len() as int) =~= module.methods@);
    let file_path = server_output_file(module);
    ServerModuleData { full_module_name, interface_high, interface_low, methods, imports, file_path }
}

// ── Merged modules ────────────────────────────────────────────────────

/// The renaming of a merged member's symbols.
pub open spec fn member_table(m: ElmModule) -> spec_fn(Seq<char>) -> Option<Seq<char>> {
    |w: Seq<char>|
        if renamed_symbols(module_exports(m, has_direct_caps(m))).contains(w) {
            Some(symbol_target(m.name@, w))
        } else {
            None
        }
}

/// The names a member's exports take in the merged module.
pub open spec fn member_symbols(m: ElmModule) -> Seq<Seq<char>> {
    module_exports(m, has_direct_caps(m)).map_values(|e: Seq<char>| symbol_target(m.name@, symbol_head(e)))
}

/// A member's exports in the merged module: each renamed, with `(..)`
/// for a type exported with its constructors.
pub open spec fn member_exports(m: ElmModule) -> Seq<Seq<char>> {
    module_exports(m, has_direct_caps(m)).map_values(
        |e: Seq<char>|
            symbol_target(m.name@, symbol_head(e)) + if e.contains('(') {
                "(..)"@
            } else {
                Seq::empty()
            },
    )
}

/// The prefix of references qualified by the merged module itself.
pub open spec fn canon_prefix(c: ElmModule) -> Seq<char> {
    full_name(c.path@, c.name@) + "."@
}

/// The layout record of `Capnproto.StructLayout` keeps its field names
/// when a member's symbols are renamed.
pub open spec fn layout_fields_restored(s: Seq<char>) -> Seq<char> {
    replaced(
        replaced(s, "propDataWords = propDataWords"@, "dataWords = propDataWords"@),
        "propPointerWords = propPointerWords"@,
        "pointerWords = propPointerWords"@,
    )
}

/// A member's rendered struct as it goes into the merged module: its
/// symbols renamed, its layout field names restored, and references to
/// the module's own symbols unqualified.
pub open spec fn member_body(m: ElmModule, body: Seq<char>, prefix: Seq<char>, syms: Seq<Seq<char>>) -> Seq<char> {
    stripped(layout_fields_restored(renamed(body, member_table(m), None)), prefix, syms)
}

/// The module's own symbols once the first `k` members are merged.
pub open spec fn canon_symbols_after(c: ElmModule, k: int) -> Seq<Seq<char>>
    decreases k,
{
    if k <= 0 {
        module_exports(c, has_direct_caps(c)) + internal_symbols()
    } else {
        canon_symbols_after(c, k - 1) + member_symbols(c.merged_members@[k - 1])
    }
}

/// The merged module's exports once the first `k` members are merged.
pub open spec fn merged_exports_after(c: ElmModule, k: int) -> Seq<Seq<char>>
    decreases k,
{
    if k <= 0 {
        module_exports(c, has_direct_caps(c))
    } else {
        merged_exports_after(c, k - 1) + member_exports(c.merged_members@[k - 1])
    }
}

/// The bodies of the first `k` members, as they go into the module.
pub open spec fn merged_bodies(c: ElmModule, bodies: Seq<Seq<char>>, k: int) -> Seq<Seq<char>>
    decreases k,
{
    if k <= 0 {
        Seq::empty()
    } else {
        merged_bodies(c, bodies, k - 1).push(
            member_body(c.merged_members@[k - 1], bodies[k - 1], canon_prefix(c), canon_symbols_after(c, k - 1)),
        )
    }
}

/// The exports and the body of a module into which other structs are
/// merged.
pub struct MergedModule {
    pub exports: Vec<String>,
    pub body: String,
}

fn contains_char(s: &str, c: char) -> (b: bool)
    ensures
        b == s@.contains(c),
{
    let n = s.unicode_len();
    let mut i: usize = 0;
    while i < n
        invariant
            i <= n,
            n == s@.len(),
            forall|j: int| 0 <= j < i ==> s@[j] != c,
        decreases n - i,
    {
        if s.get_char(i) == c {
            return true;
        }
        i += 1;
    }
    false
}

fn copy_names(v: &Vec<String>) -> (r: Vec<String>)
    ensures
        views_of(r@) == views_of(v@),
{
    let mut r: Vec<String> = Vec::new();
    let mut i: usize = 0;
    while i < v.len()
        invariant
            i <= v.len(),
            views_of(r@) == views_of(v@.take(i as int)),
        decreases v.len() - i,
    {
        proof {
            lemma_views_of_push(r@, v@[i as int]);
            assert(v@.take(i + 1) =~= v@.take(i as int).push(v@[i as int]));
        }
        r.push(v[i].clone());
        i += 1;
    }
    assert(v@.take(v.len() as int) =~= v@);
    r
}

/// Merges one member: renames its rendered struct, adds the renamed
/// symbols to the module's own and the renamed exports to the module's.
fn merge_member(
    member: &ElmModule,
    body: &str,
    prefix: &String,
    exports: &mut Vec<String>,
    canon_symbols: &mut Vec<String>,
) -> (r: String)
    requires
        prefix@.len() > 0,
    ensures
        r@ == member_body(*member, body@, prefix@, views_of(old(canon_symbols)@)),
        views_of(final(exports)@) == views_of(old(exports)@) + member_exports(*member),
        views_of(final(canon_symbols)@) == views_of(old(canon_symbols)@) + member_symbols(*member),
{
    let has_caps = fields_have_caps(&member.fields);
    let symbols = generate_exports(member, has_caps);
    let table = member_symbol_prefix(member.name.as_str(), &symbols);
    proof {
        assert((|w: Seq<char>| lookup(table@, w)) =~= member_table(*member));
    }
    let named = rename_identifiers(body, &table);
    proof {
        reveal_strlit("propDataWords = propDataWords");
        reveal_strlit("propPointerWords = propPointerWords");
    }
    let fixed = replace_all(named.as_str(), "propDataWords = propDataWords", "dataWords = propDataWords");
    let fixed = replace_all(fixed.as_str(), "propPointerWords = propPointerWords", "pointerWords = propPointerWords");
    let r = strip_canon_prefix(fixed.as_str(), prefix.as_str(), canon_symbols);
    let ghost e0 = views_of(exports@);
    let ghost c0 = views_of(canon_symbols@);
    let ghost exps = views_of(symbols@);
    let mut i: usize = 0;
    while i < symbols.len()
        invariant
            i <= symbols.len(),
            exps == views_of(symbols@),
            exps == module_exports(*member, has_direct_caps(*member)),
            forall|w: Seq<char>|
                #[trigger] lookup(table@, w) == if renamed_symbols(exps).contains(w) {
                    Some(symbol_target(member.name@, w))
                } else {
                    None
                },
            views_of(exports@) == e0 + member_exports(*member).take(i as int),
            views_of(canon_symbols@) == c0 + member_symbols(*member).take(i as int),
        decreases symbols.len() - i,
    {
        let head = head_of_symbol(symbols[i].as_str());
        proof {
            assert(renamed_symbols(exps)[i as int] == head@);
            assert(renamed_symbols(exps).contains(head@));
        }
        match lookup_entry(&table, head.as_str()) {
            Some(target) => {
                proof {
                    assert(member_symbols(*member)[i as int] == target@);
                    lemma_views_of_push(canon_symbols@, target);
                    assert(member_symbols(*member).take(i + 1) =~= member_symbols(*member).take(i as int).push(target@));
                }
                canon_symbols.push(target.clone());
                let mut exported = target;
                if contains_char(symbols[i].as_str(), '(') {
                    exported.append("(..)");
                } else {
                    assert(exported@ + Seq::<char>::empty() =~= exported@);
                }
                proof {
                    assert(member_exports(*member)[i as int] == exported@);
                    lemma_views_of_push(exports@, exported);
                    assert(member_exports(*member).take(i + 1) =~= member_exports(*member).take(i as int).push(exported@));
                }
                exports.push(exported);
            },
            None => {},
        }
        i += 1;
    }
    proof {
        assert(member_exports(*member).take(symbols.len() as int) =~= member_exports(*member));
        assert(member_symbols(*member).take(symbols.len() as int) =~= member_symbols(*member));
    }
    r
}

fn head_of_symbol(s: &str) -> (r: String)
    ensures
        r@ == symbol_head(s@),
{
    crate::symbols::head_of(s)
}

/// The exports and body of a module with merged members, from the
/// rendered struct of the module and of each member, in order: the
/// module's own symbols keep their names, each member's symbols are
/// renamed after the member, and references qualified by the module
/// itself to any of these are unqualified. The bodies are joined by
/// newlines, the module's first.
pub fn merge_module_bodies(canonical: &ElmModule, canon_body: &str, member_bodies: &Vec<String>) -> (r: MergedModule)
    requires
        member_bodies.len() == canonical.merged_members.len(),
    ensures
        views_of(r.exports@) == merged_exports_after(*canonical, member_bodies.len() as int),
        r.body@ == join(
            seq![stripped(canon_body@, canon_prefix(*canonical), canon_symbols_after(*canonical, member_bodies.len() as int))]
                + merged_bodies(*canonical, views_of(member_bodies@), member_bodies.len() as int),
            "\n"@,
        ),
{
    let mut prefix = crate::elm::module_full_name(canonical);
    prefix.append(".");
    proof {
        reveal_strlit(".");
    }
    let has_caps = fields_have_caps(&canonical.fields);
    let mut exports = generate_exports(canonical, has_caps);
    let mut canon_symbols = copy_names(&exports);
    let extras = [owned("Union"), owned("dataWords"), owned("pointerWords"), owned("getWhich"), owned("layout")];
    let mut e: usize = 0;
    let ghost start = views_of(canon_symbols@);
    while e < 5
        invariant
            e <= 5,
            forall|j: int| 0 <= j < 5 ==> extras@[j]@ == #[trigger] internal_symbols()[j],
            views_of(canon_symbols@) == start + internal_symbols().take(e as int),
        decreases 5 - e,
    {
        let x = extras[e].clone();
        proof {
            assert(x@ == internal_symbols()[e as int]);
            lemma_views_of_push(canon_symbols@, x);
            assert(internal_symbols().take(e + 1) =~= internal_symbols().take(e as int).push(x@));
        }
        canon_symbols.push(x);
        e += 1;
    }
    assert(internal_symbols().take(5) =~= internal_symbols());
    let ghost c = *canonical;
    let ghost bodies_view = views_of(member_bodies@);
    let mut bodies: Vec<String> = Vec::new();
    let mut k: usize = 0;
    while k < member_bodies.len()
        invariant
            k <= member_bodies.len(),
            member_bodies.len() == c.merged_members.len(),
            c == *canonical,
            bodies_view == views_of(member_bodies@),
            prefix@ == canon_prefix(c),
            prefix@.len() > 0,
            views_of(exports@) == merged_exports_after(c, k as int),
            views_of(canon_symbols@) == canon_symbols_after(c, k as int),
            views_of(bodies@) == merged_bodies(c, bodies_view, k as int),
        decreases member_bodies.len() - k,
    {
        let body = merge_member(&canonical.merged_members[k], member_bodies[k].as_str(), &prefix, &mut exports, &mut canon_symbols);
        proof {
            lemma_views_of_push(bodies@, body);
        }
        bodies.push(body);
        k += 1;
    }
    let first = strip_canon_prefix(canon_body, prefix.as_str(), &canon_symbols);
    let mut all: Vec<String> = Vec::new();
    all.push(first);
    let mut b: usize = 0;
    while b < bodies.len()
        invariant
            b <= bodies.len(),
            views_of(all@) == seq![first@] + views_of(bodies@).take(b as int),
        decreases bodies.len() - b,
    {
        proof {
            lemma_views_of_push(all@, bodies@[b as int]);
            assert(views_of(bodies@).take(b + 1) =~= views_of(bodies@).take(b as int).push(bodies@[b as int]@));
        }
        all.push(bodies[b].clone());
        b += 1;
    }
    assert(views_of(bodies@).take(bodies.len() as int) =~= views_of(bodies@));
    let body = join_strings(&all, "\n");
    MergedModule { exports, body }
}

// ── The files of a context ────────────────────────────────────────────

/// What a rendered file holds.
#[derive(Clone, Copy, PartialEq, Eq, Structural)]
pub enum OutputKind {
    /// The fixed runtime module (`Capnproto.elm`).
    Runtime,
    /// The module at this position of the context.
    Module(usize),
    /// The RPC client runtime.
    RpcClient,
    /// The WebSocket transport.
    WebSocket,
    /// The server module of the interface at this position.
    Server(usize),
}

/// A file the context renders to.
pub struct PlannedOutput {
    pub path: String,
    pub kind: OutputKind,
}

/// The module files of the first `k` modules, in order.
pub open spec fn module_outputs(ms: Seq<ElmModule>, k: int) -> Seq<(Seq<char>, OutputKind)>
    decreases k,
{
    if k <= 0 {
        Seq::empty()
    } else {
        module_outputs(ms, k - 1).push((module_output_path(ms[k - 1]), OutputKind::Module((k - 1) as usize)))
    }
}

/// The server files of the interfaces among the first `k` modules.
pub open spec fn server_outputs(ms: Seq<ElmModule>, k: int) -> Seq<(Seq<char>, OutputKind)>
    decreases k,
{
    if k <= 0 {
        Seq::empty()
    } else if ms[k - 1].type_def == ElmTypeDef::Interface {
        server_outputs(ms, k - 1).push((server_output_path(ms[k - 1]), OutputKind::Server((k - 1) as usize)))
    } else {
        server_outputs(ms, k - 1)
    }
}

/// The files a context renders to, in order: the runtime, every module,
/// and, when some module is an interface, the RPC client, the WebSocket
/// transport and the server module of every interface.
pub open spec fn planned_outputs(ms: Seq<ElmModule>) -> Seq<(Seq<char>, OutputKind)> {
    let has_rpc = exists|i: int| 0 <= i < ms.len() && crate::elm::is_interface_module(#[trigger] ms[i]);
    seq![("Capnproto.elm"@, OutputKind::Runtime)] + module_outputs(ms, ms.len() as int) + if has_rpc {
        seq![("Rpc/Client.elm"@, OutputKind::RpcClient), ("Rpc/WebSocket.elm"@, OutputKind::WebSocket)]
            + server_outputs(ms, ms.len() as int)
    } else {
        Seq::empty()
    }
}

/// A planned file as its path and kind.
pub open spec fn output_view(o: PlannedOutput) -> (Seq<char>, OutputKind) {
    (o.path@, o.kind)
}

fn push_output(out: &mut Vec<PlannedOutput>, path: String, kind: OutputKind)
    ensures
        final(out)@.map_values(|o: PlannedOutput| output_view(o)) == old(out)@.map_values(
            |o: PlannedOutput| output_view(o),
        ).push((path@, kind)),
{
    let ghost before = out@;
    out.push(PlannedOutput { path, kind });
    assert(out@.map_values(|o: PlannedOutput| output_view(o)) =~= before.map_values(
        |o: PlannedOutput| output_view(o),
    ).push((path@, kind)));
}

/// The files the context renders to (see `planned_outputs`).
pub fn render_plan(context: &ElmContext) -> (r: Vec<PlannedOutput>)
    ensures
        r@.map_values(|o: PlannedOutput| output_view(o)) == planned_outputs(context.modules@),
{
    let ms = &context.modules;
    let mut out: Vec<PlannedOutput> = Vec::new();
    push_output(&mut out, owned("Capnproto.elm"), OutputKind::Runtime);
    let ghost head = out@.map_values(|o: PlannedOutput| output_view(o));
    let mut i: usize = 0;
    while i < ms.len()
        invariant
            i <= ms.len(),
            out@.map_values(|o: PlannedOutput| output_view(o)) == head + module_outputs(ms@, i as int),
        decreases ms.len() - i,
    {
        let path = module_output_file(&ms[i]);
        push_output(&mut out, path, OutputKind::Module(i));
        i += 1;
    }
    let found_rpc = context.has_interfaces();
    if found_rpc {
        push_output(&mut out, owned("Rpc/Client.elm"), OutputKind::RpcClient);
        push_output(&mut out, owned("Rpc/WebSocket.elm"), OutputKind::WebSocket);
        let ghost mid = out@.map_values(|o: PlannedOutput| output_view(o));
        let mut j: usize = 0;
        while j < ms.len()
            invariant
                j <= ms.len(),
                out@.map_values(|o: PlannedOutput| output_view(o)) == mid + server_outputs(ms@, j as int),
            decreases ms.len() - j,
        {
            if ms[j].type_def == ElmTypeDef::Interface {
                let path = server_output_file(&ms[j]);
                push_output(&mut out, path, OutputKind::Server(j));
            }
            j += 1;
        }
    }
    proof {
        let v = out@.map_values(|o: PlannedOutput| output_view(o));
        assert(v =~= planned_outputs(ms@));
    }
    out
}

/// The files a context renders to (see `planned_outputs`), the `i`-th
/// holding `contents[i]`.
pub open spec fn rendered_files(ms: Seq<ElmModule>, contents: Seq<String>) -> Seq<(Seq<char>, Seq<char>)> {
    let plan = planned_outputs(ms);
    Seq::new(plan.len(), |i: int| (plan[i].0, contents[i]@))
}

/// Writes the files the context renders to, in order, the `i`-th of them
/// (see `render_plan`) with `contents[i]`; stops at the first write that
/// fails, and returns its error.
pub fn render_elm_to<W: OutputWriter>(context: &ElmContext, contents: &Vec<String>, writer: &mut W) -> (r: Result<(), WriteError>)
    requires
        contents@.len() == planned_outputs(context.modules@).len(),
    ensures
        W::records_writes() ==> (r is Ok ==> final(writer).received() == old(writer).received() + rendered_files(
            context.modules@,
            contents@,
        )),
        W::records_writes() ==> (r is Ok <==> final(writer).refused() == old(writer).refused()),
        W::records_writes() ==> (r matches Err(e) ==> exists|k: int|
            0 <= k < contents@.len() && final(writer).received() == old(writer).received() + rendered_files(
                context.modules@,
                contents@,
            ).take(k) && final(writer).refused() == old(writer).refused().push(
                (
                    rendered_files(context.modules@, contents@)[k].0,
                    rendered_files(context.modules@, contents@)[k].1,
                    e,
                ),
            )),
{
    let plan = render_plan(context);
    let ghost files = rendered_files(context.modules@, contents@);
    let ghost start = writer.received();
    let ghost start_refused = writer.refused();
    proof {
        assert(plan@.len() == files.len()) by {
            assert(plan@.map_values(|o: PlannedOutput| output_view(o)).len() == plan@.len());
        }
        assert(files.take(0) =~= Seq::<(Seq<char>, Seq<char>)>::empty());
    }
    let mut i: usize = 0;
    while i < plan.len()
        invariant
            i <= plan.len(),
            plan@.len() == files.len(),
            files == rendered_files(context.modules@, contents@),
            contents@.len() == files.len(),
            plan@.map_values(|o: PlannedOutput| output_view(o)) == planned_outputs(context.modules@),
            start == old(writer).received(),
            W::records_writes() ==> writer.received() == start + files.take(i as int),
            start_refused == old(writer).refused(),
            W::records_writes() ==> writer.refused() == start_refused,
        decreases plan.len() - i,
    {
        let ghost before = writer.received();
        let r = writer.write(plan[i].path.as_str(), contents[i].as_str());
        proof {
            assert(plan@.map_values(|o: PlannedOutput| output_view(o))[i as int] == output_view(plan@[i as int]));
            assert(files[i as int] == (plan@[i as int].path@, contents@[i as int]@));
            assert(files.take(i + 1) =~= files.take(i as int).push(files[i as int]));
        }
        match r {
            Ok(()) => {},
            Err(e) => {
                proof {
                    if W::records_writes() {
                        assert(writer.refused() == start_refused.push((files[i as int].0, files[i as int].1, e)));
                        assert(start_refused.push((files[i as int].0, files[i as int].1, e)) != start_refused) by {
                            assert(start_refused.push((files[i as int].0, files[i as int].1, e)).len() != start_refused.len());
                        }
                    }
                }
                return Err(e);
            },
        }
        i += 1;
    }
    assert(files.take(plan.len() as int) =~= files);
    Ok(())
}

// ── Template filters ──────────────────────────────────────────────────

/// A type expression in parentheses when it has a space in it.
pub open spec fn parenthesized(s: Seq<char>) -> Seq<char> {
    if s.contains(' ') {
        "("@ + s + ")"@
    } else {
        s
    }
}

/// The Elm type expression of `t`, in parentheses when it is an
/// application.
pub fn parenthesize_if_needed(t: &ElmType) -> (r: String)
    ensures
        r@ == parenthesized(elm_type_string(*t)),
{
    let s = t.to_elm_string();
    if contains_char(s.as_str(), ' ') {
        let mut r = owned("(");
        r.append(s.as_str());
        r.append(")");
        r
    } else {
        s
    }
}

/// A default that is present and not zero, so needs an XOR mask.
pub open spec fn nonzero_default(d: Option<ElmDefaultValue>) -> bool {
    d matches Some(v) && !default_is_zero(v)
}

/// The XOR mask literal of a default: `0` when there is none; a float's
/// literal comes from displaying the float (`float_literal_from_display`)
/// and is not given here.
pub open spec fn xor_mask(d: Option<ElmDefaultValue>) -> Option<Seq<char>> {
    match d {
        None => Some("0"@),
        Some(v) => default_literal(v),
    }
}

fn default_nonzero(d: &Option<ElmDefaultValue>) -> (b: bool)
    ensures
        b == nonzero_default(*d),
{
    match d {
        Some(v) => !v.is_zero(),
        None => false,
    }
}

fn default_mask(d: &Option<ElmDefaultValue>) -> (r: Option<String>)
    ensures
        r matches Some(s) ==> xor_mask(*d) == Some(s@),
        r is None ==> xor_mask(*d) is None,
{
    match d {
        Some(v) => v.to_elm_literal(),
        None => Some(owned("0")),
    }
}

/// Whether a field has a non-zero default, which its encoder XORs in.
pub fn has_nonzero_default(field: &ElmField) -> (b: bool)
    ensures
        b == nonzero_default(field.default_value),
{
    default_nonzero(&field.default_value)
}

/// Whether a field defaults to `true`, which its encoder inverts.
pub fn has_bool_default_true(field: &ElmField) -> (b: bool)
    ensures
        b == (field.default_value == Some(ElmDefaultValue::Bool(true))),
{
    matches!(field.default_value, Some(ElmDefaultValue::Bool(true)))
}

/// Whether a field has a float default, which is XORed byte by byte.
pub fn has_float_default(field: &ElmField) -> (b: bool)
    ensures
        b == (field.default_value matches Some(ElmDefaultValue::Float(_))),
{
    matches!(field.default_value, Some(ElmDefaultValue::Float(_)))
}

/// The literal a field's encoder XORs with (see `xor_mask`).
pub fn default_xor_mask(field: &ElmField) -> (r: Option<String>)
    ensures
        r matches Some(s) ==> xor_mask(field.default_value) == Some(s@),
        r is None ==> xor_mask(field.default_value) is None,
{
    default_mask(&field.default_value)
}

/// Whether a union branch has a non-zero default.
pub fn branch_has_nonzero_default(branch: &ElmUnionBranch) -> (b: bool)
    ensures
        b == nonzero_default(branch.default_value),
{
    default_nonzero(&branch.default_value)
}

/// Whether a union branch defaults to `true`.
pub fn branch_has_bool_default_true(branch: &ElmUnionBranch) -> (b: bool)
    ensures
        b == (branch.default_value == Some(ElmDefaultValue::Bool(true))),
{
    matches!(branch.default_value, Some(ElmDefaultValue::Bool(true)))
}

/// Whether a union branch has a float default.
pub fn branch_has_float_default(branch: &ElmUnionBranch) -> (b: bool)
    ensures
        b == (branch.default_value matches Some(ElmDefaultValue::Float(_))),
{
    matches!(branch.default_value, Some(ElmDefaultValue::Float(_)))
}

/// The literal a union branch's encoder XORs with.
pub fn branch_default_xor_mask(branch: &ElmUnionBranch) -> (r: Option<String>)
    ensures
        r matches Some(s) ==> xor_mask(branch.default_value) == Some(s@),
        r is None ==> xor_mask(branch.default_value) is None,
{
    default_mask(&branch.default_value)
}

/// The element type of a list type; any other type itself.
pub fn strip_list_type(t: &ElmType) -> (r: &ElmType)
    ensures
        *r == match *t {
            ElmType::List(inner) => *inner,
            _ => *t,
        },
{
    match t {
        ElmType::List(inner) => &**inner,
        _ => t,
    }
}

/// The branches of a union type; none for any other type.
pub fn strip_union_branches(t: &ElmType) -> (r: &[ElmUnionBranch])
    ensures
        r@ == match *t {
            ElmType::UnionInline(bs, _) => bs@,
            _ => Seq::empty(),
        },
{
    match t {
        ElmType::UnionInline(branches, _) => branches.as_slice(),
        _ => &[],
    }
}

/// The type arguments of a struct, enum or interface reference; none for
/// any other type.
pub fn strip_type_args(t: &ElmType) -> (r: &[ElmType])
    ensures
        r@ == match *t {
            ElmType::StructRef(_, _, args) => args@,
            ElmType::EnumRef(_, _, _, args) => args@,
            ElmType::InterfaceRef(_, _, args) => args@,
            _ => Seq::empty(),
        },
{
    match t {
        ElmType::StructRef(_, _, args) => args.as_slice(),
        ElmType::EnumRef(_, _, _, args) => args.as_slice(),
        ElmType::InterfaceRef(_, _, args) => args.as_slice(),
        _ => &[],
    }
}

/// How many of the first `k` branches satisfy `pred`.
pub open spec fn count_branches(bs: Seq<ElmUnionBranch>, pred: spec_fn(ElmUnionBranch) -> bool, k: int) -> nat
    decreases k,
{
    if k <= 0 {
        0
    } else {
        count_branches(bs, pred, k - 1) + if pred(bs[k - 1]) {
            1nat
        } else {
            0nat
        }
    }
}

/// How many branches live in the pointer section.
pub fn pointer_branches_count(branches: &[ElmUnionBranch]) -> (r: usize)
    ensures
        r == count_branches(branches@, |b: ElmUnionBranch| b.is_pointer, branches@.len() as int),
{
    let mut count: usize = 0;
    let mut i: usize = 0;
    while i < branches.len()
        invariant
            i <= branches.len(),
            count == count_branches(branches@, |b: ElmUnionBranch| b.is_pointer, i as int),
            count <= i,
        decreases branches.len() - i,
    {
        if branches[i].is_pointer {
            count += 1;
        }
        i += 1;
    }
    count
}

/// How many branches hold a value in the data section.
pub fn data_branches_count(branches: &[ElmUnionBranch]) -> (r: usize)
    ensures
        r == count_branches(
            branches@,
            |b: ElmUnionBranch| !b.is_pointer && b.elm_type != ElmType::Primitive(ElmPrimitiveType::Unit),
            branches@.len() as int,
        ),
{
    let mut count: usize = 0;
    let mut i: usize = 0;
    while i < branches.len()
        invariant
            i <= branches.len(),
            count == count_branches(
                branches@,
                |b: ElmUnionBranch| !b.is_pointer && b.elm_type != ElmType::Primitive(ElmPrimitiveType::Unit),
                i as int,
            ),
            count <= i,
        decreases branches.len() - i,
    {
        if !branches[i].is_pointer && !branches[i].elm_type.is_void() {
            count += 1;
        }
        i += 1;
    }
    count
}

/// Whether a list's elements are integers.
pub fn is_int_list(t: &ElmType) -> (b: bool)
    ensures
        b == (*t matches ElmType::List(inner) && *inner matches ElmType::Primitive(ElmPrimitiveType::Int(_))),
{
    match t {
        ElmType::List(inner) => matches!(&**inner, ElmType::Primitive(ElmPrimitiveType::Int(_))),
        _ => false,
    }
}

/// Whether a list's elements are booleans.
pub fn is_bool_list(t: &ElmType) -> (b: bool)
    ensures
        b == (*t matches ElmType::List(inner) && *inner == ElmType::Primitive(ElmPrimitiveType::Bool)),
{
    match t {
        ElmType::List(inner) => matches!(&**inner, ElmType::Primitive(ElmPrimitiveType::Bool)),
        _ => false,
    }
}

/// Whether a list's elements are floats.
pub fn is_float_list(t: &ElmType) -> (b: bool)
    ensures
        b == (*t matches ElmType::List(inner) && *inner matches ElmType::Primitive(ElmPrimitiveType::Float(_))),
{
    match t {
        ElmType::List(inner) => matches!(&**inner, ElmType::Primitive(ElmPrimitiveType::Float(_))),
        _ => false,
    }
}

/// Whether a list's elements are texts.
pub fn is_text_list(t: &ElmType) -> (b: bool)
    ensures
        b == (*t matches ElmType::List(inner) && *inner == ElmType::Primitive(ElmPrimitiveType::String)),
{
    match t {
        ElmType::List(inner) => matches!(&**inner, ElmType::Primitive(ElmPrimitiveType::String)),
        _ => false,
    }
}


// ── Laws of exports and sections ──────────────────────────────────────

proof fn lemma_seq_add_contains<A>(a: Seq<A>, b: Seq<A>, x: A)
    ensures
        a.contains(x) ==> (a + b).contains(x),
        b.contains(x) ==> (a + b).contains(x),
{
    if a.contains(x) {
        let i = choose|i: int| 0 <= i < a.len() && a[i] == x;
        assert((a + b)[i] == x);
    }
    if b.contains(x) {
        let i = choose|i: int| 0 <= i < b.len() && b[i] == x;
        assert((a + b)[a.len() + i] == x);
    }
}

proof fn lemma_concat_all_contains<A>(parts: Seq<Seq<A>>, j: int, x: A)
    requires
        0 <= j < parts.len(),
        parts[j].contains(x),
    ensures
        concat_all(parts).contains(x),
    decreases parts.len(),
{
    if j == parts.len() - 1 {
        lemma_seq_add_contains(concat_all(parts.drop_last()), parts.last(), x);
    } else {
        assert(parts.drop_last()[j] == parts[j]);
        lemma_concat_all_contains(parts.drop_last(), j, x);
        lemma_seq_add_contains(concat_all(parts.drop_last()), parts.last(), x);
    }
}

/// A struct module exports its entity, its layout and its codecs, and,
/// for each field named `n`: `getNCount` and `getNAt` for a list;
/// `getNReader` and `getN` for a struct or `AnyPointer`; `Union(..)` for a
/// union (`N` being `n` in upper camel case).
pub proof fn law_struct_exports(m: ElmModule, has_interface_fields: bool, j: int)
    requires
        m.type_def == ElmTypeDef::Struct,
        0 <= j < m.fields@.len(),
    ensures
        ({
            let ex = module_exports(m, has_interface_fields);
            let n = upper_camel_case(m.fields@[j].name@);
            &&& ex.contains("Entity"@) && ex.contains("dataWords"@) && ex.contains("pointerWords"@)
            &&& ex.contains("encode"@) && ex.contains("decode"@)
            &&& ex.contains("toAnyPointer"@) && ex.contains("fromAnyPointer"@)
            &&& has_interface_fields ==> ex.contains("encodeWithCaps"@)
            &&& m.fields@[j].elm_type is List ==> ex.contains("get"@ + n + "Count"@) && ex.contains("get"@ + n + "At"@)
            &&& (m.fields@[j].elm_type is StructRef || m.fields@[j].elm_type is AnyPointer) ==> ex.contains(
                "get"@ + n + "Reader"@,
            ) && ex.contains("get"@ + n)
            &&& m.fields@[j].elm_type is UnionInline ==> ex.contains("Union(..)"@)
        }),
{
    let head = seq!["Entity"@, "dataWords"@, "pointerWords"@, "encode"@] + (if has_interface_fields {
        seq!["encodeWithCaps"@]
    } else {
        Seq::empty()
    });
    let mid = seq!["decode"@, "toAnyPointer"@, "fromAnyPointer"@];
    let parts = m.fields@.map_values(|f: ElmField| field_exports(f));
    let tail = concat_all(parts);
    let ex = module_exports(m, has_interface_fields);
    assert(ex == head + mid + tail);
    let f = m.fields@[j];
    let n = upper_camel_case(f.name@);
    assert(parts[j] == field_exports(f));
    let w = "get"@ + n;
    assert(("get"@ + n + ""@) =~= w) by {
        reveal_strlit("");
    }
    assert(head.contains("Entity"@)) by { assert(head[0] == "Entity"@); }
    assert(head.contains("dataWords"@)) by { assert(head[1] == "dataWords"@); }
    assert(head.contains("pointerWords"@)) by { assert(head[2] == "pointerWords"@); }
    assert(head.contains("encode"@)) by { assert(head[3] == "encode"@); }
    if has_interface_fields {
        assert(head.contains("encodeWithCaps"@)) by { assert(head[4] == "encodeWithCaps"@); }
    }
    assert(mid.contains("decode"@)) by { assert(mid[0] == "decode"@); }
    assert(mid.contains("toAnyPointer"@)) by { assert(mid[1] == "toAnyPointer"@); }
    assert(mid.contains("fromAnyPointer"@)) by { assert(mid[2] == "fromAnyPointer"@); }
    assert forall|x: Seq<char>| head.contains(x) implies ex.contains(x) by {
        lemma_seq_add_contains(head, mid, x);
        lemma_seq_add_contains(head + mid, tail, x);
    }
    assert forall|x: Seq<char>| mid.contains(x) implies ex.contains(x) by {
        lemma_seq_add_contains(head, mid, x);
        lemma_seq_add_contains(head + mid, tail, x);
    }
    assert forall|x: Seq<char>| field_exports(f).contains(x) implies ex.contains(x) by {
        lemma_concat_all_contains(parts, j, x);
        lemma_seq_add_contains(head + mid, tail, x);
    }
    if f.elm_type is List {
        assert(field_exports(f)[0] == "get"@ + n + "Count"@);
        assert(field_exports(f)[1] == "get"@ + n + "At"@);
    }
    if f.elm_type is StructRef || f.elm_type is AnyPointer {
        assert(field_exports(f)[0] == "get"@ + n + "Reader"@);
        assert(field_exports(f)[1] == w);
    }
    if f.elm_type is UnionInline {
        assert(field_exports(f)[0] == "Union(..)"@);
    }
}


proof fn lemma_positions_below(fs: Seq<ElmField>, pred: spec_fn(ElmField) -> bool)
    requires
        fs.len() <= usize::MAX,
    ensures
        forall|i: int| 0 <= i < positions(fs, pred).len() ==> (#[trigger] positions(fs, pred)[i]) < fs.len(),
    decreases fs.len(),
{
    if fs.len() > 0 {
        lemma_positions_below(fs.drop_last(), pred);
        let a = positions(fs.drop_last(), pred);
        let b: Seq<usize> = if pred(fs.last()) { seq![(fs.len() - 1) as usize] } else { Seq::empty() };
        assert(positions(fs, pred) == a + b);
        assert forall|i: int| 0 <= i < (a + b).len() implies (a + b)[i] < fs.len() by {
            if i < a.len() {
                assert((a + b)[i] == a[i]);
            } else {
                assert((a + b)[i] == b[i - a.len()]);
            }
        }
    }
}

/// A position is listed exactly when its field satisfies `pred`.
proof fn lemma_positions(fs: Seq<ElmField>, pred: spec_fn(ElmField) -> bool, k: int)
    requires
        0 <= k < fs.len(),
        fs.len() <= usize::MAX,
    ensures
        positions(fs, pred).contains(k as usize) <==> pred(fs[k]),
    decreases fs.len(),
{
    let a = positions(fs.drop_last(), pred);
    let b: Seq<usize> = if pred(fs.last()) { seq![(fs.len() - 1) as usize] } else { Seq::empty() };
    assert(positions(fs, pred) == a + b);
    lemma_positions_below(fs.drop_last(), pred);
    if positions(fs, pred).contains(k as usize) {
        let i = choose|i: int| 0 <= i < (a + b).len() && (a + b)[i] == k as usize;
        if i < a.len() {
            assert(a[i] == k as usize);
            assert(a.contains(k as usize));
            assert(a[i] < fs.drop_last().len());
            assert(k < fs.len() - 1);
            lemma_positions(fs.drop_last(), pred, k);
            assert(fs.drop_last()[k] == fs[k]);
        } else {
            assert(b[i - a.len()] == k as usize);
        }
    }
    if pred(fs[k]) {
        if k == fs.len() - 1 {
            lemma_seq_add_contains(a, b, k as usize);
            assert(b[0] == k as usize);
        } else {
            assert(fs.drop_last()[k] == fs[k]);
            lemma_positions(fs.drop_last(), pred, k);
            lemma_seq_add_contains(a, b, k as usize);
        }
    }
}

/// How a field's type places it: a boolean, an integer, a float or an
/// enum is a value of the data section and not a pointer; text, data, a
/// list, a struct, a capability, an `AnyPointer` or a generic value is a
/// pointer and not in the data section; a void field is in neither.
pub proof fn law_sections_by_type(fs: Seq<ElmField>, k: int)
    requires
        0 <= k < fs.len(),
        fs.len() <= usize::MAX,
    ensures
        ({
            let data = positions(fs, |f: ElmField| in_data_section(f));
            let pointers = positions(fs, |f: ElmField| in_pointer_section(f));
            let t = fs[k].elm_type;
            &&& (t is EnumRef || t == ElmType::Primitive(ElmPrimitiveType::Bool) || t matches ElmType::Primitive(
                ElmPrimitiveType::Int(_),
            ) || t matches ElmType::Primitive(ElmPrimitiveType::Float(_))) ==> data.contains(k as usize)
                && !pointers.contains(k as usize)
            &&& (t is List || t is StructRef || t is InterfaceRef || t is AnyPointer || t is GenericParam || t
                == ElmType::Primitive(ElmPrimitiveType::String) || t == ElmType::Primitive(ElmPrimitiveType::Bytes))
                ==> pointers.contains(k as usize) && !data.contains(k as usize)
            &&& t == ElmType::Primitive(ElmPrimitiveType::Unit) ==> !data.contains(k as usize) && !pointers.contains(
                k as usize,
            )
        }),
{
    lemma_positions(fs, |f: ElmField| in_data_section(f), k);
    lemma_positions(fs, |f: ElmField| in_pointer_section(f), k);
}


/// An enum module exports `Entity(..)`, `fromCode` and `toCode`; an
/// interface module its `interfaceId` and the name of each method; a
/// union field of a struct module exports, for each branch named `b`,
/// `isB`, and `getB` unless the branch is void.
pub proof fn law_other_exports(m: ElmModule, has_interface_fields: bool, j: int, k: int)
    ensures
        ({
            let ex = module_exports(m, has_interface_fields);
            &&& m.type_def == ElmTypeDef::Enum ==> ex.contains("Entity(..)"@) && ex.contains("fromCode"@) && ex.contains(
                "toCode"@,
            )
            &&& m.type_def == ElmTypeDef::Interface ==> ex.contains("interfaceId"@)
            &&& m.type_def == ElmTypeDef::Interface && 0 <= j < m.methods@.len() ==> ex.contains(m.methods@[j].name@)
            &&& m.type_def == ElmTypeDef::Struct && 0 <= j < m.fields@.len() ==> match m.fields@[j].elm_type {
                ElmType::UnionInline(bs, _) => 0 <= k < bs@.len() ==> ex.contains("is"@ + upper_camel_case(bs@[k].name@))
                    && (bs@[k].elm_type != ElmType::Primitive(ElmPrimitiveType::Unit) ==> ex.contains(
                    "get"@ + upper_camel_case(bs@[k].name@),
                )),
                _ => true,
            }
        }),
{
    let ex = module_exports(m, has_interface_fields);
    match m.type_def {
        ElmTypeDef::Enum => {
            assert(ex[0] == "Entity(..)"@);
            assert(ex[1] == "fromCode"@);
            assert(ex[2] == "toCode"@);
        },
        ElmTypeDef::Interface => {
            let parts = m.methods@.map_values(|x: ElmMethod| method_exports(x));
            assert(ex == seq!["interfaceId"@] + concat_all(parts));
            assert(ex[0] == "interfaceId"@);
            if 0 <= j < m.methods@.len() {
                let x = m.methods@[j];
                assert(parts[j] == method_exports(x));
                assert(method_exports(x)[0] == x.name@);
                lemma_concat_all_contains(parts, j, x.name@);
                lemma_seq_add_contains(seq!["interfaceId"@], concat_all(parts), x.name@);
            }
        },
        ElmTypeDef::Struct => {
            if 0 <= j < m.fields@.len() {
                let f = m.fields@[j];
                if let ElmType::UnionInline(bs, gps) = f.elm_type {
                    if 0 <= k < bs@.len() {
                        let b = bs@[k];
                        let bparts = bs@.map_values(|x: ElmUnionBranch| branch_exports(x));
                        assert(field_exports(f) == seq!["Union(..)"@] + concat_all(bparts));
                        assert(bparts[k] == branch_exports(b));
                        let n = upper_camel_case(b.name@);
                        let be = branch_exports(b);
                        assert(be.contains("is"@ + n)) by {
                            assert(be[be.len() - 1] == "is"@ + n);
                        }
                        if b.elm_type != ElmType::Primitive(ElmPrimitiveType::Unit) {
                            assert(be.contains("get"@ + n)) by {
                                reveal_strlit("");
                                assert(("get"@ + n + ""@) =~= "get"@ + n);
                                assert(be[0] == "get"@ + n);
                            }
                        }
                        assert forall|x: Seq<char>| be.contains(x) implies ex.contains(x) by {
                            lemma_concat_all_contains(bparts, k, x);
                            lemma_seq_add_contains(seq!["Union(..)"@], concat_all(bparts), x);
                            law_struct_exports_contains(m, has_interface_fields, j, x);
                        }
                    }
                }
            }
        },
    }
}

/// Whatever a field of a struct module exports, the module exports.
proof fn law_struct_exports_contains(m: ElmModule, has_interface_fields: bool, j: int, x: Seq<char>)
    requires
        m.type_def == ElmTypeDef::Struct,
        0 <= j < m.fields@.len(),
        field_exports(m.fields@[j]).contains(x),
    ensures
        module_exports(m, has_interface_fields).contains(x),
{
    let head = seq!["Entity"@, "dataWords"@, "pointerWords"@, "encode"@] + (if has_interface_fields {
        seq!["encodeWithCaps"@]
    } else {
        Seq::empty()
    });
    let mid = seq!["decode"@, "toAnyPointer"@, "fromAnyPointer"@];
    let parts = m.fields@.map_values(|f: ElmField| field_exports(f));
    assert(module_exports(m, has_interface_fields) == head + mid + concat_all(parts));
    assert(parts[j] == field_exports(m.fields@[j]));
    lemma_concat_all_contains(parts, j, x);
    lemma_seq_add_contains(head + mid, concat_all(parts), x);
}

} // verus!
