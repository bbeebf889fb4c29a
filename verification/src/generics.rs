//! Generic structs: every instantiation of a generic struct that the
//! schema's types name becomes a module of its own, its type parameters
//! replaced by the types bound, and each reference to the instantiation
//! points at that module.
use std::hash::{Hash, Hasher};
use vstd::prelude::*;

use crate::binding::{bitwise_import, fields_imports, imports_are, methods_imports, module_name_of, lemma_fields_imports_push, lowercase_params, struct_fields_built};
use crate::capnproto::{Node, NodeKind};
use crate::type_mapping::{collect_imports_from_type, is_group_node, ref_module, sorted_unique, without_name, NodeEntry, TypeMappingContext};
use crate::elm::{ElmContext, ElmField, ElmMethod, ElmModule, ElmTypeDef};
use crate::elm::{ElmDefaultValue, ElmEnumVariant, ElmPrimitiveType, ElmType, ElmUnionBranch};
use crate::binding::copy_strings;
use crate::text::{concat_all, contains_str, decimal, owned, push_char, u64_to_decimal, views_of};

verus! {

// ── A view of Elm types ───────────────────────────────────────────────

/// An Elm type as a mathematical value: names by their characters, lists
/// of types as sequences.
pub enum TypeView {
    Prim(ElmPrimitiveType),
    Struct(Seq<char>, &'static str, Seq<TypeView>),
    Enum(Seq<char>, &'static str, Seq<ElmEnumVariant>, Seq<TypeView>),
    Interface(Seq<char>, &'static str, Seq<TypeView>),
    AnyPointer,
    List(Box<TypeView>),
    Union(Seq<BranchView>, Seq<Seq<char>>),
    Param(Seq<char>),
}

/// A union branch as a mathematical value.
pub struct BranchView {
    pub name: Seq<char>,
    pub discriminant: u16,
    pub elm_type: TypeView,
    pub offset: u32,
    pub is_pointer: bool,
    pub default_value: Option<ElmDefaultValue>,
    pub needs_cap_table: bool,
}

/// The view of an Elm type.
pub open spec fn type_view(t: ElmType) -> TypeView
    decreases t, 1nat,
{
    match t {
        ElmType::Primitive(p) => TypeView::Prim(p),
        ElmType::StructRef(m, s, args) => TypeView::Struct(m@, s, types_view(args@)),
        ElmType::EnumRef(m, s, vs, args) => TypeView::Enum(m@, s, vs@, types_view(args@)),
        ElmType::InterfaceRef(m, s, args) => TypeView::Interface(m@, s, types_view(args@)),
        ElmType::AnyPointer => TypeView::AnyPointer,
        ElmType::List(inner) => TypeView::List(Box::new(type_view(*inner))),
        ElmType::UnionInline(bs, gps) => TypeView::Union(branches_view(bs@), views_of(gps@)),
        ElmType::GenericParam(g) => TypeView::Param(g@),
    }
}

/// The views of types, in order.
pub open spec fn types_view(ts: Seq<ElmType>) -> Seq<TypeView>
    decreases ts, 0nat,
{
    Seq::new(ts.len(), |i: int| if 0 <= i < ts.len() { type_view(ts[i]) } else { TypeView::AnyPointer })
}

/// The view of a union branch, with the view of its type.
pub open spec fn branch_view_with(b: ElmUnionBranch, t: TypeView) -> BranchView {
    BranchView {
        name: b.name@,
        discriminant: b.discriminant,
        elm_type: t,
        offset: b.offset,
        is_pointer: b.is_pointer,
        default_value: b.default_value,
        needs_cap_table: b.needs_cap_table,
    }
}

/// The views of union branches, in order.
pub open spec fn branches_view(bs: Seq<ElmUnionBranch>) -> Seq<BranchView>
    decreases bs, 0nat,
{
    Seq::new(
        bs.len(),
        |i: int|
            if 0 <= i < bs.len() {
                branch_view_with(bs[i], type_view(bs[i].elm_type))
            } else {
                branch_view_with(bs[0], TypeView::AnyPointer)
            },
    )
}


// ── Names of instantiations ───────────────────────────────────────────

/// `s` without its dots.
pub open spec fn without_dots(s: Seq<char>) -> Seq<char> {
    s.filter(|c: char| c != '.')
}

/// The name a primitive type contributes to an instantiation's name.
pub open spec fn prim_token(p: ElmPrimitiveType) -> Seq<char> {
    match p {
        ElmPrimitiveType::Bool => "Bool"@,
        ElmPrimitiveType::Int(w) => "Int"@ + decimal(w as nat),
        ElmPrimitiveType::Float(w) => "Float"@ + decimal(w as nat),
        ElmPrimitiveType::String => "Text"@,
        ElmPrimitiveType::Bytes => "Data"@,
        ElmPrimitiveType::Unit => "Void"@,
    }
}

/// The name a type argument contributes to the name of an instantiation
/// of one of the generic structs named `g`: a referenced module's full
/// name without its dots (an instantiation by its own name), the
/// primitive's name, `List` before the element's, `AnyPointer`, `Union`,
/// or a parameter's name.
pub open spec fn token_of(g: Seq<Seq<char>>, v: TypeView) -> Seq<char>
    decreases v, 1nat,
{
    match v {
        TypeView::Prim(p) => prim_token(p),
        TypeView::Struct(m, _, args) => if g.contains(m) && args.len() > 0 {
            without_dots(m + "."@ + "Of"@ + concat_all(tokens_of(g, args)))
        } else {
            without_dots(m)
        },
        TypeView::Enum(m, _, _, _) => without_dots(m),
        TypeView::Interface(m, _, _) => without_dots(m),
        TypeView::AnyPointer => "AnyPointer"@,
        TypeView::List(x) => "List"@ + token_of(g, *x),
        TypeView::Union(_, _) => "Union"@,
        TypeView::Param(p) => p,
    }
}

/// The tokens of type arguments, in order.
pub open spec fn tokens_of(g: Seq<Seq<char>>, vs: Seq<TypeView>) -> Seq<Seq<char>>
    decreases vs, 0nat,
{
    Seq::new(vs.len(), |i: int| if 0 <= i < vs.len() { token_of(g, vs[i]) } else { Seq::empty() })
}

/// The module name of an instantiation within its generic struct's
/// module: `Of` and the tokens of its arguments.
pub open spec fn instance_suffix(g: Seq<Seq<char>>, args: Seq<TypeView>) -> Seq<char> {
    "Of"@ + concat_all(tokens_of(g, args))
}

/// The full module name of the instantiation of the generic struct whose
/// module is `m` with the arguments `args`.
pub open spec fn instance_name(g: Seq<Seq<char>>, m: Seq<char>, args: Seq<TypeView>) -> Seq<char> {
    m + "."@ + "Of"@ + concat_all(tokens_of(g, args))
}

// ── Rewriting types ───────────────────────────────────────────────────

/// The type with every reference to a generic struct named in `g` that
/// binds arguments replaced by a reference to the instantiation's module,
/// which takes none. The arguments of other references, list elements
/// and union branches are rewritten in turn.
pub open spec fn mono_v(g: Seq<Seq<char>>, v: TypeView) -> TypeView
    decreases v, 1nat,
{
    match v {
        TypeView::Struct(m, s, args) => if g.contains(m) && args.len() > 0 {
            TypeView::Struct(instance_name(g, m, args), s, Seq::empty())
        } else {
            TypeView::Struct(m, s, monos_v(g, args))
        },
        TypeView::Enum(m, s, vs, args) => TypeView::Enum(m, s, vs, monos_v(g, args)),
        TypeView::Interface(m, s, args) => TypeView::Interface(m, s, monos_v(g, args)),
        TypeView::List(x) => TypeView::List(Box::new(mono_v(g, *x))),
        TypeView::Union(bs, gps) => TypeView::Union(branches_mono_v(g, bs), gps),
        _ => v,
    }
}

pub open spec fn monos_v(g: Seq<Seq<char>>, vs: Seq<TypeView>) -> Seq<TypeView>
    decreases vs, 0nat,
{
    Seq::new(vs.len(), |i: int| if 0 <= i < vs.len() { mono_v(g, vs[i]) } else { vs[i] })
}

pub open spec fn branches_mono_v(g: Seq<Seq<char>>, bs: Seq<BranchView>) -> Seq<BranchView>
    decreases bs, 0nat,
{
    Seq::new(
        bs.len(),
        |i: int| if 0 <= i < bs.len() { BranchView { elm_type: mono_v(g, bs[i].elm_type), ..bs[i] } } else { bs[i] },
    )
}

/// The index of the first `p` in `ps` (`ps.len()` when there is none).
pub open spec fn param_index(ps: Seq<Seq<char>>, p: Seq<char>) -> int
    decreases ps.len(),
{
    if ps.len() == 0 {
        0
    } else if ps[0] == p {
        0
    } else {
        1 + param_index(ps.drop_first(), p)
    }
}

/// The type with each of the parameters `ps` replaced by the argument at
/// its index (`AnyPointer` where no argument is bound); other parameters
/// stay.
pub open spec fn subst_v(ps: Seq<Seq<char>>, args: Seq<TypeView>, v: TypeView) -> TypeView
    decreases v, 1nat,
{
    match v {
        TypeView::Param(p) => {
            let i = param_index(ps, p);
            if i < ps.len() {
                if i < args.len() {
                    args[i]
                } else {
                    TypeView::AnyPointer
                }
            } else {
                v
            }
        },
        TypeView::Struct(m, s, a) => TypeView::Struct(m, s, substs_v(ps, args, a)),
        TypeView::Enum(m, s, vs, a) => TypeView::Enum(m, s, vs, substs_v(ps, args, a)),
        TypeView::Interface(m, s, a) => TypeView::Interface(m, s, substs_v(ps, args, a)),
        TypeView::List(x) => TypeView::List(Box::new(subst_v(ps, args, *x))),
        TypeView::Union(bs, gps) => TypeView::Union(branches_subst_v(ps, args, bs), gps),
        _ => v,
    }
}

pub open spec fn substs_v(ps: Seq<Seq<char>>, args: Seq<TypeView>, vs: Seq<TypeView>) -> Seq<TypeView>
    decreases vs, 0nat,
{
    Seq::new(vs.len(), |i: int| if 0 <= i < vs.len() { subst_v(ps, args, vs[i]) } else { vs[i] })
}

pub open spec fn branches_subst_v(ps: Seq<Seq<char>>, args: Seq<TypeView>, bs: Seq<BranchView>) -> Seq<BranchView>
    decreases bs, 0nat,
{
    Seq::new(
        bs.len(),
        |i: int|
            if 0 <= i < bs.len() {
                BranchView { elm_type: subst_v(ps, args, bs[i].elm_type), ..bs[i] }
            } else {
                bs[i]
            },
    )
}


// ── Computing names ───────────────────────────────────────────────────

fn without_dots_str(s: &str) -> (r: String)
    ensures
        r@ == without_dots(s@),
{
    let n = s.unicode_len();
    let mut r = String::new();
    let mut i: usize = 0;
    while i < n
        invariant
            i <= n,
            n == s@.len(),
            r@ == s@.take(i as int).filter(|c: char| c != '.'),
        decreases n - i,
    {
        proof {
            assert(s@.take(i + 1).drop_last() =~= s@.take(i as int));
            reveal(Seq::filter);
        }
        let c = s.get_char(i);
        if c != '.' {
            push_char(&mut r, c);
        }
        i += 1;
    }
    assert(s@.take(n as int) =~= s@);
    r
}

fn prim_token_str(p: ElmPrimitiveType) -> (r: String)
    ensures
        r@ == prim_token(p),
{
    match p {
        ElmPrimitiveType::Bool => owned("Bool"),
        ElmPrimitiveType::Int(w) => {
            let mut r = owned("Int");
            r.append(u64_to_decimal(w as u64).as_str());
            r
        },
        ElmPrimitiveType::Float(w) => {
            let mut r = owned("Float");
            r.append(u64_to_decimal(w as u64).as_str());
            r
        },
        ElmPrimitiveType::String => owned("Text"),
        ElmPrimitiveType::Bytes => owned("Data"),
        ElmPrimitiveType::Unit => owned("Void"),
    }
}

/// `Of` and the tokens of the arguments (see `instance_suffix`).
pub fn instance_suffix_of(args: &Vec<ElmType>, generics: &Vec<String>) -> (r: String)
    ensures
        r@ == instance_suffix(views_of(generics@), types_view(args@)),
    decreases args, 0nat,
{
    let ghost g = views_of(generics@);
    let ghost vs = types_view(args@);
    let mut r = owned("Of");
    let mut i: usize = 0;
    assert(tokens_of(g, vs).take(0) =~= Seq::<Seq<char>>::empty());
    while i < args.len()
        invariant
            i <= args.len(),
            g == views_of(generics@),
            vs == types_view(args@),
            r@ == "Of"@ + concat_all(tokens_of(g, vs).take(i as int)),
            decreases_to!(*args => args@),
        decreases args.len() - i,
    {
        assert(decreases_to!(args@ => args@[i as int]));
        let t = type_token(&args[i], generics);
        proof {
            assert(vs[i as int] == type_view(args@[i as int]));
            assert(tokens_of(g, vs).take(i + 1).drop_last() =~= tokens_of(g, vs).take(i as int));
        }
        r.append(t.as_str());
        proof {
            assert(r@ =~= "Of"@ + concat_all(tokens_of(g, vs).take(i + 1)));
        }
        i += 1;
    }
    assert(tokens_of(g, vs).take(args.len() as int) =~= tokens_of(g, vs));
    r
}

/// The full module name of the instantiation of the generic struct `m`
/// with `args` (see `instance_name`).
pub fn instance_name_of(m: &str, args: &Vec<ElmType>, generics: &Vec<String>) -> (r: String)
    ensures
        r@ == instance_name(views_of(generics@), m@, types_view(args@)),
    decreases args, 1nat,
{
    let suffix = instance_suffix_of(args, generics);
    let mut r = owned(m);
    r.append(".");
    r.append(suffix.as_str());
    assert(r@ =~= instance_name(views_of(generics@), m@, types_view(args@)));
    r
}

/// The name a type argument contributes (see `token_of`).
pub fn type_token(t: &ElmType, generics: &Vec<String>) -> (r: String)
    ensures
        r@ == token_of(views_of(generics@), type_view(*t)),
    decreases *t, 2nat,
{
    let ghost g = views_of(generics@);
    match t {
        ElmType::Primitive(p) => {
            let r = prim_token_str(*p);
            assert(r@ == token_of(g, type_view(*t)));
            r
        },
        ElmType::StructRef(m, sname, args) => {
            assert(type_view(*t) == TypeView::Struct(m@, *sname, types_view(args@)));
            assert(types_view(args@).len() == args@.len());
            if args.len() > 0 && contains_str(generics, m.as_str()) {
                let full = instance_name_of(m.as_str(), args, generics);
                let r = without_dots_str(full.as_str());
                assert(r@ == token_of(g, type_view(*t)));
                r
            } else {
                let r = without_dots_str(m.as_str());
                assert(!(g.contains(m@) && types_view(args@).len() > 0));
                assert(r@ == token_of(g, type_view(*t)));
                r
            }
        },
        ElmType::EnumRef(m, _, _, _) => {
            let r = without_dots_str(m.as_str());
            assert(r@ == token_of(g, type_view(*t)));
            r
        },
        ElmType::InterfaceRef(m, _, _) => {
            let r = without_dots_str(m.as_str());
            assert(r@ == token_of(g, type_view(*t)));
            r
        },
        ElmType::AnyPointer => {
            let r = owned("AnyPointer");
            assert(r@ == token_of(g, type_view(*t)));
            r
        },
        ElmType::List(inner) => {
            let mut r = owned("List");
            let x = type_token(inner, generics);
            r.append(x.as_str());
            assert(r@ == token_of(g, type_view(*t)));
            r
        },
        ElmType::UnionInline(_, _) => {
            let r = owned("Union");
            assert(r@ == token_of(g, type_view(*t)));
            r
        },
        ElmType::GenericParam(p) => {
            let r = p.clone();
            assert(r@ == token_of(g, type_view(*t)));
            r
        },
    }
}



// ── Generic structs ───────────────────────────────────────────────────

/// A struct with generic parameters of its own (a group takes its
/// struct's).
pub open spec fn is_generic_struct(n: Node) -> bool {
    n.generic_params.len() > 0 && n.kind is Struct && !is_group_node(n)
}

/// The generic structs among a node and the nodes nested in it, the node
/// first.
pub open spec fn node_generics(n: Node) -> Seq<Node>
    decreases n, 0nat,
{
    (if is_generic_struct(n) {
        seq![n]
    } else {
        Seq::empty()
    }) + forest_generics(n.nested_nodes@)
}

/// The generic structs among nodes, node after node.
pub open spec fn forest_generics(ns: Seq<Node>) -> Seq<Node>
    decreases ns, 1nat,
{
    if ns.len() == 0 {
        Seq::empty()
    } else {
        forest_generics(ns.drop_last()) + node_generics(ns.last())
    }
}

/// A generic struct ready to be instantiated: its module name, its
/// parameters in lower case (as its field types name them), its layout
/// and its fields as built with the parameters left in.
pub struct GenericTemplate {
    pub id: u64,
    pub full_name: String,
    pub params: Vec<String>,
    pub data_words: u32,
    pub pointer_words: u32,
    pub discriminant_offset: u32,
    pub fields: Vec<ElmField>,
    pub node: Ghost<Node>,
}

/// `t` is the template of the generic struct `n`.
pub open spec fn template_of(entries: Map<u64, NodeEntry>, n: Node, t: GenericTemplate) -> bool {
    &&& t.node@ == n
    &&& t.id == n.id
    &&& t.full_name@ == ref_module(entries, n.id)
    &&& views_of(t.params@) == lowercase_params(n)
    &&& struct_fields_built(entries, n, t.fields@)
    &&& n.kind matches NodeKind::Struct { data_word_count, pointer_word_count, discriminant_offset, .. }
        && t.data_words == data_word_count as u32 && t.pointer_words == pointer_word_count as u32
        && t.discriminant_offset == discriminant_offset
}

/// `ts` are the templates of the generic structs `gs`, in order.
pub open spec fn templates_of(entries: Map<u64, NodeEntry>, gs: Seq<Node>, ts: Seq<GenericTemplate>) -> bool {
    &&& ts.len() == gs.len()
    &&& forall|k: int| 0 <= k < gs.len() ==> template_of(entries, gs[k], #[trigger] ts[k])
}

/// The module names of templates, in order.
pub open spec fn template_names(ts: Seq<GenericTemplate>) -> Seq<Seq<char>> {
    Seq::new(ts.len(), |k: int| ts[k].full_name@)
}

fn template(n: &Node, ctx: &TypeMappingContext) -> (t: GenericTemplate)
    requires
        is_generic_struct(*n),
    ensures
        template_of(ctx.entries@, *n, t),
{
    let built = crate::binding::build_struct_contents(n, ctx);
    GenericTemplate {
        id: n.id,
        full_name: ctx.get_full_type_name(n.id),
        params: crate::binding::lowercased(&n.generic_params),
        data_words: built.data_words,
        pointer_words: built.pointer_words,
        discriminant_offset: built.discriminant_offset,
        fields: built.fields,
        node: Ghost(*n),
    }
}

fn collect_node_templates(n: &Node, ctx: &TypeMappingContext, out: &mut Vec<GenericTemplate>)
    ensures
        final(out)@.len() >= old(out)@.len(),
        final(out)@.take(old(out)@.len() as int) == old(out)@,
        templates_of(ctx.entries@, node_generics(*n), final(out)@.skip(old(out)@.len() as int)),
    decreases *n, 1nat,
{
    let ghost start = out@;
    if n.generic_params.len() > 0 && (match &n.kind {
        NodeKind::Struct { is_group, .. } => !*is_group,
        _ => false,
    }) {
        out.push(template(n, ctx));
    }
    let ghost mid = out@;
    assert(mid.take(start.len() as int) =~= start);
    assert forall|j: int| 0 <= j < start.len() implies mid[j] == start[j] by {
        assert(mid.take(start.len() as int)[j] == mid[j]);
    }
    assert(templates_of(ctx.entries@, if is_generic_struct(*n) { seq![*n] } else { Seq::empty() }, mid.skip(start.len() as int)));
    assert(decreases_to!(*n => n.nested_nodes));
    collect_forest_templates(&n.nested_nodes, ctx, out);
    proof {
        let own = if is_generic_struct(*n) { seq![*n] } else { Seq::<Node>::empty() };
        let a = mid.skip(start.len() as int);
        let b = out@.skip(mid.len() as int);
        assert forall|j: int| 0 <= j < mid.len() implies out@[j] == mid[j] by {
            assert(out@.take(mid.len() as int)[j] == out@[j]);
        }
        assert(out@.skip(start.len() as int) =~= a + b);
        assert(out@.take(start.len() as int) =~= start);
        assert forall|k: int| 0 <= k < node_generics(*n).len() implies template_of(
            ctx.entries@,
            node_generics(*n)[k],
            #[trigger] out@.skip(start.len() as int)[k],
        ) by {
            if k < own.len() {
                assert(node_generics(*n)[k] == own[k]);
                assert(out@.skip(start.len() as int)[k] == a[k]);
            } else {
                assert(node_generics(*n)[k] == forest_generics(n.nested_nodes@)[k - own.len()]);
                assert(out@.skip(start.len() as int)[k] == b[k - a.len()]);
            }
        }
    }
}

fn collect_forest_templates(ns: &Vec<Node>, ctx: &TypeMappingContext, out: &mut Vec<GenericTemplate>)
    ensures
        final(out)@.len() >= old(out)@.len(),
        final(out)@.take(old(out)@.len() as int) == old(out)@,
        templates_of(ctx.entries@, forest_generics(ns@), final(out)@.skip(old(out)@.len() as int)),
    decreases ns, 0nat,
{
    let ghost start = out@;
    let mut i: usize = 0;
    assert(ns@.take(0) =~= Seq::<Node>::empty());
    assert(out@.skip(start.len() as int) =~= Seq::<GenericTemplate>::empty());
    assert(out@.take(start.len() as int) =~= start);
    while i < ns.len()
        invariant
            i <= ns.len(),
            out@.len() >= start.len(),
            out@.take(start.len() as int) == start,
            templates_of(ctx.entries@, forest_generics(ns@.take(i as int)), out@.skip(start.len() as int)),
            decreases_to!(*ns => ns@),
        decreases ns.len() - i,
    {
        assert(decreases_to!(ns@ => ns@[i as int]));
        let ghost before = out@;
        collect_node_templates(&ns[i], ctx, out);
        proof {
            let t1 = ns@.take(i + 1);
            assert(t1.drop_last() =~= ns@.take(i as int));
            assert(t1.last() == ns@[i as int]);
            let a = before.skip(start.len() as int);
            let b = out@.skip(before.len() as int);
            assert forall|j: int| 0 <= j < before.len() implies out@[j] == before[j] by {
                assert(out@.take(before.len() as int)[j] == out@[j]);
            }
            assert forall|j: int| 0 <= j < start.len() implies before[j] == start[j] by {
                assert(before.take(start.len() as int)[j] == before[j]);
            }
            assert(out@.skip(start.len() as int) =~= a + b);
            assert(out@.take(start.len() as int) =~= start);
            assert(forest_generics(t1) == forest_generics(ns@.take(i as int)) + node_generics(ns@[i as int]));
            assert forall|k: int| 0 <= k < forest_generics(t1).len() implies template_of(
                ctx.entries@,
                forest_generics(t1)[k],
                #[trigger] out@.skip(start.len() as int)[k],
            ) by {
                if k < a.len() {
                    assert(out@.skip(start.len() as int)[k] == a[k]);
                } else {
                    assert(out@.skip(start.len() as int)[k] == b[k - a.len()]);
                }
            }
        }
        i += 1;
    }
    assert(ns@.take(ns.len() as int) =~= ns@);
}

/// The templates of the generic structs among the nodes.
pub fn generic_templates(nodes: &Vec<Node>, ctx: &TypeMappingContext) -> (r: Vec<GenericTemplate>)
    ensures
        templates_of(ctx.entries@, forest_generics(nodes@), r@),
{
    let mut r: Vec<GenericTemplate> = Vec::new();
    collect_forest_templates(nodes, ctx, &mut r);
    assert(r@.skip(0) =~= r@);
    r
}


// ── Instantiations ────────────────────────────────────────────────────

/// An instantiation to build: the template of its generic struct, the
/// type arguments it binds, and the full name of its module.
pub struct SynthJob {
    pub template: usize,
    pub args: Vec<ElmType>,
    pub name: String,
}

/// `f2` is the field `f` of a template with its type instantiated: the
/// parameters `ps` replaced by `args`, then references to instantiations
/// pointed at their modules.
pub open spec fn field_instanced(
    g: Seq<Seq<char>>,
    ps: Seq<Seq<char>>,
    args: Seq<TypeView>,
    f: ElmField,
    f2: ElmField,
) -> bool {
    &&& f2 == ElmField { elm_type: f2.elm_type, ..f }
    &&& type_view(f2.elm_type) == mono_v(g, subst_v(ps, args, type_view(f.elm_type)))
}

/// `m` is the module of the instantiation of the template `t` with
/// `args`: named `Of` and the tokens of the arguments, inside the generic
/// struct's module; a struct with the template's layout and its fields
/// instantiated; importing what those fields need and `Capnproto`, but
/// not itself. (Its id is a hash of its full name, which is not stated.)
pub open spec fn instance_module(g: Seq<Seq<char>>, t: GenericTemplate, args: Seq<TypeView>, m: ElmModule) -> bool {
    let full = instance_name(g, t.full_name@, args);
    &&& m.name@ == instance_suffix(g, args)
    &&& m.path@ == t.full_name@
    &&& m.type_def == ElmTypeDef::Struct
    &&& m.data_words == t.data_words
    &&& m.pointer_words == t.pointer_words
    &&& m.discriminant_offset == t.discriminant_offset
    &&& m.methods@.len() == 0
    &&& m.generic_params@.len() == 0
    &&& !m.needs_cap_table
    &&& m.merged_members@.len() == 0
    &&& m.fields@.len() == t.fields@.len()
    &&& forall|j: int|
        0 <= j < t.fields@.len() ==> field_instanced(g, views_of(t.params@), args, t.fields@[j], #[trigger] m.fields@[j])
    &&& imports_are(views_of(m.imports@), (fields_imports(m.fields@) + seq!["Capnproto"@]).filter(|x: Seq<char>| x != full))
}

/// `std::hash::DefaultHasher` run over a string. What it gives is not
/// stated: std does not promise the algorithm.
#[verifier::external_body]
fn key_hash(key: &str) -> u64 {
    let mut h = std::collections::hash_map::DefaultHasher::new();
    key.hash(&mut h);
    h.finish()
}

/// The instantiations the fields of an instantiation's module ask for,
/// read from its field types with the arguments in place.
pub open spec fn instance_wanted(g: Seq<Seq<char>>, t: GenericTemplate, args: Seq<TypeView>) -> Seq<(Seq<char>, Seq<TypeView>)> {
    concat_all(
        Seq::new(
            t.fields@.len(),
            |j: int| wanted_v(g, subst_v(views_of(t.params@), args, type_view(t.fields@[j].elm_type))),
        ),
    )
}

/// Builds the module of an instantiation and appends it to the context
/// (see `instance_module`); appends a job for each instantiation its
/// fields ask for.
pub fn build_generic_instantiation_module(
    job: &SynthJob,
    context: &mut ElmContext,
    templates: &Vec<GenericTemplate>,
    generics: &Vec<String>,
    jobs: &mut Vec<SynthJob>,
)
    requires
        job.template < templates.len(),
        views_of(generics@) == template_names(templates@),
    ensures
        jobs_view(templates@, final(jobs)@) == jobs_view(templates@, old(jobs)@) + instance_wanted(
            views_of(generics@),
            templates@[job.template as int],
            types_view(job.args@),
        ),
        forall|k: int|
            0 <= k < final(jobs)@.len() && (k >= old(jobs)@.len() || job_named(views_of(generics@), templates@, old(jobs)@[k]))
                ==> job_named(views_of(generics@), templates@, #[trigger] final(jobs)@[k]),
        jobs_kept(old(jobs)@, final(jobs)@),
        final(context).modules@.len() == old(context).modules@.len() + 1,
        final(context).modules@.drop_last() == old(context).modules@,
        instance_module(
            views_of(generics@),
            templates@[job.template as int],
            types_view(job.args@),
            final(context).modules@.last(),
        ),
{
    let ghost g = views_of(generics@);
    let tpl = &templates[job.template];
    let ghost ps = views_of(tpl.params@);
    let ghost av = types_view(job.args@);
    let mut fields: Vec<ElmField> = Vec::new();
    let mut imports: Vec<String> = Vec::new();
    let mut j: usize = 0;
    assert(fields_imports(fields@) =~= Seq::<Seq<char>>::empty()) by {
        assert(fields@.map_values(|x: ElmField| crate::type_mapping::imports_of(x.elm_type)) =~= Seq::<Seq<Seq<char>>>::empty());
    }
    let ghost ts = templates@;
    let ghost jstart = jobs@;
    let ghost iw = Seq::new(
        tpl.fields@.len(),
        |q: int| wanted_v(g, subst_v(ps, av, type_view(tpl.fields@[q].elm_type))),
    );
    assert(iw.take(0) =~= Seq::<Seq<(Seq<char>, Seq<TypeView>)>>::empty());
    assert(jobs_view(ts, jobs@) =~= jobs_view(ts, jstart) + concat_all(iw.take(0)));
    while j < tpl.fields.len()
        invariant
            j <= tpl.fields.len(),
            *tpl == templates@[job.template as int],
            g == views_of(generics@),
            ts == templates@,
            g == template_names(ts),
            ps == views_of(tpl.params@),
            av == types_view(job.args@),
            iw == Seq::new(
                tpl.fields@.len(),
                |q: int| wanted_v(g, subst_v(ps, av, type_view(tpl.fields@[q].elm_type))),
            ),
            fields@.len() == j,
            forall|k: int| 0 <= k < j ==> field_instanced(g, ps, av, tpl.fields@[k], #[trigger] fields@[k]),
            views_of(imports@) == fields_imports(fields@),
            jobs_view(ts, jobs@) == jobs_view(ts, jstart) + concat_all(iw.take(j as int)),
            jobs@.len() >= jstart.len(),
            jobs_kept(jstart, jobs@),
            forall|k: int|
                0 <= k < jobs@.len() && (k >= jstart.len() || job_named(g, ts, jstart[k])) ==> job_named(
                    g,
                    ts,
                    #[trigger] jobs@[k],
                ),
        decreases tpl.fields.len() - j,
    {
        let f = &tpl.fields[j];
        let t1 = subst_type(&f.elm_type, &tpl.params, &job.args);
        let ghost before = jobs@;
        collect_jobs(&t1, templates, generics, jobs);
        proof {
            assert(iw.take(j + 1).drop_last() =~= iw.take(j as int));
            assert(jobs_view(ts, jobs@) =~= jobs_view(ts, jstart) + concat_all(iw.take(j + 1)));
            assert forall|k: int|
                0 <= k < jobs@.len() && (k >= jstart.len() || job_named(g, ts, jstart[k])) implies job_named(
                    g,
                    ts,
                    #[trigger] jobs@[k],
                ) by {
                if k < before.len() {
                    assert(jobs_view(ts, jobs@)[k] == jobs_view(ts, before)[k]);
                }
            }
        }
        let t2 = mono_type(&t1, generics);
        collect_imports_from_type(&t2, &mut imports);
        let nf = ElmField {
            name: f.name.clone(),
            discriminant: f.discriminant,
            elm_type: t2,
            offset: f.offset,
            is_union_container: f.is_union_container,
            default_value: f.default_value,
            cap_slot: f.cap_slot,
            needs_cap_table: f.needs_cap_table,
        };
        proof {
            lemma_fields_imports_push(fields@, nf);
        }
        fields.push(nf);
        j += 1;
    }
    assert(iw.take(tpl.fields.len() as int) =~= iw);
    let full = instance_name_of(tpl.full_name.as_str(), &job.args, generics);
    let ghost base = views_of(imports@);
    let capnproto = owned("Capnproto");
    proof {
        crate::text::lemma_views_of_push(imports@, capnproto);
    }
    imports.push(capnproto);
    assert(views_of(imports@) =~= base + seq!["Capnproto"@]);
    let kept = without_name(imports, full.as_str());
    let ghost fullv = instance_name(g, tpl.full_name@, av);
    proof {
        assert((|x: Seq<char>| x != full@) =~= (|x: Seq<char>| x != fullv));
    }
    let imports = sorted_unique(&kept);
    assert(imports_are(views_of(imports@), (fields_imports(fields@) + seq!["Capnproto"@]).filter(|x: Seq<char>| x != fullv)));
    let module = ElmModule {
        id: key_hash(full.as_str()),
        name: instance_suffix_of(&job.args, generics),
        path: tpl.full_name.clone(),
        imports,
        type_def: ElmTypeDef::Struct,
        data_words: tpl.data_words,
        pointer_words: tpl.pointer_words,
        fields,
        discriminant_offset: tpl.discriminant_offset,
        methods: Vec::new(),
        generic_params: Vec::new(),
        needs_cap_table: false,
        merged_members: Vec::new(),
    };
    assert(instance_module(g, *tpl, av, module));
    let ghost before = context.modules@;
    context.modules.push(module);
    assert(context.modules@.drop_last() =~= before);
}


// ── The instantiations a type asks for ────────────────────────────────

/// The instantiations a type refers to, in order, each as its generic
/// struct's module and its arguments: the outermost references to a
/// generic struct that bind arguments (those inside their arguments are
/// asked for by the instantiation's own module).
pub open spec fn wanted_v(g: Seq<Seq<char>>, v: TypeView) -> Seq<(Seq<char>, Seq<TypeView>)>
    decreases v, 1nat,
{
    match v {
        TypeView::Struct(m, _, args) => if g.contains(m) && args.len() > 0 {
            seq![(m, args)]
        } else {
            concat_all(wanteds_v(g, args))
        },
        TypeView::Enum(_, _, _, args) => concat_all(wanteds_v(g, args)),
        TypeView::Interface(_, _, args) => concat_all(wanteds_v(g, args)),
        TypeView::List(x) => wanted_v(g, *x),
        TypeView::Union(bs, _) => concat_all(branches_wanted_v(g, bs)),
        _ => Seq::empty(),
    }
}

pub open spec fn wanteds_v(g: Seq<Seq<char>>, vs: Seq<TypeView>) -> Seq<Seq<(Seq<char>, Seq<TypeView>)>>
    decreases vs, 0nat,
{
    Seq::new(vs.len(), |i: int| if 0 <= i < vs.len() { wanted_v(g, vs[i]) } else { Seq::empty() })
}

pub open spec fn branches_wanted_v(g: Seq<Seq<char>>, bs: Seq<BranchView>) -> Seq<Seq<(Seq<char>, Seq<TypeView>)>>
    decreases bs, 0nat,
{
    Seq::new(bs.len(), |i: int| if 0 <= i < bs.len() { wanted_v(g, bs[i].elm_type) } else { Seq::empty() })
}

/// What a job asks for: its generic struct's module and its arguments.
pub open spec fn job_view(ts: Seq<GenericTemplate>, j: SynthJob) -> (Seq<char>, Seq<TypeView>) {
    (ts[j.template as int].full_name@, types_view(j.args@))
}

pub open spec fn jobs_view(ts: Seq<GenericTemplate>, js: Seq<SynthJob>) -> Seq<(Seq<char>, Seq<TypeView>)> {
    Seq::new(js.len(), |k: int| job_view(ts, js[k]))
}

/// The job names a template and carries the full name of its
/// instantiation's module.
pub open spec fn job_named(g: Seq<Seq<char>>, ts: Seq<GenericTemplate>, j: SynthJob) -> bool {
    &&& j.template < ts.len()
    &&& j.name@ == instance_name(g, ts[j.template as int].full_name@, types_view(j.args@))
}

/// `b` is `a` with jobs appended.
pub open spec fn jobs_kept(a: Seq<SynthJob>, b: Seq<SynthJob>) -> bool {
    &&& b.len() >= a.len()
    &&& forall|k: int| 0 <= k < a.len() ==> #[trigger] b[k] == a[k]
}

proof fn lemma_jobs_view_push(ts: Seq<GenericTemplate>, js: Seq<SynthJob>, j: SynthJob)
    ensures
        jobs_view(ts, js.push(j)) == jobs_view(ts, js).push(job_view(ts, j)),
{
    assert(jobs_view(ts, js.push(j)) =~= jobs_view(ts, js).push(job_view(ts, j)));
}

/// The first template named `m`.
fn find_template(templates: &Vec<GenericTemplate>, m: &str) -> (k: usize)
    requires
        template_names(templates@).contains(m@),
    ensures
        k < templates.len(),
        templates@[k as int].full_name@ == m@,
{
    let mut k: usize = 0;
    while k < templates.len()
        invariant
            k <= templates.len(),
            template_names(templates@).contains(m@),
            forall|j: int| 0 <= j < k ==> templates@[j].full_name@ != m@,
        decreases templates.len() - k,
    {
        if crate::text::str_eq(templates[k].full_name.as_str(), m) {
            return k;
        }
        k += 1;
    }
    proof {
        let w = choose|w: int| 0 <= w < template_names(templates@).len() && template_names(templates@)[w] == m@;
        assert(templates@[w].full_name@ == m@);
    }
    0
}

/// Appends a job for each instantiation the type asks for (see
/// `wanted_v`).
pub fn collect_jobs(t: &ElmType, templates: &Vec<GenericTemplate>, generics: &Vec<String>, jobs: &mut Vec<SynthJob>)
    requires
        views_of(generics@) == template_names(templates@),
    ensures
        jobs_view(templates@, final(jobs)@) == jobs_view(templates@, old(jobs)@) + wanted_v(
            views_of(generics@),
            type_view(*t),
        ),
        forall|k: int|
            0 <= k < final(jobs)@.len() && (k >= old(jobs)@.len() || job_named(views_of(generics@), templates@, old(jobs)@[k]))
                ==> job_named(views_of(generics@), templates@, #[trigger] final(jobs)@[k]),
        jobs_kept(old(jobs)@, final(jobs)@),
    decreases *t, 1nat,
{
    let ghost g = views_of(generics@);
    let ghost ts = templates@;
    let ghost start = jobs@;
    match t {
        ElmType::StructRef(m, _, args) => {
            assert(types_view(args@).len() == args@.len());
            if args.len() > 0 && contains_str(generics, m.as_str()) {
                let k = find_template(templates, m.as_str());
                let name = instance_name_of(m.as_str(), args, generics);
                let job = SynthJob { template: k, args: copy_types(args), name };
                proof {
                    lemma_jobs_view_push(ts, jobs@, job);
                    assert(wanted_v(g, type_view(*t)) == seq![(m@, types_view(args@))]);
                    assert(jobs_view(ts, jobs@).push(job_view(ts, job)) =~= jobs_view(ts, jobs@) + seq![(m@, types_view(args@))]);
                }
                jobs.push(job);
                assert forall|q: int|
                    0 <= q < jobs@.len() && (q >= start.len() || job_named(g, ts, start[q])) implies job_named(
                        g,
                        ts,
                        #[trigger] jobs@[q],
                    ) by {
                    if q < start.len() {
                        assert(jobs@[q] == start[q]);
                    }
                }
            } else {
                collect_jobs_of_types(args, templates, generics, jobs);
            }
        },
        ElmType::EnumRef(_, _, _, args) => collect_jobs_of_types(args, templates, generics, jobs),
        ElmType::InterfaceRef(_, _, args) => collect_jobs_of_types(args, templates, generics, jobs),
        ElmType::List(inner) => collect_jobs(inner, templates, generics, jobs),
        ElmType::UnionInline(bs, gps) => {
            let mut i: usize = 0;
            assert(branches_wanted_v(g, branches_view(bs@)).take(0) =~= Seq::<Seq<(Seq<char>, Seq<TypeView>)>>::empty());
            assert(jobs_view(ts, jobs@) =~= jobs_view(ts, start) + concat_all(branches_wanted_v(g, branches_view(bs@)).take(0)));
            while i < bs.len()
                invariant
                    i <= bs.len(),
                    g == views_of(generics@),
                    ts == templates@,
                    g == template_names(ts),
                    *t == ElmType::UnionInline(*bs, *gps),
                    jobs_view(ts, jobs@) == jobs_view(ts, start) + concat_all(
                        branches_wanted_v(g, branches_view(bs@)).take(i as int),
                    ),
                    jobs@.len() >= start.len(),
                    jobs_kept(start, jobs@),
                    forall|k: int|
                        0 <= k < jobs@.len() && (k >= start.len() || job_named(g, ts, start[k])) ==> job_named(
                            g,
                            ts,
                            #[trigger] jobs@[k],
                        ),
                    decreases_to!(*t => bs@),
                decreases bs.len() - i,
            {
                assert(decreases_to!(bs@ => bs@[i as int]));
                let ghost before = jobs@;
                collect_jobs(&bs[i].elm_type, templates, generics, jobs);
                proof {
                    let w = branches_wanted_v(g, branches_view(bs@));
                    assert(w.take(i + 1).drop_last() =~= w.take(i as int));
                    assert(w[i as int] == wanted_v(g, type_view(bs@[i as int].elm_type)));
                    assert(jobs_view(ts, jobs@) =~= jobs_view(ts, start) + concat_all(w.take(i + 1)));
                    assert forall|k: int|
                        0 <= k < jobs@.len() && (k >= start.len() || job_named(g, ts, start[k])) implies job_named(
                            g,
                            ts,
                            #[trigger] jobs@[k],
                        ) by {
                        if k < before.len() {
                            assert(jobs_view(ts, jobs@)[k] == jobs_view(ts, before)[k]);
                        }
                    }
                }
                i += 1;
            }
            assert(branches_wanted_v(g, branches_view(bs@)).take(bs.len() as int) =~= branches_wanted_v(g, branches_view(bs@)));
        },
        _ => {
            assert(jobs_view(ts, jobs@) =~= jobs_view(ts, start) + wanted_v(g, type_view(*t)));
        },
    }
}

fn collect_jobs_of_types(ts_: &Vec<ElmType>, templates: &Vec<GenericTemplate>, generics: &Vec<String>, jobs: &mut Vec<SynthJob>)
    requires
        views_of(generics@) == template_names(templates@),
    ensures
        jobs_view(templates@, final(jobs)@) == jobs_view(templates@, old(jobs)@) + concat_all(
            wanteds_v(views_of(generics@), types_view(ts_@)),
        ),
        forall|k: int|
            0 <= k < final(jobs)@.len() && (k >= old(jobs)@.len() || job_named(views_of(generics@), templates@, old(jobs)@[k]))
                ==> job_named(views_of(generics@), templates@, #[trigger] final(jobs)@[k]),
        jobs_kept(old(jobs)@, final(jobs)@),
    decreases ts_, 0nat,
{
    let ghost g = views_of(generics@);
    let ghost ts = templates@;
    let ghost start = jobs@;
    let ghost w = wanteds_v(g, types_view(ts_@));
    let mut i: usize = 0;
    assert(w.take(0) =~= Seq::<Seq<(Seq<char>, Seq<TypeView>)>>::empty());
    assert(jobs_view(ts, jobs@) =~= jobs_view(ts, start) + concat_all(w.take(0)));
    while i < ts_.len()
        invariant
            i <= ts_.len(),
            g == views_of(generics@),
            ts == templates@,
            g == template_names(ts),
            w == wanteds_v(g, types_view(ts_@)),
            jobs_view(ts, jobs@) == jobs_view(ts, start) + concat_all(w.take(i as int)),
            jobs@.len() >= start.len(),
            jobs_kept(start, jobs@),
            forall|k: int|
                0 <= k < jobs@.len() && (k >= start.len() || job_named(g, ts, start[k])) ==> job_named(
                    g,
                    ts,
                    #[trigger] jobs@[k],
                ),
            decreases_to!(*ts_ => ts_@),
        decreases ts_.len() - i,
    {
        assert(decreases_to!(ts_@ => ts_@[i as int]));
        let ghost before = jobs@;
        collect_jobs(&ts_[i], templates, generics, jobs);
        proof {
            assert(w.take(i + 1).drop_last() =~= w.take(i as int));
            assert(w[i as int] == wanted_v(g, type_view(ts_@[i as int])));
            assert(jobs_view(ts, jobs@) =~= jobs_view(ts, start) + concat_all(w.take(i + 1)));
            assert forall|k: int|
                0 <= k < jobs@.len() && (k >= start.len() || job_named(g, ts, start[k])) implies job_named(
                    g,
                    ts,
                    #[trigger] jobs@[k],
                ) by {
                if k < before.len() {
                    assert(jobs_view(ts, jobs@)[k] == jobs_view(ts, before)[k]);
                }
            }
        }
        i += 1;
    }
    assert(w.take(ts_.len() as int) =~= w);
}


// ── Rewriting a module ────────────────────────────────────────────────

/// The instantiations a module's fields and methods ask for, in order.
pub open spec fn module_wanted(g: Seq<Seq<char>>, m: ElmModule) -> Seq<(Seq<char>, Seq<TypeView>)> {
    concat_all(fields_wanted(g, m.fields@)) + concat_all(methods_wanted(g, m.methods@))
}

pub open spec fn fields_wanted(g: Seq<Seq<char>>, fs: Seq<ElmField>) -> Seq<Seq<(Seq<char>, Seq<TypeView>)>> {
    Seq::new(fs.len(), |j: int| wanted_v(g, type_view(fs[j].elm_type)))
}

pub open spec fn methods_wanted(g: Seq<Seq<char>>, ms: Seq<ElmMethod>) -> Seq<Seq<(Seq<char>, Seq<TypeView>)>> {
    Seq::new(ms.len(), |k: int| wanted_v(g, type_view(ms[k].param_type)) + wanted_v(g, type_view(ms[k].result_type)))
}

/// `b` is the module `a` with the references to instantiations in its
/// field and method types pointed at their modules (see `mono_v`), and
/// its imports computed again from its new types as a module of its kind
/// computes them: an interface what its methods need with `Capnproto`
/// and `Rpc`; any other module what its fields need, `Capnproto`, and
/// `Bitwise` when a field needs an XOR mask, but not itself.
pub open spec fn module_monoed(g: Seq<Seq<char>>, a: ElmModule, b: ElmModule) -> bool {
    &&& b == ElmModule { imports: b.imports, fields: b.fields, methods: b.methods, ..a }
    &&& b.fields@.len() == a.fields@.len()
    &&& forall|j: int|
        0 <= j < a.fields@.len() ==> #[trigger] b.fields@[j] == (ElmField { elm_type: b.fields@[j].elm_type, ..a.fields@[j] })
            && type_view(b.fields@[j].elm_type) == mono_v(g, type_view(a.fields@[j].elm_type))
    &&& b.methods@.len() == a.methods@.len()
    &&& forall|k: int|
        0 <= k < a.methods@.len() ==> #[trigger] b.methods@[k] == (ElmMethod {
            param_type: b.methods@[k].param_type,
            result_type: b.methods@[k].result_type,
            ..a.methods@[k]
        }) && type_view(b.methods@[k].param_type) == mono_v(g, type_view(a.methods@[k].param_type))
            && type_view(b.methods@[k].result_type) == mono_v(g, type_view(a.methods@[k].result_type))
    &&& if a.type_def == ElmTypeDef::Interface {
        imports_are(views_of(b.imports@), methods_imports(b.methods@) + seq!["Capnproto"@, "Rpc.Client as Rpc"@])
    } else {
        imports_are(
            views_of(b.imports@),
            (fields_imports(b.fields@) + seq!["Capnproto"@] + bitwise_import(b.fields@)).filter(
                |x: Seq<char>| x != module_name_of(a),
            ),
        )
    }
}

/// Rewrites a module's types (see `module_monoed`) and appends a job for
/// each instantiation they ask for.
pub fn mono_module(
    module: &mut ElmModule,
    templates: &Vec<GenericTemplate>,
    generics: &Vec<String>,
    jobs: &mut Vec<SynthJob>,
)
    requires
        views_of(generics@) == template_names(templates@),
    ensures
        module_monoed(views_of(generics@), *old(module), *final(module)),
        jobs_view(templates@, final(jobs)@) == jobs_view(templates@, old(jobs)@) + module_wanted(
            views_of(generics@),
            *old(module),
        ),
        forall|k: int|
            0 <= k < final(jobs)@.len() && (k >= old(jobs)@.len() || job_named(views_of(generics@), templates@, old(jobs)@[k]))
                ==> job_named(views_of(generics@), templates@, #[trigger] final(jobs)@[k]),
        jobs_kept(old(jobs)@, final(jobs)@),
{
    let ghost g = views_of(generics@);
    let ghost ts = templates@;
    let ghost start = *module;
    let ghost jstart = jobs@;
    let ghost fw = fields_wanted(g, start.fields@);
    let mut j: usize = 0;
    assert(fw.take(0) =~= Seq::<Seq<(Seq<char>, Seq<TypeView>)>>::empty());
    assert(jobs_view(ts, jobs@) =~= jobs_view(ts, jstart) + concat_all(fw.take(0)));
    while j < module.fields.len()
        invariant
            j <= module.fields.len(),
            module.fields.len() == start.fields.len(),
            g == views_of(generics@),
            ts == templates@,
            g == template_names(ts),
            fw == fields_wanted(g, start.fields@),
            *module == (ElmModule { fields: module.fields, ..start }),
            forall|k: int|
                0 <= k < j ==> #[trigger] module.fields@[k] == (ElmField {
                    elm_type: module.fields@[k].elm_type,
                    ..start.fields@[k]
                }) && type_view(module.fields@[k].elm_type) == mono_v(g, type_view(start.fields@[k].elm_type)),
            forall|k: int| j <= k < module.fields.len() ==> #[trigger] module.fields@[k] == start.fields@[k],
            jobs_view(ts, jobs@) == jobs_view(ts, jstart) + concat_all(fw.take(j as int)),
            jobs@.len() >= jstart.len(),
            jobs_kept(jstart, jobs@),
            forall|k: int|
                0 <= k < jobs@.len() && (k >= jstart.len() || job_named(g, ts, jstart[k])) ==> job_named(
                    g,
                    ts,
                    #[trigger] jobs@[k],
                ),
        decreases module.fields.len() - j,
    {
        let ghost before = jobs@;
        collect_jobs(&module.fields[j].elm_type, templates, generics, jobs);
        let t = mono_type(&module.fields[j].elm_type, generics);
        module.fields[j].elm_type = t;
        proof {
            assert(fw.take(j + 1).drop_last() =~= fw.take(j as int));
            assert(jobs_view(ts, jobs@) =~= jobs_view(ts, jstart) + concat_all(fw.take(j + 1)));
            assert forall|k: int|
                0 <= k < jobs@.len() && (k >= jstart.len() || job_named(g, ts, jstart[k])) implies job_named(
                    g,
                    ts,
                    #[trigger] jobs@[k],
                ) by {
                if k < before.len() {
                    assert(jobs_view(ts, jobs@)[k] == jobs_view(ts, before)[k]);
                }
            }
        }
        j += 1;
    }
    assert(fw.take(module.fields.len() as int) =~= fw);
    let ghost mid = *module;
    let ghost jmid = jobs@;
    let ghost mw = methods_wanted(g, start.methods@);
    let mut k: usize = 0;
    assert(mw.take(0) =~= Seq::<Seq<(Seq<char>, Seq<TypeView>)>>::empty());
    while k < module.methods.len()
        invariant
            k <= module.methods.len(),
            module.methods.len() == start.methods.len(),
            g == views_of(generics@),
            ts == templates@,
            g == template_names(ts),
            mw == methods_wanted(g, start.methods@),
            *module == (ElmModule { methods: module.methods, ..mid }),
            mid.methods == start.methods,
            forall|q: int|
                0 <= q < k ==> #[trigger] module.methods@[q] == (ElmMethod {
                    param_type: module.methods@[q].param_type,
                    result_type: module.methods@[q].result_type,
                    ..start.methods@[q]
                }) && type_view(module.methods@[q].param_type) == mono_v(g, type_view(start.methods@[q].param_type))
                    && type_view(module.methods@[q].result_type) == mono_v(g, type_view(start.methods@[q].result_type)),
            forall|q: int| k <= q < module.methods.len() ==> #[trigger] module.methods@[q] == start.methods@[q],
            jobs_view(ts, jobs@) == jobs_view(ts, jmid) + concat_all(mw.take(k as int)),
            jobs@.len() >= jmid.len(),
            jobs_kept(jmid, jobs@),
            forall|q: int|
                0 <= q < jobs@.len() && (q >= jmid.len() || job_named(g, ts, jmid[q])) ==> job_named(
                    g,
                    ts,
                    #[trigger] jobs@[q],
                ),
        decreases module.methods.len() - k,
    {
        let ghost before = jobs@;
        collect_jobs(&module.methods[k].param_type, templates, generics, jobs);
        collect_jobs(&module.methods[k].result_type, templates, generics, jobs);
        let p = mono_type(&module.methods[k].param_type, generics);
        let r = mono_type(&module.methods[k].result_type, generics);
        module.methods[k].param_type = p;
        module.methods[k].result_type = r;
        proof {
            assert(mw.take(k + 1).drop_last() =~= mw.take(k as int));
            assert(jobs_view(ts, jobs@) =~= jobs_view(ts, jmid) + concat_all(mw.take(k + 1)));
            assert forall|q: int|
                0 <= q < jobs@.len() && (q >= jmid.len() || job_named(g, ts, jmid[q])) implies job_named(
                    g,
                    ts,
                    #[trigger] jobs@[q],
                ) by {
                if q < before.len() {
                    assert(jobs_view(ts, jobs@)[q] == jobs_view(ts, before)[q]);
                }
            }
        }
        k += 1;
    }
    assert(mw.take(module.methods.len() as int) =~= mw);
    assert(jobs_view(ts, jobs@) =~= jobs_view(ts, jstart) + module_wanted(g, start));
    assert forall|q: int|
        0 <= q < jobs@.len() && (q >= jstart.len() || job_named(g, ts, jstart[q])) implies job_named(
            g,
            ts,
            #[trigger] jobs@[q],
        ) by {
        if q < jmid.len() {
            assert(jobs_view(ts, jobs@)[q] == jobs_view(ts, jmid)[q]);
        }
    }
    recompute_imports(module);
}

/// Computes a module's imports again from its types (see the last clause
/// of `module_monoed`).
fn recompute_imports(module: &mut ElmModule)
    ensures
        *final(module) == (ElmModule { imports: final(module).imports, ..*old(module) }),
        if old(module).type_def == ElmTypeDef::Interface {
            imports_are(
                views_of(final(module).imports@),
                methods_imports(old(module).methods@) + seq!["Capnproto"@, "Rpc.Client as Rpc"@],
            )
        } else {
            imports_are(
                views_of(final(module).imports@),
                (fields_imports(old(module).fields@) + seq!["Capnproto"@] + bitwise_import(old(module).fields@)).filter(
                    |x: Seq<char>| x != module_name_of(*old(module)),
                ),
            )
        },
{
    let mut imports: Vec<String> = Vec::new();
    if module.type_def == ElmTypeDef::Interface {
        let mut k: usize = 0;
        assert(module.methods@.take(0) =~= Seq::<ElmMethod>::empty());
        while k < module.methods.len()
            invariant
                k <= module.methods.len(),
                views_of(imports@) == methods_imports(module.methods@.take(k as int)),
            decreases module.methods.len() - k,
        {
            collect_imports_from_type(&module.methods[k].param_type, &mut imports);
            collect_imports_from_type(&module.methods[k].result_type, &mut imports);
            assert(module.methods@.take(k + 1).drop_last() =~= module.methods@.take(k as int));
            k += 1;
        }
        assert(module.methods@.take(module.methods.len() as int) =~= module.methods@);
        let ghost mi = views_of(imports@);
        let c = owned("Capnproto");
        proof {
            crate::text::lemma_views_of_push(imports@, c);
        }
        imports.push(c);
        let rpc = owned("Rpc.Client as Rpc");
        proof {
            crate::text::lemma_views_of_push(imports@, rpc);
        }
        imports.push(rpc);
        assert(views_of(imports@) =~= mi + seq!["Capnproto"@, "Rpc.Client as Rpc"@]);
        module.imports = sorted_unique(&imports);
    } else {
        let mut j: usize = 0;
        assert(fields_imports(module.fields@.take(0)) =~= Seq::<Seq<char>>::empty()) by {
            assert(module.fields@.take(0).map_values(|x: ElmField| crate::type_mapping::imports_of(x.elm_type))
                =~= Seq::<Seq<Seq<char>>>::empty());
        }
        while j < module.fields.len()
            invariant
                j <= module.fields.len(),
                views_of(imports@) == fields_imports(module.fields@.take(j as int)),
            decreases module.fields.len() - j,
        {
            collect_imports_from_type(&module.fields[j].elm_type, &mut imports);
            proof {
                lemma_fields_imports_push(module.fields@.take(j as int), module.fields@[j as int]);
                assert(module.fields@.take(j as int).push(module.fields@[j as int]) =~= module.fields@.take(j + 1));
            }
            j += 1;
        }
        assert(module.fields@.take(module.fields.len() as int) =~= module.fields@);
        let ghost base = views_of(imports@);
        let c = owned("Capnproto");
        proof {
            crate::text::lemma_views_of_push(imports@, c);
        }
        imports.push(c);
        crate::type_mapping::collect_imports_from_defaults(&module.fields, &mut imports);
        assert(views_of(imports@) =~= base + seq!["Capnproto"@] + bitwise_import(module.fields@));
        let own = crate::elm::module_full_name(module);
        let kept = without_name(imports, own.as_str());
        proof {
            assert((|x: Seq<char>| x != own@) =~= (|x: Seq<char>| x != module_name_of(*module)));
        }
        module.imports = sorted_unique(&kept);
    }
}


// ── The instantiations of a context ───────────────────────────────────

/// The most instantiations built for one schema. A generic struct whose
/// fields instantiate it again with a larger argument asks for new
/// instantiations without end; the count stops there.
pub const INSTANCE_LIMIT: usize = 4096;

/// The full module names of the instantiations `made`, each a template's
/// index and its arguments.
pub open spec fn made_names(ts: Seq<GenericTemplate>, made: Seq<(int, Seq<TypeView>)>) -> Seq<Seq<char>> {
    Seq::new(made.len(), |k: int| instance_name(template_names(ts), ts[made[k].0].full_name@, made[k].1))
}

/// `post` are the modules `pre` with their types rewritten (see
/// `module_monoed`), then the modules of the instantiations `made`, each
/// once, each asked for by a module of `pre` or by an instantiation built
/// before it. When `complete`, every instantiation that a module of `pre`
/// or of `made` asks for is among `made`; otherwise `INSTANCE_LIMIT` were
/// built.
pub open spec fn instantiated_with(
    ts: Seq<GenericTemplate>,
    pre: Seq<ElmModule>,
    post: Seq<ElmModule>,
    made: Seq<(int, Seq<TypeView>)>,
    complete: bool,
) -> bool {
    let g = template_names(ts);
    &&& post.len() == pre.len() + made.len()
    &&& forall|i: int| 0 <= i < pre.len() ==> module_monoed(g, pre[i], #[trigger] post[i])
    &&& forall|k: int|
        0 <= k < made.len() ==> 0 <= (#[trigger] made[k]).0 < ts.len() && instance_module(
            g,
            ts[made[k].0],
            made[k].1,
            post[pre.len() + k],
        )
    &&& made_names(ts, made).no_duplicates()
    &&& forall|k: int| 0 <= k < made.len() ==> asked_for(ts, pre, made, (ts[(#[trigger] made[k]).0].full_name@, made[k].1), k)
    &&& !complete ==> made.len() == INSTANCE_LIMIT
    &&& complete ==> forall|i: int, w: (Seq<char>, Seq<TypeView>)|
        0 <= i < pre.len() && #[trigger] module_wanted(g, pre[i]).contains(w) ==> made_names(ts, made).contains(
            instance_name(g, w.0, w.1),
        )
    &&& complete ==> forall|k: int, w: (Seq<char>, Seq<TypeView>)|
        0 <= k < made.len() && #[trigger] instance_wanted(g, ts[made[k].0], made[k].1).contains(w)
            ==> made_names(ts, made).contains(instance_name(g, w.0, w.1))
}

/// The instantiation `w` is asked for by a module of `pre`, or by one of
/// the first `upto` instantiations of `made`.
pub open spec fn asked_for(
    ts: Seq<GenericTemplate>,
    pre: Seq<ElmModule>,
    made: Seq<(int, Seq<TypeView>)>,
    w: (Seq<char>, Seq<TypeView>),
    upto: int,
) -> bool {
    let g = template_names(ts);
    ||| exists|i: int| 0 <= i < pre.len() && #[trigger] module_wanted(g, pre[i]).contains(w)
    ||| exists|j: int| 0 <= j < upto && #[trigger] instance_wanted(g, ts[made[j].0], made[j].1).contains(w)
}

/// Some instantiations `made` satisfy `instantiated_with`.
pub open spec fn generics_instantiated(ts: Seq<GenericTemplate>, pre: Seq<ElmModule>, post: Seq<ElmModule>, complete: bool) -> bool {
    exists|made: Seq<(int, Seq<TypeView>)>| #[trigger] instantiated_with(ts, pre, post, made, complete)
}

proof fn lemma_contains_add<A>(a: Seq<A>, b: Seq<A>, x: A)
    ensures
        a.contains(x) ==> (a + b).contains(x),
        b.contains(x) ==> (a + b).contains(x),
{
    if a.contains(x) {
        let i = choose|i: int| 0 <= i < a.len() && a[i] == x;
        assert((a + b)[i] == x);
    }
    if b.contains(x) {
        let i = choose|i: int| 0 <= i < b.len() && b[i] == x;
        assert((a + b)[a.len() + i] == x);
    }
}

proof fn lemma_asked_for_grows(
    ts: Seq<GenericTemplate>,
    pre: Seq<ElmModule>,
    made: Seq<(int, Seq<TypeView>)>,
    entry: (int, Seq<TypeView>),
    w: (Seq<char>, Seq<TypeView>),
    upto: int,
)
    requires
        upto <= made.len(),
        asked_for(ts, pre, made, w, upto),
    ensures
        asked_for(ts, pre, made.push(entry), w, upto),
{
    let g = template_names(ts);
    if !(exists|i: int| 0 <= i < pre.len() && #[trigger] module_wanted(g, pre[i]).contains(w)) {
        let j = choose|j: int| 0 <= j < upto && #[trigger] instance_wanted(g, ts[made[j].0], made[j].1).contains(w);
        assert(made.push(entry)[j] == made[j]);
    }
}

proof fn lemma_asked_by_newest(
    ts: Seq<GenericTemplate>,
    pre: Seq<ElmModule>,
    made: Seq<(int, Seq<TypeView>)>,
    entry: (int, Seq<TypeView>),
    w: (Seq<char>, Seq<TypeView>),
)
    requires
        instance_wanted(template_names(ts), ts[entry.0], entry.1).contains(w),
    ensures
        asked_for(ts, pre, made.push(entry), w, (made.len() + 1) as int),
{
    assert(made.push(entry)[made.len() as int] == entry);
}


/// The modules `pre` rewritten, then the instantiations `made` built.
#[verifier::opaque]
spec fn inv_modules(ts: Seq<GenericTemplate>, pre: Seq<ElmModule>, ms: Seq<ElmModule>, made: Seq<(int, Seq<TypeView>)>) -> bool {
    let g = template_names(ts);
    let n = pre.len();
    &&& ms.len() == n + made.len()
    &&& forall|q: int| 0 <= q < n ==> module_monoed(g, pre[q], #[trigger] ms[q])
    &&& forall|k: int|
        0 <= k < made.len() ==> 0 <= (#[trigger] made[k]).0 < ts.len() && instance_module(g, ts[made[k].0], made[k].1, ms[n + k])
}

/// The names `done` of the instantiations built, each once; each job
/// named; the first `qi` jobs built.
#[verifier::opaque]
spec fn inv_names(ts: Seq<GenericTemplate>, made: Seq<(int, Seq<TypeView>)>, jobs: Seq<SynthJob>, done: Seq<Seq<char>>, qi: int) -> bool {
    let g = template_names(ts);
    &&& done == made_names(ts, made)
    &&& made_names(ts, made).no_duplicates()
    &&& forall|q: int| 0 <= q < jobs.len() ==> job_named(g, ts, #[trigger] jobs[q])
    &&& forall|q: int| 0 <= q < qi ==> done.contains(#[trigger] jobs[q].name@)
}

/// Every instantiation asked for so far is among the jobs.
#[verifier::opaque]
spec fn inv_wanted(ts: Seq<GenericTemplate>, pre: Seq<ElmModule>, made: Seq<(int, Seq<TypeView>)>, jobs: Seq<SynthJob>) -> bool {
    let g = template_names(ts);
    &&& forall|q: int, w: (Seq<char>, Seq<TypeView>)|
        0 <= q < pre.len() && #[trigger] module_wanted(g, pre[q]).contains(w) ==> jobs_view(ts, jobs).contains(w)
    &&& forall|k: int, w: (Seq<char>, Seq<TypeView>)|
        0 <= k < made.len() && #[trigger] instance_wanted(g, ts[made[k].0], made[k].1).contains(w) ==> jobs_view(ts, jobs).contains(w)
}

/// Every job, and every instantiation built, was asked for.
#[verifier::opaque]
spec fn inv_asked(ts: Seq<GenericTemplate>, pre: Seq<ElmModule>, made: Seq<(int, Seq<TypeView>)>, jobs: Seq<SynthJob>) -> bool {
    &&& forall|q: int| 0 <= q < jobs.len() ==> asked_for(ts, pre, made, #[trigger] jobs_view(ts, jobs)[q], made.len() as int)
    &&& forall|k: int| 0 <= k < made.len() ==> asked_for(ts, pre, made, (ts[(#[trigger] made[k]).0].full_name@, made[k].1), k)
}

/// What holds while instantiations are built.
spec fn drain_inv(
    ts: Seq<GenericTemplate>,
    pre: Seq<ElmModule>,
    ms: Seq<ElmModule>,
    made: Seq<(int, Seq<TypeView>)>,
    jobs: Seq<SynthJob>,
    done: Seq<Seq<char>>,
    qi: int,
) -> bool {
    &&& 0 <= qi <= jobs.len()
    &&& inv_modules(ts, pre, ms, made)
    &&& inv_names(ts, made, jobs, done, qi)
    &&& inv_wanted(ts, pre, made, jobs)
    &&& inv_asked(ts, pre, made, jobs)
}

proof fn lemma_drain_start(ts: Seq<GenericTemplate>, pre: Seq<ElmModule>, ms: Seq<ElmModule>, jobs: Seq<SynthJob>)
    requires
        ms.len() == pre.len(),
        forall|q: int| 0 <= q < pre.len() ==> module_monoed(template_names(ts), pre[q], #[trigger] ms[q]),
        forall|q: int| 0 <= q < jobs.len() ==> job_named(template_names(ts), ts, #[trigger] jobs[q]),
        forall|q: int, w: (Seq<char>, Seq<TypeView>)|
            0 <= q < pre.len() && #[trigger] module_wanted(template_names(ts), pre[q]).contains(w) ==> jobs_view(ts, jobs).contains(w),
        forall|q: int| 0 <= q < jobs.len() ==> asked_for(ts, pre, Seq::empty(), #[trigger] jobs_view(ts, jobs)[q], 0),
    ensures
        drain_inv(ts, pre, ms, Seq::empty(), jobs, Seq::empty(), 0),
{
    reveal(inv_modules);
    reveal(inv_names);
    reveal(inv_wanted);
    reveal(inv_asked);
    assert(made_names(ts, Seq::empty()) =~= Seq::<Seq<char>>::empty());
}

proof fn lemma_drain_job(
    ts: Seq<GenericTemplate>,
    pre: Seq<ElmModule>,
    ms: Seq<ElmModule>,
    made: Seq<(int, Seq<TypeView>)>,
    jobs: Seq<SynthJob>,
    done: Seq<Seq<char>>,
    qi: int,
)
    requires
        drain_inv(ts, pre, ms, made, jobs, done, qi),
        qi < jobs.len(),
    ensures
        job_named(template_names(ts), ts, jobs[qi]),
{
    reveal(inv_names);
}

proof fn lemma_drain_skip(
    ts: Seq<GenericTemplate>,
    pre: Seq<ElmModule>,
    ms: Seq<ElmModule>,
    made: Seq<(int, Seq<TypeView>)>,
    jobs: Seq<SynthJob>,
    done: Seq<Seq<char>>,
    qi: int,
)
    requires
        drain_inv(ts, pre, ms, made, jobs, done, qi),
        qi < jobs.len(),
        done.contains(jobs[qi].name@),
    ensures
        drain_inv(ts, pre, ms, made, jobs, done, qi + 1),
{
    reveal(inv_names);
}

proof fn lemma_step_modules(
    ts: Seq<GenericTemplate>,
    pre: Seq<ElmModule>,
    ms0: Seq<ElmModule>,
    ms1: Seq<ElmModule>,
    made: Seq<(int, Seq<TypeView>)>,
    entry: (int, Seq<TypeView>),
)
    requires
        inv_modules(ts, pre, ms0, made),
        0 <= entry.0 < ts.len(),
        ms1.len() == ms0.len() + 1,
        ms1.drop_last() == ms0,
        instance_module(template_names(ts), ts[entry.0], entry.1, ms1.last()),
    ensures
        inv_modules(ts, pre, ms1, made.push(entry)),
{
    reveal(inv_modules);
    let g = template_names(ts);
    let n = pre.len();
    let m2 = made.push(entry);
    assert forall|q: int| 0 <= q < n implies module_monoed(g, pre[q], #[trigger] ms1[q]) by {
        assert(ms1[q] == ms0[q]);
    }
    assert forall|k: int|
        0 <= k < m2.len() implies 0 <= (#[trigger] m2[k]).0 < ts.len() && instance_module(g, ts[m2[k].0], m2[k].1, ms1[n + k]) by {
        if k < made.len() {
            assert(m2[k] == made[k]);
            assert(ms1[n + k] == ms0[n + k]);
        }
    }
}

proof fn lemma_step_names(
    ts: Seq<GenericTemplate>,
    made: Seq<(int, Seq<TypeView>)>,
    entry: (int, Seq<TypeView>),
    jobs0: Seq<SynthJob>,
    jobs1: Seq<SynthJob>,
    done0: Seq<Seq<char>>,
    done1: Seq<Seq<char>>,
    qi: int,
)
    requires
        inv_names(ts, made, jobs0, done0, qi),
        0 <= qi < jobs0.len(),
        !done0.contains(jobs0[qi].name@),
        done1 == done0.push(jobs0[qi].name@),
        entry == (jobs0[qi].template as int, types_view(jobs0[qi].args@)),
        jobs_kept(jobs0, jobs1),
        forall|k: int|
            0 <= k < jobs1.len() && (k >= jobs0.len() || job_named(template_names(ts), ts, jobs0[k])) ==> job_named(
                template_names(ts),
                ts,
                #[trigger] jobs1[k],
            ),
    ensures
        inv_names(ts, made.push(entry), jobs1, done1, qi + 1),
        job_named(template_names(ts), ts, jobs0[qi]),
{
    reveal(inv_names);
    let g = template_names(ts);
    let m2 = made.push(entry);
    assert(job_named(g, ts, jobs0[qi]));
    assert(made_names(ts, m2) =~= made_names(ts, made).push(jobs0[qi].name@));
    assert forall|a: int, b: int| 0 <= a < b < made_names(ts, m2).len() implies made_names(ts, m2)[a] != made_names(
        ts,
        m2,
    )[b] by {
        assert(made_names(ts, made)[a] == made_names(ts, m2)[a]);
        if b < made.len() {
            assert(made_names(ts, made)[b] == made_names(ts, m2)[b]);
        }
    }
    assert forall|q: int| 0 <= q < qi + 1 implies done1.contains(#[trigger] jobs1[q].name@) by {
        assert(jobs1[q] == jobs0[q]);
        if q < qi {
            let w = choose|w: int| 0 <= w < done0.len() && done0[w] == jobs0[q].name@;
            assert(done1[w] == done0[w]);
        } else {
            assert(done1[done0.len() as int] == jobs0[qi].name@);
        }
    }
}

proof fn lemma_step_wanted(
    ts: Seq<GenericTemplate>,
    pre: Seq<ElmModule>,
    made: Seq<(int, Seq<TypeView>)>,
    entry: (int, Seq<TypeView>),
    jobs0: Seq<SynthJob>,
    jobs1: Seq<SynthJob>,
)
    requires
        inv_wanted(ts, pre, made, jobs0),
        jobs_view(ts, jobs1) == jobs_view(ts, jobs0) + instance_wanted(template_names(ts), ts[entry.0], entry.1),
    ensures
        inv_wanted(ts, pre, made.push(entry), jobs1),
{
    reveal(inv_wanted);
    let g = template_names(ts);
    let m2 = made.push(entry);
    let iw = instance_wanted(g, ts[entry.0], entry.1);
    assert forall|q: int, w: (Seq<char>, Seq<TypeView>)|
        0 <= q < pre.len() && #[trigger] module_wanted(g, pre[q]).contains(w) implies jobs_view(ts, jobs1).contains(w) by {
        lemma_contains_add(jobs_view(ts, jobs0), iw, w);
    }
    assert forall|k: int, w: (Seq<char>, Seq<TypeView>)|
        0 <= k < m2.len() && #[trigger] instance_wanted(g, ts[m2[k].0], m2[k].1).contains(w) implies jobs_view(ts, jobs1).contains(w) by {
        lemma_contains_add(jobs_view(ts, jobs0), iw, w);
        if k < made.len() {
            assert(m2[k] == made[k]);
        }
    }
}

proof fn lemma_step_asked(
    ts: Seq<GenericTemplate>,
    pre: Seq<ElmModule>,
    made: Seq<(int, Seq<TypeView>)>,
    entry: (int, Seq<TypeView>),
    jobs0: Seq<SynthJob>,
    jobs1: Seq<SynthJob>,
    qi: int,
)
    requires
        inv_asked(ts, pre, made, jobs0),
        0 <= qi < jobs0.len(),
        jobs_view(ts, jobs0)[qi] == (ts[entry.0].full_name@, entry.1),
        jobs_view(ts, jobs1) == jobs_view(ts, jobs0) + instance_wanted(template_names(ts), ts[entry.0], entry.1),
    ensures
        inv_asked(ts, pre, made.push(entry), jobs1),
{
    reveal(inv_asked);
    let g = template_names(ts);
    let m2 = made.push(entry);
    let iw = instance_wanted(g, ts[entry.0], entry.1);
    assert(jobs_view(ts, jobs1).len() == jobs1.len());
    assert(jobs_view(ts, jobs0).len() == jobs0.len());
    assert forall|q: int| 0 <= q < jobs1.len() implies asked_for(
        ts,
        pre,
        m2,
        #[trigger] jobs_view(ts, jobs1)[q],
        m2.len() as int,
    ) by {
        let w = jobs_view(ts, jobs1)[q];
        if q < jobs0.len() {
            assert(jobs_view(ts, jobs1)[q] == jobs_view(ts, jobs0)[q]);
            lemma_asked_for_grows(ts, pre, made, entry, w, made.len() as int);
        } else {
            assert(iw[q - jobs0.len()] == w);
            lemma_asked_by_newest(ts, pre, made, entry, w);
        }
    }
    assert forall|k: int| 0 <= k < m2.len() implies asked_for(ts, pre, m2, (ts[(#[trigger] m2[k]).0].full_name@, m2[k].1), k) by {
        if k < made.len() {
            assert(m2[k] == made[k]);
            lemma_asked_for_grows(ts, pre, made, entry, (ts[made[k].0].full_name@, made[k].1), k);
        } else {
            assert(m2[k] == entry);
            lemma_asked_for_grows(ts, pre, made, entry, jobs_view(ts, jobs0)[qi], made.len() as int);
        }
    }
}

proof fn lemma_drain_step(
    ts: Seq<GenericTemplate>,
    pre: Seq<ElmModule>,
    ms0: Seq<ElmModule>,
    ms1: Seq<ElmModule>,
    made: Seq<(int, Seq<TypeView>)>,
    entry: (int, Seq<TypeView>),
    jobs0: Seq<SynthJob>,
    jobs1: Seq<SynthJob>,
    done0: Seq<Seq<char>>,
    done1: Seq<Seq<char>>,
    qi: int,
)
    requires
        drain_inv(ts, pre, ms0, made, jobs0, done0, qi),
        qi < jobs0.len(),
        !done0.contains(jobs0[qi].name@),
        done1 == done0.push(jobs0[qi].name@),
        entry == (jobs0[qi].template as int, types_view(jobs0[qi].args@)),
        jobs_view(ts, jobs1) == jobs_view(ts, jobs0) + instance_wanted(template_names(ts), ts[entry.0], entry.1),
        jobs_kept(jobs0, jobs1),
        forall|k: int|
            0 <= k < jobs1.len() && (k >= jobs0.len() || job_named(template_names(ts), ts, jobs0[k])) ==> job_named(
                template_names(ts),
                ts,
                #[trigger] jobs1[k],
            ),
        ms1.len() == ms0.len() + 1,
        ms1.drop_last() == ms0,
        instance_module(template_names(ts), ts[entry.0], entry.1, ms1.last()),
    ensures
        drain_inv(ts, pre, ms1, made.push(entry), jobs1, done1, qi + 1),
{
    lemma_step_names(ts, made, entry, jobs0, jobs1, done0, done1, qi);
    lemma_step_modules(ts, pre, ms0, ms1, made, entry);
    lemma_step_wanted(ts, pre, made, entry, jobs0, jobs1);
    assert(jobs_view(ts, jobs0)[qi] == job_view(ts, jobs0[qi]));
    lemma_step_asked(ts, pre, made, entry, jobs0, jobs1, qi);
    assert(jobs_view(ts, jobs1).len() == jobs1.len());
}

proof fn lemma_drain_end(
    ts: Seq<GenericTemplate>,
    pre: Seq<ElmModule>,
    ms: Seq<ElmModule>,
    made: Seq<(int, Seq<TypeView>)>,
    jobs: Seq<SynthJob>,
    done: Seq<Seq<char>>,
    qi: int,
    complete: bool,
)
    requires
        drain_inv(ts, pre, ms, made, jobs, done, qi),
        complete == (qi >= jobs.len()),
        !complete ==> made.len() == INSTANCE_LIMIT,
    ensures
        instantiated_with(ts, pre, ms, made, complete),
{
    reveal(inv_modules);
    reveal(inv_names);
    reveal(inv_wanted);
    reveal(inv_asked);
    let g = template_names(ts);
    if complete {
        assert forall|i: int, w: (Seq<char>, Seq<TypeView>)|
            0 <= i < pre.len() && #[trigger] module_wanted(g, pre[i]).contains(w) implies made_names(ts, made).contains(
                instance_name(g, w.0, w.1),
            ) by {
            let q = choose|q: int| 0 <= q < jobs_view(ts, jobs).len() && jobs_view(ts, jobs)[q] == w;
            assert(job_named(g, ts, jobs[q]));
            assert(done.contains(jobs[q].name@));
        }
        assert forall|k: int, w: (Seq<char>, Seq<TypeView>)|
            0 <= k < made.len() && #[trigger] instance_wanted(g, ts[made[k].0], made[k].1).contains(w)
                implies made_names(ts, made).contains(instance_name(g, w.0, w.1)) by {
            let q = choose|q: int| 0 <= q < jobs_view(ts, jobs).len() && jobs_view(ts, jobs)[q] == w;
            assert(job_named(g, ts, jobs[q]));
            assert(done.contains(jobs[q].name@));
        }
    }
}

fn template_name_list(templates: &Vec<GenericTemplate>) -> (r: Vec<String>)
    ensures
        views_of(r@) == template_names(templates@),
{
    let mut r: Vec<String> = Vec::new();
    let mut i: usize = 0;
    while i < templates.len()
        invariant
            i <= templates.len(),
            r@.len() == i,
            forall|j: int| 0 <= j < i ==> #[trigger] r@[j]@ == templates@[j].full_name@,
        decreases templates.len() - i,
    {
        r.push(templates[i].full_name.clone());
        i += 1;
    }
    assert(views_of(r@) =~= template_names(templates@));
    r
}

/// Points every reference to an instantiation of a generic struct at the
/// instantiation's module, and builds the module of each instantiation
/// asked for, each once, until none is left or `INSTANCE_LIMIT` modules
/// have been built (see `instantiated_with`). Says whether none is left.
#[verifier::spinoff_prover]
#[verifier::rlimit(60)]
pub fn instantiate_generics(context: &mut ElmContext, templates: &Vec<GenericTemplate>) -> (complete: bool)
    ensures
        generics_instantiated(templates@, old(context).modules@, final(context).modules@, complete),
{
    let generics = template_name_list(templates);
    let ghost g = views_of(generics@);
    let ghost ts = templates@;
    let ghost pre = context.modules@;
    let n = context.modules.len();
    let mut jobs: Vec<SynthJob> = Vec::new();
    let mut i: usize = 0;
    while i < n
        invariant
            i <= n,
            n == pre.len(),
            context.modules@.len() == n,
            g == views_of(generics@),
            ts == templates@,
            g == template_names(ts),
            forall|q: int| 0 <= q < i ==> module_monoed(g, pre[q], #[trigger] context.modules@[q]),
            forall|q: int| i <= q < n ==> #[trigger] context.modules@[q] == pre[q],
            forall|q: int| 0 <= q < jobs@.len() ==> job_named(g, ts, #[trigger] jobs@[q]),
            forall|q: int, w: (Seq<char>, Seq<TypeView>)|
                0 <= q < i && #[trigger] module_wanted(g, pre[q]).contains(w) ==> jobs_view(ts, jobs@).contains(w),
            forall|q: int| 0 <= q < jobs@.len() ==> asked_for(ts, pre, Seq::empty(), #[trigger] jobs_view(ts, jobs@)[q], 0),
        decreases n - i,
    {
        let ghost before = jobs@;
        let ghost ms = context.modules@;
        mono_module(&mut context.modules[i], templates, &generics, &mut jobs);
        proof {
            assert forall|q: int, w: (Seq<char>, Seq<TypeView>)|
                0 <= q < i + 1 && #[trigger] module_wanted(g, pre[q]).contains(w) implies jobs_view(
                    ts,
                    jobs@,
                ).contains(w) by {
                lemma_contains_add(jobs_view(ts, before), module_wanted(g, pre[i as int]), w);
            }
            assert forall|q: int| 0 <= q < i + 1 implies module_monoed(g, pre[q], #[trigger] context.modules@[q]) by {
                if q < i {
                    assert(context.modules@[q] == ms[q]);
                }
            }
            assert forall|q: int| 0 <= q < jobs@.len() implies asked_for(
                ts,
                pre,
                Seq::empty(),
                #[trigger] jobs_view(ts, jobs@)[q],
                0,
            ) by {
                if q < before.len() {
                    assert(jobs_view(ts, jobs@)[q] == jobs_view(ts, before)[q]);
                } else {
                    let w = jobs_view(ts, jobs@)[q];
                    assert(ms[i as int] == pre[i as int]);
                    let a = jobs_view(ts, before);
                    let b = module_wanted(g, pre[i as int]);
                    assert(jobs_view(ts, jobs@) == a + b);
                    assert(a.len() == before.len());
                    assert(jobs_view(ts, jobs@).len() == jobs@.len());
                    assert((a + b).len() == a.len() + b.len());
                    assert((a + b)[q] == b[q - a.len()]);
                    assert(b[q - before.len()] == w);
                    assert(module_wanted(g, pre[i as int]).contains(w));
                }
            }
        }
        i += 1;
    }
    let ghost mut made: Seq<(int, Seq<TypeView>)> = Seq::empty();
    let mut done: Vec<String> = Vec::new();
    let mut qi: usize = 0;
    proof {
        assert(views_of(done@) =~= Seq::<Seq<char>>::empty());
        assert(made =~= Seq::<(int, Seq<TypeView>)>::empty());
        lemma_drain_start(ts, pre, context.modules@, jobs@);
    }
    while qi < jobs.len() && done.len() < INSTANCE_LIMIT
        invariant
            n == pre.len(),
            g == views_of(generics@),
            ts == templates@,
            g == template_names(ts),
            done@.len() == made.len(),
            done@.len() <= INSTANCE_LIMIT,
            drain_inv(ts, pre, context.modules@, made, jobs@, views_of(done@), qi as int),
        decreases INSTANCE_LIMIT - done@.len(), jobs@.len() - qi,
    {
        proof {
            lemma_drain_job(ts, pre, context.modules@, made, jobs@, views_of(done@), qi as int);
        }
        let name = jobs[qi].name.clone();
        if !contains_str(&done, name.as_str()) {
            let job = SynthJob { template: jobs[qi].template, args: copy_types(&jobs[qi].args), name: name.clone() };
            let ghost before = jobs@;
            let ghost ms = context.modules@;
            let ghost d0 = views_of(done@);
            let ghost entry = (job.template as int, types_view(job.args@));
            build_generic_instantiation_module(&job, context, templates, &generics, &mut jobs);
            proof {
                crate::text::lemma_views_of_push(done@, name);
            }
            done.push(name);
            proof {
                lemma_drain_step(ts, pre, ms, context.modules@, made, entry, before, jobs@, d0, views_of(done@), qi as int);
                made = made.push(entry);
            }
        } else {
            proof {
                lemma_drain_skip(ts, pre, context.modules@, made, jobs@, views_of(done@), qi as int);
            }
        }
        qi += 1;
    }
    proof {
        lemma_drain_end(ts, pre, context.modules@, made, jobs@, views_of(done@), qi as int, qi >= jobs@.len());
    }
    qi >= jobs.len()
}

// ── Rewriting and substituting ────────────────────────────────────────

fn mono_types(ts: &Vec<ElmType>, generics: &Vec<String>) -> (r: Vec<ElmType>)
    ensures
        types_view(r@) == monos_v(views_of(generics@), types_view(ts@)),
    decreases ts, 0nat,
{
    let ghost g = views_of(generics@);
    let mut r: Vec<ElmType> = Vec::new();
    let mut i: usize = 0;
    while i < ts.len()
        invariant
            i <= ts.len(),
            g == views_of(generics@),
            r@.len() == i,
            forall|j: int| 0 <= j < i ==> #[trigger] type_view(r@[j]) == mono_v(g, type_view(ts@[j])),
            decreases_to!(*ts => ts@),
        decreases ts.len() - i,
    {
        assert(decreases_to!(ts@ => ts@[i as int]));
        let c = mono_type(&ts[i], generics);
        r.push(c);
        i += 1;
    }
    assert forall|j: int| 0 <= j < ts@.len() implies types_view(r@)[j] == monos_v(g, types_view(ts@))[j] by {
        assert(type_view(r@[j]) == mono_v(g, type_view(ts@[j])));
    }
    assert(types_view(r@) =~= monos_v(g, types_view(ts@)));
    r
}

/// The type with every reference to an instantiation of one of the
/// generic structs `generics` pointed at the instantiation's module (see
/// `mono_v`).
pub fn mono_type(t: &ElmType, generics: &Vec<String>) -> (r: ElmType)
    ensures
        type_view(r) == mono_v(views_of(generics@), type_view(*t)),
    decreases *t, 1nat,
{
    let ghost g = views_of(generics@);
    match t {
        ElmType::StructRef(m, s, args) => {
            assert(types_view(args@).len() == args@.len());
            if args.len() > 0 && contains_str(generics, m.as_str()) {
                let name = instance_name_of(m.as_str(), args, generics);
                let r = ElmType::StructRef(name, *s, Vec::new());
                assert(types_view(Seq::<ElmType>::empty()) =~= Seq::<TypeView>::empty());
                r
            } else {
                ElmType::StructRef(m.clone(), *s, mono_types(args, generics))
            }
        },
        ElmType::EnumRef(m, s, vs, args) => ElmType::EnumRef(m.clone(), *s, copy_variants(vs), mono_types(args, generics)),
        ElmType::InterfaceRef(m, s, args) => ElmType::InterfaceRef(m.clone(), *s, mono_types(args, generics)),
        ElmType::List(inner) => ElmType::List(Box::new(mono_type(inner, generics))),
        ElmType::UnionInline(bs, gps) => {
            let mut out: Vec<ElmUnionBranch> = Vec::new();
            let mut i: usize = 0;
            while i < bs.len()
                invariant
                    i <= bs.len(),
                    g == views_of(generics@),
                    out@.len() == i,
                    *t == ElmType::UnionInline(*bs, *gps),
                    forall|j: int| 0 <= j < i ==> #[trigger] branch_view_with(out@[j], type_view(out@[j].elm_type))
                        == branch_view_with(bs@[j], mono_v(g, type_view(bs@[j].elm_type))),
                    decreases_to!(*t => bs@),
                decreases bs.len() - i,
            {
                assert(decreases_to!(bs@ => bs@[i as int]));
                let b = &bs[i];
                let c = mono_type(&b.elm_type, generics);
                out.push(ElmUnionBranch {
                    name: b.name.clone(),
                    discriminant: b.discriminant,
                    elm_type: c,
                    offset: b.offset,
                    is_pointer: b.is_pointer,
                    default_value: b.default_value,
                    needs_cap_table: b.needs_cap_table,
                });
                i += 1;
            }
            assert forall|j: int| 0 <= j < bs@.len() implies branches_view(out@)[j] == branches_mono_v(
                g,
                branches_view(bs@),
            )[j] by {
                assert(branch_view_with(out@[j], type_view(out@[j].elm_type)) == branch_view_with(
                    bs@[j],
                    mono_v(g, type_view(bs@[j].elm_type)),
                ));
            }
            assert(branches_view(out@) =~= branches_mono_v(g, branches_view(bs@)));
            ElmType::UnionInline(out, copy_strings(gps))
        },
        _ => copy_type(t),
    }
}

proof fn lemma_param_index(ps: Seq<Seq<char>>, p: Seq<char>, i: int)
    requires
        0 <= i <= ps.len(),
        forall|j: int| 0 <= j < i ==> ps[j] != p,
        i < ps.len() ==> ps[i] == p,
    ensures
        param_index(ps, p) == i,
    decreases i,
{
    if ps.len() > 0 && i > 0 {
        assert forall|j: int| 0 <= j < i - 1 implies ps.drop_first()[j] != p by {
            assert(ps.drop_first()[j] == ps[j + 1]);
        }
        if i < ps.len() {
            assert(ps.drop_first()[i - 1] == ps[i]);
        }
        lemma_param_index(ps.drop_first(), p, i - 1);
    }
}

fn subst_types(ts: &Vec<ElmType>, params: &Vec<String>, args: &Vec<ElmType>) -> (r: Vec<ElmType>)
    ensures
        types_view(r@) == substs_v(views_of(params@), types_view(args@), types_view(ts@)),
    decreases ts, 0nat,
{
    let ghost ps = views_of(params@);
    let ghost av = types_view(args@);
    let mut r: Vec<ElmType> = Vec::new();
    let mut i: usize = 0;
    while i < ts.len()
        invariant
            i <= ts.len(),
            ps == views_of(params@),
            av == types_view(args@),
            r@.len() == i,
            forall|j: int| 0 <= j < i ==> #[trigger] type_view(r@[j]) == subst_v(ps, av, type_view(ts@[j])),
            decreases_to!(*ts => ts@),
        decreases ts.len() - i,
    {
        assert(decreases_to!(ts@ => ts@[i as int]));
        let c = subst_type(&ts[i], params, args);
        r.push(c);
        i += 1;
    }
    assert forall|j: int| 0 <= j < ts@.len() implies types_view(r@)[j] == substs_v(ps, av, types_view(ts@))[j] by {
        assert(type_view(r@[j]) == subst_v(ps, av, type_view(ts@[j])));
    }
    assert(types_view(r@) =~= substs_v(ps, av, types_view(ts@)));
    r
}

/// The type with each of the parameters `params` replaced by the argument
/// at its index (see `subst_v`).
pub fn subst_type(t: &ElmType, params: &Vec<String>, args: &Vec<ElmType>) -> (r: ElmType)
    ensures
        type_view(r) == subst_v(views_of(params@), types_view(args@), type_view(*t)),
    decreases *t, 1nat,
{
    let ghost ps = views_of(params@);
    let ghost av = types_view(args@);
    match t {
        ElmType::GenericParam(p) => {
            let mut i: usize = 0;
            while i < params.len() && !crate::text::str_eq(params[i].as_str(), p.as_str())
                invariant
                    i <= params.len(),
                    ps == views_of(params@),
                    forall|j: int| 0 <= j < i ==> #[trigger] ps[j] != p@,
                decreases params.len() - i,
            {
                i += 1;
            }
            proof {
                lemma_param_index(ps, p@, i as int);
            }
            if i < params.len() {
                if i < args.len() {
                    assert(av[i as int] == type_view(args@[i as int]));
                    copy_type(&args[i])
                } else {
                    ElmType::AnyPointer
                }
            } else {
                ElmType::GenericParam(p.clone())
            }
        },
        ElmType::StructRef(m, s, a) => ElmType::StructRef(m.clone(), *s, subst_types(a, params, args)),
        ElmType::EnumRef(m, s, vs, a) => ElmType::EnumRef(m.clone(), *s, copy_variants(vs), subst_types(a, params, args)),
        ElmType::InterfaceRef(m, s, a) => ElmType::InterfaceRef(m.clone(), *s, subst_types(a, params, args)),
        ElmType::List(inner) => ElmType::List(Box::new(subst_type(inner, params, args))),
        ElmType::UnionInline(bs, gps) => {
            let mut out: Vec<ElmUnionBranch> = Vec::new();
            let mut i: usize = 0;
            while i < bs.len()
                invariant
                    i <= bs.len(),
                    ps == views_of(params@),
                    av == types_view(args@),
                    out@.len() == i,
                    *t == ElmType::UnionInline(*bs, *gps),
                    forall|j: int| 0 <= j < i ==> #[trigger] branch_view_with(out@[j], type_view(out@[j].elm_type))
                        == branch_view_with(bs@[j], subst_v(ps, av, type_view(bs@[j].elm_type))),
                    decreases_to!(*t => bs@),
                decreases bs.len() - i,
            {
                assert(decreases_to!(bs@ => bs@[i as int]));
                let b = &bs[i];
                let c = subst_type(&b.elm_type, params, args);
                out.push(ElmUnionBranch {
                    name: b.name.clone(),
                    discriminant: b.discriminant,
                    elm_type: c,
                    offset: b.offset,
                    is_pointer: b.is_pointer,
                    default_value: b.default_value,
                    needs_cap_table: b.needs_cap_table,
                });
                i += 1;
            }
            assert forall|j: int| 0 <= j < bs@.len() implies branches_view(out@)[j] == branches_subst_v(
                ps,
                av,
                branches_view(bs@),
            )[j] by {
                assert(branch_view_with(out@[j], type_view(out@[j].elm_type)) == branch_view_with(
                    bs@[j],
                    subst_v(ps, av, type_view(bs@[j].elm_type)),
                ));
            }
            assert(branches_view(out@) =~= branches_subst_v(ps, av, branches_view(bs@)));
            ElmType::UnionInline(out, copy_strings(gps))
        },
        _ => copy_type(t),
    }
}

// ── Copies ────────────────────────────────────────────────────────────

fn copy_variants(vs: &Vec<ElmEnumVariant>) -> (r: Vec<ElmEnumVariant>)
    ensures
        r@ == vs@,
{
    let mut r: Vec<ElmEnumVariant> = Vec::new();
    let mut i: usize = 0;
    while i < vs.len()
        invariant
            i <= vs.len(),
            r@ == vs@.take(i as int),
        decreases vs.len() - i,
    {
        r.push(vs[i].clone());
        assert(r@ =~= vs@.take(i + 1));
        i += 1;
    }
    assert(vs@.take(vs.len() as int) =~= vs@);
    r
}

fn copy_types(ts: &Vec<ElmType>) -> (r: Vec<ElmType>)
    ensures
        types_view(r@) == types_view(ts@),
    decreases ts, 0nat,
{
    let mut r: Vec<ElmType> = Vec::new();
    let mut i: usize = 0;
    while i < ts.len()
        invariant
            i <= ts.len(),
            r@.len() == i,
            forall|j: int| 0 <= j < i ==> #[trigger] type_view(r@[j]) == type_view(ts@[j]),
            decreases_to!(*ts => ts@),
        decreases ts.len() - i,
    {
        assert(decreases_to!(ts@ => ts@[i as int]));
        let c = copy_type(&ts[i]);
        r.push(c);
        i += 1;
    }
    assert forall|j: int| 0 <= j < ts@.len() implies types_view(r@)[j] == types_view(ts@)[j] by {
        assert(type_view(r@[j]) == type_view(ts@[j]));
    }
    assert(types_view(r@) =~= types_view(ts@));
    r
}

/// A copy of an Elm type.
pub fn copy_type(t: &ElmType) -> (r: ElmType)
    ensures
        type_view(r) == type_view(*t),
    decreases *t, 1nat,
{
    match t {
        ElmType::Primitive(p) => ElmType::Primitive(*p),
        ElmType::StructRef(m, s, args) => ElmType::StructRef(m.clone(), *s, copy_types(args)),
        ElmType::EnumRef(m, s, vs, args) => ElmType::EnumRef(m.clone(), *s, copy_variants(vs), copy_types(args)),
        ElmType::InterfaceRef(m, s, args) => ElmType::InterfaceRef(m.clone(), *s, copy_types(args)),
        ElmType::AnyPointer => ElmType::AnyPointer,
        ElmType::List(inner) => ElmType::List(Box::new(copy_type(inner))),
        ElmType::UnionInline(bs, gps) => {
            let mut out: Vec<ElmUnionBranch> = Vec::new();
            let mut i: usize = 0;
            while i < bs.len()
                invariant
                    i <= bs.len(),
                    out@.len() == i,
                    *t == ElmType::UnionInline(*bs, *gps),
                    forall|j: int| 0 <= j < i ==> #[trigger] branch_view_with(out@[j], type_view(out@[j].elm_type))
                        == branch_view_with(bs@[j], type_view(bs@[j].elm_type)),
                    decreases_to!(*t => bs@),
                decreases bs.len() - i,
            {
                assert(decreases_to!(bs@ => bs@[i as int]));
                let b = &bs[i];
                let c = copy_type(&b.elm_type);
                out.push(ElmUnionBranch {
                    name: b.name.clone(),
                    discriminant: b.discriminant,
                    elm_type: c,
                    offset: b.offset,
                    is_pointer: b.is_pointer,
                    default_value: b.default_value,
                    needs_cap_table: b.needs_cap_table,
                });
                i += 1;
            }
            assert forall|j: int| 0 <= j < bs@.len() implies branches_view(out@)[j] == branches_view(bs@)[j] by {
                assert(branch_view_with(out@[j], type_view(out@[j].elm_type)) == branch_view_with(
                    bs@[j],
                    type_view(bs@[j].elm_type),
                ));
            }
            assert(branches_view(out@) =~= branches_view(bs@));
            ElmType::UnionInline(out, copy_strings(gps))
        },
        ElmType::GenericParam(g) => ElmType::GenericParam(g.clone()),
    }
}

} // verus!
