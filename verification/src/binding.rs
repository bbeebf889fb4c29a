//! Binding the schema to the Elm IR: the conversion of schema nodes into
//! Elm modules, and the pass that marks which structs need the capability
//! table to decode.
use vstd::prelude::*;

use crate::capnproto::{DefaultValue, Enumerator, Field, Method, Node, NodeKind, ParsedSchema, RequestedFile, Type};
use crate::elm::{ElmDefaultValue, ElmEnumVariant, ElmMethod, ElmTypeDef, FloatBits};
use crate::naming::{lowercase, lower_camel_case, to_lower_camel_case, to_lowercase};
use crate::type_mapping::{
    entry_describes, files_by_id, forest_index, is_group_node, before_last_dot, field_needs_bitwise, module_path_of, sorted_unique, strictly_sorted, without_name,
    collect_imports_from_type, current_params, elm_default, extract_type_name, extracted_type_name,
    imports_of, is_pointer_type, maps_to, map_default_value, ref_module, schema_type_is_pointer,
    NodeEntry, TypeMappingContext,
};
use crate::text::{concat_all, lemma_views_of_add, lemma_views_of_push};
use crate::generics::{
    forest_generics, generic_templates, generics_instantiated, instance_module, instantiate_generics, instantiated_with,
    module_monoed, template_names, templates_of, GenericTemplate, TypeView,
};

use crate::elm::{
    any_true, full_name, has_interface_ref, is_interface_module, module_full_name, ElmContext, ElmField, ElmModule,
    ElmType, ElmUnionBranch,
};
use crate::text::{owned, views_of};

verus! {

// ── Specification ─────────────────────────────────────────────────────

/// The full name of a module.
pub open spec fn module_name_of(m: ElmModule) -> Seq<char> {
    full_name(m.path@, m.name@)
}

/// Whether decoding a field or branch of type `t`, inside the module named
/// `current`, must pass the capability table down: a capability does; a
/// struct reference does when its module (`current` for a reference
/// without module) is in `needs` or one of its type arguments does; a list
/// when its element does; a union when one of its branches does.
pub open spec fn targets_cap_table(t: ElmType, needs: Set<Seq<char>>, current: Seq<char>) -> bool
    decreases t,
{
    match t {
        ElmType::InterfaceRef(_, _, _) => true,
        ElmType::StructRef(m, _, args) => needs.contains(
            if m@.len() == 0 {
                current
            } else {
                m@
            },
        ) || any_true(types_target_cap_table(args@, needs, current)),
        ElmType::List(inner) => targets_cap_table(*inner, needs, current),
        ElmType::UnionInline(bs, _) => any_true(branches_target_cap_table(bs@, needs, current)),
        _ => false,
    }
}

pub open spec fn types_target_cap_table(
    ts: Seq<ElmType>,
    needs: Set<Seq<char>>,
    current: Seq<char>,
) -> Seq<bool>
    decreases ts,
{
    Seq::new(ts.len(), |i: int| 0 <= i < ts.len() && targets_cap_table(ts[i], needs, current))
}

pub open spec fn branches_target_cap_table(
    bs: Seq<ElmUnionBranch>,
    needs: Set<Seq<char>>,
    current: Seq<char>,
) -> Seq<bool>
    decreases bs,
{
    Seq::new(
        bs.len(),
        |i: int| 0 <= i < bs.len() && targets_cap_table(bs[i].elm_type, needs, current),
    )
}

/// For each field, whether its type targets the capability table.
pub open spec fn fields_target_cap_table(
    fs: Seq<ElmField>,
    needs: Set<Seq<char>>,
    current: Seq<char>,
) -> Seq<bool> {
    Seq::new(fs.len(), |i: int| targets_cap_table(fs[i].elm_type, needs, current))
}

/// For each field, whether its type mentions a capability.
pub open spec fn fields_have_interface_ref(fs: Seq<ElmField>) -> Seq<bool> {
    Seq::new(fs.len(), |i: int| has_interface_ref(fs[i].elm_type))
}

/// A module has a capability field of its own.
pub open spec fn has_direct_caps(m: ElmModule) -> bool {
    any_true(fields_have_interface_ref(m.fields@))
}

/// A module refers, through one of its fields, to something that needs the
/// capability table when the modules named in `needs` do.
pub open spec fn refers_to_cap_table(m: ElmModule, needs: Set<Seq<char>>) -> bool {
    any_true(fields_target_cap_table(m.fields@, needs, module_name_of(m)))
}

/// The names of the modules marked as needing the capability table.
pub open spec fn needing_names(ms: Seq<ElmModule>) -> Set<Seq<char>> {
    Set::new(
        |n: Seq<char>|
            exists|i: int| 0 <= i < ms.len() && ms[i].needs_cap_table && module_name_of(ms[i]) == n,
    )
}

/// A set of module names closed under the capability-table rule: every
/// module with a capability field, and every module referring to a member,
/// is a member.
pub open spec fn closed_under_cap_rule(ms: Seq<ElmModule>, s: Set<Seq<char>>) -> bool {
    forall|i: int|
        0 <= i < ms.len() && (has_direct_caps(ms[i]) || refers_to_cap_table(ms[i], s))
            ==> s.contains(#[trigger] module_name_of(ms[i]))
}

// ── Lemmas ────────────────────────────────────────────────────────────

/// Targeting the capability table is monotone in the set of needing
/// modules.
pub proof fn lemma_targets_monotone(
    t: ElmType,
    a: Set<Seq<char>>,
    b: Set<Seq<char>>,
    current: Seq<char>,
)
    requires
        a.subset_of(b),
        targets_cap_table(t, a, current),
    ensures
        targets_cap_table(t, b, current),
    decreases t,
{
    match t {
        ElmType::StructRef(m, _, args) => {
            let name = if m@.len() == 0 { current } else { m@ };
            if !a.contains(name) {
                let i = choose|i: int|
                    0 <= i < types_target_cap_table(args@, a, current).len()
                        && #[trigger] types_target_cap_table(args@, a, current)[i];
                assert(decreases_to!(args => args@[i]));
                lemma_targets_monotone(args@[i], a, b, current);
                assert(types_target_cap_table(args@, b, current)[i]);
            }
        },
        ElmType::List(inner) => {
            lemma_targets_monotone(*inner, a, b, current);
        },
        ElmType::UnionInline(bs, _) => {
            let i = choose|i: int|
                0 <= i < branches_target_cap_table(bs@, a, current).len()
                    && #[trigger] branches_target_cap_table(bs@, a, current)[i];
            assert(decreases_to!(bs => bs@[i]));
            lemma_targets_monotone(bs@[i].elm_type, a, b, current);
            assert(branches_target_cap_table(bs@, b, current)[i]);
        },
        _ => {},
    }
}

/// Referring to the capability table is monotone in the set of needing
/// modules.
pub proof fn lemma_refers_monotone(m: ElmModule, a: Set<Seq<char>>, b: Set<Seq<char>>)
    requires
        a.subset_of(b),
        refers_to_cap_table(m, a),
    ensures
        refers_to_cap_table(m, b),
{
    let cur = module_name_of(m);
    let i = choose|i: int|
        0 <= i < fields_target_cap_table(m.fields@, a, cur).len()
            && #[trigger] fields_target_cap_table(m.fields@, a, cur)[i];
    lemma_targets_monotone(m.fields@[i].elm_type, a, b, cur);
    assert(fields_target_cap_table(m.fields@, b, cur)[i]);
}


// ── Executable checks ─────────────────────────────────────────────────

/// Whether `name` is one of `names`.
fn contains_name(names: &Vec<String>, name: &str) -> (b: bool)
    ensures
        b == views_of(names@).contains(name@),
{
    let mut i: usize = 0;
    while i < names.len()
        invariant
            i <= names.len(),
            forall|j: int| 0 <= j < i ==> names@[j]@ != name@,
        decreases names.len() - i,
    {
        let s = names[i].as_str();
        if crate::text::str_eq(s, name) {
            assert(views_of(names@)[i as int] == name@);
            return true;
        }
        i += 1;
    }
    assert forall|x: Seq<char>| views_of(names@).contains(x) implies x != name@ by {
        let j = choose|j: int| 0 <= j < views_of(names@).len() && views_of(names@)[j] == x;
        assert(names@[j]@ == x);
    }
    false
}

fn any_type_targets(args: &Vec<ElmType>, needs: &Vec<String>, current: &str) -> (b: bool)
    ensures
        b == any_true(types_target_cap_table(args@, views_of(needs@).to_set(), current@)),
    decreases args, 0nat,
{
    let ghost set = views_of(needs@).to_set();
    let mut i: usize = 0;
    while i < args.len()
        invariant
            i <= args.len(),
            set == views_of(needs@).to_set(),
            forall|j: int| 0 <= j < i ==> !#[trigger] types_target_cap_table(args@, set, current@)[j],
            decreases_to!(*args => args@),
        decreases args.len() - i,
    {
        assert(decreases_to!(args@ => args@[i as int]));
        if type_targets_needs_cap_table(&args[i], needs, current) {
            assert(types_target_cap_table(args@, set, current@)[i as int]);
            return true;
        }
        i += 1;
    }
    false
}

/// Whether decoding a value of type `t` inside the module `current` must
/// pass the capability table down, given the modules named in `needs`.
fn type_targets_needs_cap_table(t: &ElmType, needs: &Vec<String>, current: &str) -> (b: bool)
    ensures
        b == targets_cap_table(*t, views_of(needs@).to_set(), current@),
    decreases *t, 1nat,
{
    let ghost set = views_of(needs@).to_set();
    match t {
        ElmType::InterfaceRef(..) => true,
        ElmType::StructRef(m, _, args) => {
            let target = if m.as_str().is_empty() {
                current
            } else {
                m.as_str()
            };
            contains_name(needs, target) || any_type_targets(args, needs, current)
        },
        ElmType::List(inner) => type_targets_needs_cap_table(inner, needs, current),
        ElmType::UnionInline(branches, gps) => {
            let mut i: usize = 0;
            while i < branches.len()
                invariant
                    i <= branches.len(),
                    *t == ElmType::UnionInline(*branches, *gps),
                    set == views_of(needs@).to_set(),
                    forall|j: int|
                        0 <= j < i ==> !#[trigger] branches_target_cap_table(branches@, set, current@)[j],
                    decreases_to!(*t => branches@),
                decreases branches.len() - i,
            {
                assert(decreases_to!(branches@ => branches@[i as int]));
                if type_targets_needs_cap_table(&branches[i].elm_type, needs, current) {
                    assert(branches_target_cap_table(branches@, set, current@)[i as int]);
                    return true;
                }
                i += 1;
            }
            assert(!any_true(branches_target_cap_table(branches@, set, current@)));
            false
        },
        _ => false,
    }
}

/// Whether a value of type `t` carries capabilities itself or decodes
/// through a struct that needs the capability table.
fn type_carries_cap_table(t: &ElmType, needs: &Vec<String>, current: &str) -> (b: bool)
    ensures
        b == (has_interface_ref(*t) || targets_cap_table(*t, views_of(needs@).to_set(), current@)),
{
    t.contains_interface_ref() || type_targets_needs_cap_table(t, needs, current)
}


// ── The capability-table closure ──────────────────────────────────────

/// The module is `orig` with only its capability-table mark changed.
pub open spec fn only_mark_changed(orig: ElmModule, m: ElmModule) -> bool {
    m == ElmModule { needs_cap_table: m.needs_cap_table, ..orig }
}

/// A union branch stamped with whether it needs the capability table.
pub open spec fn stamp_branch(b: ElmUnionBranch, needs: Set<Seq<char>>, current: Seq<char>) -> ElmUnionBranch {
    ElmUnionBranch { needs_cap_table: targets_cap_table(b.elm_type, needs, current), ..b }
}

/// `new_f` is `old_f` with its capability-table stamp: each branch of a
/// union container, or a plain field itself.
pub open spec fn field_stamped(
    old_f: ElmField,
    new_f: ElmField,
    needs: Set<Seq<char>>,
    current: Seq<char>,
) -> bool {
    if old_f.is_union_container {
        match old_f.elm_type {
            ElmType::UnionInline(bs, gps) => {
                &&& new_f == ElmField { elm_type: new_f.elm_type, ..old_f }
                &&& new_f.elm_type matches ElmType::UnionInline(bs2, gps2)
                &&& gps2 == gps
                &&& bs2@ == bs@.map_values(|b: ElmUnionBranch| stamp_branch(b, needs, current))
            },
            _ => new_f == old_f,
        }
    } else {
        new_f == ElmField {
            needs_cap_table: targets_cap_table(old_f.elm_type, needs, current),
            ..old_f
        }
    }
}

/// The import that gives a module the `Rpc` name.
pub open spec fn rpc_import() -> Seq<char> {
    "Rpc.Client as Rpc"@
}

/// `new_m` is `old_m` after the capability-table pass, with `needs` the
/// names of all modules that need the table.
pub open spec fn module_stamped(old_m: ElmModule, new_m: ElmModule, needs: Set<Seq<char>>) -> bool {
    let cur = module_name_of(old_m);
    &&& new_m == ElmModule {
        needs_cap_table: new_m.needs_cap_table,
        imports: new_m.imports,
        fields: new_m.fields,
        methods: new_m.methods,
        ..old_m
    }
    &&& new_m.needs_cap_table == (has_direct_caps(old_m) || refers_to_cap_table(old_m, needs))
    &&& views_of(new_m.imports@) == if new_m.needs_cap_table && !views_of(old_m.imports@).contains(
        rpc_import(),
    ) {
        views_of(old_m.imports@).push(rpc_import())
    } else {
        views_of(old_m.imports@)
    }
    &&& new_m.fields.len() == old_m.fields.len()
    &&& forall|j: int|
        0 <= j < old_m.fields.len() ==> field_stamped(
            #[trigger] old_m.fields@[j],
            new_m.fields@[j],
            needs,
            cur,
        )
    &&& new_m.methods.len() == old_m.methods.len()
    &&& forall|k: int|
        0 <= k < old_m.methods.len() ==> #[trigger] new_m.methods@[k] == (crate::elm::ElmMethod {
            result_has_caps: has_interface_ref(old_m.methods@[k].result_type) || targets_cap_table(
                old_m.methods@[k].result_type,
                needs,
                cur,
            ),
            ..old_m.methods@[k]
        })
}

/// How many modules are not marked.
pub open spec fn count_unmarked(ms: Seq<ElmModule>) -> nat
    decreases ms.len(),
{
    if ms.len() == 0 {
        0
    } else {
        count_unmarked(ms.drop_last()) + if ms.last().needs_cap_table {
            0nat
        } else {
            1nat
        }
    }
}

proof fn lemma_count_unmarked_monotone(a: Seq<ElmModule>, b: Seq<ElmModule>)
    requires
        a.len() == b.len(),
        forall|i: int| 0 <= i < a.len() && a[i].needs_cap_table ==> b[i].needs_cap_table,
    ensures
        count_unmarked(b) <= count_unmarked(a),
        (exists|i: int| 0 <= i < a.len() && !a[i].needs_cap_table && b[i].needs_cap_table)
            ==> count_unmarked(b) < count_unmarked(a),
    decreases a.len(),
{
    if a.len() > 0 {
        let a1 = a.drop_last();
        let b1 = b.drop_last();
        assert forall|i: int| 0 <= i < a1.len() && a1[i].needs_cap_table implies b1[i].needs_cap_table by {
            assert(a[i] == a1[i] && b[i] == b1[i]);
        }
        lemma_count_unmarked_monotone(a1, b1);
        if exists|i: int| 0 <= i < a.len() && !a[i].needs_cap_table && b[i].needs_cap_table {
            let i = choose|i: int| 0 <= i < a.len() && !a[i].needs_cap_table && b[i].needs_cap_table;
            if i < a.len() - 1 {
                assert(a1[i] == a[i] && b1[i] == b[i]);
            }
        }
    }
}


/// The full names of the marked modules.
fn collect_needing_names(ms: &Vec<ElmModule>) -> (r: Vec<String>)
    ensures
        views_of(r@).to_set() == needing_names(ms@),
{
    let mut r: Vec<String> = Vec::new();
    let mut i: usize = 0;
    while i < ms.len()
        invariant
            i <= ms.len(),
            views_of(r@).to_set() == needing_names(ms@.take(i as int)),
        decreases ms.len() - i,
    {
        let ghost before = r@;
        let ghost prev = ms@.take(i as int);
        let ghost next = ms@.take(i + 1);
        if ms[i].needs_cap_table {
            let name = module_full_name(&ms[i]);
            r.push(name);
        }
        assert(views_of(r@).to_set() =~= needing_names(next)) by {
            assert forall|n: Seq<char>| views_of(r@).to_set().contains(n) implies needing_names(next).contains(n) by {
                let j = choose|j: int| 0 <= j < views_of(r@).len() && views_of(r@)[j] == n;
                if j < before.len() {
                    assert(views_of(before)[j] == n);
                    assert(views_of(before).contains(n));
                    assert(needing_names(prev).contains(n));
                    let k = choose|k: int|
                        0 <= k < prev.len() && prev[k].needs_cap_table
                            && #[trigger] module_name_of(prev[k]) == n;
                    assert(next[k] == prev[k]);
                } else {
                    assert(next[i as int] == ms@[i as int]);
                }
            }
            assert forall|n: Seq<char>| needing_names(next).contains(n) implies views_of(r@).to_set().contains(n) by {
                let k = choose|k: int|
                    0 <= k < next.len() && next[k].needs_cap_table
                        && #[trigger] module_name_of(next[k]) == n;
                if k < i {
                    assert(next[k] == prev[k]);
                    assert(needing_names(prev).contains(n));
                    assert(views_of(before).contains(n));
                    let j = choose|j: int| 0 <= j < views_of(before).len() && views_of(before)[j] == n;
                    assert(views_of(r@)[j] == n);
                } else {
                    assert(views_of(r@)[r@.len() - 1] == n);
                }
            }
        }
        i += 1;
    }
    assert(ms@.take(ms.len() as int) =~= ms@);
    r
}


pub fn fields_have_caps(fields: &Vec<ElmField>) -> (b: bool)
    ensures
        b == any_true(fields_have_interface_ref(fields@)),
{
    let mut i: usize = 0;
    while i < fields.len()
        invariant
            i <= fields.len(),
            forall|j: int| 0 <= j < i ==> !#[trigger] fields_have_interface_ref(fields@)[j],
        decreases fields.len() - i,
    {
        if fields[i].elm_type.contains_interface_ref() {
            assert(fields_have_interface_ref(fields@)[i as int]);
            return true;
        }
        i += 1;
    }
    false
}

fn fields_target(fields: &Vec<ElmField>, needs: &Vec<String>, current: &str) -> (b: bool)
    ensures
        b == any_true(fields_target_cap_table(fields@, views_of(needs@).to_set(), current@)),
{
    let ghost set = views_of(needs@).to_set();
    let mut i: usize = 0;
    while i < fields.len()
        invariant
            i <= fields.len(),
            set == views_of(needs@).to_set(),
            forall|j: int| 0 <= j < i ==> !#[trigger] fields_target_cap_table(fields@, set, current@)[j],
        decreases fields.len() - i,
    {
        if type_targets_needs_cap_table(&fields[i].elm_type, needs, current) {
            assert(fields_target_cap_table(fields@, set, current@)[i as int]);
            return true;
        }
        i += 1;
    }
    false
}


fn stamp_branches(
    branches: &mut Vec<ElmUnionBranch>,
    needs: &Vec<String>,
    current: &str,
)
    ensures
        final(branches)@ == old(branches)@.map_values(
            |b: ElmUnionBranch| stamp_branch(b, views_of(needs@).to_set(), current@),
        ),
{
    let ghost set = views_of(needs@).to_set();
    let ghost start = branches@;
    let mut k: usize = 0;
    while k < branches.len()
        invariant
            k <= branches.len(),
            branches.len() == start.len(),
            set == views_of(needs@).to_set(),
            forall|j: int| 0 <= j < k ==> #[trigger] branches@[j] == stamp_branch(start[j], set, current@),
            forall|j: int| k <= j < branches.len() ==> #[trigger] branches@[j] == start[j],
        decreases branches.len() - k,
    {
        let t = type_targets_needs_cap_table(&branches[k].elm_type, needs, current);
        branches[k].needs_cap_table = t;
        k += 1;
    }
    assert(branches@ =~= start.map_values(|b: ElmUnionBranch| stamp_branch(b, set, current@)));
}

fn stamp_field(field: &mut ElmField, needs: &Vec<String>, current: &str)
    ensures
        field_stamped(*old(field), *final(field), views_of(needs@).to_set(), current@),
{
    if field.is_union_container {
        if let ElmType::UnionInline(branches, _) = &mut field.elm_type {
            stamp_branches(branches, needs, current);
        }
    } else {
        field.needs_cap_table = type_targets_needs_cap_table(&field.elm_type, needs, current);
    }
}


/// Everything the capability-table pass changes in a module other than
/// its mark, given the marked names `needs`.
pub open spec fn module_parts_stamped(old_m: ElmModule, new_m: ElmModule, needs: Set<Seq<char>>) -> bool {
    let cur = module_name_of(old_m);
    &&& new_m == ElmModule {
        imports: new_m.imports,
        fields: new_m.fields,
        methods: new_m.methods,
        ..old_m
    }
    &&& views_of(new_m.imports@) == if old_m.needs_cap_table && !views_of(old_m.imports@).contains(
        rpc_import(),
    ) {
        views_of(old_m.imports@).push(rpc_import())
    } else {
        views_of(old_m.imports@)
    }
    &&& new_m.fields.len() == old_m.fields.len()
    &&& forall|j: int|
        0 <= j < old_m.fields.len() ==> field_stamped(
            #[trigger] old_m.fields@[j],
            new_m.fields@[j],
            needs,
            cur,
        )
    &&& new_m.methods.len() == old_m.methods.len()
    &&& forall|k: int|
        0 <= k < old_m.methods.len() ==> #[trigger] new_m.methods@[k] == (crate::elm::ElmMethod {
            result_has_caps: has_interface_ref(old_m.methods@[k].result_type) || targets_cap_table(
                old_m.methods@[k].result_type,
                needs,
                cur,
            ),
            ..old_m.methods@[k]
        })
}

fn stamp_module(module: &mut ElmModule, needs: &Vec<String>)
    ensures
        module_parts_stamped(*old(module), *final(module), views_of(needs@).to_set()),
{
    let ghost set = views_of(needs@).to_set();
    let ghost start = *module;
    // A module that decodes through the capability table refers to `Rpc`.
    if module.needs_cap_table && !contains_name(&module.imports, "Rpc.Client as Rpc") {
        let imp = owned("Rpc.Client as Rpc");
        module.imports.push(imp);
        proof {
            lemma_views_of_push(start.imports@, imp);
        }
    }
    let current = module_full_name(module);
    let mut j: usize = 0;
    while j < module.fields.len()
        invariant
            j <= module.fields.len(),
            module.fields.len() == start.fields.len(),
            set == views_of(needs@).to_set(),
            current@ == module_name_of(start),
            *module == (ElmModule { imports: module.imports, fields: module.fields, ..start }),
            views_of(module.imports@) == if start.needs_cap_table && !views_of(start.imports@).contains(
                rpc_import(),
            ) {
                views_of(start.imports@).push(rpc_import())
            } else {
                views_of(start.imports@)
            },
            forall|k: int|
                0 <= k < j ==> field_stamped(#[trigger] start.fields@[k], module.fields@[k], set, current@),
            forall|k: int| j <= k < module.fields.len() ==> #[trigger] module.fields@[k] == start.fields@[k],
        decreases module.fields.len() - j,
    {
        stamp_field(&mut module.fields[j], needs, current.as_str());
        j += 1;
    }
    let ghost mid = *module;
    let mut k: usize = 0;
    while k < module.methods.len()
        invariant
            k <= module.methods.len(),
            module.methods.len() == start.methods.len(),
            set == views_of(needs@).to_set(),
            current@ == module_name_of(start),
            *module == (ElmModule { methods: module.methods, ..mid }),
            forall|q: int|
                0 <= q < k ==> #[trigger] module.methods@[q] == (crate::elm::ElmMethod {
                    result_has_caps: has_interface_ref(start.methods@[q].result_type)
                        || targets_cap_table(start.methods@[q].result_type, set, current@),
                    ..start.methods@[q]
                }),
            forall|q: int| k <= q < module.methods.len() ==> #[trigger] module.methods@[q] == start.methods@[q],
        decreases module.methods.len() - k,
    {
        let carries = type_carries_cap_table(&module.methods[k].result_type, needs, current.as_str());
        module.methods[k].result_has_caps = carries;
        k += 1;
    }
}

/// Marks every module whose decoding needs the capability table: the
/// least set that holds every module with a capability field and every
/// module that refers (through a field, a union branch, a list element or
/// a type argument) to a marked struct. Then stamps each union branch and
/// each plain field with whether its own decoding needs the table, gives
/// every marked module the `Rpc` import, and recomputes whether each
/// interface method's result carries capabilities.
pub fn propagate_needs_cap_table(context: &mut ElmContext)
    ensures
        final(context).modules.len() == old(context).modules.len(),
        forall|i: int|
            0 <= i < old(context).modules.len() ==> module_stamped(
                #[trigger] old(context).modules@[i],
                final(context).modules@[i],
                needing_names(final(context).modules@),
            ),
        forall|s: Set<Seq<char>>|
            closed_under_cap_rule(old(context).modules@, s) ==> needing_names(
                final(context).modules@,
            ).subset_of(s),
{
    let ghost orig = context.modules@;
    let n = context.modules.len();

    // 1) Modules with a capability field of their own.
    let mut i: usize = 0;
    while i < n
        invariant
            i <= n,
            n == orig.len(),
            context.modules.len() == n,
            forall|j: int| 0 <= j < i ==> #[trigger] context.modules@[j] == (ElmModule {
                needs_cap_table: has_direct_caps(orig[j]),
                ..orig[j]
            }),
            forall|j: int| i <= j < n ==> #[trigger] context.modules@[j] == orig[j],
        decreases n - i,
    {
        let direct = fields_have_caps(&context.modules[i].fields);
        context.modules[i].needs_cap_table = direct;
        i += 1;
    }

    proof {
        let ms = context.modules@;
        assert forall|s: Set<Seq<char>>| closed_under_cap_rule(orig, s) implies needing_names(ms).subset_of(s) by {
            assert forall|x: Seq<char>| needing_names(ms).contains(x) implies s.contains(x) by {
                let k = choose|k: int| 0 <= k < ms.len() && ms[k].needs_cap_table && module_name_of(ms[k]) == x;
                assert(ms[k] == (ElmModule { needs_cap_table: has_direct_caps(orig[k]), ..orig[k] }));
                assert(module_name_of(ms[k]) == module_name_of(orig[k]));
            }
        }
    }

    // 2) Close under references to marked structs.
    loop
        invariant
            n == orig.len(),
            context.modules.len() == n,
            forall|j: int| 0 <= j < n ==> only_mark_changed(orig[j], #[trigger] context.modules@[j]),
            forall|j: int| 0 <= j < n && has_direct_caps(orig[j]) ==> #[trigger] context.modules@[j].needs_cap_table,
            forall|j: int|
                0 <= j < n && #[trigger] context.modules@[j].needs_cap_table ==> has_direct_caps(orig[j])
                    || refers_to_cap_table(orig[j], needing_names(context.modules@)),
            forall|s: Set<Seq<char>>|
                closed_under_cap_rule(orig, s) ==> needing_names(context.modules@).subset_of(s),
        ensures
            context.modules.len() == n,
            forall|j: int| 0 <= j < n ==> only_mark_changed(orig[j], #[trigger] context.modules@[j]),
            forall|j: int|
                0 <= j < n ==> #[trigger] context.modules@[j].needs_cap_table == (has_direct_caps(orig[j])
                    || refers_to_cap_table(orig[j], needing_names(context.modules@))),
            forall|s: Set<Seq<char>>|
                closed_under_cap_rule(orig, s) ==> needing_names(context.modules@).subset_of(s),
        decreases count_unmarked(context.modules@),
    {
        let ghost start = context.modules@;
        let ghost start_names = needing_names(start);
        let names = collect_needing_names(&context.modules);
        let mut changed = false;
        let mut i: usize = 0;
        while i < n
            invariant
                i <= n,
                n == orig.len(),
                context.modules.len() == n,
                start.len() == n,
                start_names == needing_names(start),
                views_of(names@).to_set() == start_names,
                forall|j: int| 0 <= j < n ==> only_mark_changed(orig[j], #[trigger] context.modules@[j]),
                forall|j: int| 0 <= j < n ==> only_mark_changed(orig[j], #[trigger] start[j]),
                forall|j: int| i <= j < n ==> #[trigger] context.modules@[j] == start[j],
                forall|j: int| 0 <= j < n && #[trigger] start[j].needs_cap_table ==> context.modules@[j].needs_cap_table,
                forall|j: int|
                    0 <= j < i && !(#[trigger] context.modules@[j]).needs_cap_table ==> !refers_to_cap_table(orig[j], start_names),
                forall|j: int|
                    0 <= j < i && (#[trigger] context.modules@[j]).needs_cap_table && !start[j].needs_cap_table
                        ==> refers_to_cap_table(orig[j], start_names),
                changed == exists|j: int|
                    0 <= j < i && (#[trigger] context.modules@[j]).needs_cap_table && !start[j].needs_cap_table,
            decreases n - i,
        {
            if !context.modules[i].needs_cap_table {
                let current = module_full_name(&context.modules[i]);
                if fields_target(&context.modules[i].fields, &names, current.as_str()) {
                    context.modules[i].needs_cap_table = true;
                    changed = true;
                    assert(context.modules@[i as int].needs_cap_table && !start[i as int].needs_cap_table);
                }
            }
            i += 1;
        }
        proof {
            let now = context.modules@;
            lemma_count_unmarked_monotone(start, now);
            assert(start_names.subset_of(needing_names(now))) by {
                assert forall|x: Seq<char>| start_names.contains(x) implies needing_names(now).contains(x) by {
                    let k = choose|k: int| 0 <= k < start.len() && start[k].needs_cap_table && module_name_of(start[k]) == x;
                    assert(now[k].needs_cap_table);
                    assert(module_name_of(now[k]) == module_name_of(start[k]));
                }
            }
            assert forall|j: int|
                0 <= j < n && #[trigger] now[j].needs_cap_table implies has_direct_caps(orig[j])
                    || refers_to_cap_table(orig[j], needing_names(now)) by {
                if !has_direct_caps(orig[j]) {
                    if start[j].needs_cap_table {
                        assert(refers_to_cap_table(orig[j], start_names));
                    }
                    lemma_refers_monotone(orig[j], start_names, needing_names(now));
                }
            }
            assert forall|s: Set<Seq<char>>| closed_under_cap_rule(orig, s) implies needing_names(now).subset_of(s) by {
                assert(start_names.subset_of(s));
                assert forall|x: Seq<char>| needing_names(now).contains(x) implies s.contains(x) by {
                    let k = choose|k: int| 0 <= k < now.len() && now[k].needs_cap_table && module_name_of(now[k]) == x;
                    assert(module_name_of(now[k]) == module_name_of(orig[k]));
                    if start[k].needs_cap_table {
                        assert(start_names.contains(x));
                    } else {
                        lemma_refers_monotone(orig[k], start_names, s);
                        assert(s.contains(module_name_of(orig[k])));
                    }
                }
            }
            if !changed {
                assert(now =~= start) by {
                    assert forall|j: int| 0 <= j < n implies now[j] == start[j] by {
                        assert(only_mark_changed(orig[j], now[j]));
                        assert(only_mark_changed(orig[j], start[j]));
                        assert(now[j].needs_cap_table == start[j].needs_cap_table);
                    }
                }
            }
        }
        if !changed {
            break;
        }
    }

    // 3) Stamp fields, branches and method results; import `Rpc` where needed.
    let ghost fixed = context.modules@;
    let names = collect_needing_names(&context.modules);
    let mut i: usize = 0;
    while i < n
        invariant
            i <= n,
            n == orig.len(),
            context.modules.len() == n,
            fixed.len() == n,
            views_of(names@).to_set() == needing_names(fixed),
            forall|j: int| 0 <= j < i ==> module_parts_stamped(fixed[j], #[trigger] context.modules@[j], needing_names(fixed)),
            forall|j: int| i <= j < n ==> #[trigger] context.modules@[j] == fixed[j],
        decreases n - i,
    {
        stamp_module(&mut context.modules[i], &names);
        i += 1;
    }
    proof {
        let ms = context.modules@;
        assert(needing_names(ms) =~= needing_names(fixed)) by {
            assert forall|j: int| 0 <= j < n implies ms[j].needs_cap_table == fixed[j].needs_cap_table
                && module_name_of(ms[j]) == module_name_of(fixed[j]) by {
                assert(module_parts_stamped(fixed[j], ms[j], needing_names(fixed)));
            }
        }
        assert forall|j: int| 0 <= j < n implies module_stamped(#[trigger] orig[j], ms[j], needing_names(ms)) by {
            assert(only_mark_changed(orig[j], fixed[j]));
            assert(module_parts_stamped(fixed[j], ms[j], needing_names(fixed)));
            assert(module_name_of(fixed[j]) == module_name_of(orig[j]));
        }
    }
}

// ── Fields ────────────────────────────────────────────────────────────

/// A field whose type is the struct of a group: its fields are flattened
/// into the enclosing struct's, so it is no field of its own.
pub open spec fn is_group_field(entries: Map<u64, NodeEntry>, f: Field) -> bool {
    f.typ matches Type::StructRef(id, _) && entries.contains_key(id) && entries[id].is_group
}

/// How many of the first `k` fields are capabilities.
pub open spec fn capabilities_before(fs: Seq<ElmField>, k: int) -> nat
    decreases k,
{
    if k <= 0 {
        0
    } else {
        capabilities_before(fs, k - 1) + if fs[k - 1].elm_type is InterfaceRef {
            1nat
        } else {
            0nat
        }
    }
}

/// The capability-table slot of field `k`: capabilities take the slots in
/// the order they are declared.
pub open spec fn cap_slot_of(fs: Seq<ElmField>, k: int) -> Option<u32> {
    if fs[k].elm_type is InterfaceRef {
        Some(capabilities_before(fs, k) as u32)
    } else {
        None
    }
}

/// `ef` is the Elm field of the schema field `cf`.
pub open spec fn field_converted(
    entries: Map<u64, NodeEntry>,
    params: Seq<Seq<char>>,
    cf: Field,
    ef: ElmField,
) -> bool {
    &&& ef.name@ == cf.name@
    &&& ef.discriminant == cf.discriminant
    &&& maps_to(entries, params, cf.typ, ef.elm_type)
    &&& ef.offset == cf.offset
    &&& ef.is_union_container == (ef.elm_type is UnionInline)
    &&& ef.default_value == match cf.default_value {
        Some(v) => Some(elm_default(v)),
        None => None,
    }
    &&& !ef.needs_cap_table
}

/// `new` are the Elm fields of the schema fields `cfs` other than group
/// fields, in order, capabilities numbered by their slots.
pub open spec fn fields_converted(
    entries: Map<u64, NodeEntry>,
    params: Seq<Seq<char>>,
    cfs: Seq<Field>,
    new: Seq<ElmField>,
) -> bool {
    let kept = cfs.filter(|f: Field| !is_group_field(entries, f));
    &&& new.len() == kept.len()
    &&& forall|k: int| 0 <= k < new.len() ==> field_converted(entries, params, kept[k], #[trigger] new[k])
    &&& forall|k: int| 0 <= k < new.len() ==> (#[trigger] new[k]).cap_slot == cap_slot_of(new, k)
}

/// The imports the types of some fields need, in order.
pub open spec fn fields_imports(fs: Seq<ElmField>) -> Seq<Seq<char>> {
    concat_all(fs.map_values(|f: ElmField| imports_of(f.elm_type)))
}

proof fn lemma_capabilities_monotone(fs: Seq<ElmField>, j: int, k: int)
    requires
        0 <= j <= k,
    ensures
        capabilities_before(fs, j) <= capabilities_before(fs, k),
        capabilities_before(fs, k) <= k,
    decreases k,
{
    if k > 0 {
        if j < k {
            lemma_capabilities_monotone(fs, j, k - 1);
        } else {
            lemma_capabilities_monotone(fs, k - 1, k - 1);
        }
    }
}

/// Capabilities take the slots of the capability table in the order they
/// are declared: an earlier capability field has a smaller slot, and the
/// slots of `n` capabilities are `0` to `n - 1`.
pub proof fn law_cap_slots_in_declaration_order(fs: Seq<ElmField>, j: int, k: int)
    requires
        0 <= j < k < fs.len(),
        fs.len() <= u32::MAX,
        fs[j].elm_type is InterfaceRef,
        fs[k].elm_type is InterfaceRef,
    ensures
        cap_slot_of(fs, j) matches Some(a) && cap_slot_of(fs, k) matches Some(b) && a < b,
        cap_slot_of(fs, k) matches Some(b) && (b as int) < capabilities_before(fs, fs.len() as int),
{
    lemma_capabilities_monotone(fs, j + 1, k);
    lemma_capabilities_monotone(fs, k + 1, fs.len() as int);
    lemma_capabilities_monotone(fs, k, k);
}

proof fn lemma_capabilities_prefix(fs: Seq<ElmField>, gs: Seq<ElmField>, k: int)
    requires
        0 <= k <= fs.len(),
        k <= gs.len(),
        forall|j: int| 0 <= j < k ==> (fs[j].elm_type is InterfaceRef) == (gs[j].elm_type is InterfaceRef),
    ensures
        capabilities_before(fs, k) == capabilities_before(gs, k),
    decreases k,
{
    if k > 0 {
        lemma_capabilities_prefix(fs, gs, k - 1);
    }
}

/// Converts the fields of a struct, leaving out group fields; each
/// capability field gets the next capability-table slot. The imports
/// their types need are appended to `imports`.
pub fn convert_fields(
    capnp_fields: &Vec<Field>,
    fields: &mut Vec<ElmField>,
    imports: &mut Vec<String>,
    ctx: &TypeMappingContext,
    current_node_id: u64,
)
    ensures
        final(fields)@.take(old(fields)@.len() as int) == old(fields)@,
        final(fields)@.len() >= old(fields)@.len(),
        fields_converted(
            ctx.entries@,
            current_params(ctx.entries@, current_node_id),
            capnp_fields@,
            final(fields)@.skip(old(fields)@.len() as int),
        ),
        views_of(final(imports)@) == views_of(old(imports)@) + fields_imports(
            final(fields)@.skip(old(fields)@.len() as int),
        ),
{
    let ghost e = ctx.entries@;
    let ghost params = current_params(ctx.entries@, current_node_id);
    let ghost f0 = fields@;
    let ghost i0 = views_of(imports@);
    let ghost base = f0.len() as int;
    let mut next_cap_slot: usize = 0;
    let mut i: usize = 0;
    assert(fields@.skip(base) =~= Seq::<ElmField>::empty());
    assert(fields@.skip(base).map_values(|f: ElmField| imports_of(f.elm_type)) =~= Seq::<Seq<Seq<char>>>::empty());
    assert(i0 + Seq::<Seq<char>>::empty() =~= i0);
    while i < capnp_fields.len()
        invariant
            i <= capnp_fields.len(),
            e == ctx.entries@,
            params == current_params(ctx.entries@, current_node_id),
            base == f0.len(),
            fields@.len() >= base,
            fields@.take(base) == f0,
            fields_converted(e, params, capnp_fields@.take(i as int), fields@.skip(base)),
            next_cap_slot == capabilities_before(fields@.skip(base), fields@.len() - base),
            next_cap_slot <= fields@.len() - base,
            views_of(imports@) == i0 + fields_imports(fields@.skip(base)),
        decreases capnp_fields.len() - i,
    {
        let field = &capnp_fields[i];
        let ghost new0 = fields@.skip(base);
        let ghost kept0 = capnp_fields@.take(i as int).filter(|f: Field| !is_group_field(e, f));
        proof {
            assert(capnp_fields@.take(i + 1).drop_last() =~= capnp_fields@.take(i as int));
            reveal(Seq::filter);
        }
        let skip = match &field.typ {
            Type::StructRef(id, _) => ctx.is_group_struct(*id),
            _ => false,
        };
        if skip {
            proof {
                assert(is_group_field(e, *field));
                assert(capnp_fields@.take(i + 1).filter(|f: Field| !is_group_field(e, f)) =~= kept0);
            }
        } else {
            let elm_type = ctx.map_type(&field.typ, current_node_id);
            let ghost im0 = views_of(imports@);
            collect_imports_from_type(&elm_type, imports);
            let is_union_container = elm_type.is_union();
            let cap_slot = if elm_type.is_interface_ref() {
                let slot = next_cap_slot as u32;
                next_cap_slot += 1;
                Some(slot)
            } else {
                None
            };
            let name = field.name.clone();
            let default_value = map_default_value(&field.default_value);
            let ef = ElmField {
                name,
                discriminant: field.discriminant,
                elm_type,
                offset: field.offset,
                is_union_container,
                default_value,
                cap_slot,
                needs_cap_table: false,
            };
            let ghost fb = fields@;
            fields.push(ef);
            proof {
                let new1 = fields@.skip(base);
                assert(new1 =~= new0.push(ef));
                assert(fields@.take(base) =~= fb.take(base));
                let kept1 = capnp_fields@.take(i + 1).filter(|f: Field| !is_group_field(e, f));
                assert(kept1 =~= kept0.push(*field));
                assert(field_converted(e, params, *field, ef));
                lemma_capabilities_prefix(new0, new1, new0.len() as int);
                assert forall|k: int| 0 <= k < new1.len() implies (#[trigger] new1[k]).cap_slot == cap_slot_of(new1, k) by {
                    if k < new0.len() {
                        lemma_capabilities_prefix(new0, new1, k);
                        assert(new1[k] == new0[k]);
                    }
                }
                assert forall|k: int| 0 <= k < new1.len() implies field_converted(e, params, kept1[k], #[trigger] new1[k]) by {
                    if k < new0.len() {
                        assert(new1[k] == new0[k]);
                        assert(kept1[k] == kept0[k]);
                    }
                }
                assert(new1.map_values(|f: ElmField| imports_of(f.elm_type)) =~= new0.map_values(|f: ElmField| imports_of(f.elm_type)).push(imports_of(ef.elm_type)));
                assert(new1.map_values(|f: ElmField| imports_of(f.elm_type)).drop_last() =~= new0.map_values(|f: ElmField| imports_of(f.elm_type)));
                assert(views_of(imports@) =~= i0 + fields_imports(new1));
            }
        }
        i += 1;
    }
    assert(capnp_fields@.take(capnp_fields.len() as int) =~= capnp_fields@);
}

// ── Enums ─────────────────────────────────────────────────────────────

/// `evs` are the variants of the enumerants `vs`, in order.
pub open spec fn variants_converted(vs: Seq<Enumerator>, evs: Seq<ElmEnumVariant>) -> bool {
    &&& evs.len() == vs.len()
    &&& forall|k: int| 0 <= k < vs.len() ==> (#[trigger] evs[k]).name@ == vs[k].name@ && evs[k].ordinal == vs[k].ordinal
}

/// The single field of an enum module: its entity, with the variants.
pub open spec fn enum_field(entries: Map<u64, NodeEntry>, node_id: u64, vs: Seq<Enumerator>, f: ElmField) -> bool {
    &&& f.name@ == "ignored"@
    &&& f.discriminant is None
    &&& f.elm_type matches ElmType::EnumRef(m, s, evs, args) && m@ == ref_module(entries, node_id) && s@
        == "Entity"@ && variants_converted(vs, evs@) && args@.len() == 0
    &&& f.offset == 0
    &&& !f.is_union_container
    &&& f.default_value is None
    &&& f.cap_slot is None
    &&& !f.needs_cap_table
}

/// Appends the field that holds an enum: its entity with all variants.
pub fn convert_enum_to_fields(
    node_id: u64,
    variants: &Vec<Enumerator>,
    fields: &mut Vec<ElmField>,
    ctx: &TypeMappingContext,
)
    ensures
        final(fields)@.len() == old(fields)@.len() + 1,
        final(fields)@.drop_last() == old(fields)@,
        enum_field(ctx.entries@, node_id, variants@, final(fields)@.last()),
{
    let mut enum_branches: Vec<ElmEnumVariant> = Vec::new();
    let mut i: usize = 0;
    while i < variants.len()
        invariant
            i <= variants.len(),
            enum_branches.len() == i,
            forall|k: int| 0 <= k < i ==> (#[trigger] enum_branches@[k]).name@ == variants@[k].name@
                && enum_branches@[k].ordinal == variants@[k].ordinal,
        decreases variants.len() - i,
    {
        enum_branches.push(ElmEnumVariant { name: variants[i].name.clone(), ordinal: variants[i].ordinal });
        i += 1;
    }
    let full_name = ctx.get_full_type_name(node_id);
    let ghost before = fields@;
    fields.push(
        ElmField {
            name: owned("ignored"),
            discriminant: None,
            elm_type: ElmType::EnumRef(full_name, "Entity", enum_branches, Vec::new()),
            offset: 0,
            is_union_container: false,
            default_value: None,
            cap_slot: None,
            needs_cap_table: false,
        },
    );
    assert(fields@.drop_last() =~= before);
}

// ── Unions ────────────────────────────────────────────────────────────

/// The discriminant of a union member, 0 for a field without one.
pub open spec fn discriminant_or_zero(f: Field) -> u16 {
    match f.discriminant {
        Some(d) => d,
        None => 0,
    }
}

/// `b` is the union branch of the schema field `cf`.
pub open spec fn branch_converted(entries: Map<u64, NodeEntry>, params: Seq<Seq<char>>, cf: Field, b: ElmUnionBranch) -> bool {
    &&& b.name@ == cf.name@
    &&& b.discriminant == discriminant_or_zero(cf)
    &&& maps_to(entries, params, cf.typ, b.elm_type)
    &&& b.offset == cf.offset
    &&& b.is_pointer == schema_type_is_pointer(cf.typ)
    &&& b.default_value == match cf.default_value {
        Some(v) => Some(elm_default(v)),
        None => None,
    }
    &&& !b.needs_cap_table
}

/// `f` is the field holding a union of the members `cfs`, named `name`,
/// with its tag at `offset`, in a struct with the generic parameters
/// `gps`.
pub open spec fn union_container(
    entries: Map<u64, NodeEntry>,
    params: Seq<Seq<char>>,
    cfs: Seq<Field>,
    gps: Seq<Seq<char>>,
    name: Seq<char>,
    offset: u32,
    f: ElmField,
) -> bool {
    &&& f.name@ == name
    &&& f.discriminant is None
    &&& f.offset == offset
    &&& f.is_union_container
    &&& f.default_value is None
    &&& f.cap_slot is None
    &&& !f.needs_cap_table
    &&& f.elm_type matches ElmType::UnionInline(bs, g) && views_of(g@) == gps && bs@.len() == cfs.len()
        && forall|k: int| 0 <= k < cfs.len() ==> branch_converted(entries, params, cfs[k], #[trigger] bs@[k])
}

fn convert_branches(cfs: &Vec<Field>, ctx: &TypeMappingContext, node_id: u64) -> (r: Vec<ElmUnionBranch>)
    ensures
        r@.len() == cfs@.len(),
        forall|k: int| 0 <= k < cfs@.len() ==> branch_converted(ctx.entries@, current_params(ctx.entries@, node_id), cfs@[k], #[trigger] r@[k]),
{
    let mut branches: Vec<ElmUnionBranch> = Vec::new();
    let mut i: usize = 0;
    while i < cfs.len()
        invariant
            i <= cfs.len(),
            branches@.len() == i,
            forall|k: int| 0 <= k < i ==> branch_converted(ctx.entries@, current_params(ctx.entries@, node_id), cfs@[k], #[trigger] branches@[k]),
        decreases cfs.len() - i,
    {
        let field = &cfs[i];
        let discriminant = match field.discriminant {
            Some(d) => d,
            None => 0,
        };
        let branch = ElmUnionBranch {
            name: field.name.clone(),
            discriminant,
            elm_type: ctx.map_type(&field.typ, node_id),
            offset: field.offset,
            is_pointer: is_pointer_type(&field.typ),
            default_value: map_default_value(&field.default_value),
            needs_cap_table: false,
        };
        branches.push(branch);
        i += 1;
    }
    branches
}

pub(crate) fn copy_strings(v: &Vec<String>) -> (r: Vec<String>)
    ensures
        views_of(r@) == views_of(v@),
{
    let mut r: Vec<String> = Vec::new();
    let mut i: usize = 0;
    while i < v.len()
        invariant
            i <= v.len(),
            views_of(r@) == views_of(v@.take(i as int)),
        decreases v.len() - i,
    {
        proof {
            lemma_views_of_push(r@, v@[i as int]);
            assert(v@.take(i + 1) =~= v@.take(i as int).push(v@[i as int]));
        }
        r.push(v[i].clone());
        i += 1;
    }
    assert(v@.take(v.len() as int) =~= v@);
    r
}

/// The generic parameters of a node in lower case.
pub open spec fn lowercase_params(n: Node) -> Seq<Seq<char>> {
    views_of(n.generic_params@).map_values(|p: Seq<char>| lowercase(p))
}

pub(crate) fn lowercased(v: &Vec<String>) -> (r: Vec<String>)
    ensures
        views_of(r@) == views_of(v@).map_values(|p: Seq<char>| lowercase(p)),
{
    let mut r: Vec<String> = Vec::new();
    let mut i: usize = 0;
    while i < v.len()
        invariant
            i <= v.len(),
            views_of(r@) == views_of(v@).take(i as int).map_values(|p: Seq<char>| lowercase(p)),
        decreases v.len() - i,
    {
        let l = to_lowercase(v[i].as_str());
        proof {
            lemma_views_of_push(r@, l);
            assert(views_of(v@).take(i + 1).map_values(|p: Seq<char>| lowercase(p)) =~= views_of(v@).take(i as int).map_values(|p: Seq<char>| lowercase(p)).push(l@));
        }
        r.push(l);
        i += 1;
    }
    assert(views_of(v@).take(v.len() as int) =~= views_of(v@));
    r
}

/// The containers of the named unions among the nodes nested in a
/// struct: one for each nested group that has a union, in order, named
/// after the group in lower camel case.
pub open spec fn named_unions(
    entries: Map<u64, NodeEntry>,
    params: Seq<Seq<char>>,
    ns: Seq<Node>,
    gps: Seq<Seq<char>>,
    fs: Seq<ElmField>,
) -> bool
    decreases ns.len(),
{
    if ns.len() == 0 {
        fs.len() == 0
    } else {
        match ns.last().kind {
            NodeKind::Struct { is_group: true, union_fields: Some(u), discriminant_offset: off, .. } => {
                &&& fs.len() >= 1
                &&& named_unions(entries, params, ns.drop_last(), gps, fs.drop_last())
                &&& union_container(
                    entries,
                    params,
                    u@,
                    gps,
                    lower_camel_case(extracted_type_name(ns.last().display_name@)),
                    off,
                    fs.last(),
                )
            },
            _ => named_unions(entries, params, ns.drop_last(), gps, fs),
        }
    }
}

/// What a struct node is built into: its type, fields, imports and
/// layout.
pub struct BuiltStruct {
    pub type_def: ElmTypeDef,
    pub fields: Vec<ElmField>,
    pub imports: Vec<String>,
    pub data_words: u32,
    pub pointer_words: u32,
    pub discriminant_offset: u32,
}

/// The fields of a module built from a struct node: its fields other
/// than groups, then the container of its own union when it has one
/// (named `unnamedUnion`), else the containers of the named unions of its
/// nested groups.
pub open spec fn struct_fields_built(entries: Map<u64, NodeEntry>, n: Node, fs: Seq<ElmField>) -> bool {
    let params = current_params(entries, n.id);
    let gps = lowercase_params(n);
    match n.kind {
        NodeKind::Struct { fields, union_fields, discriminant_offset, .. } => exists|p: int|
            {
                &&& 0 <= p <= fs.len()
                &&& fields_converted(entries, params, fields@, #[trigger] fs.take(p))
                &&& match union_fields {
                    Some(u) => fs.len() == p + 1 && union_container(
                        entries,
                        params,
                        u@,
                        gps,
                        "unnamedUnion"@,
                        discriminant_offset,
                        fs[p],
                    ),
                    None => named_unions(entries, params, n.nested_nodes@, gps, fs.skip(p)),
                }
            },
        _ => false,
    }
}

/// The contents of a struct module built from a struct node: its fields
/// (see `struct_fields_built`), the imports their types need, and its
/// layout.
pub open spec fn struct_built(entries: Map<u64, NodeEntry>, n: Node, r: BuiltStruct) -> bool {
    match n.kind {
        NodeKind::Struct { data_word_count, pointer_word_count, discriminant_offset, .. } => {
            &&& struct_fields_built(entries, n, r.fields@)
            &&& r.type_def == ElmTypeDef::Struct
            &&& views_of(r.imports@) == fields_imports(r.fields@)
            &&& r.data_words == data_word_count as u32
            &&& r.pointer_words == pointer_word_count as u32
            &&& r.discriminant_offset == discriminant_offset
        },
        _ => false,
    }
}

pub(crate) proof fn lemma_fields_imports_push(fs: Seq<ElmField>, f: ElmField)
    ensures
        fields_imports(fs.push(f)) == fields_imports(fs) + imports_of(f.elm_type),
{
    assert(fs.push(f).map_values(|x: ElmField| imports_of(x.elm_type)).drop_last() =~= fs.map_values(|x: ElmField| imports_of(x.elm_type)));
}

/// Builds the contents of a struct module from a struct node (see
/// `struct_built`).
pub fn build_struct_contents(node: &Node, ctx: &TypeMappingContext) -> (r: BuiltStruct)
    requires
        node.kind is Struct,
    ensures
        struct_built(ctx.entries@, *node, r),
{
    let ghost e = ctx.entries@;
    let ghost params = current_params(ctx.entries@, node.id);
    let mut imports: Vec<String> = Vec::new();
    let mut fields: Vec<ElmField> = Vec::new();
    let generic_params = lowercased(&node.generic_params);
    match &node.kind {
        NodeKind::Struct {
            is_group: _,
            fields: capnp_fields,
            data_word_count,
            pointer_word_count,
            union_fields,
            discriminant_offset: offset,
        } => {
            assert(fields@.skip(0) =~= fields@);
            assert(views_of(imports@) =~= Seq::<Seq<char>>::empty());
            convert_fields(capnp_fields, &mut fields, &mut imports, ctx, node.id);
            let ghost p = fields@.len() as int;
            assert(fields@.skip(0) =~= fields@);
            assert(fields@.take(p) =~= fields@);
            assert(Seq::<Seq<char>>::empty() + fields_imports(fields@) =~= fields_imports(fields@));
            assert(fields_converted(e, params, capnp_fields@, fields@.take(p)));
            if let Some(union_fields) = union_fields {
                let branches = convert_branches(union_fields, ctx, node.id);
                let unnamed_union = ElmField {
                    name: owned("unnamedUnion"),
                    discriminant: None,
                    elm_type: ElmType::UnionInline(branches, copy_strings(&generic_params)),
                    offset: *offset,
                    is_union_container: true,
                    default_value: None,
                    cap_slot: None,
                    needs_cap_table: false,
                };
                collect_imports_from_type(&unnamed_union.elm_type, &mut imports);
                let ghost before = fields@;
                fields.push(unnamed_union);
                proof {
                    lemma_fields_imports_push(before, unnamed_union);
                    assert(fields@.take(p) =~= before);
                }
            } else {
                let ghost head = fields@;
                let nested = &node.nested_nodes;
                let mut i: usize = 0;
                assert(nested@.take(0) =~= Seq::<Node>::empty());
                assert(fields@.skip(p) =~= Seq::<ElmField>::empty());
                while i < nested.len()
                    invariant
                        i <= nested.len(),
                        *nested == node.nested_nodes,
                        e == ctx.entries@,
                        params == current_params(ctx.entries@, node.id),
                        views_of(generic_params@) == lowercase_params(*node),
                        p == head.len(),
                        fields@.len() >= p,
                        fields@.take(p) == head,
                        named_unions(e, params, nested@.take(i as int), lowercase_params(*node), fields@.skip(p)),
                        views_of(imports@) == fields_imports(fields@),
                    decreases nested.len() - i,
                {
                    let nn = &nested[i];
                    proof {
                        assert(nested@.take(i + 1).drop_last() =~= nested@.take(i as int));
                        assert(nested@.take(i + 1).last() == *nn);
                    }
                    match &nn.kind {
                        NodeKind::Struct { is_group: true, union_fields: Some(capnp_union), discriminant_offset: off, .. } => {
                            let branches = convert_branches(capnp_union, ctx, node.id);
                            let short = extract_type_name(nn.display_name.as_str());
                            let name = to_lower_camel_case(short.as_str());
                            let named_union = ElmField {
                                name,
                                discriminant: None,
                                elm_type: ElmType::UnionInline(branches, copy_strings(&generic_params)),
                                offset: *off,
                                is_union_container: true,
                                default_value: None,
                                cap_slot: None,
                                needs_cap_table: false,
                            };
                            collect_imports_from_type(&named_union.elm_type, &mut imports);
                            let ghost before = fields@;
                            fields.push(named_union);
                            proof {
                                lemma_fields_imports_push(before, named_union);
                                assert(fields@.take(p) =~= before.take(p));
                                assert(fields@.skip(p).drop_last() =~= before.skip(p));
                                assert(fields@.skip(p).last() == named_union);
                            }
                        },
                        _ => {},
                    }
                    i += 1;
                }
                assert(nested@.take(nested.len() as int) =~= nested@);
                assert(fields_converted(e, params, capnp_fields@, fields@.take(p)));
                assert(named_unions(e, params, node.nested_nodes@, lowercase_params(*node), fields@.skip(p)));
            }
            assert(fields_converted(e, params, capnp_fields@, fields@.take(p)));
            let r = BuiltStruct {
                type_def: ElmTypeDef::Struct,
                fields,
                imports,
                data_words: *data_word_count as u32,
                pointer_words: *pointer_word_count as u32,
                discriminant_offset: *offset,
            };
            assert(fields_converted(e, params, capnp_fields@, r.fields@.take(p)));
            assert(views_of(r.imports@) == fields_imports(r.fields@));
            assert(0 <= p <= r.fields@.len());
            assert(match *union_fields {
                    Some(u) => r.fields@.len() == p + 1 && union_container(
                        e,
                        params,
                        u@,
                        lowercase_params(*node),
                        "unnamedUnion"@,
                        *offset,
                        r.fields@[p],
                    ),
                    None => named_unions(e, params, node.nested_nodes@, lowercase_params(*node), r.fields@.skip(p)),
                });
            r
        },
        _ => {
            proof {
                assert(false);
            }
            BuiltStruct {
                type_def: ElmTypeDef::Struct,
                fields,
                imports,
                data_words: 0,
                pointer_words: 0,
                discriminant_offset: 0,
            }
        },
    }
}

// ── Nodes to modules ──────────────────────────────────────────────────

/// Whether a schema type refers to a struct with a capability field.
pub open spec fn refers_to_capable_struct(entries: Map<u64, NodeEntry>, t: Type) -> bool {
    t matches Type::StructRef(id, _) && entries.contains_key(id) && entries[id].has_interface_fields
}

/// `em` is the Elm method of the schema method `cm`: the same id, name and
/// implicit parameters, its parameter and result types mapped, with
/// capabilities in the parameter when it is a struct with a capability
/// field, and in the result when its type holds a capability or it is such
/// a struct.
pub open spec fn method_converted(entries: Map<u64, NodeEntry>, params: Seq<Seq<char>>, cm: Method, em: ElmMethod) -> bool {
    &&& em.id == cm.id
    &&& em.name@ == cm.name@
    &&& views_of(em.implicit_parameters@) == views_of(cm.implicit_parameters@)
    &&& maps_to(entries, params, cm.param_type, em.param_type)
    &&& maps_to(entries, params, cm.result_type, em.result_type)
    &&& em.param_has_caps == refers_to_capable_struct(entries, cm.param_type)
    &&& em.result_has_caps == (has_interface_ref(em.result_type) || refers_to_capable_struct(entries, cm.result_type))
}

/// The modules the parameter and result types of methods need, in order.
pub open spec fn methods_imports(ms: Seq<ElmMethod>) -> Seq<Seq<char>>
    decreases ms.len(),
{
    if ms.len() == 0 {
        Seq::empty()
    } else {
        methods_imports(ms.drop_last()) + imports_of(ms.last().param_type) + imports_of(ms.last().result_type)
    }
}

/// The imports a module ends with: the names, sorted, each once.
pub open spec fn imports_are(imports: Seq<Seq<char>>, names: Seq<Seq<char>>) -> bool {
    &&& strictly_sorted(imports)
    &&& imports.to_set() == names.to_set()
}

/// Whether some field of a module needs an XOR mask.
pub open spec fn some_field_needs_bitwise(fs: Seq<ElmField>) -> bool {
    exists|i: int| 0 <= i < fs.len() && field_needs_bitwise(#[trigger] fs[i])
}

/// `Bitwise` when some field needs an XOR mask.
pub open spec fn bitwise_import(fs: Seq<ElmField>) -> Seq<Seq<char>> {
    if some_field_needs_bitwise(fs) {
        seq!["Bitwise"@]
    } else {
        Seq::empty()
    }
}

/// `m` is the module of the node `n` (which has no generic parameters):
/// named after the last part of the node's name, under the path of its
/// full name. An interface has its methods converted and imports what
/// their types need with `Capnproto` and `Rpc`; a struct is built by
/// `struct_fields_built`; an enum has its one enum field; any other node
/// is an empty struct. A struct or enum module imports what its fields
/// need, `Capnproto`, and `Bitwise` when a field needs an XOR mask, but
/// not itself.
pub open spec fn node_module(entries: Map<u64, NodeEntry>, n: Node, m: ElmModule) -> bool {
    let full = ref_module(entries, n.id);
    let params = current_params(entries, n.id);
    let capnproto = seq!["Capnproto"@];
    &&& m.id == n.id
    &&& m.name@ == extracted_type_name(n.display_name@)
    &&& m.path@ == before_last_dot(full)
    &&& m.generic_params@.len() == 0
    &&& !m.needs_cap_table
    &&& m.merged_members@.len() == 0
    &&& match n.kind {
        NodeKind::Interface(methods) => {
            &&& m.type_def == ElmTypeDef::Interface
            &&& m.data_words == 0 && m.pointer_words == 0 && m.discriminant_offset == 0
            &&& m.fields@.len() == 0
            &&& m.methods@.len() == methods.len()
            &&& forall|k: int| 0 <= k < methods.len() ==> method_converted(entries, params, methods@[k], #[trigger] m.methods@[k])
            &&& imports_are(views_of(m.imports@), methods_imports(m.methods@) + seq!["Capnproto"@, "Rpc.Client as Rpc"@])
        },
        NodeKind::Struct { data_word_count, pointer_word_count, discriminant_offset, .. } => {
            &&& m.type_def == ElmTypeDef::Struct
            &&& struct_fields_built(entries, n, m.fields@)
            &&& m.data_words == data_word_count as u32
            &&& m.pointer_words == pointer_word_count as u32
            &&& m.discriminant_offset == discriminant_offset
            &&& m.methods@.len() == 0
            &&& imports_are(
                views_of(m.imports@),
                (fields_imports(m.fields@) + capnproto + bitwise_import(m.fields@)).filter(|x: Seq<char>| x != full),
            )
        },
        NodeKind::Enum(vs) => {
            &&& m.type_def == ElmTypeDef::Enum
            &&& m.fields@.len() == 1 && enum_field(entries, n.id, vs@, m.fields@[0])
            &&& m.data_words == 0 && m.pointer_words == 0 && m.discriminant_offset == 0
            &&& m.methods@.len() == 0
            &&& imports_are(views_of(m.imports@), capnproto.filter(|x: Seq<char>| x != full))
        },
        _ => {
            &&& m.type_def == ElmTypeDef::Struct
            &&& m.fields@.len() == 0
            &&& m.data_words == 0 && m.pointer_words == 0 && m.discriminant_offset == 0
            &&& m.methods@.len() == 0
            &&& imports_are(views_of(m.imports@), capnproto.filter(|x: Seq<char>| x != full))
        },
    }
}

/// Whether a node becomes a module when converted: it has no generic
/// parameters (a generic struct has none of its own; each of its
/// instantiations gets one, see `instantiate_generics`) and is not a group
/// (whose union the struct holding it takes in).
pub open spec fn becomes_module(n: Node) -> bool {
    n.generic_params.len() == 0 && !is_group_node(n)
}

/// The number of modules a node becomes: none for a node that does not
/// become a module (see `becomes_module`), else its own and those of the
/// nodes nested in it.
pub open spec fn node_module_count(n: Node) -> nat
    decreases n, 0nat,
{
    if !becomes_module(n) {
        0
    } else {
        1 + forest_module_count(n.nested_nodes@)
    }
}

/// The number of modules nodes become.
pub open spec fn forest_module_count(ns: Seq<Node>) -> nat
    decreases ns, 1nat,
{
    if ns.len() == 0 {
        0
    } else {
        forest_module_count(ns.drop_last()) + node_module_count(ns.last())
    }
}

/// `ms` are the modules the node becomes: none when it does not become a
/// module (see `becomes_module`), else its own module, then those of the
/// nodes nested in it, in order.
pub open spec fn node_converted(entries: Map<u64, NodeEntry>, n: Node, ms: Seq<ElmModule>) -> bool
    decreases n, 0nat,
{
    &&& ms.len() == node_module_count(n)
    &&& becomes_module(n) ==> {
        &&& node_module(entries, n, ms[0])
        &&& forest_converted(entries, n.nested_nodes@, ms.skip(1))
    }
}

/// A group, and a node with generic parameters, are converted into no
/// module: neither they nor the nodes nested in them become modules (the
/// instantiations of a generic struct are built afterwards).
pub proof fn law_groups_and_generics_have_no_module(entries: Map<u64, NodeEntry>, n: Node, ms: Seq<ElmModule>)
    requires
        node_converted(entries, n, ms),
        is_group_node(n) || n.generic_params.len() > 0,
    ensures
        ms.len() == 0,
{
}

/// `ms` are the modules the nodes become, node after node.
pub open spec fn forest_converted(entries: Map<u64, NodeEntry>, ns: Seq<Node>, ms: Seq<ElmModule>) -> bool
    decreases ns, 1nat,
{
    &&& ms.len() == forest_module_count(ns)
    &&& ns.len() > 0 ==> {
        let k = ms.len() - node_module_count(ns.last());
        &&& forest_converted(entries, ns.drop_last(), ms.take(k))
        &&& node_converted(entries, ns.last(), ms.skip(k))
    }
}

fn convert_methods(methods: &Vec<Method>, ctx: &TypeMappingContext, node_id: u64) -> (r: (Vec<ElmMethod>, Vec<String>))
    ensures
        r.0@.len() == methods@.len(),
        forall|k: int| 0 <= k < methods@.len() ==> method_converted(ctx.entries@, current_params(ctx.entries@, node_id), methods@[k], #[trigger] r.0@[k]),
        views_of(r.1@) == methods_imports(r.0@),
{
    let ghost params = current_params(ctx.entries@, node_id);
    let mut elm_methods: Vec<ElmMethod> = Vec::new();
    let mut imports: Vec<String> = Vec::new();
    let mut i: usize = 0;
    assert(views_of(imports@) =~= Seq::<Seq<char>>::empty());
    while i < methods.len()
        invariant
            i <= methods.len(),
            params == current_params(ctx.entries@, node_id),
            elm_methods@.len() == i,
            forall|k: int| 0 <= k < i ==> method_converted(ctx.entries@, params, methods@[k], #[trigger] elm_methods@[k]),
            views_of(imports@) == methods_imports(elm_methods@),
        decreases methods.len() - i,
    {
        let method = &methods[i];
        let param_type = ctx.map_type(&method.param_type, node_id);
        let result_type = ctx.map_type(&method.result_type, node_id);
        collect_imports_from_type(&param_type, &mut imports);
        collect_imports_from_type(&result_type, &mut imports);
        let param_has_caps = ctx.struct_type_has_interface_fields(&method.param_type);
        let result_has_caps = result_type.contains_interface_ref() || ctx.struct_type_has_interface_fields(&method.result_type);
        let em = ElmMethod {
            id: method.id,
            name: method.name.clone(),
            implicit_parameters: copy_strings(&method.implicit_parameters),
            param_type,
            result_type,
            param_has_caps,
            result_has_caps,
        };
        let ghost before = elm_methods@;
        elm_methods.push(em);
        proof {
            assert(elm_methods@.drop_last() =~= before);
        }
        i += 1;
    }
    (elm_methods, imports)
}

/// The module of a node without generic parameters (see `node_module`).
fn node_to_module(node: &Node, ctx: &TypeMappingContext) -> (m: ElmModule)
    requires
        node.generic_params@.len() == 0,
    ensures
        node_module(ctx.entries@, *node, m),
{
    let ghost e = ctx.entries@;
    let full_module_name = ctx.get_full_type_name(node.id);
    let short_name = extract_type_name(node.display_name.as_str());
    let parent_path = module_path_of(full_module_name.as_str());
    if let NodeKind::Interface(methods) = &node.kind {
        let (elm_methods, mut imports) = convert_methods(methods, ctx, node.id);
        let ghost mi = views_of(imports@);
        push_name(&mut imports, owned("Capnproto"));
        push_name(&mut imports, owned("Rpc.Client as Rpc"));
        let imports = sorted_unique(&imports);
        proof {
            assert(mi.push("Capnproto"@).push("Rpc.Client as Rpc"@) =~= mi + seq!["Capnproto"@, "Rpc.Client as Rpc"@]);
        }
        return ElmModule {
            id: node.id,
            name: short_name,
            path: parent_path,
            imports,
            type_def: ElmTypeDef::Interface,
            data_words: 0,
            pointer_words: 0,
            fields: Vec::new(),
            discriminant_offset: 0,
            methods: elm_methods,
            generic_params: Vec::new(),
            needs_cap_table: false,
            merged_members: Vec::new(),
        };
    }
    let ghost full = full_module_name@;
    let ghost capnproto = seq!["Capnproto"@];
    let mut imports: Vec<String> = Vec::new();
    let mut fields: Vec<ElmField> = Vec::new();
    let mut data_words: u32 = 0;
    let mut pointer_words: u32 = 0;
    let mut discriminant_offset: u32 = 0;
    let type_def = match &node.kind {
        NodeKind::Struct { .. } => {
            let built = build_struct_contents(node, ctx);
            fields = built.fields;
            imports = built.imports;
            data_words = built.data_words;
            pointer_words = built.pointer_words;
            discriminant_offset = built.discriminant_offset;
            built.type_def
        },
        NodeKind::Enum(variants) => {
            convert_enum_to_fields(node.id, variants, &mut fields, ctx);
            ElmTypeDef::Enum
        },
        _ => ElmTypeDef::Struct,
    };
    let ghost base = views_of(imports@);
    push_name(&mut imports, owned("Capnproto"));
    crate::type_mapping::collect_imports_from_defaults(&fields, &mut imports);
    let ghost after = views_of(imports@);
    assert(after == base + capnproto + bitwise_import(fields@));
    let own = full_module_name.as_str();
    let kept = without_name(imports, own);
    proof {
        assert((|x: Seq<char>| x != own@) =~= (|x: Seq<char>| x != full));
    }
    let imports = sorted_unique(&kept);
    proof {
        assert(base.push("Capnproto"@) =~= base + capnproto);
        match &node.kind {
            NodeKind::Struct { .. } => {
                assert(base == fields_imports(fields@));
                assert(imports_are(views_of(imports@), (fields_imports(fields@) + capnproto + bitwise_import(fields@)).filter(|x: Seq<char>| x != full)));
            },
            NodeKind::Enum(vs) => {
                assert(fields@.len() == 1);
                assert(!field_needs_bitwise(fields@[0]));
                assert(!some_field_needs_bitwise(fields@));
                assert(base =~= Seq::<Seq<char>>::empty());
                assert(base + capnproto + bitwise_import(fields@) =~= capnproto);
            },
            NodeKind::Interface(_) => {},
            _ => {
                assert(!some_field_needs_bitwise(fields@));
                assert(base + capnproto + bitwise_import(fields@) =~= capnproto);
            },
        }
    }
    ElmModule {
        id: node.id,
        name: short_name,
        path: parent_path,
        imports,
        type_def,
        data_words,
        pointer_words,
        fields,
        discriminant_offset,
        methods: Vec::new(),
        generic_params: Vec::new(),
        needs_cap_table: false,
        merged_members: Vec::new(),
    }
}

fn push_name(names: &mut Vec<String>, name: String)
    ensures
        views_of(final(names)@) == views_of(old(names)@).push(name@),
{
    proof {
        lemma_views_of_push(names@, name);
    }
    names.push(name);
}

/// Converts a node and the nodes nested in it into modules appended to the
/// context (see `node_converted`), with the node index `ctx`.
pub fn convert_node_to_elm(node: &Node, context: &mut ElmContext, ctx: &TypeMappingContext)
    ensures
        final(context).modules@.len() >= old(context).modules@.len(),
        final(context).modules@.take(old(context).modules@.len() as int) == old(context).modules@,
        node_converted(ctx.entries@, *node, final(context).modules@.skip(old(context).modules@.len() as int)),
    decreases *node,
{
    let ghost start = context.modules@;
    let is_group = match &node.kind {
        NodeKind::Struct { is_group, .. } => *is_group,
        _ => false,
    };
    if node.generic_params.len() > 0 || is_group {
        assert(context.modules@.take(start.len() as int) =~= start);
        return;
    }
    let module = node_to_module(node, ctx);
    context.modules.push(module);
    let ghost first = context.modules@;
    let nested = &node.nested_nodes;
    let mut i: usize = 0;
    proof {
        assert(first.take(start.len() as int) =~= start);
        assert(nested@.take(0) =~= Seq::<Node>::empty());
        assert(context.modules@.skip(first.len() as int) =~= Seq::<ElmModule>::empty());
    }
    while i < nested.len()
        invariant
            i <= nested.len(),
            *nested == node.nested_nodes,
            decreases_to!(*node => nested@),
            context.modules@.len() >= first.len(),
            context.modules@.take(first.len() as int) == first,
            forest_converted(ctx.entries@, nested@.take(i as int), context.modules@.skip(first.len() as int)),
        decreases nested.len() - i,
    {
        assert(decreases_to!(nested@ => nested@[i as int]));
        let ghost before = context.modules@;
        convert_node_to_elm(&nested[i], context, ctx);
        proof {
            let t1 = nested@.take(i + 1);
            let ms = context.modules@.skip(first.len() as int);
            let k = ms.len() - node_module_count(nested@[i as int]);
            assert(t1.drop_last() =~= nested@.take(i as int));
            assert(t1.last() == nested@[i as int]);
            assert(ms.take(k) =~= before.skip(first.len() as int));
            assert(ms.skip(k) =~= context.modules@.skip(before.len() as int));
            assert(context.modules@.take(first.len() as int) =~= before.take(first.len() as int));
        }
        i += 1;
    }
    proof {
        let ms = context.modules@.skip(start.len() as int);
        assert(nested@.take(nested.len() as int) =~= nested@);
        assert(ms.skip(1) =~= context.modules@.skip(first.len() as int));
        assert(ms[0] == first[start.len() as int]);
        assert(context.modules@.take(start.len() as int) =~= first.take(start.len() as int));
    }
}

// ── The context of a schema ───────────────────────────────────────────

/// `entries` is the index of the nodes (and of the nodes nested in
/// them), whose files are named by `files`.
pub open spec fn indexes(entries: Map<u64, NodeEntry>, files: Map<u64, Seq<char>>, nodes: Seq<Node>) -> bool {
    &&& entries.dom() == forest_index(nodes).dom()
    &&& forall|k: u64| #[trigger] entries.contains_key(k) ==> entry_describes(files, forest_index(nodes)[k], entries[k])
}

/// `post` are the modules `pre` after the capability-table pass (see
/// `propagate_needs_cap_table`).
pub open spec fn cap_tables_marked(pre: Seq<ElmModule>, post: Seq<ElmModule>) -> bool {
    &&& post.len() == pre.len()
    &&& forall|i: int| 0 <= i < pre.len() ==> module_stamped(#[trigger] pre[i], post[i], needing_names(post))
    &&& forall|s: Set<Seq<char>>| closed_under_cap_rule(pre, s) ==> needing_names(post).subset_of(s)
}

/// `b` is the field `a` again; a union container may hold another vector
/// of the same branches.
pub open spec fn field_unchanged(a: ElmField, b: ElmField) -> bool {
    ||| b == a
    ||| {
        &&& a.elm_type matches ElmType::UnionInline(bs, gps)
        &&& b.elm_type matches ElmType::UnionInline(bs2, gps2)
        &&& gps2 == gps
        &&& bs2@ == bs@
        &&& b == ElmField { elm_type: b.elm_type, ..a }
    }
}

/// `b` is the module `a` again: the same mark, the same imports, the same
/// fields and union branches, the same methods.
pub open spec fn module_unchanged(a: ElmModule, b: ElmModule) -> bool {
    &&& b == ElmModule { imports: b.imports, fields: b.fields, methods: b.methods, ..a }
    &&& views_of(b.imports@) == views_of(a.imports@)
    &&& b.methods@ == a.methods@
    &&& b.fields.len() == a.fields.len()
    &&& forall|j: int| 0 <= j < a.fields.len() ==> field_unchanged(#[trigger] a.fields@[j], b.fields@[j])
}

/// Stamping a field changes no type in it: whether the field mentions a
/// capability, and whether it targets the table for any set of names, stay
/// as they were.
proof fn lemma_stamp_keeps_types(f0: ElmField, f1: ElmField, needs: Set<Seq<char>>, cur: Seq<char>)
    requires
        field_stamped(f0, f1, needs, cur),
    ensures
        has_interface_ref(f1.elm_type) == has_interface_ref(f0.elm_type),
        forall|s: Set<Seq<char>>, c: Seq<char>|
            #[trigger] targets_cap_table(f1.elm_type, s, c) == targets_cap_table(f0.elm_type, s, c),
{
    if f0.is_union_container {
        if let ElmType::UnionInline(bs, gps) = f0.elm_type {
            if let ElmType::UnionInline(bs2, gps2) = f1.elm_type {
                assert(bs2@.len() == bs@.len());
                assert forall|i: int| 0 <= i < bs@.len() implies #[trigger] bs2@[i].elm_type == bs@[i].elm_type by {
                    assert(bs2@[i] == stamp_branch(bs@[i], needs, cur));
                }
                assert(crate::elm::branches_have_interface_ref(bs2@) =~= crate::elm::branches_have_interface_ref(bs@));
                assert forall|s: Set<Seq<char>>, c: Seq<char>|
                    #[trigger] targets_cap_table(f1.elm_type, s, c) == targets_cap_table(f0.elm_type, s, c) by {
                    assert(branches_target_cap_table(bs2@, s, c) =~= branches_target_cap_table(bs@, s, c));
                }
            }
        }
    }
}

/// The capability-table pass keeps a module's name, whether it has a
/// capability field, and whether it refers to the table for any set of
/// names.
proof fn lemma_stamp_keeps_module_rule(m0: ElmModule, m1: ElmModule, needs: Set<Seq<char>>)
    requires
        module_stamped(m0, m1, needs),
    ensures
        module_name_of(m1) == module_name_of(m0),
        has_direct_caps(m1) == has_direct_caps(m0),
        forall|s: Set<Seq<char>>| #[trigger] refers_to_cap_table(m1, s) == refers_to_cap_table(m0, s),
{
    let cur = module_name_of(m0);
    assert forall|j: int| 0 <= j < m0.fields.len() implies
        has_interface_ref(#[trigger] m1.fields@[j].elm_type) == has_interface_ref(m0.fields@[j].elm_type)
        && forall|s: Set<Seq<char>>, c: Seq<char>|
            #[trigger] targets_cap_table(m1.fields@[j].elm_type, s, c) == targets_cap_table(m0.fields@[j].elm_type, s, c) by {
        lemma_stamp_keeps_types(m0.fields@[j], m1.fields@[j], needs, cur);
    }
    assert(fields_have_interface_ref(m1.fields@) =~= fields_have_interface_ref(m0.fields@));
    assert forall|s: Set<Seq<char>>| #[trigger] refers_to_cap_table(m1, s) == refers_to_cap_table(m0, s) by {
        assert(fields_target_cap_table(m1.fields@, s, cur) =~= fields_target_cap_table(m0.fields@, s, cur));
    }
}

/// A second capability-table pass changes nothing: run on the modules that
/// one pass gave, it marks the same modules, and every module comes out as
/// it went in.
pub proof fn law_cap_table_pass_idempotent(m0: Seq<ElmModule>, m1: Seq<ElmModule>, m2: Seq<ElmModule>)
    requires
        cap_tables_marked(m0, m1),
        cap_tables_marked(m1, m2),
    ensures
        needing_names(m2) == needing_names(m1),
        m2.len() == m1.len(),
        forall|i: int| 0 <= i < m1.len() ==> module_unchanged(#[trigger] m1[i], m2[i]),
{
    let n1 = needing_names(m1);
    let n2 = needing_names(m2);
    assert forall|i: int| 0 <= i < m0.len() implies {
        &&& module_name_of(#[trigger] m1[i]) == module_name_of(m0[i])
        &&& has_direct_caps(m1[i]) == has_direct_caps(m0[i])
        &&& forall|s: Set<Seq<char>>| #[trigger] refers_to_cap_table(m1[i], s) == refers_to_cap_table(m0[i], s)
        &&& module_name_of(m2[i]) == module_name_of(m1[i])
        &&& has_direct_caps(m2[i]) == has_direct_caps(m1[i])
    } by {
        lemma_stamp_keeps_module_rule(m0[i], m1[i], n1);
        lemma_stamp_keeps_module_rule(m1[i], m2[i], n2);
    }
    // The first pass's names are closed under the rule for its own output.
    assert(closed_under_cap_rule(m1, n1)) by {
        assert forall|i: int|
            0 <= i < m1.len() && (has_direct_caps(m1[i]) || refers_to_cap_table(m1[i], n1)) implies
            n1.contains(#[trigger] module_name_of(m1[i])) by {
            assert(refers_to_cap_table(m1[i], n1) == refers_to_cap_table(m0[i], n1));
            assert(m1[i].needs_cap_table);
        }
    }
    // The second pass's names are closed under the rule for the first input.
    assert(closed_under_cap_rule(m0, n2)) by {
        assert forall|i: int|
            0 <= i < m0.len() && (has_direct_caps(m0[i]) || refers_to_cap_table(m0[i], n2)) implies
            n2.contains(#[trigger] module_name_of(m0[i])) by {
            assert(refers_to_cap_table(m1[i], n2) == refers_to_cap_table(m0[i], n2));
            assert(m2[i].needs_cap_table);
            assert(module_name_of(m2[i]) == module_name_of(m0[i]));
        }
    }
    assert(n2 =~= n1);
    assert forall|i: int| 0 <= i < m1.len() implies module_unchanged(#[trigger] m1[i], m2[i]) by {
        let a = m0[i];
        let b = m1[i];
        let c = m2[i];
        let cur = module_name_of(a);
        assert(refers_to_cap_table(b, n1) == refers_to_cap_table(a, n1));
        assert(c.needs_cap_table == b.needs_cap_table);
        if b.needs_cap_table {
            if !views_of(a.imports@).contains(rpc_import()) {
                assert(views_of(b.imports@).last() == rpc_import());
                assert(views_of(b.imports@).contains(rpc_import()));
            }
        }
        assert forall|j: int| 0 <= j < b.fields.len() implies field_unchanged(#[trigger] b.fields@[j], c.fields@[j]) by {
            let f0 = a.fields@[j];
            let f1 = b.fields@[j];
            let f2 = c.fields@[j];
            assert(field_stamped(f0, f1, n1, cur));
            assert(field_stamped(f1, f2, n1, cur));
            if f0.is_union_container {
                if let ElmType::UnionInline(bs0, gps0) = f0.elm_type {
                    if let ElmType::UnionInline(bs1, gps1) = f1.elm_type {
                        if let ElmType::UnionInline(bs2, gps2) = f2.elm_type {
                            assert forall|k: int| 0 <= k < bs1@.len() implies #[trigger] bs2@[k] == bs1@[k] by {
                                assert(bs1@[k] == stamp_branch(bs0@[k], n1, cur));
                                assert(bs2@[k] == stamp_branch(bs1@[k], n1, cur));
                            }
                            assert(bs2@ =~= bs1@);
                        }
                    }
                }
            }
        }
        assert forall|k: int| 0 <= k < b.methods@.len() implies #[trigger] c.methods@[k] == b.methods@[k] by {
            assert(b.methods@[k] == (crate::elm::ElmMethod {
                result_has_caps: has_interface_ref(a.methods@[k].result_type) || targets_cap_table(
                    a.methods@[k].result_type,
                    n1,
                    cur,
                ),
                ..a.methods@[k]
            }));
        }
        assert(c.methods@ =~= b.methods@);
    }
}

/// `ms` are the modules of the context of the nodes, whose files are named
/// by `files`: the nodes converted with their index, the instantiations of
/// their generic structs built and referred to (see
/// `generics_instantiated`; all of them when `complete`), then every
/// module marked for the capability table.
pub open spec fn context_of(files: Map<u64, Seq<char>>, nodes: Seq<Node>, ms: Seq<ElmModule>, complete: bool) -> bool {
    exists|entries: Map<u64, NodeEntry>, pre: Seq<ElmModule>, ts: Seq<GenericTemplate>, mid: Seq<ElmModule>|
        #![trigger forest_converted(entries, nodes, pre), generics_instantiated(ts, pre, mid, complete)]
        indexes(entries, files, nodes) && forest_converted(entries, nodes, pre) && templates_of(
            entries,
            forest_generics(nodes),
            ts,
        ) && generics_instantiated(ts, pre, mid, complete) && cap_tables_marked(mid, ms)
}

/// Building instantiations makes no interface module and leaves every
/// module's kind as it was.
proof fn lemma_instances_keep_interfaces(ts: Seq<GenericTemplate>, pre: Seq<ElmModule>, mid: Seq<ElmModule>, complete: bool)
    requires
        generics_instantiated(ts, pre, mid, complete),
    ensures
        has_interface_module(mid) == has_interface_module(pre),
{
    let made = choose|made: Seq<(int, Seq<TypeView>)>| #[trigger] instantiated_with(ts, pre, mid, made, complete);
    let g = template_names(ts);
    if has_interface_module(pre) {
        let i = choose|i: int| 0 <= i < pre.len() && is_interface_module(#[trigger] pre[i]);
        assert(module_monoed(g, pre[i], mid[i]));
        assert(is_interface_module(mid[i]));
    }
    if has_interface_module(mid) {
        let i = choose|i: int| 0 <= i < mid.len() && is_interface_module(#[trigger] mid[i]);
        if i < pre.len() {
            assert(module_monoed(g, pre[i], mid[i]));
            assert(is_interface_module(pre[i]));
        } else {
            let k = i - pre.len();
            assert(instance_module(g, ts[made[k].0], made[k].1, mid[pre.len() + k]));
            assert(false);
        }
    }
}

/// The files of the RPC schema, each named `rpc.capnp`, so that its
/// modules live under `Rpc`.
pub open spec fn rpc_files_by_id(files: Seq<RequestedFile>) -> Map<u64, Seq<char>> {
    files_by_id(files).map_values(|f: Seq<char>| "rpc.capnp"@)
}

/// `ms` are the modules of the RPC schema's nodes.
pub open spec fn rpc_modules_of(files: Seq<RequestedFile>, nodes: Seq<Node>, ms: Seq<ElmModule>) -> bool {
    exists|entries: Map<u64, NodeEntry>| indexes(entries, rpc_files_by_id(files), nodes) && #[trigger] forest_converted(entries, nodes, ms)
}

/// Some module is an interface.
pub open spec fn has_interface_module(ms: Seq<ElmModule>) -> bool {
    exists|i: int| 0 <= i < ms.len() && is_interface_module(#[trigger] ms[i])
}

/// The node becomes an interface module: it, or a node nested in it, is
/// an interface, with only nodes that become modules on the way.
pub open spec fn node_has_interface(n: Node) -> bool
    decreases n, 0nat,
{
    becomes_module(n) && (n.kind is Interface || forest_has_interface(n.nested_nodes@))
}

/// Some of the nodes becomes an interface module.
pub open spec fn forest_has_interface(ns: Seq<Node>) -> bool
    decreases ns, 1nat,
{
    ns.len() > 0 && (forest_has_interface(ns.drop_last()) || node_has_interface(ns.last()))
}

proof fn lemma_interface_split(ms: Seq<ElmModule>, k: int)
    requires
        0 <= k <= ms.len(),
    ensures
        has_interface_module(ms) == (has_interface_module(ms.take(k)) || has_interface_module(ms.skip(k))),
{
    if has_interface_module(ms) {
        let i = choose|i: int| 0 <= i < ms.len() && is_interface_module(#[trigger] ms[i]);
        if i < k {
            assert(ms.take(k)[i] == ms[i]);
        } else {
            assert(ms.skip(k)[i - k] == ms[i]);
        }
    }
    if has_interface_module(ms.take(k)) {
        let i = choose|i: int| 0 <= i < ms.take(k).len() && is_interface_module(#[trigger] ms.take(k)[i]);
        assert(ms[i] == ms.take(k)[i]);
    }
    if has_interface_module(ms.skip(k)) {
        let i = choose|i: int| 0 <= i < ms.skip(k).len() && is_interface_module(#[trigger] ms.skip(k)[i]);
        assert(ms[i + k] == ms.skip(k)[i]);
    }
}

proof fn lemma_node_interface(entries: Map<u64, NodeEntry>, n: Node, ms: Seq<ElmModule>)
    requires
        node_converted(entries, n, ms),
    ensures
        has_interface_module(ms) == node_has_interface(n),
    decreases n, 0nat,
{
    if !becomes_module(n) {
        assert(!has_interface_module(ms));
    } else {
        assert(decreases_to!(n => n.nested_nodes@));
        lemma_forest_interface(entries, n.nested_nodes@, ms.skip(1));
        lemma_interface_split(ms, 1);
        assert(has_interface_module(ms.take(1)) == is_interface_module(ms[0])) by {
            if is_interface_module(ms[0]) {
                assert(ms.take(1)[0] == ms[0]);
            }
        }
    }
}

proof fn lemma_forest_interface(entries: Map<u64, NodeEntry>, ns: Seq<Node>, ms: Seq<ElmModule>)
    requires
        forest_converted(entries, ns, ms),
    ensures
        has_interface_module(ms) == forest_has_interface(ns),
    decreases ns, 1nat,
{
    if ns.len() == 0 {
        assert(!has_interface_module(ms));
    } else {
        let k = ms.len() - node_module_count(ns.last());
        lemma_forest_interface(entries, ns.drop_last(), ms.take(k));
        lemma_node_interface(entries, ns.last(), ms.skip(k));
        lemma_interface_split(ms, k);
    }
}

/// Whether decoding the modules of the nodes needs the RPC schema:
/// whether one of them becomes an interface module.
pub proof fn lemma_context_interfaces(files: Map<u64, Seq<char>>, nodes: Seq<Node>, ms: Seq<ElmModule>, complete: bool)
    requires
        context_of(files, nodes, ms, complete),
    ensures
        has_interface_module(ms) == forest_has_interface(nodes),
{
    let (entries, pre, ts, mid) = choose|
        entries: Map<u64, NodeEntry>,
        pre: Seq<ElmModule>,
        ts: Seq<GenericTemplate>,
        mid: Seq<ElmModule>,
    |
        #![trigger forest_converted(entries, nodes, pre), generics_instantiated(ts, pre, mid, complete)]
        indexes(entries, files, nodes) && forest_converted(entries, nodes, pre) && templates_of(
            entries,
            forest_generics(nodes),
            ts,
        ) && generics_instantiated(ts, pre, mid, complete) && cap_tables_marked(mid, ms);
    lemma_forest_interface(entries, nodes, pre);
    lemma_instances_keep_interfaces(ts, pre, mid, complete);
    if has_interface_module(mid) {
        let i = choose|i: int| 0 <= i < mid.len() && is_interface_module(#[trigger] mid[i]);
        assert(module_stamped(mid[i], ms[i], needing_names(ms)));
        assert(is_interface_module(ms[i]));
    }
    if has_interface_module(ms) {
        let i = choose|i: int| 0 <= i < ms.len() && is_interface_module(#[trigger] ms[i]);
        assert(module_stamped(mid[i], ms[i], needing_names(ms)));
        assert(is_interface_module(mid[i]));
    }
}

/// The Elm context of the nodes of a schema, and whether every
/// instantiation asked for was built (see `context_of`).
fn build_elm_context(nodes: &Vec<Node>, requested_files: &Vec<RequestedFile>) -> (r: (ElmContext, bool))
    ensures
        context_of(files_by_id(requested_files@), nodes@, r.0.modules@, r.1),
{
    let ctx = TypeMappingContext::new(nodes, requested_files);
    let mut context = ElmContext::new();
    convert_forest(nodes, &mut context, &ctx);
    let ghost pre_ms = context.modules@;
    assert(pre_ms.skip(0) =~= pre_ms);
    let templates = generic_templates(nodes, &ctx);
    let complete = instantiate_generics(&mut context, &templates);
    let ghost mid_ms = context.modules@;
    propagate_needs_cap_table(&mut context);
    proof {
        assert(indexes(ctx.entries@, files_by_id(requested_files@), nodes@));
        assert(forest_converted(ctx.entries@, nodes@, pre_ms));
        assert(cap_tables_marked(mid_ms, context.modules@));
        assert(generics_instantiated(templates@, pre_ms, mid_ms, complete));
    }
    (context, complete)
}

/// The Elm context of the nodes of a schema: every node converted into
/// modules (see `forest_converted`), the instantiations of its generic
/// structs built (see `instantiate_generics`), then every module marked
/// for the capability table (see `propagate_needs_cap_table`).
pub fn generate_elm_context(nodes: &Vec<Node>, requested_files: &Vec<RequestedFile>) -> (r: ElmContext)
    ensures
        context_of(files_by_id(requested_files@), nodes@, r.modules@, true) || context_of(
            files_by_id(requested_files@),
            nodes@,
            r.modules@,
            false,
        ),
{
    let (context, _) = build_elm_context(nodes, requested_files);
    context
}

/// Converts the nodes, node after node, into modules appended to the
/// context.
fn convert_forest(nodes: &Vec<Node>, context: &mut ElmContext, ctx: &TypeMappingContext)
    ensures
        final(context).modules@.len() >= old(context).modules@.len(),
        final(context).modules@.take(old(context).modules@.len() as int) == old(context).modules@,
        forest_converted(ctx.entries@, nodes@, final(context).modules@.skip(old(context).modules@.len() as int)),
{
    let ghost start = context.modules@;
    let mut i: usize = 0;
    proof {
        assert(nodes@.take(0) =~= Seq::<Node>::empty());
        assert(context.modules@.skip(start.len() as int) =~= Seq::<ElmModule>::empty());
        assert(context.modules@.take(start.len() as int) =~= start);
    }
    while i < nodes.len()
        invariant
            i <= nodes.len(),
            context.modules@.len() >= start.len(),
            context.modules@.take(start.len() as int) == start,
            forest_converted(ctx.entries@, nodes@.take(i as int), context.modules@.skip(start.len() as int)),
        decreases nodes.len() - i,
    {
        let ghost before = context.modules@;
        convert_node_to_elm(&nodes[i], context, ctx);
        proof {
            let t1 = nodes@.take(i + 1);
            let ms = context.modules@.skip(start.len() as int);
            let k = ms.len() - node_module_count(nodes@[i as int]);
            assert(t1.drop_last() =~= nodes@.take(i as int));
            assert(t1.last() == nodes@[i as int]);
            assert(ms.take(k) =~= before.skip(start.len() as int));
            assert(ms.skip(k) =~= context.modules@.skip(before.len() as int));
            assert(context.modules@.take(start.len() as int) =~= before.take(start.len() as int));
        }
        i += 1;
    }
    assert(nodes@.take(nodes.len() as int) =~= nodes@);
}

proof fn lemma_rpc_files(files: Seq<RequestedFile>, rewritten: Seq<RequestedFile>)
    requires
        rewritten.len() == files.len(),
        forall|i: int| 0 <= i < files.len() ==> (#[trigger] rewritten[i]).id == files[i].id && rewritten[i].filename@ == "rpc.capnp"@,
    ensures
        files_by_id(rewritten) == rpc_files_by_id(files),
    decreases files.len(),
{
    if files.len() > 0 {
        lemma_rpc_files(files.drop_last(), rewritten.drop_last());
        assert(rewritten.last() == rewritten[rewritten.len() - 1]);
        assert(files_by_id(rewritten) =~= rpc_files_by_id(files));
    } else {
        assert(files_by_id(rewritten) =~= rpc_files_by_id(files));
    }
}

/// Appends the modules of the RPC schema's nodes to the context, their
/// files renamed `rpc.capnp` so that they live under `Rpc` (see
/// `rpc_modules_of`).
pub fn append_rpc_modules(context: &mut ElmContext, rpc_nodes: &Vec<Node>, rpc_files: &Vec<RequestedFile>)
    ensures
        final(context).modules@.len() >= old(context).modules@.len(),
        final(context).modules@.take(old(context).modules@.len() as int) == old(context).modules@,
        rpc_modules_of(rpc_files@, rpc_nodes@, final(context).modules@.skip(old(context).modules@.len() as int)),
{
    let mut rewritten: Vec<RequestedFile> = Vec::new();
    let mut i: usize = 0;
    while i < rpc_files.len()
        invariant
            i <= rpc_files.len(),
            rewritten@.len() == i,
            forall|j: int| 0 <= j < i ==> (#[trigger] rewritten@[j]).id == rpc_files@[j].id && rewritten@[j].filename@ == "rpc.capnp"@,
        decreases rpc_files.len() - i,
    {
        rewritten.push(RequestedFile { id: rpc_files[i].id, filename: owned("rpc.capnp") });
        i += 1;
    }
    proof {
        lemma_rpc_files(rpc_files@, rewritten@);
    }
    let ctx = TypeMappingContext::new(rpc_nodes, &rewritten);
    convert_forest(rpc_nodes, context, &ctx);
    proof {
        assert(indexes(ctx.entries@, rpc_files_by_id(rpc_files@), rpc_nodes@));
    }
}

/// `ms` are the modules of the Elm context of a schema: its own modules
/// (see `context_of`), then, when one of them is an interface, the
/// modules of the RPC schema (see `rpc_modules_of`).
pub open spec fn bound_context(schema: &ParsedSchema, rpc_schema: Option<&ParsedSchema>, ms: Seq<ElmModule>) -> bool {
    exists|k: int|
        0 <= k <= ms.len() && #[trigger] context_of(files_by_id(schema.requested_files@), schema.nodes@, ms.take(k), true)
            && if forest_has_interface(schema.nodes@) {
                rpc_schema matches Some(rpc) && rpc_modules_of(rpc.requested_files@, rpc.nodes@, ms.skip(k))
            } else {
                k == ms.len()
            }
}

/// Why a schema could not be bound to Elm.
#[derive(PartialEq, Eq, Structural)]
pub enum BindError {
    /// The schema has interfaces, whose modules need the types of the RPC
    /// schema, and none was given.
    RpcSchemaNeeded,
    /// Its generic structs ask for more than `INSTANCE_LIMIT`
    /// instantiations.
    InstantiationLimit,
}

/// The Elm context of a schema: its own modules (see `context_of`), then,
/// when one of them is an interface, the modules of the RPC schema (see
/// `rpc_modules_of`). Fails when the schema's generic structs ask for
/// more than `INSTANCE_LIMIT` instantiations, and otherwise exactly when
/// an interface needs an RPC schema that was not given.
pub fn bind_to_elm(schema: &ParsedSchema, rpc_schema: Option<&ParsedSchema>) -> (r: Result<ElmContext, BindError>)
    ensures
        r matches Err(BindError::InstantiationLimit) ==> exists|ms: Seq<ElmModule>|
            #[trigger] context_of(files_by_id(schema.requested_files@), schema.nodes@, ms, false),
        r matches Err(BindError::RpcSchemaNeeded) ==> forest_has_interface(schema.nodes@) && rpc_schema is None,
        forest_has_interface(schema.nodes@) && rpc_schema is None ==> r is Err,
        r matches Ok(c) ==> bound_context(schema, rpc_schema, c.modules@),
{
    let (mut context, complete) = build_elm_context(&schema.nodes, &schema.requested_files);
    if !complete {
        return Err(BindError::InstantiationLimit);
    }
    let ghost own = context.modules@;
    let ghost k = own.len() as int;
    proof {
        lemma_context_interfaces(files_by_id(schema.requested_files@), schema.nodes@, own, true);
    }
    if context.has_interfaces() {
        match rpc_schema {
            Some(rpc) => {
                append_rpc_modules(&mut context, &rpc.nodes, &rpc.requested_files);
                assert(context.modules@.take(k) == own);
                assert(rpc_modules_of(rpc.requested_files@, rpc.nodes@, context.modules@.skip(k)));
            },
            None => {
                return Err(BindError::RpcSchemaNeeded);
            },
        }
    } else {
        assert(context.modules@.take(k) =~= own);
    }
    assert(context_of(files_by_id(schema.requested_files@), schema.nodes@, context.modules@.take(k), true));
    assert(if forest_has_interface(schema.nodes@) {
        rpc_schema matches Some(rpc) && rpc_modules_of(rpc.requested_files@, rpc.nodes@, context.modules@.skip(k))
    } else {
        k == context.modules@.len()
    });
    assert(bound_context(schema, rpc_schema, context.modules@));
    Ok(context)
}


// ── Laws of field defaults ────────────────────────────────────────────

/// A field's Elm default keeps the value its schema default wrote: a
/// boolean default `b` is `Bool(b)`, so a field defaulting to `true` is
/// masked and one defaulting to `false` is not; an enumerant default keeps
/// its ordinal; an integer default its value; a float default its bits.
/// A field has an Elm default exactly when it has a schema default.
pub proof fn law_defaults_keep_schema_values(
    entries: Map<u64, NodeEntry>,
    params: Seq<Seq<char>>,
    cf: Field,
    ef: ElmField,
)
    requires
        field_converted(entries, params, cf, ef),
    ensures
        cf.default_value is None <==> ef.default_value is None,
        forall|b: bool|
            cf.default_value == Some(DefaultValue::Bool(b)) ==> ef.default_value == Some(ElmDefaultValue::Bool(b))
                && (crate::render::nonzero_default(ef.default_value) <==> b),
        forall|v: u16|
            cf.default_value == Some(DefaultValue::Enum(v)) ==> ef.default_value == Some(ElmDefaultValue::Enum(v))
                && (crate::render::nonzero_default(ef.default_value) <==> v != 0),
        forall|v: i8| cf.default_value == Some(DefaultValue::Int8(v)) ==> (ef.default_value matches Some(ElmDefaultValue::Int(x)) && x == v),
        forall|v: i16| cf.default_value == Some(DefaultValue::Int16(v)) ==> (ef.default_value matches Some(ElmDefaultValue::Int(x)) && x == v),
        forall|v: i32| cf.default_value == Some(DefaultValue::Int32(v)) ==> (ef.default_value matches Some(ElmDefaultValue::Int(x)) && x == v),
        forall|v: i64| cf.default_value == Some(DefaultValue::Int64(v)) ==> (ef.default_value matches Some(ElmDefaultValue::Int(x)) && x == v),
        forall|v: u8| cf.default_value == Some(DefaultValue::UInt8(v)) ==> (ef.default_value matches Some(ElmDefaultValue::Int(x)) && x == v),
        forall|v: u16| cf.default_value == Some(DefaultValue::UInt16(v)) ==> (ef.default_value matches Some(ElmDefaultValue::Int(x)) && x == v),
        forall|v: u32| cf.default_value == Some(DefaultValue::UInt32(v)) ==> (ef.default_value matches Some(ElmDefaultValue::Int(x)) && x == v),
        forall|v: u64|
            cf.default_value == Some(DefaultValue::UInt64(v)) ==> (ef.default_value matches Some(ElmDefaultValue::Int(x))
                && (x == 0 <==> v == 0)),
        forall|bits: u32|
            cf.default_value == Some(DefaultValue::Float32(bits)) ==> ef.default_value == Some(
                ElmDefaultValue::Float(FloatBits::Single(bits)),
            ),
        forall|bits: u64|
            cf.default_value == Some(DefaultValue::Float64(bits)) ==> ef.default_value == Some(
                ElmDefaultValue::Float(FloatBits::Double(bits)),
            ),
{
    assert forall|v: u64| cf.default_value == Some(DefaultValue::UInt64(v)) implies (ef.default_value matches Some(
        ElmDefaultValue::Int(x),
    ) && (x == 0 <==> v == 0)) by {
        assert((v as i64 == 0) == (v == 0)) by (bit_vector);
    }
}

} // verus!
