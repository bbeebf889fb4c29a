//! The schema of a `CodeGeneratorRequest` as plain values, and the passes
//! that turn the flat node list into the nested node tree: field
//! splitting, file resolution, nesting and root filtering.
use vstd::prelude::*;

use std::collections::{HashMap, VecDeque};

use crate::text::concat_all;

verus! {

pub struct Node {
    pub id: u64,
    pub display_name: String,
    pub kind: NodeKind,
    pub nested_nodes: Vec<Node>,
    pub parent_id: u64,
    pub file_id: u64,
    pub generic_params: Vec<String>,
}

pub enum NodeKind {
    Struct {
        is_group: bool,
        data_word_count: u16,
        pointer_word_count: u16,
        fields: Vec<Field>,
        union_fields: Option<Vec<Field>>,
        discriminant_offset: u32,
    },
    Enum(Vec<Enumerator>),
    Interface(Vec<Method>),
    Const,
    /// An annotation node, with its scope and its own id.
    Annotation(u64, u64),
    File,
    Other,
}

pub struct Field {
    pub name: String,
    pub discriminant: Option<u16>,
    pub typ: Type,
    pub offset: u32,
    pub default_value: Option<DefaultValue>,
}

/// The default value of a data-section field. Float defaults are held by
/// their IEEE-754 bit patterns.
#[derive(Clone, Copy)]
pub enum DefaultValue {
    Bool(bool),
    Int8(i8),
    Int16(i16),
    Int32(i32),
    Int64(i64),
    UInt8(u8),
    UInt16(u16),
    UInt32(u32),
    UInt64(u64),
    Float32(u32),
    Float64(u64),
    Enum(u16),
}

pub struct Enumerator {
    pub name: String,
    pub ordinal: u16,
}

pub struct Method {
    pub id: u16,
    pub name: String,
    pub implicit_parameters: Vec<String>,
    pub param_type: Type,
    pub result_type: Type,
}

pub enum Type {
    Void,
    Bool,
    Int8,
    Int16,
    Int32,
    Int64,
    UInt8,
    UInt16,
    UInt32,
    UInt64,
    Float32,
    Float64,
    Text,
    Data,
    List(Box<Type>),
    StructRef(u64, Brand),
    EnumRef(u64, Brand),
    InterfaceRef(u64, Brand),
    AnyPointer,
    GenericParam(u16),
}

impl Type {
    /// The id of the struct, enum or interface a type refers to.
    pub fn get_ref_id(&self) -> (r: Option<u64>)
        ensures
            r == match *self {
                Type::StructRef(id, _) => Some(id),
                Type::EnumRef(id, _) => Some(id),
                Type::InterfaceRef(id, _) => Some(id),
                _ => None::<u64>,
            },
    {
        match self {
            Type::StructRef(id, _) => Some(*id),
            Type::EnumRef(id, _) => Some(*id),
            Type::InterfaceRef(id, _) => Some(*id),
            _ => None,
        }
    }
}

pub struct Brand {
    pub scopes: Vec<BrandScope>,
}

pub enum BrandScope {
    Bind(Vec<Binding>),
    Inherit,
}

pub enum Binding {
    Unbound,
    Type(Type),
}

pub struct RequestedFile {
    pub id: u64,
    pub filename: String,
}

pub struct ParsedSchema {
    pub nodes: Vec<Node>,
    pub requested_files: Vec<RequestedFile>,
}

// ── Fields ────────────────────────────────────────────────────────────

/// The discriminant of a field: `0xFFFF` marks a field outside any union.
pub open spec fn spec_discriminant(raw: u16) -> Option<u16> {
    if raw != 0xFFFF {
        Some(raw)
    } else {
        None
    }
}

pub fn discriminant_from_raw(raw: u16) -> (r: Option<u16>)
    ensures
        r == spec_discriminant(raw),
{
    if raw != 0xFFFF {
        Some(raw)
    } else {
        None
    }
}

pub open spec fn is_union_member(f: Field) -> bool {
    f.discriminant is Some
}

/// Splits a struct's fields into its plain fields and its union members,
/// keeping their order; there is no union part when no field is a member.
pub fn split_union_fields(all_fields: Vec<Field>) -> (r: (Vec<Field>, Option<Vec<Field>>))
    ensures
        r.0@ == all_fields@.filter(|f: Field| !is_union_member(f)),
        all_fields@.filter(|f: Field| is_union_member(f)).len() == 0 ==> r.1 is None,
        all_fields@.filter(|f: Field| is_union_member(f)).len() > 0 ==> (r.1 matches Some(u) && u@
            == all_fields@.filter(|f: Field| is_union_member(f))),
{
    let ghost orig = all_fields@;
    let mut normal_fields: Vec<Field> = Vec::new();
    let mut union_fields: Vec<Field> = Vec::new();
    for field in it: all_fields
        invariant
            it.seq() == orig,
            normal_fields@ == orig.take(it.index() as int).filter(|f: Field| !is_union_member(f)),
            union_fields@ == orig.take(it.index() as int).filter(|f: Field| is_union_member(f)),
    {
        let ghost idx = it.index();
        proof {
            assert(orig.take(idx + 1).drop_last() =~= orig.take(idx as int));
            reveal(Seq::filter);
        }
        if field.discriminant.is_some() {
            union_fields.push(field);
        } else {
            normal_fields.push(field);
        }
    }
    proof {
        assert(orig.take(orig.len() as int) =~= orig);
    }
    let union_fields = if union_fields.len() != 0 {
        Some(union_fields)
    } else {
        None
    };
    (normal_fields, union_fields)
}


/// A struct's fields as parsed: its plain fields are outside any union,
/// and its union part, when there is one, is not empty and holds union
/// members only.
pub open spec fn struct_fields_split(kind: NodeKind) -> bool {
    match kind {
        NodeKind::Struct { fields, union_fields, .. } => {
            &&& forall|i: int| 0 <= i < fields.len() ==> !is_union_member(#[trigger] fields@[i])
            &&& match union_fields {
                Some(u) => u.len() > 0 && forall|i: int| 0 <= i < u.len() ==> is_union_member(#[trigger] u@[i]),
                None => true,
            }
        },
        _ => true,
    }
}

/// `k` is the kind of a struct with the given layout whose fields, in
/// order, are `all`: its plain fields, and its union members when there
/// are any, each in order.
pub open spec fn struct_kind_is(k: NodeKind, is_group: bool, data_word_count: u16, pointer_word_count: u16, all: Seq<Field>, discriminant_offset: u32) -> bool {
    k matches NodeKind::Struct {
        is_group: g,
        data_word_count: d,
        pointer_word_count: p,
        fields,
        union_fields,
        discriminant_offset: o,
    } && g == is_group && d == data_word_count && p == pointer_word_count
        && o == discriminant_offset
        && fields@ == all.filter(|f: Field| !is_union_member(f))
        && (all.filter(|f: Field| is_union_member(f)).len() == 0 ==> union_fields is None)
        && (all.filter(|f: Field| is_union_member(f)).len() > 0 ==> (union_fields matches Some(u)
        && u@ == all.filter(|f: Field| is_union_member(f))))
}

/// The kind of a struct node with the given layout and fields: its plain
/// fields and its union members, each in order.
pub fn struct_kind(
    is_group: bool,
    data_word_count: u16,
    pointer_word_count: u16,
    all_fields: Vec<Field>,
    discriminant_offset: u32,
) -> (r: NodeKind)
    ensures
        struct_kind_is(r, is_group, data_word_count, pointer_word_count, all_fields@, discriminant_offset),
        struct_fields_split(r),
{
    let ghost all = all_fields@;
    let (fields, union_fields) = split_union_fields(all_fields);
    proof {
        assert forall|i: int| 0 <= i < fields.len() implies !is_union_member(#[trigger] fields@[i]) by {
            all.lemma_filter_pred(|f: Field| !is_union_member(f), i);
        }
        if let Some(u) = &union_fields {
            assert forall|i: int| 0 <= i < u.len() implies is_union_member(#[trigger] u@[i]) by {
                all.lemma_filter_pred(|f: Field| is_union_member(f), i);
            }
        }
    }
    NodeKind::Struct {
        is_group,
        data_word_count,
        pointer_word_count,
        fields,
        union_fields,
        discriminant_offset,
    }
}

// ── Root filtering ────────────────────────────────────────────────────

/// What a root node contributes to the schema's node list: a file its
/// nested nodes, an annotation or an unknown node nothing, any other node
/// itself.
pub open spec fn kept_at_root(n: Node) -> Seq<Node> {
    match n.kind {
        NodeKind::Annotation(_, _) => Seq::empty(),
        NodeKind::File => n.nested_nodes@,
        NodeKind::Other => Seq::empty(),
        _ => seq![n],
    }
}

pub open spec fn filtered_roots(roots: Seq<Node>) -> Seq<Node> {
    concat_all(roots.map_values(|n: Node| kept_at_root(n)))
}

/// Drops annotation and unknown root nodes and replaces each file node by
/// the nodes nested in it.
pub fn filter_root_nodes(root_nodes: Vec<Node>) -> (r: Vec<Node>)
    ensures
        r@ == filtered_roots(root_nodes@),
{
    let ghost orig = root_nodes@;
    let mut nodes: Vec<Node> = Vec::new();
    for n in it: root_nodes
        invariant
            it.seq() == orig,
            nodes@ == concat_all(orig.take(it.index() as int).map_values(|n: Node| kept_at_root(n))),
    {
        let ghost idx = it.index();
        let ghost before = nodes@;
        proof {
            assert(orig.take(idx + 1).map_values(|n: Node| kept_at_root(n)).drop_last()
                =~= orig.take(idx as int).map_values(|n: Node| kept_at_root(n)));
        }
        let ghost whole = n;
        match n.kind {
            NodeKind::Annotation(_, _) => {
                assert(before + kept_at_root(whole) =~= before);
            },
            NodeKind::File => {
                let ghost inner = n.nested_nodes@;
                for nn in jt: n.nested_nodes
                    invariant
                        jt.seq() == inner,
                        nodes@ == before + inner.take(jt.index() as int),
                {
                    let ghost k = jt.index();
                    assert(inner.take(k + 1) =~= inner.take(k as int).push(nn));
                    nodes.push(nn);
                }
                assert(inner.take(inner.len() as int) =~= inner);
            },
            NodeKind::Other => {
                assert(before + kept_at_root(whole) =~= before);
            },
            _ => {
                nodes.push(n);
                assert(before.push(whole) =~= before + seq![whole]);
            },
        }
    }
    proof {
        assert(orig.take(orig.len() as int) =~= orig);
    }
    nodes
}


// ── File resolution ───────────────────────────────────────────────────

/// `c` is listed among the children of `p`.
pub open spec fn is_child(cm: Map<u64, Vec<u64>>, p: u64, c: u64) -> bool {
    cm.contains_key(p) && cm[p]@.contains(c)
}

/// A walk down the child lists: each element a child of the one before.
pub open spec fn is_walk(cm: Map<u64, Vec<u64>>, w: Seq<u64>) -> bool {
    &&& w.len() >= 1
    &&& forall|i: int| 0 < i < w.len() ==> is_child(cm, w[i - 1], #[trigger] w[i])
}

/// `n` is `a` or lies below it.
pub open spec fn reaches(cm: Map<u64, Vec<u64>>, a: u64, n: u64) -> bool {
    exists|w: Seq<u64>| is_walk(cm, w) && w[0] == a && #[trigger] w.last() == n
}

/// `n` lies strictly below `a`.
pub open spec fn descends(cm: Map<u64, Vec<u64>>, a: u64, n: u64) -> bool {
    exists|w: Seq<u64>| is_walk(cm, w) && w.len() >= 2 && w[0] == a && #[trigger] w.last() == n
}

/// The ids of the requested files.
pub open spec fn requested_ids(files: Seq<RequestedFile>) -> Set<u64> {
    Set::new(|id: u64| exists|i: int| 0 <= i < files.len() && #[trigger] files[i].id == id)
}

/// A node lies below some requested file.
pub open spec fn below_requested(cm: Map<u64, Vec<u64>>, files: Seq<RequestedFile>, n: u64) -> bool {
    exists|f: u64| requested_ids(files).contains(f) && #[trigger] descends(cm, f, n)
}

/// The result of file resolution: exactly the requested files and the
/// nodes below them are assigned, each to a requested file it lies in.
pub open spec fn files_resolved(
    cm: Map<u64, Vec<u64>>,
    files: Seq<RequestedFile>,
    m: Map<u64, u64>,
) -> bool {
    &&& forall|n: u64|
        #[trigger] m.contains_key(n) <==> (requested_ids(files).contains(n) || below_requested(cm, files, n))
    &&& forall|n: u64|
        #[trigger] m.contains_key(n) ==> requested_ids(files).contains(m[n]) && reaches(cm, m[n], n)
}

/// A walk from a requested file is fully assigned past its start, or its
/// assigned prefix ends at a pair still waiting in the queue.
pub open spec fn walk_pending_or_done(w: Seq<u64>, m: Map<u64, u64>, q: Seq<(u64, u64)>) -> bool {
    ||| forall|j: int| 1 <= j < w.len() ==> m.contains_key(#[trigger] w[j])
    ||| exists|i: int|
        1 <= i < w.len() && #[trigger] q.contains((w[i], w[i - 1])) && forall|j: int|
            1 <= j < i ==> m.contains_key(#[trigger] w[j])
}

/// Every assigned node lies in the requested file it is assigned.
#[verifier::opaque]
pub open spec fn bfs_assignment_sound(cm: Map<u64, Vec<u64>>, files: Seq<RequestedFile>, m: Map<u64, u64>) -> bool {
    &&& forall|n: u64|
        #[trigger] m.contains_key(n) ==> requested_ids(files).contains(m[n]) && reaches(cm, m[n], n)
    &&& forall|n: u64|
        #[trigger] m.contains_key(n) ==> requested_ids(files).contains(n) || below_requested(cm, files, n)
    &&& forall|f: u64| #[trigger] requested_ids(files).contains(f) ==> m.contains_key(f)
}

/// Each queued pair is a child and its assigned parent.
#[verifier::opaque]
pub open spec fn bfs_queue_sound(cm: Map<u64, Vec<u64>>, m: Map<u64, u64>, q: Seq<(u64, u64)>) -> bool {
    forall|k: int| 0 <= k < q.len() ==> is_child(cm, (#[trigger] q[k]).1, q[k].0) && m.contains_key(q[k].1)
}

/// Every walk from a requested file is done or waiting in the queue.
#[verifier::opaque]
pub open spec fn bfs_walks_covered(
    cm: Map<u64, Vec<u64>>,
    files: Seq<RequestedFile>,
    m: Map<u64, u64>,
    q: Seq<(u64, u64)>,
) -> bool {
    forall|w: Seq<u64>|
        is_walk(cm, w) && w.len() >= 2 && requested_ids(files).contains(w[0])
            ==> #[trigger] walk_pending_or_done(w, m, q)
}

/// What holds of the breadth-first walk between steps.
pub open spec fn bfs_invariant(
    cm: Map<u64, Vec<u64>>,
    files: Seq<RequestedFile>,
    m: Map<u64, u64>,
    q: Seq<(u64, u64)>,
) -> bool {
    &&& bfs_assignment_sound(cm, files, m)
    &&& bfs_queue_sound(cm, m, q)
    &&& bfs_walks_covered(cm, files, m, q)
}

proof fn lemma_walk_extend(cm: Map<u64, Vec<u64>>, w: Seq<u64>, c: u64)
    requires
        is_walk(cm, w),
        is_child(cm, w.last(), c),
    ensures
        is_walk(cm, w.push(c)),
        w.push(c)[0] == w[0],
        w.push(c).last() == c,
        w.push(c).len() >= 2,
{
    let w2 = w.push(c);
    assert forall|i: int| 0 < i < w2.len() implies is_child(cm, w2[i - 1], #[trigger] w2[i]) by {
        if i < w.len() {
            assert(w2[i - 1] == w[i - 1] && w2[i] == w[i]);
        }
    }
}

proof fn lemma_bfs_step_assignment(
    cm: Map<u64, Vec<u64>>,
    files: Seq<RequestedFile>,
    m: Map<u64, u64>,
    n: u64,
    p: u64,
)
    requires
        bfs_assignment_sound(cm, files, m),
        m.contains_key(p),
        is_child(cm, p, n),
    ensures
        bfs_assignment_sound(cm, files, m.insert(n, m[p])),
{
    reveal(bfs_assignment_sound);
    let f = m[p];
    let m2 = m.insert(n, f);
    let wp = choose|w: Seq<u64>| is_walk(cm, w) && w[0] == f && #[trigger] w.last() == p;
    lemma_walk_extend(cm, wp, n);
    let wn = wp.push(n);
    assert(reaches(cm, f, n));
    assert(descends(cm, f, n));
    assert forall|x: u64| #[trigger] m2.contains_key(x) implies requested_ids(files).contains(m2[x])
        && reaches(cm, m2[x], x) by {
        if x != n {
            assert(m.contains_key(x));
        }
    }
    assert forall|x: u64| #[trigger] m2.contains_key(x) implies requested_ids(files).contains(x)
        || below_requested(cm, files, x) by {
        if x != n {
            assert(m.contains_key(x));
        }
    }
}

proof fn lemma_bfs_step_queue(
    cm: Map<u64, Vec<u64>>,
    m: Map<u64, u64>,
    q: Seq<(u64, u64)>,
    q2: Seq<(u64, u64)>,
    n: u64,
    v: u64,
)
    requires
        bfs_queue_sound(cm, m, q),
        q.len() > 0,
        q[0].0 == n,
        forall|k: int|
            0 <= k < q2.len() ==> q.drop_first().contains(#[trigger] q2[k]) || (q2[k].1 == n
                && is_child(cm, n, q2[k].0)),
    ensures
        bfs_queue_sound(cm, m.insert(n, v), q2),
{
    reveal(bfs_queue_sound);
    let m2 = m.insert(n, v);
    assert forall|k: int| 0 <= k < q2.len() implies is_child(cm, (#[trigger] q2[k]).1, q2[k].0)
        && m2.contains_key(q2[k].1) by {
        if q.drop_first().contains(q2[k]) {
            let j = choose|j: int| 0 <= j < q.drop_first().len() && q.drop_first()[j] == q2[k];
            assert(q[j + 1] == q2[k]);
        }
    }
}

#[verifier::spinoff_prover]
#[verifier::rlimit(40)]
proof fn lemma_bfs_step_walks(
    cm: Map<u64, Vec<u64>>,
    files: Seq<RequestedFile>,
    m: Map<u64, u64>,
    q: Seq<(u64, u64)>,
    q2: Seq<(u64, u64)>,
    v: u64,
)
    requires
        bfs_walks_covered(cm, files, m, q),
        q.len() > 0,
        forall|x: (u64, u64)| q.drop_first().contains(x) ==> q2.contains(x),
        forall|c: u64| #[trigger] is_child(cm, q[0].0, c) ==> q2.contains((c, q[0].0)),
    ensures
        bfs_walks_covered(cm, files, m.insert(q[0].0, v), q2),
{
    reveal(bfs_walks_covered);
    let n = q[0].0;
    let m2 = m.insert(n, v);
    assert forall|w: Seq<u64>|
        is_walk(cm, w) && w.len() >= 2 && requested_ids(files).contains(w[0]) implies #[trigger] walk_pending_or_done(w, m2, q2) by {
        assert(walk_pending_or_done(w, m, q));
        if forall|j: int| 1 <= j < w.len() ==> m.contains_key(#[trigger] w[j]) {
            assert forall|j: int| 1 <= j < w.len() implies m2.contains_key(#[trigger] w[j]) by {
                assert(m.contains_key(w[j]));
            }
        } else {
            let i = choose|i: int|
                1 <= i < w.len() && #[trigger] q.contains((w[i], w[i - 1])) && forall|j: int|
                    1 <= j < i ==> m.contains_key(#[trigger] w[j]);
            let k = choose|k: int| 0 <= k < q.len() && q[k] == (w[i], w[i - 1]);
            if k > 0 {
                assert(q.drop_first()[k - 1] == (w[i], w[i - 1]));
                assert(q2.contains((w[i], w[i - 1])));
                assert forall|j: int| 1 <= j < i implies m2.contains_key(#[trigger] w[j]) by {
                    assert(m.contains_key(w[j]));
                }
            } else {
                assert(w[i] == n);
                if i == w.len() - 1 {
                    assert forall|j: int| 1 <= j < w.len() implies m2.contains_key(#[trigger] w[j]) by {
                        if j < i {
                            assert(m.contains_key(w[j]));
                        }
                    }
                } else {
                    assert(is_child(cm, w[i + 1 - 1], w[i + 1]));
                    assert(q2.contains((w[i + 1], w[i + 1 - 1])));
                    assert forall|j: int| 1 <= j < i + 1 implies m2.contains_key(#[trigger] w[j]) by {
                        if j < i {
                            assert(m.contains_key(w[j]));
                        }
                    }
                }
            }
        }
    }
}

/// At the end of the walk, with the queue empty, the invariant is the
/// resolution property.
proof fn lemma_bfs_done(cm: Map<u64, Vec<u64>>, files: Seq<RequestedFile>, m: Map<u64, u64>)
    requires
        bfs_invariant(cm, files, m, Seq::<(u64, u64)>::empty()),
    ensures
        files_resolved(cm, files, m),
{
    reveal(bfs_assignment_sound);
    reveal(bfs_walks_covered);
    assert forall|n: u64| requested_ids(files).contains(n) || below_requested(cm, files, n) implies #[trigger] m.contains_key(n) by {
        if !requested_ids(files).contains(n) && below_requested(cm, files, n) {
            let f = choose|f: u64| requested_ids(files).contains(f) && #[trigger] descends(cm, f, n);
            let w = choose|w: Seq<u64>| is_walk(cm, w) && w.len() >= 2 && w[0] == f && #[trigger] w.last() == n;
            assert(walk_pending_or_done(w, m, Seq::empty()));
            assert(m.contains_key(w[w.len() - 1]));
        }
    }
}

/// The pairs `(child, node)` for each child of `node`, in order.
pub open spec fn child_pairs(cm: Map<u64, Vec<u64>>, node: u64) -> Seq<(u64, u64)> {
    children_of(cm, node).map_values(|c: u64| (c, node))
}

/// The pairs queued at the start of the walk: the children of each of
/// the first `k` requested files, with the file, file after file.
pub open spec fn initial_pairs(cm: Map<u64, Vec<u64>>, files: Seq<RequestedFile>, k: int) -> Seq<(u64, u64)>
    decreases k,
{
    if k <= 0 {
        Seq::empty()
    } else {
        initial_pairs(cm, files, k - 1) + child_pairs(cm, files[k - 1].id)
    }
}

/// The node a path of positions leads to: its first entry picks a
/// requested file, each further entry a position in the child list of the
/// node before.
pub open spec fn path_node(cm: Map<u64, Vec<u64>>, files: Seq<RequestedFile>, p: Seq<int>) -> u64
    decreases p.len(),
{
    if p.len() <= 1 {
        if p.len() == 1 && 0 <= p[0] < files.len() {
            files[p[0]].id
        } else {
            0
        }
    } else {
        let parent = path_node(cm, files, p.drop_last());
        if 0 <= p.last() < children_of(cm, parent).len() {
            children_of(cm, parent)[p.last()]
        } else {
            0
        }
    }
}

/// A path of positions down the child lists from a requested file.
pub open spec fn is_path(cm: Map<u64, Vec<u64>>, files: Seq<RequestedFile>, p: Seq<int>) -> bool
    decreases p.len(),
{
    if p.len() == 0 {
        false
    } else if p.len() == 1 {
        0 <= p[0] < files.len()
    } else {
        is_path(cm, files, p.drop_last()) && 0 <= p.last() < children_of(cm, path_node(cm, files, p.drop_last())).len()
    }
}

/// Every way down the child lists from a requested file to a node below
/// it, each one step of file resolution.
pub open spec fn resolution_paths(cm: Map<u64, Vec<u64>>, files: Seq<RequestedFile>) -> Set<Seq<int>> {
    Set::new(|p: Seq<int>| is_path(cm, files, p) && p.len() >= 2)
}

/// File resolution ends within its step limit: there are fewer ways down
/// from the requested files than `RESOLVE_STEP_LIMIT`.
pub open spec fn resolution_ends(cm: Map<u64, Vec<u64>>, files: Seq<RequestedFile>) -> bool {
    &&& resolution_paths(cm, files).finite()
    &&& resolution_paths(cm, files).len() < RESOLVE_STEP_LIMIT
}

/// Queues `(child, node)` for each child of `node`, in order.
fn enqueue_children(queue: &mut VecDeque<(u64, u64)>, children_map: &HashMap<u64, Vec<u64>>, node: u64)
    ensures
        final(queue)@ == old(queue)@ + child_pairs(children_map@, node),
        forall|x: (u64, u64)| old(queue)@.contains(x) ==> final(queue)@.contains(x),
        forall|c: u64| #[trigger] is_child(children_map@, node, c) ==> final(queue)@.contains((c, node)),
        forall|t: int|
            0 <= t < final(queue)@.len() ==> old(queue)@.contains(#[trigger] final(queue)@[t]) || (final(queue)@[t].1 == node
                && is_child(children_map@, node, final(queue)@[t].0)),
{
    broadcast use vstd::std_specs::hash::group_hash_axioms;

    let ghost cm = children_map@;
    let ghost base = queue@;
    if let Some(children) = children_map.get(&node) {
        let mut k: usize = 0;
        while k < children.len()
            invariant
                k <= children.len(),
                cm == children_map@,
                cm.contains_key(node) && cm[node] == *children,
                queue@ == base + children@.take(k as int).map_values(|c: u64| (c, node)),
                forall|x: (u64, u64)| base.contains(x) ==> queue@.contains(x),
                forall|j: int| 0 <= j < k ==> queue@.contains((children@[j], node)),
                forall|t: int|
                    0 <= t < queue@.len() ==> base.contains(#[trigger] queue@[t]) || (queue@[t].1 == node
                        && is_child(cm, node, queue@[t].0)),
            decreases children.len() - k,
        {
            let ghost q0 = queue@;
            queue.push_back((children[k], node));
            proof {
                assert(children@.take(k + 1).map_values(|c: u64| (c, node)) =~= children@.take(k as int).map_values(
                    |c: u64| (c, node),
                ).push((children@[k as int], node)));
                assert(queue@[q0.len() as int] == (children@[k as int], node));
                assert forall|x: (u64, u64)| q0.contains(x) implies queue@.contains(x) by {
                    let t = choose|t: int| 0 <= t < q0.len() && q0[t] == x;
                    assert(queue@[t] == x);
                }
                assert forall|t: int| 0 <= t < queue@.len() implies base.contains(#[trigger] queue@[t])
                    || (queue@[t].1 == node && is_child(cm, node, queue@[t].0)) by {
                    if t < q0.len() {
                        assert(queue@[t] == q0[t]);
                    } else {
                        assert(children@.contains(children@[k as int]));
                    }
                }
            }
            k += 1;
        }
        proof {
            assert(children@.take(children.len() as int) =~= children@);
            assert forall|c: u64| #[trigger] is_child(cm, node, c) implies queue@.contains((c, node)) by {
                let j = choose|j: int| 0 <= j < children@.len() && children@[j] == c;
            }
        }
    } else {
        proof {
            assert(queue@ =~= base + child_pairs(cm, node));
            assert forall|t: int| 0 <= t < queue@.len() implies base.contains(#[trigger] queue@[t]) by {
                assert(base[t] == queue@[t]);
            }
        }
    }
}

/// Each requested file assigned to itself.
fn files_to_themselves(requested_files: &Vec<RequestedFile>, Ghost(cm): Ghost<Map<u64, Vec<u64>>>) -> (m: HashMap<u64, u64>)
    ensures
        bfs_assignment_sound(cm, requested_files@, m@),
{
    broadcast use vstd::std_specs::hash::group_hash_axioms;

    let ghost files = requested_files@;
    let mut node_to_file_map: HashMap<u64, u64> = HashMap::new();
    let mut i: usize = 0;
    while i < requested_files.len()
        invariant
            i <= requested_files.len(),
            files == requested_files@,
            forall|n: u64|
                #[trigger] node_to_file_map@.contains_key(n) <==> exists|j: int|
                    0 <= j < i && files[j].id == n,
            forall|n: u64| #[trigger] node_to_file_map@.contains_key(n) ==> node_to_file_map@[n] == n,
        decreases requested_files.len() - i,
    {
        let id = requested_files[i].id;
        node_to_file_map.insert(id, id);
        i += 1;
    }
    proof {
        reveal(bfs_assignment_sound);
        let m = node_to_file_map@;
        assert forall|f: u64| #[trigger] requested_ids(files).contains(f) implies m.contains_key(f) by {
            let j = choose|j: int| 0 <= j < files.len() && #[trigger] files[j].id == f;
        }
        assert forall|n: u64| #[trigger] m.contains_key(n) implies requested_ids(files).contains(m[n])
            && reaches(cm, m[n], n) by {
            let j = choose|j: int| 0 <= j < files.len() && files[j].id == n;
            assert(files[j].id == n);
            let w = seq![n];
            assert(is_walk(cm, w));
            assert(w.last() == n);
        }
        assert forall|n: u64| #[trigger] m.contains_key(n) implies requested_ids(files).contains(n)
            || below_requested(cm, files, n) by {
            let j = choose|j: int| 0 <= j < files.len() && files[j].id == n;
            assert(files[j].id == n);
        }
    }
    node_to_file_map
}

/// The children of every requested file, queued with the file.
fn initial_queue(
    requested_files: &Vec<RequestedFile>,
    children_map: &HashMap<u64, Vec<u64>>,
    m: &HashMap<u64, u64>,
) -> (q: VecDeque<(u64, u64)>)
    requires
        bfs_assignment_sound(children_map@, requested_files@, m@),
    ensures
        q@ == initial_pairs(children_map@, requested_files@, requested_files@.len() as int),
        bfs_queue_sound(children_map@, m@, q@),
        bfs_walks_covered(children_map@, requested_files@, m@, q@),
{
    let ghost cm = children_map@;
    let ghost files = requested_files@;
    let mut queue: VecDeque<(u64, u64)> = VecDeque::new();
    let mut i: usize = 0;
    proof {
        reveal(bfs_queue_sound);
    }
    while i < requested_files.len()
        invariant
            i <= requested_files.len(),
            files == requested_files@,
            cm == children_map@,
            bfs_assignment_sound(cm, files, m@),
            bfs_queue_sound(cm, m@, queue@),
            queue@ == initial_pairs(cm, files, i as int),
            forall|j: int, c: u64|
                0 <= j < i && #[trigger] is_child(cm, files[j].id, c) ==> queue@.contains((c, files[j].id)),
        decreases requested_files.len() - i,
    {
        let file_id = requested_files[i].id;
        assert(m@.contains_key(file_id)) by {
            reveal(bfs_assignment_sound);
            assert(files[i as int].id == file_id);
            assert(requested_ids(files).contains(file_id));
        }
        let ghost q0 = queue@;
        enqueue_children(&mut queue, children_map, file_id);
        proof {
            reveal(bfs_queue_sound);
            assert forall|t: int| 0 <= t < queue@.len() implies is_child(cm, (#[trigger] queue@[t]).1, queue@[t].0)
                && m@.contains_key(queue@[t].1) by {
                if q0.contains(queue@[t]) {
                    let u = choose|u: int| 0 <= u < q0.len() && q0[u] == queue@[t];
                }
            }
            assert forall|j: int, c: u64| 0 <= j < i + 1 && #[trigger] is_child(cm, files[j].id, c) implies queue@.contains((c, files[j].id)) by {
                if j < i {
                    assert(q0.contains((c, files[j].id)));
                }
            }
        }
        i += 1;
    }
    proof {
        reveal(bfs_walks_covered);
        assert forall|w: Seq<u64>|
            is_walk(cm, w) && w.len() >= 2 && requested_ids(files).contains(w[0]) implies #[trigger] walk_pending_or_done(w, m@, queue@) by {
            let j = choose|j: int| 0 <= j < files.len() && #[trigger] files[j].id == w[0];
            assert(is_child(cm, w[1 - 1], w[1]));
            assert(queue@.contains((w[1], w[1 - 1])));
        }
    }
    queue
}

/// One step of the walk: pops the front pair `(node, parent)`, assigns
/// `node` the file of `parent`, and queues the children of `node`.
/// `false` when the queue was empty.
fn bfs_step(
    node_to_file_map: &mut HashMap<u64, u64>,
    queue: &mut VecDeque<(u64, u64)>,
    children_map: &HashMap<u64, Vec<u64>>,
    Ghost(files): Ghost<Seq<RequestedFile>>,
) -> (more: bool)
    requires
        bfs_invariant(children_map@, files, old(node_to_file_map)@, old(queue)@),
    ensures
        bfs_invariant(children_map@, files, final(node_to_file_map)@, final(queue)@),
        more == (old(queue)@.len() > 0),
        !more ==> final(queue)@ == old(queue)@ && final(node_to_file_map)@ == old(node_to_file_map)@,
        more ==> final(queue)@ == old(queue)@.drop_first() + child_pairs(children_map@, old(queue)@[0].0),
        more ==> final(node_to_file_map)@ == old(node_to_file_map)@.insert(
            old(queue)@[0].0,
            old(node_to_file_map)@[old(queue)@[0].1],
        ),
{
    broadcast use vstd::std_specs::hash::group_hash_axioms;

    let ghost cm = children_map@;
    let ghost q = queue@;
    let ghost m = node_to_file_map@;
    match queue.pop_front() {
        None => false,
        Some(pair) => {
            let (node_id, parent_id) = pair;
            assert(is_child(cm, parent_id, node_id) && m.contains_key(parent_id)) by {
                reveal(bfs_queue_sound);
                assert(q[0] == pair);
            }
            if let Some(file_id) = node_to_file_map.get(&parent_id) {
                let file_id = *file_id;
                node_to_file_map.insert(node_id, file_id);
            }
            enqueue_children(queue, children_map, node_id);
            proof {
                lemma_bfs_step_assignment(cm, files, m, node_id, parent_id);
                lemma_bfs_step_queue(cm, m, q, queue@, node_id, m[parent_id]);
                lemma_bfs_step_walks(cm, files, m, q, queue@, m[parent_id]);
            }
            true
        },
    }
}

/// The paths to the children of the node a path leads to, in order.
pub open spec fn child_paths(cm: Map<u64, Vec<u64>>, files: Seq<RequestedFile>, p: Seq<int>) -> Seq<Seq<int>> {
    Seq::new(children_of(cm, path_node(cm, files, p)).len(), |j: int| p.push(j))
}

/// The paths to the children of each of the first `k` requested files.
pub open spec fn initial_paths(cm: Map<u64, Vec<u64>>, files: Seq<RequestedFile>, k: int) -> Seq<Seq<int>>
    decreases k,
{
    if k <= 0 {
        Seq::empty()
    } else {
        initial_paths(cm, files, k - 1) + Seq::new(
            children_of(cm, files[k - 1].id).len(),
            |j: int| seq![k - 1, j],
        )
    }
}

/// The queue of the walk, entry by entry, follows distinct paths that
/// have not been walked yet, each one step below a walked path; the
/// walked paths are paths, closed under taking off their last step.
pub open spec fn paths_track(
    cm: Map<u64, Vec<u64>>,
    files: Seq<RequestedFile>,
    q: Seq<(u64, u64)>,
    paths: Seq<Seq<int>>,
    walked: Set<Seq<int>>,
) -> bool {
    &&& paths.len() == q.len()
    &&& forall|i: int|
        0 <= i < paths.len() ==> is_path(cm, files, #[trigger] paths[i]) && paths[i].len() >= 2 && q[i].0
            == path_node(cm, files, paths[i])
    &&& forall|i: int, j: int| 0 <= i < j < paths.len() ==> #[trigger] paths[i] != #[trigger] paths[j]
    &&& forall|i: int| 0 <= i < paths.len() ==> !walked.contains(#[trigger] paths[i])
    &&& forall|i: int| 0 <= i < paths.len() && (#[trigger] paths[i]).len() >= 3 ==> walked.contains(paths[i].drop_last())
    &&& forall|x: Seq<int>| #[trigger] walked.contains(x) ==> is_path(cm, files, x) && x.len() >= 2
    &&& forall|x: Seq<int>| #[trigger] walked.contains(x) && x.len() >= 3 ==> walked.contains(x.drop_last())
}

/// `a` is a prefix of `b`.
pub open spec fn prefix_of(a: Seq<int>, b: Seq<int>) -> bool {
    a.len() <= b.len() && b.take(a.len() as int) == a
}

/// Every path down from a requested file has been walked or lies below a
/// path in the queue.
pub open spec fn paths_cover(
    cm: Map<u64, Vec<u64>>,
    files: Seq<RequestedFile>,
    paths: Seq<Seq<int>>,
    walked: Set<Seq<int>>,
) -> bool {
    forall|x: Seq<int>|
        #[trigger] is_path(cm, files, x) && x.len() >= 2 ==> walked.contains(x) || exists|i: int|
            0 <= i < paths.len() && #[trigger] prefix_of(paths[i], x)
}

proof fn lemma_path_prefix(cm: Map<u64, Vec<u64>>, files: Seq<RequestedFile>, x: Seq<int>, k: int)
    requires
        is_path(cm, files, x),
        1 <= k < x.len(),
    ensures
        is_path(cm, files, x.take(k)),
        is_path(cm, files, x.take(k + 1)),
        x.take(k + 1) == x.take(k).push(x[k]),
        0 <= x[k] < children_of(cm, path_node(cm, files, x.take(k))).len(),
    decreases x.len(),
{
    assert(x.take(k + 1) =~= x.take(k).push(x[k]));
    if k + 1 == x.len() {
        assert(x.take(k + 1) =~= x);
        assert(x.drop_last() =~= x.take(k));
    } else {
        let y = x.drop_last();
        lemma_path_prefix(cm, files, y, k);
        assert(y.take(k) =~= x.take(k));
        assert(y.take(k + 1) =~= x.take(k + 1));
        assert(y[k] == x[k]);
    }
}

proof fn lemma_initial_contains(cm: Map<u64, Vec<u64>>, files: Seq<RequestedFile>, k: int, i: int, j: int)
    requires
        0 <= i < k <= files.len(),
        0 <= j < children_of(cm, files[i].id).len(),
    ensures
        exists|t: int| 0 <= t < initial_paths(cm, files, k).len() && #[trigger] initial_paths(cm, files, k)[t] == seq![i, j],
    decreases k,
{
    let p0 = initial_paths(cm, files, k - 1);
    let ps = initial_paths(cm, files, k);
    if i < k - 1 {
        lemma_initial_contains(cm, files, k - 1, i, j);
        let t = choose|t: int| 0 <= t < p0.len() && #[trigger] p0[t] == seq![i, j];
        assert(ps[t] == p0[t]);
    } else {
        assert(ps[p0.len() + j] == seq![i, j]);
    }
}

proof fn lemma_initial_cover(cm: Map<u64, Vec<u64>>, files: Seq<RequestedFile>)
    ensures
        paths_cover(cm, files, initial_paths(cm, files, files.len() as int), Set::empty()),
{
    let ps = initial_paths(cm, files, files.len() as int);
    assert forall|x: Seq<int>| #[trigger] is_path(cm, files, x) && x.len() >= 2 implies exists|i: int|
        0 <= i < ps.len() && #[trigger] prefix_of(ps[i], x) by {
        lemma_path_prefix(cm, files, x, 1);
        assert(x.take(1) =~= seq![x[0]]);
        assert(x.take(2) =~= seq![x[0], x[1]]);
        lemma_initial_contains(cm, files, files.len() as int, x[0], x[1]);
        let t = choose|t: int| 0 <= t < ps.len() && #[trigger] ps[t] == seq![x[0], x[1]];
        assert(prefix_of(ps[t], x));
    }
}

proof fn lemma_cover_step(
    cm: Map<u64, Vec<u64>>,
    files: Seq<RequestedFile>,
    paths: Seq<Seq<int>>,
    walked: Set<Seq<int>>,
)
    requires
        paths_cover(cm, files, paths, walked),
        paths.len() > 0,
        is_path(cm, files, paths[0]),
        paths[0].len() >= 2,
    ensures
        paths_cover(cm, files, paths.drop_first() + child_paths(cm, files, paths[0]), walked.insert(paths[0])),
{
    let p = paths[0];
    let ps = paths.drop_first() + child_paths(cm, files, p);
    let n = paths.len() - 1;
    assert forall|x: Seq<int>| #[trigger] is_path(cm, files, x) && x.len() >= 2 && !walked.insert(p).contains(x) implies exists|i: int|
        0 <= i < ps.len() && #[trigger] prefix_of(ps[i], x) by {
        let i = choose|i: int| 0 <= i < paths.len() && #[trigger] prefix_of(paths[i], x);
        if i >= 1 {
            assert(ps[i - 1] == paths[i]);
        } else {
            let k = p.len() as int;
            assert(x != p);
            if x.len() == k {
                assert(x.take(k) =~= x);
            }
            lemma_path_prefix(cm, files, x, k);
            let j = x[k];
            assert(ps[n + j] == p.push(j));
            assert(x.take(k + 1) =~= p.push(j));
            assert(prefix_of(ps[n + j], x));
        }
    }
}

proof fn lemma_path_child(cm: Map<u64, Vec<u64>>, files: Seq<RequestedFile>, p: Seq<int>, j: int)
    requires
        is_path(cm, files, p),
        0 <= j < children_of(cm, path_node(cm, files, p)).len(),
    ensures
        is_path(cm, files, p.push(j)),
        path_node(cm, files, p.push(j)) == children_of(cm, path_node(cm, files, p))[j],
        p.push(j).drop_last() == p,
{
    assert(p.push(j).drop_last() =~= p);
}

proof fn lemma_initial_paths(cm: Map<u64, Vec<u64>>, files: Seq<RequestedFile>, k: int)
    requires
        0 <= k <= files.len(),
    ensures
        paths_track(cm, files, initial_pairs(cm, files, k), initial_paths(cm, files, k), Set::empty()),
        forall|t: int|
            0 <= t < initial_paths(cm, files, k).len() ==> (#[trigger] initial_paths(cm, files, k)[t]).len() == 2
                && initial_paths(cm, files, k)[t][0] < k,
    decreases k,
{
    if k > 0 {
        lemma_initial_paths(cm, files, k - 1);
        let p0 = initial_paths(cm, files, k - 1);
        let q0 = initial_pairs(cm, files, k - 1);
        let f = files[k - 1].id;
        let b = Seq::new(children_of(cm, f).len(), |j: int| seq![k - 1, j]);
        let ps = initial_paths(cm, files, k);
        let qs = initial_pairs(cm, files, k);
        assert(ps == p0 + b);
        assert(qs == q0 + child_pairs(cm, f));
        assert forall|t: int| 0 <= t < ps.len() implies is_path(cm, files, #[trigger] ps[t]) && ps[t].len() >= 2
            && qs[t].0 == path_node(cm, files, ps[t]) && ps[t].len() == 2 && ps[t][0] < k by {
            if t >= p0.len() {
                let j = t - p0.len();
                let x = seq![k - 1, j];
                assert(ps[t] == x);
                assert(x.drop_last() =~= seq![k - 1]);
                assert(path_node(cm, files, seq![k - 1]) == f);
                assert(is_path(cm, files, seq![k - 1]));
                assert(qs[t] == child_pairs(cm, f)[j]);
            } else {
                assert(ps[t] == p0[t]);
                assert(qs[t] == q0[t]);
            }
        }
        assert forall|i: int, j: int| 0 <= i < j < ps.len() implies #[trigger] ps[i] != #[trigger] ps[j] by {
            if j >= p0.len() {
                assert(ps[j][1] == j - p0.len());
                assert(ps[j][0] == k - 1);
                if i >= p0.len() {
                    assert(ps[i][1] == i - p0.len());
                } else {
                    assert(ps[i] == p0[i]);
                }
            } else {
                assert(ps[i] == p0[i] && ps[j] == p0[j]);
            }
        }
    }
}

proof fn lemma_paths_step(
    cm: Map<u64, Vec<u64>>,
    files: Seq<RequestedFile>,
    q: Seq<(u64, u64)>,
    paths: Seq<Seq<int>>,
    walked: Set<Seq<int>>,
)
    requires
        paths_track(cm, files, q, paths, walked),
        q.len() > 0,
    ensures
        !walked.contains(paths[0]),
        is_path(cm, files, paths[0]) && paths[0].len() >= 2,
        paths_track(
            cm,
            files,
            q.drop_first() + child_pairs(cm, q[0].0),
            paths.drop_first() + child_paths(cm, files, paths[0]),
            walked.insert(paths[0]),
        ),
{
    let p = paths[0];
    let c = child_paths(cm, files, p);
    let q2 = q.drop_first() + child_pairs(cm, q[0].0);
    let ps = paths.drop_first() + c;
    let w2 = walked.insert(p);
    let n = paths.len() - 1;
    assert(q[0].0 == path_node(cm, files, p));
    assert forall|t: int| 0 <= t < ps.len() implies is_path(cm, files, #[trigger] ps[t]) && ps[t].len() >= 2 && q2[t].0
        == path_node(cm, files, ps[t]) by {
        if t >= n {
            lemma_path_child(cm, files, p, t - n);
            assert(ps[t] == p.push(t - n));
            assert(q2[t] == child_pairs(cm, q[0].0)[t - n]);
        } else {
            assert(ps[t] == paths[t + 1]);
            assert(q2[t] == q[t + 1]);
        }
    }
    assert forall|t: int| 0 <= t < ps.len() && (#[trigger] ps[t]).len() >= 3 implies w2.contains(ps[t].drop_last()) by {
        if t >= n {
            lemma_path_child(cm, files, p, t - n);
            assert(ps[t] == p.push(t - n));
        } else {
            assert(ps[t] == paths[t + 1]);
        }
    }
    assert forall|t: int| 0 <= t < ps.len() implies !w2.contains(#[trigger] ps[t]) by {
        if t >= n {
            let x = p.push(t - n);
            assert(ps[t] == x);
            assert(x.drop_last() =~= p);
            assert(x.len() != p.len());
        } else {
            assert(ps[t] == paths[t + 1]);
            assert(paths[0] != paths[t + 1]);
        }
    }
    assert forall|i: int, j: int| 0 <= i < j < ps.len() implies #[trigger] ps[i] != #[trigger] ps[j] by {
        if j >= n {
            let y = p.push(j - n);
            assert(ps[j] == y);
            assert(y.drop_last() =~= p);
            if i >= n {
                assert(ps[i] == p.push(i - n));
                assert(ps[i][p.len() as int] != ps[j][p.len() as int]);
            } else {
                assert(ps[i] == paths[i + 1]);
                if paths[i + 1] == y {
                    assert(walked.contains(paths[i + 1].drop_last()));
                }
            }
        } else {
            assert(ps[i] == paths[i + 1] && ps[j] == paths[j + 1]);
        }
    }
    assert forall|x: Seq<int>| #[trigger] w2.contains(x) && x.len() >= 3 implies w2.contains(x.drop_last()) by {
        if x == p {
            assert(walked.contains(paths[0].drop_last()));
        }
    }
}

/// Bounds the number of steps of file resolution; a walk over a schema
/// that fits in memory ends long before.
pub const RESOLVE_STEP_LIMIT: u64 = 0xFFFF_FFFF_FFFF_FFFF;

/// Assigns each node the requested file it belongs to, by a breadth-first
/// walk down the child lists from every requested file; a node reached
/// again takes the file of the later visit. Each step of the walk follows
/// one way down from a requested file (see `resolution_paths`), so the
/// walk ends, with `Some`, exactly when there are fewer ways down than
/// `RESOLVE_STEP_LIMIT` (`resolution_ends`); `None` otherwise. A cycle
/// in the child lists makes the ways down endless.
pub fn resolve_file_ids(
    requested_files: &Vec<RequestedFile>,
    children_map: &HashMap<u64, Vec<u64>>,
) -> (r: Option<HashMap<u64, u64>>)
    ensures
        r matches Some(m) ==> files_resolved(children_map@, requested_files@, m@),
        r is Some <==> resolution_ends(children_map@, requested_files@),
{
    broadcast use vstd::set::group_set_axioms;

    let ghost cm = children_map@;
    let ghost files = requested_files@;
    let mut node_to_file_map = files_to_themselves(requested_files, Ghost(cm));
    let mut queue = initial_queue(requested_files, children_map, &node_to_file_map);
    let mut fuel: u64 = RESOLVE_STEP_LIMIT;
    let ghost mut paths = initial_paths(cm, files, files.len() as int);
    let ghost mut walked: Set<Seq<int>> = Set::empty();
    proof {
        lemma_initial_paths(cm, files, files.len() as int);
        lemma_initial_cover(cm, files);
    }
    loop
        invariant_except_break
            walked.len() + fuel == RESOLVE_STEP_LIMIT,
        invariant
            files == requested_files@,
            cm == children_map@,
            bfs_invariant(cm, files, node_to_file_map@, queue@),
            paths_track(cm, files, queue@, paths, walked),
            paths_cover(cm, files, paths, walked),
            walked.finite(),
        ensures
            bfs_invariant(cm, files, node_to_file_map@, queue@),
            queue@.len() == 0,
            paths_track(cm, files, queue@, paths, walked),
            paths_cover(cm, files, paths, walked),
            walked.finite(),
            walked.len() < RESOLVE_STEP_LIMIT,
        decreases fuel,
    {
        if fuel == 0 {
            proof {
                assert(walked.subset_of(resolution_paths(cm, files)));
                if resolution_ends(cm, files) {
                    vstd::set_lib::lemma_len_subset(walked, resolution_paths(cm, files));
                }
            }
            return None;
        }
        fuel -= 1;
        let ghost q0 = queue@;
        if !bfs_step(&mut node_to_file_map, &mut queue, children_map, Ghost(files)) {
            break;
        }
        proof {
            lemma_paths_step(cm, files, q0, paths, walked);
            lemma_cover_step(cm, files, paths, walked);
            walked = walked.insert(paths[0]);
            paths = paths.drop_first() + child_paths(cm, files, paths[0]);
        }
    }
    proof {
        assert(queue@ =~= Seq::<(u64, u64)>::empty());
        lemma_bfs_done(cm, files, node_to_file_map@);
        assert(resolution_paths(cm, files).subset_of(walked)) by {
            assert forall|x: Seq<int>| #[trigger] resolution_paths(cm, files).contains(x) implies walked.contains(x) by {
                assert(is_path(cm, files, x) && x.len() >= 2);
            }
        }
        vstd::set_lib::lemma_len_subset(resolution_paths(cm, files), walked);
    }
    Some(node_to_file_map)
}


// ── Nesting ───────────────────────────────────────────────────────────

/// Whether every element is `true`.
pub open spec fn all_true(s: Seq<bool>) -> bool {
    forall|i: int| 0 <= i < s.len() ==> #[trigger] s[i]
}

/// The ids of a node and of all nodes nested in it.
pub open spec fn node_ids(n: Node) -> Set<u64>
    decreases n,
{
    set![n.id] + forest_ids(n.nested_nodes@)
}

/// The ids of all nodes of a forest, at every depth.
pub open spec fn forest_ids(ns: Seq<Node>) -> Set<u64>
    decreases ns,
{
    if ns.len() == 0 {
        Set::empty()
    } else {
        forest_ids(ns.drop_last()) + node_ids(ns.last())
    }
}

/// The child list of a node, empty when it has none.
pub open spec fn children_of(cm: Map<u64, Vec<u64>>, p: u64) -> Seq<u64> {
    if cm.contains_key(p) {
        cm[p]@
    } else {
        Seq::empty()
    }
}

/// `sub` is `full` with some elements left out, in the same order.
pub open spec fn is_subsequence(sub: Seq<u64>, full: Seq<u64>) -> bool {
    exists|idx: Seq<int>|
        idx.len() == sub.len() && (forall|k: int|
            0 <= k < idx.len() ==> 0 <= #[trigger] idx[k] < full.len() && sub[k] == full[idx[k]])
            && (forall|k1: int, k2: int| 0 <= k1 < k2 < idx.len() ==> idx[k1] < idx[k2])
}

/// A node taken from `om` and nested below `parent`'s position: it is the
/// entry of `om` under its id (apart from its nested nodes), its id is not
/// 0, and its own nested nodes are a well-nested forest of its children.
/// Every child still in `om` when its parent was processed is in `taken`.
pub open spec fn node_well_nested(
    n: Node,
    cm: Map<u64, Vec<u64>>,
    om: Map<u64, Node>,
    taken: Set<u64>,
) -> bool
    decreases n, 2nat,
{
    &&& om.contains_key(n.id)
    &&& n.id != 0
    &&& n == (Node { nested_nodes: n.nested_nodes, ..om[n.id] })
    &&& forest_well_nested(n.nested_nodes@, n.id, cm, om, taken)
}

pub open spec fn nodes_well_nested(
    ns: Seq<Node>,
    cm: Map<u64, Vec<u64>>,
    om: Map<u64, Node>,
    taken: Set<u64>,
) -> Seq<bool>
    decreases ns, 0nat,
{
    Seq::new(ns.len(), |i: int| 0 <= i < ns.len() && node_well_nested(ns[i], cm, om, taken))
}

/// The nodes nested below `parent`: their ids are `parent`'s children in
/// order (some left out), each node is well nested, and every child of
/// `parent` in `om` other than 0 is in `taken`.
pub open spec fn forest_well_nested(
    ns: Seq<Node>,
    parent: u64,
    cm: Map<u64, Vec<u64>>,
    om: Map<u64, Node>,
    taken: Set<u64>,
) -> bool
    decreases ns, 1nat,
{
    &&& is_subsequence(ns.map_values(|n: Node| n.id), children_of(cm, parent))
    &&& forall|c: u64|
        #[trigger] children_of(cm, parent).contains(c) && om.contains_key(c) && c != 0
            ==> taken.contains(c)
    &&& all_true(nodes_well_nested(ns, cm, om, taken))
}


/// `sub` holds some of the entries of `om`, unchanged.
pub open spec fn is_submap_of(sub: Map<u64, Node>, om: Map<u64, Node>) -> bool {
    forall|k: u64| #[trigger] sub.contains_key(k) ==> om.contains_key(k) && sub[k] == om[k]
}

/// Well nesting taken from a smaller map carries over to a larger one,
/// when every entry only in the larger map is 0 or taken.
proof fn lemma_node_well_nested_transfer(
    n: Node,
    cm: Map<u64, Vec<u64>>,
    sub: Map<u64, Node>,
    om: Map<u64, Node>,
    t1: Set<u64>,
    t2: Set<u64>,
)
    requires
        node_well_nested(n, cm, sub, t1),
        is_submap_of(sub, om),
        t1.subset_of(t2),
        forall|k: u64| om.contains_key(k) && !sub.contains_key(k) && k != 0 ==> #[trigger] t2.contains(k),
    ensures
        node_well_nested(n, cm, om, t2),
    decreases n, 2nat,
{
    lemma_forest_well_nested_transfer(n.nested_nodes@, n.id, cm, sub, om, t1, t2);
}

proof fn lemma_forest_well_nested_transfer(
    ns: Seq<Node>,
    parent: u64,
    cm: Map<u64, Vec<u64>>,
    sub: Map<u64, Node>,
    om: Map<u64, Node>,
    t1: Set<u64>,
    t2: Set<u64>,
)
    requires
        forest_well_nested(ns, parent, cm, sub, t1),
        is_submap_of(sub, om),
        t1.subset_of(t2),
        forall|k: u64| om.contains_key(k) && !sub.contains_key(k) && k != 0 ==> #[trigger] t2.contains(k),
    ensures
        forest_well_nested(ns, parent, cm, om, t2),
    decreases ns, 1nat,
{
    assert forall|c: u64|
        #[trigger] children_of(cm, parent).contains(c) && om.contains_key(c) && c != 0 implies t2.contains(c) by {
        if sub.contains_key(c) {
            assert(t1.contains(c));
        }
    }
    assert forall|i: int| 0 <= i < ns.len() implies #[trigger] nodes_well_nested(ns, cm, om, t2)[i] by {
        assert(nodes_well_nested(ns, cm, sub, t1)[i]);
        assert(decreases_to!(ns => ns[i]));
        lemma_node_well_nested_transfer(ns[i], cm, sub, om, t1, t2);
    }
    assert(all_true(nodes_well_nested(ns, cm, om, t2)));
    assert(is_subsequence(ns.map_values(|n: Node| n.id), children_of(cm, parent)));
}


/// Every entry of the map is filed under its node's id.
pub open spec fn keyed_by_id(om: Map<u64, Node>) -> bool {
    forall|k: u64| #[trigger] om.contains_key(k) ==> om[k].id == k
}

/// The nodes nested below `parent`, built from `om` (the map before) and
/// leaving `fm` (the map after): every node taken out of the map is in the
/// forest, except a node with id 0, which is dropped; the forest is well
/// nested below `parent`.
pub open spec fn nested_from(
    r: Seq<Node>,
    parent: u64,
    cm: Map<u64, Vec<u64>>,
    om: Map<u64, Node>,
    fm: Map<u64, Node>,
) -> bool {
    &&& is_submap_of(fm, om)
    &&& forall|k: u64|
        om.contains_key(k) && !fm.contains_key(k) && k != 0 ==> #[trigger] forest_ids(r).contains(k)
    &&& forall|k: u64| #[trigger] forest_ids(r).contains(k) ==> om.contains_key(k) && !fm.contains_key(k)
    &&& forest_well_nested(r, parent, cm, om, forest_ids(r))
}

proof fn lemma_forest_ids_push(ns: Seq<Node>, n: Node)
    ensures
        forest_ids(ns.push(n)) == forest_ids(ns) + node_ids(n),
{
    assert(ns.push(n).drop_last() =~= ns);
}

/// Takes the children of `parent` out of `node_map`, in order, and nests
/// below each the children it has in turn; a child no longer in the map is
/// skipped, and a node with id 0 is dropped.
fn build_nested_structure(
    node_map: &mut HashMap<u64, Node>,
    children_map: &HashMap<u64, Vec<u64>>,
    parent_id: u64,
) -> (r: Vec<Node>)
    requires
        keyed_by_id(old(node_map)@),
    ensures
        nested_from(r@, parent_id, children_map@, old(node_map)@, final(node_map)@),
        keyed_by_id(final(node_map)@),
    decreases old(node_map)@.len(),
{
    broadcast use vstd::std_specs::hash::group_hash_axioms;
    broadcast use vstd::std_specs::hash::axiom_hashmap_view_finite_dom;

    let ghost cm = children_map@;
    let ghost om = node_map@;
    assert(node_map@.dom().finite());
    let ghost kids = children_of(cm, parent_id);
    let mut result: Vec<Node> = Vec::new();
    let ghost mut idx: Seq<int> = Seq::empty();
    let empty: Vec<u64> = Vec::new();
    let children = match children_map.get(&parent_id) {
        Some(children) => children,
        None => &empty,
    };
    assert(children@ == kids);
    let mut k: usize = 0;
    while k < children.len()
        invariant
            k <= children.len(),
            children@ == kids,
            cm == children_map@,
            keyed_by_id(om),
            keyed_by_id(node_map@),
            is_submap_of(node_map@, om),
            om.dom().finite(),
            om == old(node_map)@,
            forall|c: u64|
                om.contains_key(c) && !node_map@.contains_key(c) && c != 0 ==> #[trigger] forest_ids(result@).contains(c),
            forall|c: u64| #[trigger] forest_ids(result@).contains(c) ==> om.contains_key(c) && !node_map@.contains_key(c),
            idx.len() == result@.len(),
            forall|j: int| 0 <= j < idx.len() ==> 0 <= #[trigger] idx[j] < k && result@[j].id == kids[idx[j]],
            forall|j1: int, j2: int| 0 <= j1 < j2 < idx.len() ==> idx[j1] < idx[j2],
            forall|j: int|
                0 <= j < k && om.contains_key(#[trigger] kids[j]) && kids[j] != 0 ==> forest_ids(result@).contains(kids[j]),
            all_true(nodes_well_nested(result@, cm, om, forest_ids(result@))),
        decreases children.len() - k,
    {
        let child_id = children[k];
        let ghost before = node_map@;
        let ghost res0 = result@;
        match node_map.remove(&child_id) {
            None => {},
            Some(node) => {
                let mut node = node;
                if node.id != 0 {
                    let ghost sub = node_map@;
                    proof {
                        assert(before.dom().subset_of(om.dom()));
                        vstd::set_lib::lemma_len_subset(before.dom(), om.dom());
                        assert(sub.dom() =~= before.dom().remove(child_id));
                        assert(sub.len() < om.len());
                    }
                    let nested = build_nested_structure(node_map, children_map, child_id);
                    let ghost fm = node_map@;
                    node.nested_nodes = nested;
                    let ghost n = node;
                    result.push(node);
                    proof {
                        lemma_forest_ids_push(res0, n);
                        let t0 = forest_ids(res0);
                        let t = forest_ids(result@);
                        assert(node_ids(n) == set![child_id] + forest_ids(nested@));
                        // The new node is well nested.
                        assert forall|c: u64| om.contains_key(c) && !sub.contains_key(c) && c != 0 implies #[trigger] t.contains(c) by {
                            if c != child_id {
                                assert(!before.contains_key(c));
                            }
                        }
                        lemma_forest_well_nested_transfer(nested@, child_id, cm, sub, om, forest_ids(nested@), t);
                        assert(node_well_nested(n, cm, om, t));
                        // The earlier nodes stay well nested.
                        assert forall|i: int| 0 <= i < result@.len() implies #[trigger] nodes_well_nested(result@, cm, om, t)[i] by {
                            if i < res0.len() {
                                assert(nodes_well_nested(res0, cm, om, t0)[i]);
                                assert(result@[i] == res0[i]);
                                lemma_node_well_nested_transfer(res0[i], cm, om, om, t0, t);
                            }
                        }
                        idx = idx.push(k as int);
                        assert forall|c: u64| om.contains_key(c) && !fm.contains_key(c) && c != 0 implies #[trigger] t.contains(c) by {
                            if c != child_id && sub.contains_key(c) {
                                assert(forest_ids(nested@).contains(c));
                            } else if c != child_id {
                                assert(!before.contains_key(c));
                            }
                        }
                        assert forall|c: u64| #[trigger] t.contains(c) implies om.contains_key(c) && !fm.contains_key(c) by {
                            if t0.contains(c) {
                            } else if c == child_id {
                            } else {
                                assert(forest_ids(nested@).contains(c));
                            }
                        }
                    }
                } else {
                    proof {
                        assert(child_id == 0);
                    }
                }
            },
        }
        k += 1;
    }
    proof {
        assert(is_subsequence(result@.map_values(|n: Node| n.id), kids)) by {
            assert(forall|j: int| 0 <= j < idx.len() ==> result@.map_values(|n: Node| n.id)[j] == kids[idx[j]]);
        }
    }
    result
}


// ── Parents of nested nodes ───────────────────────────────────────────

/// The parent node `k` has once the first `upto` (parent, nested node)
/// pairs are applied to it, starting from `start`: a pair `(p, k)` makes
/// `p` the parent of `k` while `k` still hangs from the root (0).
pub open spec fn parent_after(pairs: Seq<(u64, u64)>, k: u64, start: u64, upto: int) -> u64
    decreases upto,
{
    if upto <= 0 {
        start
    } else {
        let before = parent_after(pairs, k, start, upto - 1);
        if before == 0 && pairs[upto - 1].1 == k {
            pairs[upto - 1].0
        } else {
            before
        }
    }
}

/// Pair `t` attaches its node to its parent: the node is known and, after
/// the pairs before `t`, still hangs from the root.
pub open spec fn pair_attaches(pairs: Seq<(u64, u64)>, nodes0: Map<u64, Node>, t: int) -> bool {
    &&& nodes0.contains_key(pairs[t].1)
    &&& parent_after(pairs, pairs[t].1, nodes0[pairs[t].1].parent_id, t) == 0
}

/// The nodes attached to `parent` by the first `upto` pairs, in order.
pub open spec fn attached_children(
    pairs: Seq<(u64, u64)>,
    nodes0: Map<u64, Node>,
    parent: u64,
    upto: int,
) -> Seq<u64>
    decreases upto,
{
    if upto <= 0 {
        Seq::empty()
    } else {
        attached_children(pairs, nodes0, parent, upto - 1) + if pair_attaches(pairs, nodes0, upto - 1)
            && pairs[upto - 1].0 == parent {
            seq![pairs[upto - 1].1]
        } else {
            Seq::empty()
        }
    }
}

/// The effect of the first `upto` pairs: every node keeps all but its
/// parent, which is the parent after the pairs; each parent's child list
/// gets the nodes attached to it appended, in order.
pub open spec fn linked(
    pairs: Seq<(u64, u64)>,
    nodes0: Map<u64, Node>,
    children0: Map<u64, Vec<u64>>,
    nodes: Map<u64, Node>,
    children: Map<u64, Vec<u64>>,
    upto: int,
) -> bool {
    &&& nodes.dom() == nodes0.dom()
    &&& forall|k: u64|
        #[trigger] nodes.contains_key(k) ==> nodes[k] == (Node {
            parent_id: parent_after(pairs, k, nodes0[k].parent_id, upto),
            ..nodes0[k]
        })
    &&& forall|p: u64|
        #[trigger] children.contains_key(p) <==> (children0.contains_key(p) || attached_children(
            pairs,
            nodes0,
            p,
            upto,
        ).len() > 0)
    &&& forall|p: u64|
        #[trigger] children.contains_key(p) ==> children[p]@ == children_of(children0, p)
            + attached_children(pairs, nodes0, p, upto)
}

/// Appends `c` to the child list of `p`, creating the list if needed.
fn append_child(children: &mut HashMap<u64, Vec<u64>>, p: u64, c: u64)
    ensures
        final(children)@.dom() == old(children)@.dom().insert(p),
        final(children)@[p]@ == children_of(old(children)@, p).push(c),
        forall|q: u64| q != p && #[trigger] old(children)@.contains_key(q) ==> final(children)@[q] == old(children)@[q],
{
    broadcast use vstd::std_specs::hash::group_hash_axioms;

    let mut list = match children.remove(&p) {
        Some(list) => list,
        None => Vec::new(),
    };
    list.push(c);
    children.insert(p, list);
    proof {
        assert(final(children)@.dom() =~= old(children)@.dom().insert(p));
    }
}

proof fn lemma_link_step(
    pairs: Seq<(u64, u64)>,
    nodes0: Map<u64, Node>,
    children0: Map<u64, Vec<u64>>,
    nodes: Map<u64, Node>,
    children: Map<u64, Vec<u64>>,
    nodes2: Map<u64, Node>,
    children2: Map<u64, Vec<u64>>,
    t: int,
)
    requires
        0 <= t < pairs.len(),
        linked(pairs, nodes0, children0, nodes, children, t),
        pair_attaches(pairs, nodes0, t) ==> {
            &&& nodes2 == nodes.insert(pairs[t].1, Node { parent_id: pairs[t].0, ..nodes[pairs[t].1] })
            &&& children2.dom() == children.dom().insert(pairs[t].0)
            &&& children2[pairs[t].0]@ == children_of(children, pairs[t].0).push(pairs[t].1)
            &&& forall|q: u64| q != pairs[t].0 && #[trigger] children.contains_key(q) ==> children2[q] == children[q]
        },
        !pair_attaches(pairs, nodes0, t) ==> nodes2 == nodes && children2 == children,
    ensures
        linked(pairs, nodes0, children0, nodes2, children2, t + 1),
{
    let (p, c) = pairs[t];
    assert forall|k: u64| #[trigger] nodes2.contains_key(k) implies nodes2[k] == (Node {
        parent_id: parent_after(pairs, k, nodes0[k].parent_id, t + 1),
        ..nodes0[k]
    }) by {
        assert(nodes.contains_key(k));
    }
    assert(nodes2.dom() =~= nodes0.dom());
    assert forall|q: u64| #[trigger] children2.contains_key(q) <==> (children0.contains_key(q)
        || attached_children(pairs, nodes0, q, t + 1).len() > 0) by {
        if children2.contains_key(q) && q != p {
            assert(children.contains_key(q));
        }
    }
    assert forall|q: u64| #[trigger] children2.contains_key(q) implies children2[q]@ == children_of(children0, q)
        + attached_children(pairs, nodes0, q, t + 1) by {
        if pair_attaches(pairs, nodes0, t) && q == p {
            if children.contains_key(p) {
                assert(children_of(children, p) == children[p]@);
            } else {
                assert(attached_children(pairs, nodes0, p, t).len() == 0);
                assert(!children0.contains_key(p));
            }
        } else {
            assert(children.contains_key(q));
        }
    }
}

/// Gives each node listed as nested in a parent, and still hanging from
/// the root, that parent, and appends it to the parent's child list; the
/// pairs are taken in order.
fn link_nested_parents(
    nodes: &mut HashMap<u64, Node>,
    children: &mut HashMap<u64, Vec<u64>>,
    pairs: &Vec<(u64, u64)>,
)
    ensures
        linked(pairs@, old(nodes)@, old(children)@, final(nodes)@, final(children)@, pairs@.len() as int),
{
    broadcast use vstd::std_specs::hash::group_hash_axioms;

    let ghost nodes0 = nodes@;
    let ghost children0 = children@;
    let mut t: usize = 0;
    proof {
        assert(nodes@.dom() =~= nodes0.dom());
    }
    while t < pairs.len()
        invariant
            t <= pairs.len(),
            nodes0 == old(nodes)@,
            children0 == old(children)@,
            linked(pairs@, nodes0, children0, nodes@, children@, t as int),
        decreases pairs.len() - t,
    {
        let (p, c) = pairs[t];
        let ghost n1 = nodes@;
        let ghost c1 = children@;
        match nodes.remove(&c) {
            Some(node) => {
                let mut node = node;
                assert(n1.contains_key(c));
                if node.parent_id == 0 {
                    node.parent_id = p;
                    nodes.insert(c, node);
                    append_child(children, p, c);
                    proof {
                        assert(pair_attaches(pairs@, nodes0, t as int));
                        assert(nodes@ =~= n1.insert(c, Node { parent_id: p, ..n1[c] }));
                    }
                } else {
                    nodes.insert(c, node);
                    proof {
                        assert(nodes@ =~= n1);
                        assert(!pair_attaches(pairs@, nodes0, t as int));
                    }
                }
            },
            None => {
                proof {
                    assert(nodes@ =~= n1);
                    assert(!pair_attaches(pairs@, nodes0, t as int));
                }
            },
        }
        proof {
            lemma_link_step(pairs@, nodes0, children0, n1, c1, nodes@, children@, t as int);
        }
        t += 1;
    }
}


// ── Collecting the flat node list ─────────────────────────────────────

/// The (parent, nested node) pairs of the nested-node lists, list by list.
pub open spec fn nested_pairs(nested: Seq<(u64, Vec<u64>)>) -> Seq<(u64, u64)> {
    concat_all(nested.map_values(|e: (u64, Vec<u64>)| e.1@.map_values(|c: u64| (e.0, c))))
}

/// No node has two nested-node lists.
pub open spec fn nested_keys_unique(nested: Seq<(u64, Vec<u64>)>) -> bool {
    forall|i: int, j: int| 0 <= i < j < nested.len() ==> nested[i].0 != nested[j].0
}

/// The nested-node lists once `ids` is recorded for node `id`: a later
/// list for the same node replaces the earlier one in its place.
pub open spec fn nested_recorded(nested: Seq<(u64, Vec<u64>)>, id: u64, ids: Vec<u64>) -> Seq<
    (u64, Vec<u64>),
> {
    if exists|i: int| 0 <= i < nested.len() && #[trigger] nested[i].0 == id {
        nested.update(choose|i: int| 0 <= i < nested.len() && #[trigger] nested[i].0 == id, (id, ids))
    } else {
        nested.push((id, ids))
    }
}

/// The nodes of a request as read one by one, before they are nested:
/// every node but annotations under its id, the child lists by scope, the
/// nested-node list of every node, and the ids in the order first read.
pub struct FlatNodes {
    pub nodes: HashMap<u64, Node>,
    pub children: HashMap<u64, Vec<u64>>,
    pub nested: Vec<(u64, Vec<u64>)>,
    pub ids: Vec<u64>,
}

/// `after` is `before` with a node read from scope `scope_id` recorded,
/// with the ids it lists as nested (see `FlatNodes::add_node`).
pub open spec fn node_filed(before: FlatNodes, node: Node, scope_id: u64, nested_ids: Vec<u64>, after: FlatNodes) -> bool {
    &&& after.nested@ == nested_recorded(before.nested@, node.id, nested_ids)
    &&& node.kind is Annotation ==> after.nodes@ == before.nodes@ && after.children@ == before.children@
    &&& !(node.kind is Annotation) ==> {
        &&& after.nodes@ == before.nodes@.insert(node.id, Node { parent_id: scope_id, ..node })
        &&& after.children@.dom() == before.children@.dom().insert(scope_id)
        &&& after.children@[scope_id]@ == children_of(before.children@, scope_id).push(node.id)
        &&& forall|q: u64|
            q != scope_id && #[trigger] before.children@.contains_key(q) ==> after.children@[q] == before.children@[q]
    }
}

impl FlatNodes {
    pub open spec fn wf(&self) -> bool {
        &&& keyed_by_id(self.nodes@)
        &&& self.ids@.no_duplicates()
        &&& self.ids@.to_set() == self.nodes@.dom()
        &&& nested_keys_unique(self.nested@)
    }

    pub fn new() -> (r: Self)
        ensures
            r.wf(),
            r.nodes@ == Map::<u64, Node>::empty(),
            r.children@ == Map::<u64, Vec<u64>>::empty(),
            r.nested@ == Seq::<(u64, Vec<u64>)>::empty(),
    {
        broadcast use vstd::std_specs::hash::group_hash_axioms;

        let r = FlatNodes { nodes: HashMap::new(), children: HashMap::new(), nested: Vec::new(), ids: Vec::new() };
        assert(r.ids@.to_set() =~= Set::<u64>::empty());
        r
    }

    /// Records a node read from scope `scope_id`, with the ids of the
    /// nodes it lists as nested. The nested list is kept for every node;
    /// an annotation node is otherwise left out. Any other node takes
    /// `scope_id` as parent, is filed under its id and appended to its
    /// scope's child list.
    pub fn add_node(&mut self, node: Node, scope_id: u64, nested_ids: Vec<u64>)
        requires
            old(self).wf(),
        ensures
            final(self).wf(),
            node_filed(*old(self), node, scope_id, nested_ids, *final(self)),
    {
        broadcast use vstd::std_specs::hash::group_hash_axioms;

        let id = node.id;
        let ghost nested0 = self.nested@;
        let mut i: usize = 0;
        let mut found = false;
        while i < self.nested.len() && !found
            invariant
                i <= self.nested.len(),
                self.nested@ == nested0,
                found ==> i < nested0.len() && nested0[i as int].0 == id,
                forall|j: int| 0 <= j < i ==> nested0[j].0 != id,
            decreases self.nested.len() - i, if found { 0nat } else { 1nat },
        {
            if self.nested[i].0 == id {
                found = true;
            } else {
                i += 1;
            }
        }
        if found {
            self.nested.set(i, (id, nested_ids));
            proof {
                assert(nested0[i as int].0 == id);
                let c = choose|j: int| 0 <= j < nested0.len() && #[trigger] nested0[j].0 == id;
                assert(c == i);
            }
        } else {
            self.nested.push((id, nested_ids));
            proof {
                assert(!exists|j: int| 0 <= j < nested0.len() && #[trigger] nested0[j].0 == id);
            }
        }
        match node.kind {
            NodeKind::Annotation(_, _) => {},
            _ => {
                let ghost n0 = self.nodes@;
                let ghost ids0 = self.ids@;
                let mut node = node;
                node.parent_id = scope_id;
                append_child(&mut self.children, scope_id, id);
                if !self.nodes.contains_key(&id) {
                    self.ids.push(id);
                }
                self.nodes.insert(id, node);
                proof {
                    if n0.contains_key(id) {
                        assert(ids0.to_set().contains(id));
                        assert(self.ids@ == ids0);
                    } else {
                        assert(!ids0.contains(id));
                        assert(self.ids@ == ids0.push(id));
                        ids0.lemma_push_to_set_commute(id);
                    }
                    assert(self.ids@.to_set() =~= self.nodes@.dom());
                }
            },
        }
    }
}

/// The nested-node lists flattened into (parent, nested node) pairs.
fn flatten_nested(nested: &Vec<(u64, Vec<u64>)>) -> (r: Vec<(u64, u64)>)
    ensures
        r@ == nested_pairs(nested@),
{
    let ghost f = |e: (u64, Vec<u64>)| e.1@.map_values(|c: u64| (e.0, c));
    let mut r: Vec<(u64, u64)> = Vec::new();
    let mut i: usize = 0;
    while i < nested.len()
        invariant
            i <= nested.len(),
            f == (|e: (u64, Vec<u64>)| e.1@.map_values(|c: u64| (e.0, c))),
            r@ == concat_all(nested@.take(i as int).map_values(f)),
        decreases nested.len() - i,
    {
        let ghost before = r@;
        let parent = nested[i].0;
        let list = &nested[i].1;
        let mut j: usize = 0;
        while j < list.len()
            invariant
                j <= list.len(),
                *list == nested@[i as int].1,
                parent == nested@[i as int].0,
                r@ == before + list@.take(j as int).map_values(|c: u64| (parent, c)),
            decreases list.len() - j,
        {
            r.push((parent, list[j]));
            proof {
                assert(list@.take(j + 1).map_values(|c: u64| (parent, c)) =~= list@.take(j as int).map_values(
                    |c: u64| (parent, c),
                ).push((parent, list@[j as int])));
            }
            j += 1;
        }
        proof {
            assert(list@.take(list.len() as int) =~= list@);
            assert(nested@.take(i + 1).map_values(f).drop_last() =~= nested@.take(i as int).map_values(f));
            assert(nested@.take(i + 1).map_values(f).last() == f(nested@[i as int]));
        }
        i += 1;
    }
    proof {
        assert(nested@.take(nested.len() as int) =~= nested@);
    }
    r
}


// ── Assembling the schema ─────────────────────────────────────────────

/// The file a node was resolved to, 0 when it was not.
pub open spec fn file_of_node(file_of: Map<u64, u64>, k: u64) -> u64 {
    if file_of.contains_key(k) {
        file_of[k]
    } else {
        0
    }
}

/// The nodes, each with the file it was resolved to.
pub open spec fn with_file_ids(nodes: Map<u64, Node>, file_of: Map<u64, u64>) -> Map<u64, Node> {
    Map::new(
        |k: u64| nodes.contains_key(k),
        |k: u64| Node { file_id: file_of_node(file_of, k), ..nodes[k] },
    )
}

/// Sets the file of every node, by the ids in `ids`.
fn assign_file_ids(node_map: &mut HashMap<u64, Node>, ids: &Vec<u64>, file_of: &HashMap<u64, u64>)
    requires
        ids@.no_duplicates(),
        ids@.to_set() == old(node_map)@.dom(),
    ensures
        final(node_map)@ == with_file_ids(old(node_map)@, file_of@),
{
    broadcast use vstd::std_specs::hash::group_hash_axioms;

    let ghost m0 = node_map@;
    let mut i: usize = 0;
    while i < ids.len()
        invariant
            i <= ids.len(),
            ids@.no_duplicates(),
            ids@.to_set() == m0.dom(),
            node_map@.dom() == m0.dom(),
            forall|k: u64| #[trigger] node_map@.contains_key(k) ==> node_map@[k] == if ids@.take(i as int).contains(k) {
                Node { file_id: file_of_node(file_of@, k), ..m0[k] }
            } else {
                m0[k]
            },
        decreases ids.len() - i,
    {
        let k = ids[i];
        let file_id = match file_of.get(&k) {
            Some(f) => *f,
            None => 0,
        };
        let ghost before = node_map@;
        assert(ids@.to_set().contains(k));
        assert(!ids@.take(i as int).contains(k)) by {
            if ids@.take(i as int).contains(k) {
                let j = choose|j: int| 0 <= j < i && ids@.take(i as int)[j] == k;
                assert(ids@[j] == ids@[i as int]);
            }
        }
        match node_map.remove(&k) {
            Some(node) => {
                let mut node = node;
                node.file_id = file_id;
                node_map.insert(k, node);
            },
            None => {},
        }
        proof {
            assert(node_map@.dom() =~= m0.dom());
            assert forall|x: u64| #[trigger] node_map@.contains_key(x) implies node_map@[x] == if ids@.take(i + 1).contains(x) {
                Node { file_id: file_of_node(file_of@, x), ..m0[x] }
            } else {
                m0[x]
            } by {
                assert(ids@.take(i + 1) =~= ids@.take(i as int).push(k));
                if x != k {
                    assert(before.contains_key(x));
                    assert(ids@.take(i + 1).contains(x) == ids@.take(i as int).contains(x)) by {
                        if ids@.take(i + 1).contains(x) {
                            let j = choose|j: int| 0 <= j < i + 1 && #[trigger] ids@.take(i + 1)[j] == x;
                            assert(ids@.take(i as int)[j] == x);
                        }
                        if ids@.take(i as int).contains(x) {
                            let j = choose|j: int| 0 <= j < i && #[trigger] ids@.take(i as int)[j] == x;
                            assert(ids@.take(i + 1)[j] == x);
                        }
                    }
                } else {
                    assert(ids@.take(i + 1)[i as int] == k);
                    assert(before[k] == m0[k]);
                    assert(file_id == file_of_node(file_of@, k));
                }
            }
        }
        i += 1;
    }
    proof {
        assert(ids@.take(ids.len() as int) =~= ids@);
        assert forall|k: u64| #[trigger] node_map@.contains_key(k) implies ids@.contains(k) by {
            assert(ids@.to_set().contains(k));
        }
        assert(node_map@ =~= with_file_ids(m0, file_of@));
    }
}

/// The schema's node list assembled from the flat nodes: the nested-node
/// pairs are linked, every node gets the file it lies in, the nodes are
/// nested below the root (0), and the roots are filtered.
pub open spec fn schema_assembled(
    nodes0: Map<u64, Node>,
    children0: Map<u64, Vec<u64>>,
    pairs: Seq<(u64, u64)>,
    files: Seq<RequestedFile>,
    out: Seq<Node>,
) -> bool {
    exists|nodes1: Map<u64, Node>, children1: Map<u64, Vec<u64>>, file_of: Map<u64, u64>, rest: Map<u64, Node>, forest: Seq<Node>|
        #![trigger linked(pairs, nodes0, children0, nodes1, children1, pairs.len() as int), files_resolved(children1, files, file_of), nested_from(forest, 0, children1, with_file_ids(nodes1, file_of), rest)]
        {
            &&& linked(pairs, nodes0, children0, nodes1, children1, pairs.len() as int)
            &&& files_resolved(children1, files, file_of)
            &&& nested_from(forest, 0, children1, with_file_ids(nodes1, file_of), rest)
            &&& out == filtered_roots(forest)
        }
}

/// File resolution over the child lists that linking the nested-node
/// pairs gives does not end (see `resolution_ends`).
pub open spec fn resolution_fails(
    nodes0: Map<u64, Node>,
    children0: Map<u64, Vec<u64>>,
    pairs: Seq<(u64, u64)>,
    files: Seq<RequestedFile>,
) -> bool {
    exists|nodes1: Map<u64, Node>, children1: Map<u64, Vec<u64>>|
        #[trigger] linked(pairs, nodes0, children0, nodes1, children1, pairs.len() as int) && !resolution_ends(
            children1,
            files,
        )
}

impl FlatNodes {
    /// Turns the flat nodes into the schema: links the nodes listed as
    /// nested to their parents, resolves the file of every node, nests the
    /// nodes below the root and filters the roots. `None` exactly when file
    /// resolution over the linked child lists does not end (see
    /// `resolve_file_ids`).
    pub fn into_schema(self, requested_files: Vec<RequestedFile>) -> (r: Option<ParsedSchema>)
        requires
            self.wf(),
        ensures
            r matches Some(s) ==> s.requested_files@ == requested_files@ && schema_assembled(
                self.nodes@,
                self.children@,
                nested_pairs(self.nested@),
                requested_files@,
                s.nodes@,
            ),
            r is Some ==> exists|nodes1: Map<u64, Node>, children1: Map<u64, Vec<u64>>|
                #[trigger] linked(
                    nested_pairs(self.nested@),
                    self.nodes@,
                    self.children@,
                    nodes1,
                    children1,
                    nested_pairs(self.nested@).len() as int,
                ) && resolution_ends(children1, requested_files@),
            r is None ==> resolution_fails(self.nodes@, self.children@, nested_pairs(self.nested@), requested_files@),
    {
        let ghost nodes0 = self.nodes@;
        let ghost children0 = self.children@;
        let FlatNodes { nodes, children, nested, ids } = self;
        let mut nodes = nodes;
        let mut children = children;
        let pairs = flatten_nested(&nested);
        link_nested_parents(&mut nodes, &mut children, &pairs);
        let ghost nodes1 = nodes@;
        let file_of = match resolve_file_ids(&requested_files, &children) {
            Some(m) => m,
            None => {
                assert(linked(pairs@, nodes0, children0, nodes1, children@, pairs@.len() as int));
                return None;
            },
        };
        assign_file_ids(&mut nodes, &ids, &file_of);
        proof {
            assert forall|k: u64| #[trigger] nodes@.contains_key(k) implies nodes@[k].id == k by {
                assert(nodes1.contains_key(k));
                assert(nodes0.contains_key(k));
            }
        }
        let ghost with_files = nodes@;
        let roots = build_nested_structure(&mut nodes, &children, 0);
        let ghost forest = roots@;
        let out = filter_root_nodes(roots);
        proof {
            assert(linked(pairs@, nodes0, children0, nodes1, children@, pairs@.len() as int));
            assert(files_resolved(children@, requested_files@, file_of@));
            assert(nested_from(forest, 0, children@, with_file_ids(nodes1, file_of@), nodes@));
        }
        Some(ParsedSchema { nodes: out, requested_files })
    }
}

} // verus!
