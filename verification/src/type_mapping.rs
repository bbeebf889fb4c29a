//! The mapping of Cap'n Proto schema types to Elm types: the Elm module
//! name of every schema node, the Elm type of every schema type (as in
//! the table of type mappings: integers become `Int`, 64-bit integers
//! `Capnproto.Word64`, floats `Float`, text `String`, data `Bytes`, lists
//! `List`, and references the referenced module's `Entity`), the imports
//! a type needs, and the XOR-mask defaults of fields.
use vstd::prelude::*;

use std::collections::HashMap;

use crate::capnproto::{Binding, Brand, BrandScope, DefaultValue, Node, NodeKind, RequestedFile, Type};
use crate::elm::{ElmDefaultValue, ElmField, ElmPrimitiveType, ElmType, ElmUnionBranch, FloatBits};
use crate::text::concat_all;
use crate::naming::{lowercase, split_at_char, split_on, to_lowercase, to_upper_camel_case, upper_camel_case};
use crate::text::{join, join_strings, lemma_views_of_push, owned, views_of};

verus! {

// ── Module names ──────────────────────────────────────────────────────

/// A schema file name without its `.capnp` extension.
pub open spec fn schema_stem(filename: Seq<char>) -> Seq<char> {
    if filename.len() >= 6 && filename.skip(filename.len() - 6) == ".capnp"@ {
        filename.take(filename.len() - 6)
    } else {
        filename
    }
}

/// The module prefix of a schema file: the non-empty parts of its path,
/// without the extension, each in upper camel case, joined by dots
/// (`rpc.capnp` gives `Rpc`).
pub open spec fn file_module_prefix(filename: Seq<char>) -> Seq<char> {
    join(
        split_on(schema_stem(filename), '/').filter(|p: Seq<char>| p.len() > 0).map_values(
            |p: Seq<char>| upper_camel_case(p),
        ),
        "."@,
    )
}

/// The part of a display name after the file it names (after its last
/// `:`), or all of it.
pub open spec fn display_path(display: Seq<char>) -> Seq<char> {
    split_on(display, ':').last()
}

/// The dotted path of a node inside its file, each part in upper camel
/// case (`t.capnp:Machine.mode` gives `Machine.Mode`).
pub open spec fn type_path_name(display: Seq<char>) -> Seq<char> {
    join(split_on(display_path(display), '.').map_values(|p: Seq<char>| upper_camel_case(p)), "."@)
}

/// A node's own name: the last part of its path in upper camel case.
pub open spec fn extracted_type_name(display: Seq<char>) -> Seq<char> {
    upper_camel_case(split_on(display_path(display), '.').last())
}

/// The full Elm module name of a node: its file's module prefix, when its
/// file is known and gives one, and its path.
pub open spec fn node_full_name(files: Map<u64, Seq<char>>, n: Node) -> Seq<char> {
    let prefix = if files.contains_key(n.file_id) {
        file_module_prefix(files[n.file_id])
    } else {
        Seq::empty()
    };
    if prefix.len() == 0 {
        type_path_name(n.display_name@)
    } else {
        prefix + "."@ + type_path_name(n.display_name@)
    }
}

/// The part of `s` before its last `.`, empty when it has none.
pub open spec fn before_last_dot(s: Seq<char>) -> Seq<char>
    decreases s.len(),
{
    if s.len() == 0 {
        s
    } else if s.last() == '.' {
        s.drop_last()
    } else {
        before_last_dot(s.drop_last())
    }
}

/// The filename of each requested file, by id; a later file with the
/// same id replaces an earlier one.
pub open spec fn files_by_id(files: Seq<RequestedFile>) -> Map<u64, Seq<char>>
    decreases files.len(),
{
    if files.len() == 0 {
        Map::empty()
    } else {
        files_by_id(files.drop_last()).insert(files.last().id, files.last().filename@)
    }
}

fn ends_with_capnp(s: &str) -> (b: bool)
    ensures
        b == (s@.len() >= 6 && s@.skip(s@.len() - 6) == ".capnp"@),
{
    let ext = ".capnp";
    proof {
        reveal_strlit(".capnp");
    }
    let n = s.unicode_len();
    if n < 6 {
        return false;
    }
    let mut i: usize = 0;
    while i < 6
        invariant
            i <= 6,
            n == s@.len(),
            n >= 6,
            ext@ == ".capnp"@,
            ext@.len() == 6,
            forall|j: int| 0 <= j < i ==> s@[n - 6 + j] == ext@[j],
        decreases 6 - i,
    {
        if s.get_char(n - 6 + i) != ext.get_char(i) {
            assert(s@.skip(n - 6)[i as int] != ext@[i as int]);
            return false;
        }
        i += 1;
    }
    assert(s@.skip(n - 6) =~= ext@);
    true
}

fn take_chars(s: &str, k: usize) -> (r: String)
    requires
        k <= s@.len(),
    ensures
        r@ == s@.take(k as int),
{
    let mut r = String::new();
    let mut i: usize = 0;
    while i < k
        invariant
            i <= k,
            k <= s@.len(),
            r@ == s@.take(i as int),
        decreases k - i,
    {
        crate::text::push_char(&mut r, s.get_char(i));
        assert(r@ =~= s@.take(i + 1));
        i += 1;
    }
    r
}

/// The module prefix of a schema file.
pub fn module_prefix_of_file(filename: &str) -> (r: String)
    ensures
        r@ == file_module_prefix(filename@),
{
    let stem = if ends_with_capnp(filename) {
        take_chars(filename, filename.unicode_len() - 6)
    } else {
        owned(filename)
    };
    let parts = split_at_char(stem.as_str(), '/');
    let ghost kept = views_of(parts@).filter(|p: Seq<char>| p.len() > 0);
    let mut camel: Vec<String> = Vec::new();
    let mut i: usize = 0;
    while i < parts.len()
        invariant
            i <= parts.len(),
            views_of(camel@) == views_of(parts@).take(i as int).filter(|p: Seq<char>| p.len() > 0).map_values(
                |p: Seq<char>| upper_camel_case(p),
            ),
        decreases parts.len() - i,
    {
        proof {
            assert(views_of(parts@).take(i + 1).drop_last() =~= views_of(parts@).take(i as int));
            reveal(Seq::filter);
        }
        if !parts[i].as_str().is_empty() {
            let c = to_upper_camel_case(parts[i].as_str());
            proof {
                lemma_views_of_push(camel@, c);
                assert(views_of(parts@).take(i + 1).filter(|p: Seq<char>| p.len() > 0) =~= views_of(parts@).take(
                    i as int,
                ).filter(|p: Seq<char>| p.len() > 0).push(parts@[i as int]@));
            }
            camel.push(c);
        } else {
            proof {
                assert(views_of(parts@).take(i + 1).filter(|p: Seq<char>| p.len() > 0) =~= views_of(parts@).take(
                    i as int,
                ).filter(|p: Seq<char>| p.len() > 0));
            }
        }
        proof {
            assert(views_of(parts@).take(i + 1).filter(|p: Seq<char>| p.len() > 0).map_values(|p: Seq<char>| upper_camel_case(p))
                =~= views_of(camel@));
        }
        i += 1;
    }
    assert(views_of(parts@).take(parts.len() as int) =~= views_of(parts@));
    join_strings(&camel, ".")
}

/// The dotted parts of `s` in upper camel case, joined by dots.
fn camel_path(s: &str) -> (r: String)
    ensures
        r@ == join(split_on(s@, '.').map_values(|p: Seq<char>| upper_camel_case(p)), "."@),
{
    let parts = split_at_char(s, '.');
    let mut camel: Vec<String> = Vec::new();
    let mut i: usize = 0;
    while i < parts.len()
        invariant
            i <= parts.len(),
            views_of(camel@) == views_of(parts@).take(i as int).map_values(|p: Seq<char>| upper_camel_case(p)),
        decreases parts.len() - i,
    {
        let c = to_upper_camel_case(parts[i].as_str());
        proof {
            lemma_views_of_push(camel@, c);
            assert(views_of(parts@).take(i + 1).map_values(|p: Seq<char>| upper_camel_case(p))
                =~= views_of(parts@).take(i as int).map_values(|p: Seq<char>| upper_camel_case(p)).push(c@));
        }
        camel.push(c);
        i += 1;
    }
    assert(views_of(parts@).take(parts.len() as int) =~= views_of(parts@));
    join_strings(&camel, ".")
}

/// The last element of a non-empty list of strings.
fn last_part(parts: Vec<String>) -> (r: String)
    requires
        parts.len() > 0,
    ensures
        r@ == views_of(parts@).last(),
{
    let mut parts = parts;
    let last = parts.pop();
    match last {
        Some(s) => s,
        None => String::new(),
    }
}

proof fn lemma_split_nonempty(s: Seq<char>, sep: char)
    ensures
        split_on(s, sep).len() >= 1,
    decreases s.len(),
{
    if s.len() > 0 {
        lemma_split_nonempty(s.drop_last(), sep);
    }
}

/// The part of a display name after its file.
fn display_path_of(display: &str) -> (r: String)
    ensures
        r@ == display_path(display@),
{
    let parts = split_at_char(display, ':');
    proof {
        lemma_split_nonempty(display@, ':');
    }
    last_part(parts)
}

/// A node's own name (`extracted_type_name`).
pub fn extract_type_name(display: &str) -> (r: String)
    ensures
        r@ == extracted_type_name(display@),
{
    let path = display_path_of(display);
    let parts = split_at_char(path.as_str(), '.');
    proof {
        lemma_split_nonempty(path@, '.');
    }
    let last = last_part(parts);
    to_upper_camel_case(last.as_str())
}

/// The part of `s` before its last `.`.
pub fn module_path_of(s: &str) -> (r: String)
    ensures
        r@ == before_last_dot(s@),
{
    let n = s.unicode_len();
    let mut k = n;
    assert(s@.take(n as int) =~= s@);
    while k > 0 && s.get_char(k - 1) != '.'
        invariant
            k <= n,
            n == s@.len(),
            before_last_dot(s@) == before_last_dot(s@.take(k as int)),
        decreases k,
    {
        assert(s@.take(k as int).drop_last() =~= s@.take(k - 1));
        k -= 1;
    }
    if k == 0 {
        assert(s@.take(0) =~= Seq::<char>::empty());
        return String::new();
    }
    assert(s@.take(k as int).drop_last() =~= s@.take(k - 1));
    take_chars(s, k - 1)
}

// ── The node index ────────────────────────────────────────────────────

/// The node each id names in a forest: the last node with that id in
/// preorder (a node before the nodes nested in it).
pub open spec fn forest_index(ns: Seq<Node>) -> Map<u64, Node>
    decreases ns, 1nat,
{
    if ns.len() == 0 {
        Map::empty()
    } else {
        forest_index(ns.drop_last()).union_prefer_right(node_index(ns.last()))
    }
}

/// The node each id names in a node and the nodes nested in it.
pub open spec fn node_index(n: Node) -> Map<u64, Node>
    decreases n, 0nat,
{
    map![n.id => n].union_prefer_right(forest_index(n.nested_nodes@))
}

/// Whether a type mentions a capability, directly or as a list element.
pub open spec fn type_has_interface(t: Type) -> bool
    decreases t,
{
    match t {
        Type::InterfaceRef(_, _) => true,
        Type::List(inner) => type_has_interface(*inner),
        _ => false,
    }
}

/// Whether a node is a struct with a field, plain or in its union, whose
/// type mentions a capability.
pub open spec fn struct_has_interface_fields(n: Node) -> bool {
    match n.kind {
        NodeKind::Struct { fields, union_fields, .. } => {
            ||| exists|i: int| 0 <= i < fields.len() && type_has_interface(#[trigger] fields@[i].typ)
            ||| (union_fields matches Some(u) && exists|i: int| 0 <= i < u.len() && type_has_interface(#[trigger] u@[i].typ))
        },
        _ => false,
    }
}

/// Whether a node is the struct of a group.
pub open spec fn is_group_node(n: Node) -> bool {
    n.kind matches NodeKind::Struct { is_group, .. } && is_group
}

/// What the type mapping keeps of a node.
pub struct NodeEntry {
    pub full_name: String,
    pub is_group: bool,
    pub has_interface_fields: bool,
    pub generic_params: Vec<String>,
}

/// The entry describes the node, whose file names are `files`.
pub open spec fn entry_describes(files: Map<u64, Seq<char>>, n: Node, e: NodeEntry) -> bool {
    &&& e.full_name@ == node_full_name(files, n)
    &&& e.is_group == is_group_node(n)
    &&& e.has_interface_fields == struct_has_interface_fields(n)
    &&& views_of(e.generic_params@) == views_of(n.generic_params@)
}

/// Everything the mapping of types needs of the schema's nodes, by id.
pub struct TypeMappingContext {
    pub entries: HashMap<u64, NodeEntry>,
}

impl TypeMappingContext {
    /// The context describes the nodes (and the nodes nested in them).
    pub open spec fn describes(&self, files: Map<u64, Seq<char>>, nodes: Seq<Node>) -> bool {
        &&& self.entries@.dom() == forest_index(nodes).dom()
        &&& forall|k: u64| #[trigger] self.entries@.contains_key(k) ==> entry_describes(files, forest_index(nodes)[k], self.entries@[k])
    }
}

fn type_mentions_interface(t: &Type) -> (b: bool)
    ensures
        b == type_has_interface(*t),
    decreases t,
{
    match t {
        Type::InterfaceRef(_, _) => true,
        Type::List(inner) => type_mentions_interface(inner),
        _ => false,
    }
}

fn any_field_mentions_interface(fields: &Vec<crate::capnproto::Field>) -> (b: bool)
    ensures
        b == exists|i: int| 0 <= i < fields.len() && type_has_interface(#[trigger] fields@[i].typ),
{
    let mut i: usize = 0;
    while i < fields.len()
        invariant
            i <= fields.len(),
            forall|j: int| 0 <= j < i ==> !type_has_interface(#[trigger] fields@[j].typ),
        decreases fields.len() - i,
    {
        if type_mentions_interface(&fields[i].typ) {
            return true;
        }
        i += 1;
    }
    false
}

fn entry_of(n: &Node, files: &HashMap<u64, String>) -> (e: NodeEntry)
    ensures
        entry_describes(files@.map_values(|f: String| f@), *n, e),
{
    broadcast use vstd::std_specs::hash::group_hash_axioms;

    let ghost fs = files@.map_values(|f: String| f@);
    let path = display_path_of(n.display_name.as_str());
    let camel = camel_path(path.as_str());
    let prefix = match files.get(&n.file_id) {
        Some(f) => module_prefix_of_file(f.as_str()),
        None => String::new(),
    };
    let full_name = if prefix.as_str().is_empty() {
        camel
    } else {
        let mut full = prefix;
        full.append(".");
        full.append(camel.as_str());
        full
    };
    let (is_group, has_interface_fields) = match &n.kind {
        NodeKind::Struct { is_group, fields, union_fields, .. } => {
            let in_union = match union_fields {
                Some(u) => any_field_mentions_interface(u),
                None => false,
            };
            (*is_group, any_field_mentions_interface(fields) || in_union)
        },
        _ => (false, false),
    };
    let mut generic_params: Vec<String> = Vec::new();
    let mut i: usize = 0;
    while i < n.generic_params.len()
        invariant
            i <= n.generic_params.len(),
            views_of(generic_params@) == views_of(n.generic_params@.take(i as int)),
        decreases n.generic_params.len() - i,
    {
        proof {
            lemma_views_of_push(generic_params@, n.generic_params@[i as int]);
            assert(n.generic_params@.take(i + 1) =~= n.generic_params@.take(i as int).push(n.generic_params@[i as int]));
        }
        generic_params.push(n.generic_params[i].clone());
        i += 1;
    }
    assert(n.generic_params@.take(n.generic_params.len() as int) =~= n.generic_params@);
    NodeEntry { full_name, is_group, has_interface_fields, generic_params }
}

/// Enters a node and, after it, the nodes nested in it.
fn index_node(entries: &mut HashMap<u64, NodeEntry>, files: &HashMap<u64, String>, n: &Node)
    ensures
        forall|k: u64| #[trigger] final(entries)@.contains_key(k) <==> (old(entries)@.contains_key(k) || node_index(*n).contains_key(k)),
        forall|k: u64| #[trigger] node_index(*n).contains_key(k) ==> entry_describes(files@.map_values(|f: String| f@), node_index(*n)[k], final(entries)@[k]),
        forall|k: u64| old(entries)@.contains_key(k) && !node_index(*n).contains_key(k) ==> #[trigger] final(entries)@[k] == old(entries)@[k],
    decreases *n,
{
    broadcast use vstd::std_specs::hash::group_hash_axioms;

    let ghost fs = files@.map_values(|f: String| f@);
    let e = entry_of(n, files);
    entries.insert(n.id, e);
    let ghost first = entries@;
    let nested = &n.nested_nodes;
    let mut i: usize = 0;
    while i < nested.len()
        invariant
            i <= nested.len(),
            *nested == n.nested_nodes,
            fs == files@.map_values(|f: String| f@),
            decreases_to!(*n => nested@),
            forall|k: u64| #[trigger] entries@.contains_key(k) <==> (first.contains_key(k) || forest_index(nested@.take(i as int)).contains_key(k)),
            forall|k: u64| #[trigger] forest_index(nested@.take(i as int)).contains_key(k) ==> entry_describes(fs, forest_index(nested@.take(i as int))[k], entries@[k]),
            forall|k: u64| first.contains_key(k) && !forest_index(nested@.take(i as int)).contains_key(k) ==> #[trigger] entries@[k] == first[k],
        decreases nested.len() - i,
    {
        assert(decreases_to!(nested@ => nested@[i as int]));
        let ghost before = entries@;
        index_node(entries, files, &nested[i]);
        proof {
            let t0 = nested@.take(i as int);
            let t1 = nested@.take(i + 1);
            assert(t1.drop_last() =~= t0);
            assert(t1.last() == nested@[i as int]);
            assert(forest_index(t1) == forest_index(t0).union_prefer_right(node_index(nested@[i as int])));
        }
        i += 1;
    }
    proof {
        assert(nested@.take(nested.len() as int) =~= nested@);
        assert(node_index(*n) == map![n.id => *n].union_prefer_right(forest_index(n.nested_nodes@)));
    }
}

impl TypeMappingContext {
    /// Indexes the nodes and, within them, the nodes nested in them, with
    /// the files of the request by id.
    pub fn new(nodes: &Vec<Node>, requested_files: &Vec<RequestedFile>) -> (r: Self)
        ensures
            r.describes(files_by_id(requested_files@), nodes@),
    {
        broadcast use vstd::std_specs::hash::group_hash_axioms;

        let mut files: HashMap<u64, String> = HashMap::new();
        let mut f: usize = 0;
        while f < requested_files.len()
            invariant
                f <= requested_files.len(),
                files@.map_values(|s: String| s@) == files_by_id(requested_files@.take(f as int)),
            decreases requested_files.len() - f,
        {
            let ghost before = files@;
            files.insert(requested_files[f].id, requested_files[f].filename.clone());
            proof {
                assert(requested_files@.take(f + 1).drop_last() =~= requested_files@.take(f as int));
                assert(files@.map_values(|s: String| s@) =~= before.map_values(|s: String| s@).insert(
                    requested_files@[f as int].id,
                    requested_files@[f as int].filename@,
                ));
            }
            f += 1;
        }
        assert(requested_files@.take(requested_files.len() as int) =~= requested_files@);
        let ghost fs = files@.map_values(|s: String| s@);
        let mut entries: HashMap<u64, NodeEntry> = HashMap::new();
        let mut i: usize = 0;
        while i < nodes.len()
            invariant
                i <= nodes.len(),
                fs == files@.map_values(|s: String| s@),
                forall|k: u64| #[trigger] entries@.contains_key(k) <==> forest_index(nodes@.take(i as int)).contains_key(k),
                forall|k: u64| #[trigger] entries@.contains_key(k) ==> entry_describes(fs, forest_index(nodes@.take(i as int))[k], entries@[k]),
            decreases nodes.len() - i,
        {
            index_node(&mut entries, &files, &nodes[i]);
            proof {
                let t0 = nodes@.take(i as int);
                let t1 = nodes@.take(i + 1);
                assert(t1.drop_last() =~= t0);
                assert(forest_index(t1) == forest_index(t0).union_prefer_right(node_index(nodes@[i as int])));
            }
            i += 1;
        }
        assert(nodes@.take(nodes.len() as int) =~= nodes@);
        let r = TypeMappingContext { entries };
        assert(r.entries@.dom() =~= forest_index(nodes@).dom());
        r
    }
}

// ── Elm types of schema types ─────────────────────────────────────────

/// Whether every element is `true`.
pub open spec fn all_true(s: Seq<bool>) -> bool {
    forall|i: int| 0 <= i < s.len() ==> #[trigger] s[i]
}

/// The module a reference to node `id` names: the node's full name, or
/// nothing for a node the schema does not hold.
pub open spec fn ref_module(entries: Map<u64, NodeEntry>, id: u64) -> Seq<char> {
    if entries.contains_key(id) {
        entries[id].full_name@
    } else {
        Seq::empty()
    }
}

/// The generic parameters of the node whose types are mapped.
pub open spec fn current_params(entries: Map<u64, NodeEntry>, current: u64) -> Seq<Seq<char>> {
    if entries.contains_key(current) {
        views_of(entries[current].generic_params@)
    } else {
        Seq::empty()
    }
}

/// `r` is the Elm type of the schema type `t`, inside a node with the
/// generic parameters `params`: the primitive of a scalar (any integer
/// `Int` of its width, `Int` 64 rendering as `Capnproto.Word64`), a list
/// of the element's type, the `Entity` of the referenced node's module
/// applied to the types bound by the brand, `AnyPointer`, or a generic
/// parameter by its name in lower case (`AnyPointer` for an index the
/// node has no parameter for).
pub open spec fn maps_to(entries: Map<u64, NodeEntry>, params: Seq<Seq<char>>, t: Type, r: ElmType) -> bool
    decreases t, 3nat,
{
    match t {
        Type::Void => r == ElmType::Primitive(ElmPrimitiveType::Unit),
        Type::Bool => r == ElmType::Primitive(ElmPrimitiveType::Bool),
        Type::Int8 => r == ElmType::Primitive(ElmPrimitiveType::Int(8)),
        Type::Int16 => r == ElmType::Primitive(ElmPrimitiveType::Int(16)),
        Type::Int32 => r == ElmType::Primitive(ElmPrimitiveType::Int(32)),
        Type::Int64 => r == ElmType::Primitive(ElmPrimitiveType::Int(64)),
        Type::UInt8 => r == ElmType::Primitive(ElmPrimitiveType::Int(8)),
        Type::UInt16 => r == ElmType::Primitive(ElmPrimitiveType::Int(16)),
        Type::UInt32 => r == ElmType::Primitive(ElmPrimitiveType::Int(32)),
        Type::UInt64 => r == ElmType::Primitive(ElmPrimitiveType::Int(64)),
        Type::Float32 => r == ElmType::Primitive(ElmPrimitiveType::Float(32)),
        Type::Float64 => r == ElmType::Primitive(ElmPrimitiveType::Float(64)),
        Type::Text => r == ElmType::Primitive(ElmPrimitiveType::String),
        Type::Data => r == ElmType::Primitive(ElmPrimitiveType::Bytes),
        Type::List(inner) => match r {
            ElmType::List(ri) => maps_to(entries, params, *inner, *ri),
            _ => false,
        },
        Type::StructRef(id, b) => match r {
            ElmType::StructRef(m, s, args) => m@ == ref_module(entries, id) && s@ == "Entity"@
                && scopes_map(entries, params, b.scopes@, args@),
            _ => false,
        },
        Type::EnumRef(id, b) => match r {
            ElmType::EnumRef(m, s, vs, args) => m@ == ref_module(entries, id) && s@ == "Entity"@ && vs@.len()
                == 0 && scopes_map(entries, params, b.scopes@, args@),
            _ => false,
        },
        Type::InterfaceRef(id, b) => match r {
            ElmType::InterfaceRef(m, s, args) => m@ == ref_module(entries, id) && s@ == "Entity"@
                && scopes_map(entries, params, b.scopes@, args@),
            _ => false,
        },
        Type::AnyPointer => r == ElmType::AnyPointer,
        Type::GenericParam(i) => if (i as int) < params.len() {
            r matches ElmType::GenericParam(g) && g@ == lowercase(params[i as int])
        } else {
            r == ElmType::AnyPointer
        },
    }
}

/// `args` are the types bound by the scopes of a brand, scope by scope;
/// an inheriting scope binds none.
pub open spec fn scopes_map(
    entries: Map<u64, NodeEntry>,
    params: Seq<Seq<char>>,
    scopes: Seq<BrandScope>,
    args: Seq<ElmType>,
) -> bool
    decreases scopes, 2nat,
{
    if scopes.len() == 0 {
        args.len() == 0
    } else {
        match scopes.last() {
            BrandScope::Inherit => scopes_map(entries, params, scopes.drop_last(), args),
            BrandScope::Bind(bs) => args.len() >= bs.len() && scopes_map(
                entries,
                params,
                scopes.drop_last(),
                args.take(args.len() - bs.len()),
            ) && bindings_map(entries, params, bs@, args.skip(args.len() - bs.len())),
        }
    }
}

/// `args` are the types of the bindings, in order.
pub open spec fn bindings_map(
    entries: Map<u64, NodeEntry>,
    params: Seq<Seq<char>>,
    bs: Seq<Binding>,
    args: Seq<ElmType>,
) -> bool
    decreases bs, 1nat,
{
    if bs.len() == 0 {
        args.len() == 0
    } else {
        args.len() == bs.len() && bindings_map(entries, params, bs.drop_last(), args.drop_last())
            && binding_map(entries, params, bs.last(), args.last())
    }
}

/// The type bound by a binding: `AnyPointer` when unbound.
pub open spec fn binding_map(entries: Map<u64, NodeEntry>, params: Seq<Seq<char>>, b: Binding, a: ElmType) -> bool
    decreases b, 0nat,
{
    match b {
        Binding::Unbound => a == ElmType::AnyPointer,
        Binding::Type(t) => maps_to(entries, params, t, a),
    }
}

impl TypeMappingContext {
    /// The full module name of a node (empty for a node not in the
    /// schema).
    pub fn get_full_type_name(&self, id: u64) -> (r: String)
        ensures
            r@ == ref_module(self.entries@, id),
    {
        broadcast use vstd::std_specs::hash::group_hash_axioms;

        match self.entries.get(&id) {
            Some(e) => e.full_name.clone(),
            None => String::new(),
        }
    }

    /// Whether a node is the struct of a group.
    pub fn is_group_struct(&self, id: u64) -> (b: bool)
        ensures
            b == (self.entries@.contains_key(id) && self.entries@[id].is_group),
    {
        broadcast use vstd::std_specs::hash::group_hash_axioms;

        match self.entries.get(&id) {
            Some(e) => e.is_group,
            None => false,
        }
    }

    /// Whether a type refers to a struct with a capability field.
    pub fn struct_type_has_interface_fields(&self, t: &Type) -> (b: bool)
        ensures
            b == (*t matches Type::StructRef(id, _) && self.entries@.contains_key(id)
                && self.entries@[id].has_interface_fields),
    {
        broadcast use vstd::std_specs::hash::group_hash_axioms;

        match t {
            Type::StructRef(id, _) => match self.entries.get(id) {
                Some(e) => e.has_interface_fields,
                None => false,
            },
            _ => false,
        }
    }

    fn param_name(&self, current: u64, i: u16) -> (r: Option<String>)
        ensures
            (i as int) < current_params(self.entries@, current).len() ==> (r matches Some(n) && n@ == lowercase(
                current_params(self.entries@, current)[i as int],
            )),
            (i as int) >= current_params(self.entries@, current).len() ==> r is None,
    {
        broadcast use vstd::std_specs::hash::group_hash_axioms;

        match self.entries.get(&current) {
            Some(e) => {
                if (i as usize) < e.generic_params.len() {
                    Some(to_lowercase(e.generic_params[i as usize].as_str()))
                } else {
                    None
                }
            },
            None => None,
        }
    }

    /// The Elm type of a schema type inside the node `current` (see
    /// `maps_to`).
    pub fn map_type(&self, t: &Type, current: u64) -> (r: ElmType)
        ensures
            maps_to(self.entries@, current_params(self.entries@, current), *t, r),
        decreases *t, 1nat,
    {
        match t {
            Type::Void => ElmType::Primitive(ElmPrimitiveType::Unit),
            Type::Bool => ElmType::Primitive(ElmPrimitiveType::Bool),
            Type::Int8 => ElmType::Primitive(ElmPrimitiveType::Int(8)),
            Type::Int16 => ElmType::Primitive(ElmPrimitiveType::Int(16)),
            Type::Int32 => ElmType::Primitive(ElmPrimitiveType::Int(32)),
            Type::Int64 => ElmType::Primitive(ElmPrimitiveType::Int(64)),
            Type::UInt8 => ElmType::Primitive(ElmPrimitiveType::Int(8)),
            Type::UInt16 => ElmType::Primitive(ElmPrimitiveType::Int(16)),
            Type::UInt32 => ElmType::Primitive(ElmPrimitiveType::Int(32)),
            Type::UInt64 => ElmType::Primitive(ElmPrimitiveType::Int(64)),
            Type::Float32 => ElmType::Primitive(ElmPrimitiveType::Float(32)),
            Type::Float64 => ElmType::Primitive(ElmPrimitiveType::Float(64)),
            Type::Text => ElmType::Primitive(ElmPrimitiveType::String),
            Type::Data => ElmType::Primitive(ElmPrimitiveType::Bytes),
            Type::List(inner) => {
                let e = self.map_type(inner, current);
                ElmType::List(Box::new(e))
            },
            Type::StructRef(id, brand) => {
                let args = self.map_brand(brand, current);
                ElmType::StructRef(self.get_full_type_name(*id), "Entity", args)
            },
            Type::EnumRef(id, brand) => {
                let args = self.map_brand(brand, current);
                ElmType::EnumRef(self.get_full_type_name(*id), "Entity", Vec::new(), args)
            },
            Type::InterfaceRef(id, brand) => {
                let args = self.map_brand(brand, current);
                ElmType::InterfaceRef(self.get_full_type_name(*id), "Entity", args)
            },
            Type::AnyPointer => ElmType::AnyPointer,
            Type::GenericParam(i) => match self.param_name(current, *i) {
                Some(name) => ElmType::GenericParam(name),
                None => ElmType::AnyPointer,
            },
        }
    }

    /// The types bound by a brand, scope by scope.
    fn map_brand(&self, brand: &Brand, current: u64) -> (r: Vec<ElmType>)
        ensures
            scopes_map(self.entries@, current_params(self.entries@, current), brand.scopes@, r@),
        decreases *brand, 0nat,
    {
        let ghost e = self.entries@;
        let ghost p = current_params(self.entries@, current);
        let scopes = &brand.scopes;
        let mut r: Vec<ElmType> = Vec::new();
        let mut j: usize = 0;
        assert(scopes@.take(0) =~= Seq::<BrandScope>::empty());
        while j < scopes.len()
            invariant
                j <= scopes.len(),
                *scopes == brand.scopes,
                e == self.entries@,
                p == current_params(self.entries@, current),
                decreases_to!(*brand => scopes@),
                scopes_map(e, p, scopes@.take(j as int), r@),
            decreases scopes.len() - j,
        {
            assert(decreases_to!(scopes@ => scopes@[j as int]));
            let ghost r0 = r@;
            match &scopes[j] {
                BrandScope::Inherit => {
                    assert(scopes@.take(j + 1).drop_last() =~= scopes@.take(j as int));
                },
                BrandScope::Bind(bindings) => {
                    let mut k: usize = 0;
                    assert(bindings@.take(0) =~= Seq::<Binding>::empty());
                    assert(r@.skip(r0.len() as int) =~= Seq::<ElmType>::empty());
                    while k < bindings.len()
                        invariant
                            k <= bindings.len(),
                            e == self.entries@,
                            p == current_params(self.entries@, current),
                            decreases_to!(*brand => bindings@),
                            r@.len() == r0.len() + k,
                            r@.take(r0.len() as int) == r0,
                            bindings_map(e, p, bindings@.take(k as int), r@.skip(r0.len() as int)),
                        decreases bindings.len() - k,
                    {
                        assert(decreases_to!(bindings@ => bindings@[k as int]));
                        let ghost before = r@;
                        match &bindings[k] {
                            Binding::Unbound => {
                                r.push(ElmType::AnyPointer);
                                assert(binding_map(e, p, bindings@[k as int], r@.last()));
                            },
                            Binding::Type(t) => {
                                let a = self.map_type(t, current);
                                r.push(a);
                                assert(binding_map(e, p, bindings@[k as int], r@.last()));
                            },
                        }
                        proof {
                            assert(r@.take(r0.len() as int) =~= before.take(r0.len() as int));
                            let bt = bindings@.take(k + 1);
                            let rt = r@.skip(r0.len() as int);
                            assert(bt.drop_last() =~= bindings@.take(k as int));
                            assert(rt.drop_last() =~= before.skip(r0.len() as int));
                            assert(bt.last() == bindings@[k as int]);
                            assert(rt.last() == r@.last());
                            assert(bindings_map(e, p, bt, rt));
                        }
                        k += 1;
                    }
                    proof {
                        assert(bindings@.take(bindings.len() as int) =~= bindings@);
                        assert(r@.take(r@.len() - bindings@.len()) =~= r0);
                        assert(scopes@.take(j + 1).drop_last() =~= scopes@.take(j as int));
                        assert(scopes@.take(j + 1).last() == scopes@[j as int]);
                    }
                },
            }
            j += 1;
        }
        assert(scopes@.take(scopes.len() as int) =~= scopes@);
        r
    }
}

// ── Imports ───────────────────────────────────────────────────────────

/// The modules a field of type `t` makes its module import, in order:
/// `Bytes` for data, the module of each referenced struct or enum,
/// `Rpc.Client as Rpc` for a capability, and those of type arguments, list
/// elements and union branches.
pub open spec fn imports_of(t: ElmType) -> Seq<Seq<char>>
    decreases t,
{
    match t {
        ElmType::Primitive(ElmPrimitiveType::Bytes) => seq!["Bytes"@],
        ElmType::StructRef(m, _, args) => (if m@.len() > 0 {
            seq![m@]
        } else {
            Seq::empty()
        }) + concat_all(types_imports(args@)),
        ElmType::EnumRef(m, _, _, args) => (if m@.len() > 0 {
            seq![m@]
        } else {
            Seq::empty()
        }) + concat_all(types_imports(args@)),
        ElmType::InterfaceRef(_, _, args) => seq!["Rpc.Client as Rpc"@] + concat_all(types_imports(args@)),
        ElmType::List(inner) => imports_of(*inner),
        ElmType::UnionInline(bs, _) => concat_all(branches_imports(bs@)),
        _ => Seq::empty(),
    }
}

pub open spec fn types_imports(ts: Seq<ElmType>) -> Seq<Seq<Seq<char>>>
    decreases ts,
{
    Seq::new(ts.len(), |i: int| if 0 <= i < ts.len() { imports_of(ts[i]) } else { Seq::empty() })
}

pub open spec fn branches_imports(bs: Seq<ElmUnionBranch>) -> Seq<Seq<Seq<char>>>
    decreases bs,
{
    Seq::new(bs.len(), |i: int| if 0 <= i < bs.len() { imports_of(bs[i].elm_type) } else { Seq::empty() })
}

fn push_import(imports: &mut Vec<String>, name: String)
    ensures
        views_of(final(imports)@) == views_of(old(imports)@).push(name@),
{
    proof {
        lemma_views_of_push(imports@, name);
    }
    imports.push(name);
}

fn collect_imports_from_types(ts: &Vec<ElmType>, imports: &mut Vec<String>)
    ensures
        views_of(final(imports)@) == views_of(old(imports)@) + concat_all(types_imports(ts@)),
    decreases ts, 0nat,
{
    let ghost start = views_of(imports@);
    let mut i: usize = 0;
    while i < ts.len()
        invariant
            i <= ts.len(),
            views_of(imports@) == start + concat_all(types_imports(ts@).take(i as int)),
            decreases_to!(*ts => ts@),
        decreases ts.len() - i,
    {
        assert(decreases_to!(ts@ => ts@[i as int]));
        collect_imports_from_type(&ts[i], imports);
        proof {
            assert(types_imports(ts@).take(i + 1).drop_last() =~= types_imports(ts@).take(i as int));
        }
        i += 1;
    }
    assert(types_imports(ts@).take(ts.len() as int) =~= types_imports(ts@));
}

/// Appends the modules a field of type `t` needs (see `imports_of`).
pub fn collect_imports_from_type(t: &ElmType, imports: &mut Vec<String>)
    ensures
        views_of(final(imports)@) == views_of(old(imports)@) + imports_of(*t),
    decreases *t, 1nat,
{
    let ghost start = views_of(imports@);
    match t {
        ElmType::Primitive(ElmPrimitiveType::Bytes) => {
            push_import(imports, owned("Bytes"));
        },
        ElmType::StructRef(m, _, args) => {
            if !m.as_str().is_empty() {
                push_import(imports, m.clone());
            }
            collect_imports_from_types(args, imports);
        },
        ElmType::EnumRef(m, _, _, args) => {
            if !m.as_str().is_empty() {
                push_import(imports, m.clone());
            }
            collect_imports_from_types(args, imports);
        },
        ElmType::InterfaceRef(_, _, args) => {
            push_import(imports, owned("Rpc.Client as Rpc"));
            collect_imports_from_types(args, imports);
        },
        ElmType::List(inner) => {
            collect_imports_from_type(inner, imports);
        },
        ElmType::UnionInline(branches, gps) => {
            let mut i: usize = 0;
            while i < branches.len()
                invariant
                    i <= branches.len(),
                    *t == ElmType::UnionInline(*branches, *gps),
                    views_of(imports@) == start + concat_all(branches_imports(branches@).take(i as int)),
                    decreases_to!(*t => branches@),
                decreases branches.len() - i,
            {
                assert(decreases_to!(branches@ => branches@[i as int]));
                collect_imports_from_type(&branches[i].elm_type, imports);
                proof {
                    assert(branches_imports(branches@).take(i + 1).drop_last() =~= branches_imports(branches@).take(i as int));
                }
                i += 1;
            }
            assert(branches_imports(branches@).take(branches.len() as int) =~= branches_imports(branches@));
        },
        _ => {},
    }
    assert(views_of(imports@) =~= start + imports_of(*t));
}

/// Whether a field, or a branch of its union, has a default that needs an
/// XOR mask, for which its module imports `Bitwise`.
pub open spec fn field_needs_bitwise(f: ElmField) -> bool {
    ||| crate::render::nonzero_default(f.default_value)
    ||| (f.elm_type matches ElmType::UnionInline(bs, _) && exists|i: int|
        0 <= i < bs.len() && crate::render::nonzero_default(#[trigger] bs@[i].default_value))
}

/// Appends `Bitwise` when some field needs an XOR mask.
pub fn collect_imports_from_defaults(fields: &Vec<ElmField>, imports: &mut Vec<String>)
    ensures
        views_of(final(imports)@) == views_of(old(imports)@) + if exists|i: int|
            0 <= i < fields.len() && field_needs_bitwise(#[trigger] fields@[i]) {
            seq!["Bitwise"@]
        } else {
            Seq::empty()
        },
{
    let ghost start = views_of(imports@);
    let mut i: usize = 0;
    let mut needed = false;
    while i < fields.len()
        invariant
            i <= fields.len(),
            needed == exists|j: int| 0 <= j < i && field_needs_bitwise(#[trigger] fields@[j]),
        decreases fields.len() - i,
    {
        let f = &fields[i];
        let mut this = crate::render::has_nonzero_default(f);
        if let ElmType::UnionInline(branches, _) = &f.elm_type {
            let mut k: usize = 0;
            while k < branches.len()
                invariant
                    k <= branches.len(),
                    this == (crate::render::nonzero_default(f.default_value) || exists|q: int|
                        0 <= q < k && crate::render::nonzero_default(#[trigger] branches@[q].default_value)),
                decreases branches.len() - k,
            {
                if crate::render::branch_has_nonzero_default(&branches[k]) {
                    this = true;
                }
                k += 1;
            }
        }
        assert(this == field_needs_bitwise(fields@[i as int]));
        if this {
            needed = true;
        }
        i += 1;
    }
    if needed {
        push_import(imports, owned("Bitwise"));
    } else {
        assert(views_of(imports@) =~= start + Seq::<Seq<char>>::empty());
    }
}

// ── Defaults and pointers ─────────────────────────────────────────────

/// The XOR-mask default of a schema default: booleans, integers (an
/// unsigned 64-bit value by its two's-complement bits), floats by their
/// bits, and enumerants by their ordinal.
pub open spec fn elm_default(d: DefaultValue) -> ElmDefaultValue {
    match d {
        DefaultValue::Bool(b) => ElmDefaultValue::Bool(b),
        DefaultValue::Int8(v) => ElmDefaultValue::Int(v as i64),
        DefaultValue::Int16(v) => ElmDefaultValue::Int(v as i64),
        DefaultValue::Int32(v) => ElmDefaultValue::Int(v as i64),
        DefaultValue::Int64(v) => ElmDefaultValue::Int(v),
        DefaultValue::UInt8(v) => ElmDefaultValue::Int(v as i64),
        DefaultValue::UInt16(v) => ElmDefaultValue::Int(v as i64),
        DefaultValue::UInt32(v) => ElmDefaultValue::Int(v as i64),
        DefaultValue::UInt64(v) => ElmDefaultValue::Int(v as i64),
        DefaultValue::Float32(bits) => ElmDefaultValue::Float(FloatBits::Single(bits)),
        DefaultValue::Float64(bits) => ElmDefaultValue::Float(FloatBits::Double(bits)),
        DefaultValue::Enum(v) => ElmDefaultValue::Enum(v),
    }
}

/// The XOR-mask default of a field's schema default.
pub fn map_default_value(d: &Option<DefaultValue>) -> (r: Option<ElmDefaultValue>)
    ensures
        r == match *d {
            Some(v) => Some(elm_default(v)),
            None => None::<ElmDefaultValue>,
        },
{
    match d {
        None => None,
        Some(v) => Some(
            match v {
                DefaultValue::Bool(b) => ElmDefaultValue::Bool(*b),
                DefaultValue::Int8(x) => ElmDefaultValue::Int(*x as i64),
                DefaultValue::Int16(x) => ElmDefaultValue::Int(*x as i64),
                DefaultValue::Int32(x) => ElmDefaultValue::Int(*x as i64),
                DefaultValue::Int64(x) => ElmDefaultValue::Int(*x),
                DefaultValue::UInt8(x) => ElmDefaultValue::Int(*x as i64),
                DefaultValue::UInt16(x) => ElmDefaultValue::Int(*x as i64),
                DefaultValue::UInt32(x) => ElmDefaultValue::Int(*x as i64),
                DefaultValue::UInt64(x) => ElmDefaultValue::Int(*x as i64),
                DefaultValue::Float32(bits) => ElmDefaultValue::Float(FloatBits::Single(*bits)),
                DefaultValue::Float64(bits) => ElmDefaultValue::Float(FloatBits::Double(*bits)),
                DefaultValue::Enum(x) => ElmDefaultValue::Enum(*x),
            },
        ),
    }
}

/// Whether a schema type lives in the pointer section.
pub open spec fn schema_type_is_pointer(t: Type) -> bool {
    match t {
        Type::Text | Type::Data | Type::List(_) | Type::StructRef(_, _) | Type::InterfaceRef(_, _)
        | Type::AnyPointer | Type::GenericParam(_) => true,
        _ => false,
    }
}

pub fn is_pointer_type(t: &Type) -> (b: bool)
    ensures
        b == schema_type_is_pointer(*t),
{
    match t {
        Type::Text | Type::Data | Type::List(_) | Type::StructRef(_, _) | Type::InterfaceRef(_, _)
        | Type::AnyPointer | Type::GenericParam(_) => true,
        _ => false,
    }
}

// ── Sorted imports ────────────────────────────────────────────────────

/// `a` comes before `b` in the order of `String` (character by
/// character).
pub open spec fn text_lt(a: Seq<char>, b: Seq<char>) -> bool
    decreases a.len(),
{
    if a.len() == 0 {
        b.len() > 0
    } else if b.len() == 0 {
        false
    } else if a[0] != b[0] {
        a[0] < b[0]
    } else {
        text_lt(a.drop_first(), b.drop_first())
    }
}

pub proof fn lemma_text_lt_irreflexive(a: Seq<char>)
    ensures
        !text_lt(a, a),
    decreases a.len(),
{
    if a.len() > 0 {
        lemma_text_lt_irreflexive(a.drop_first());
    }
}

pub proof fn lemma_text_lt_transitive(a: Seq<char>, b: Seq<char>, c: Seq<char>)
    requires
        text_lt(a, b),
        text_lt(b, c),
    ensures
        text_lt(a, c),
    decreases a.len(),
{
    if a.len() > 0 && b.len() > 0 && c.len() > 0 && a[0] == b[0] && b[0] == c[0] {
        lemma_text_lt_transitive(a.drop_first(), b.drop_first(), c.drop_first());
    }
}

pub proof fn lemma_text_lt_total(a: Seq<char>, b: Seq<char>)
    requires
        a != b,
    ensures
        text_lt(a, b) || text_lt(b, a),
    decreases a.len(),
{
    if a.len() > 0 && b.len() > 0 && a[0] == b[0] {
        if a.drop_first() == b.drop_first() {
            assert(a =~= seq![a[0]] + a.drop_first());
            assert(b =~= seq![b[0]] + b.drop_first());
        }
        lemma_text_lt_total(a.drop_first(), b.drop_first());
    } else if a.len() == 0 && b.len() == 0 {
        assert(a =~= b);
    }
}

/// Names in strictly increasing order are distinct: a module's sorted
/// imports name no module twice.
pub proof fn law_sorted_names_are_distinct(s: Seq<Seq<char>>, i: int, j: int)
    requires
        strictly_sorted(s),
        0 <= i < j < s.len(),
    ensures
        s[i] != s[j],
{
    if s[i] == s[j] {
        lemma_text_lt_irreflexive(s[i]);
    }
}

fn text_less(a: &str, b: &str) -> (r: bool)
    ensures
        r == text_lt(a@, b@),
{
    let n = a.unicode_len();
    let m = b.unicode_len();
    let mut i: usize = 0;
    assert(a@.skip(0) =~= a@);
    assert(b@.skip(0) =~= b@);
    while i < n && i < m
        invariant
            i <= n,
            i <= m,
            n == a@.len(),
            m == b@.len(),
            text_lt(a@, b@) == text_lt(a@.skip(i as int), b@.skip(i as int)),
        decreases n - i,
    {
        let x = a.get_char(i);
        let y = b.get_char(i);
        assert(a@.skip(i as int)[0] == x && b@.skip(i as int)[0] == y);
        if x != y {
            return x < y;
        }
        assert(a@.skip(i as int).drop_first() =~= a@.skip(i + 1));
        assert(b@.skip(i as int).drop_first() =~= b@.skip(i + 1));
        i += 1;
    }
    i < m
}

/// Strictly increasing in the order of `String`.
pub open spec fn strictly_sorted(s: Seq<Seq<char>>) -> bool {
    forall|i: int, j: int| 0 <= i < j < s.len() ==> text_lt(s[i], s[j])
}

/// The names sorted, each once (`sort` then `dedup`).
pub fn sorted_unique(names: &Vec<String>) -> (r: Vec<String>)
    ensures
        strictly_sorted(views_of(r@)),
        views_of(r@).to_set() == views_of(names@).to_set(),
{
    let mut r: Vec<String> = Vec::new();
    let mut i: usize = 0;
    while i < names.len()
        invariant
            i <= names.len(),
            strictly_sorted(views_of(r@)),
            views_of(r@).to_set() == views_of(names@).take(i as int).to_set(),
        decreases names.len() - i,
    {
        let x = &names[i];
        let ghost rv = views_of(r@);
        let mut p: usize = 0;
        while p < r.len() && text_less(r[p].as_str(), x.as_str())
            invariant
                p <= r.len(),
                rv == views_of(r@),
                forall|q: int| 0 <= q < p ==> text_lt(rv[q], x@),
            decreases r.len() - p,
        {
            p += 1;
        }
        proof {
            assert(views_of(names@).take(i + 1) =~= views_of(names@).take(i as int).push(x@));
            views_of(names@).take(i as int).lemma_push_to_set_commute(x@);
        }
        if p < r.len() && crate::text::str_eq(r[p].as_str(), x.as_str()) {
            proof {
                assert(rv.to_set().contains(x@)) by {
                    assert(rv[p as int] == x@);
                }
                assert(rv.to_set().insert(x@) =~= rv.to_set());
            }
        } else {
            proof {
                if p < rv.len() {
                    assert(!text_lt(rv[p as int], x@));
                    assert(rv[p as int] != x@);
                    lemma_text_lt_total(rv[p as int], x@);
                }
            }
            r.insert(p, x.clone());
            proof {
                let nv = views_of(r@);
                assert(nv =~= rv.insert(p as int, x@));
                assert forall|a: int, b: int| 0 <= a < b < nv.len() implies text_lt(nv[a], nv[b]) by {
                    if b < p {
                    } else if b == p {
                    } else if a < p {
                        lemma_text_lt_transitive(nv[a], x@, rv[p as int]);
                        if b > p + 1 {
                            lemma_text_lt_transitive(nv[a], rv[p as int], nv[b]);
                        }
                    } else if a == p {
                        if b > p + 1 {
                            lemma_text_lt_transitive(x@, rv[p as int], nv[b]);
                        }
                    } else {
                    }
                }
                assert(nv.to_set() =~= rv.to_set().insert(x@)) by {
                    assert forall|y: Seq<char>| nv.to_set().contains(y) == rv.to_set().insert(x@).contains(y) by {
                        if nv.contains(y) {
                            let k = choose|k: int| 0 <= k < nv.len() && nv[k] == y;
                            if k < p {
                                assert(rv[k] == y);
                            } else if k > p {
                                assert(rv[k - 1] == y);
                            }
                        }
                        if rv.contains(y) {
                            let k = choose|k: int| 0 <= k < rv.len() && rv[k] == y;
                            if k < p {
                                assert(nv[k] == y);
                            } else {
                                assert(nv[k + 1] == y);
                            }
                        }
                        if y == x@ {
                            assert(nv[p as int] == y);
                        }
                    }
                }
            }
        }
        i += 1;
    }
    assert(views_of(names@).take(names.len() as int) =~= views_of(names@));
    r
}

/// The names other than `own`, in order.
pub fn without_name(names: Vec<String>, own: &str) -> (r: Vec<String>)
    ensures
        views_of(r@) == views_of(names@).filter(|x: Seq<char>| x != own@),
{
    let mut r: Vec<String> = Vec::new();
    let mut i: usize = 0;
    while i < names.len()
        invariant
            i <= names.len(),
            views_of(r@) == views_of(names@).take(i as int).filter(|x: Seq<char>| x != own@),
        decreases names.len() - i,
    {
        proof {
            assert(views_of(names@).take(i + 1).drop_last() =~= views_of(names@).take(i as int));
            reveal(Seq::filter);
        }
        if !crate::text::str_eq(names[i].as_str(), own) {
            proof {
                lemma_views_of_push(r@, names@[i as int]);
            }
            r.push(names[i].clone());
        }
        i += 1;
    }
    assert(views_of(names@).take(names.len() as int) =~= views_of(names@));
    r
}

} // verus!
