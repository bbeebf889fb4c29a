//! Generic structs: their instantiations become modules of their own.

use capnpc_elm::binding::{bind_to_elm, generate_elm_context};
use capnpc_elm::capnproto::{Binding, Brand, BrandScope, Field, Node, NodeKind, ParsedSchema, RequestedFile, Type};
use capnpc_elm::elm::{module_full_name, ElmModule, ElmPrimitiveType, ElmType, ElmTypeDef};
use capnpc_elm::generics::{instance_name_of, mono_type, subst_type, type_token};

fn no_brand() -> Brand {
    Brand { scopes: vec![] }
}

fn bound(ts: Vec<Type>) -> Brand {
    Brand { scopes: vec![BrandScope::Bind(ts.into_iter().map(Binding::Type).collect())] }
}

fn field(name: &str, typ: Type) -> Field {
    Field { name: name.to_string(), discriminant: None, typ, offset: 0, default_value: None }
}

fn struct_node(id: u64, name: &str, params: &[&str], fields: Vec<Field>) -> Node {
    Node {
        id,
        display_name: format!("t.capnp:{name}"),
        kind: NodeKind::Struct {
            is_group: false,
            data_word_count: 0,
            pointer_word_count: fields.len() as u16,
            fields,
            union_fields: None,
            discriminant_offset: 0,
        },
        nested_nodes: vec![],
        parent_id: 1,
        file_id: 1,
        generic_params: params.iter().map(|p| p.to_string()).collect(),
    }
}

fn files() -> Vec<RequestedFile> {
    vec![RequestedFile { id: 1, filename: "t.capnp".to_string() }]
}

fn schema_nodes() -> Vec<Node> {
    vec![
        struct_node(10, "Json", &[], vec![field("text", Type::Text)]),
        struct_node(11, "Lookup", &["T"], vec![field("value", Type::GenericParam(0))]),
        struct_node(12, "Holder", &[], vec![field("l", Type::StructRef(11, bound(vec![Type::StructRef(10, no_brand())])))]),
    ]
}

fn by_name<'a>(ms: &'a [ElmModule], name: &str) -> &'a ElmModule {
    ms.iter().find(|m| m.name == name).unwrap()
}

fn sref(m: &str, args: Vec<ElmType>) -> ElmType {
    ElmType::StructRef(m.to_string(), "Entity", args)
}

#[test]
fn an_instantiation_becomes_a_module_and_references_point_at_it() {
    let ctx = generate_elm_context(&schema_nodes(), &files());
    let names: Vec<&str> = ctx.modules.iter().map(|m| m.name.as_str()).collect();
    assert_eq!(names.len(), 3);
    assert!(!names.contains(&"Lookup"));
    let json = module_full_name(by_name(&ctx.modules, "Json"));
    let lookup = format!("{}Lookup", json.strip_suffix("Json").unwrap());
    let token: String = json.chars().filter(|c| *c != '.').collect();
    let inst = by_name(&ctx.modules, &format!("Of{token}"));
    assert_eq!(inst.path, lookup);
    assert!(inst.type_def == ElmTypeDef::Struct);
    assert_eq!(inst.fields.len(), 1);
    assert_eq!(inst.fields[0].name, "value");
    match &inst.fields[0].elm_type {
        ElmType::StructRef(m, s, args) => {
            assert_eq!(m, &json);
            assert_eq!(*s, "Entity");
            assert!(args.is_empty());
        }
        _ => panic!("the parameter was not replaced"),
    }
    assert!(inst.imports.iter().any(|i| *i == json));
    assert!(inst.imports.iter().any(|i| i == "Capnproto"));
    let holder = by_name(&ctx.modules, "Holder");
    let full = module_full_name(inst);
    match &holder.fields[0].elm_type {
        ElmType::StructRef(m, _, args) => {
            assert_eq!(m, &full);
            assert!(args.is_empty());
        }
        _ => panic!("the reference was not rewritten"),
    }
    assert!(holder.imports.iter().any(|i| *i == full));
    assert!(!holder.imports.iter().any(|i| *i == lookup));
}

#[test]
fn an_instantiation_asked_for_twice_is_built_once() {
    let mut nodes = schema_nodes();
    nodes.push(struct_node(
        13,
        "Other",
        &[],
        vec![field("l", Type::StructRef(11, bound(vec![Type::StructRef(10, no_brand())])))],
    ));
    let schema = ParsedSchema { nodes, requested_files: files() };
    let ctx = bind_to_elm(&schema, None).ok().unwrap();
    assert_eq!(ctx.modules.iter().filter(|m| m.name.starts_with("Of")).count(), 1);
}

#[test]
fn instantiations_inside_an_instantiation_are_built_too() {
    let mut nodes = schema_nodes();
    // Wrap(U) holds a Lookup(U); Outer holds a Wrap(Json).
    nodes.push(struct_node(
        14,
        "Wrap",
        &["U"],
        vec![field("inner", Type::StructRef(11, bound(vec![Type::GenericParam(0)])))],
    ));
    nodes.push(struct_node(15, "Outer", &[], vec![field("w", Type::StructRef(14, bound(vec![Type::StructRef(10, no_brand())])))]));
    let ctx = generate_elm_context(&nodes, &files());
    let insts: Vec<String> = ctx.modules.iter().filter(|m| m.name.starts_with("Of")).map(module_full_name).collect();
    assert_eq!(insts.len(), 2);
    assert!(insts.iter().any(|n| n.contains("Wrap.Of")));
    assert!(insts.iter().any(|n| n.contains("Lookup.Of")));
}

#[test]
fn names_and_rewrites_of_types() {
    let generics = vec!["A.Box".to_string()];
    let arg = sref("A.Json", vec![]);
    assert_eq!(type_token(&arg, &generics), "AJson");
    assert_eq!(type_token(&ElmType::Primitive(ElmPrimitiveType::Int(32)), &generics), "Int32");
    assert_eq!(type_token(&ElmType::List(Box::new(ElmType::Primitive(ElmPrimitiveType::String))), &generics), "ListText");
    assert_eq!(instance_name_of("A.Box", &vec![arg], &generics), "A.Box.OfAJson");
    let nested = sref("A.Box", vec![sref("A.Box", vec![ElmType::Primitive(ElmPrimitiveType::Bool)])]);
    assert_eq!(type_token(&nested, &generics), "ABoxOfABoxOfBool");
    match mono_type(&ElmType::List(Box::new(nested)), &generics) {
        ElmType::List(inner) => match *inner {
            ElmType::StructRef(m, _, args) => {
                assert_eq!(m, "A.Box.OfABoxOfBool");
                assert!(args.is_empty());
            }
            _ => panic!(),
        },
        _ => panic!(),
    }
    // A reference to a struct that is not generic keeps its arguments.
    match mono_type(&sref("A.Plain", vec![sref("A.Box", vec![sref("A.Json", vec![])])]), &generics) {
        ElmType::StructRef(m, _, args) => {
            assert_eq!(m, "A.Plain");
            assert_eq!(args.len(), 1);
        }
        _ => panic!(),
    }
}

#[test]
fn substitution_replaces_parameters_by_index() {
    let params = vec!["k".to_string(), "v".to_string()];
    let args = vec![ElmType::Primitive(ElmPrimitiveType::Bool)];
    let t = sref("A.Pair", vec![ElmType::GenericParam("k".to_string()), ElmType::GenericParam("v".to_string()), ElmType::GenericParam("z".to_string())]);
    match subst_type(&t, &params, &args) {
        ElmType::StructRef(_, _, a) => {
            assert!(matches!(a[0], ElmType::Primitive(ElmPrimitiveType::Bool)));
            assert!(matches!(a[1], ElmType::AnyPointer));
            assert!(matches!(&a[2], ElmType::GenericParam(z) if z == "z"));
        }
        _ => panic!(),
    }
}

#[test]
fn a_generic_struct_that_refers_to_itself_is_instantiated_once() {
    let mut nodes = schema_nodes();
    // Tree(T) holds a T and a list of Tree(T); Forest holds a Tree(Json).
    nodes.push(struct_node(
        16,
        "Tree",
        &["T"],
        vec![
            field("value", Type::GenericParam(0)),
            field("children", Type::List(Box::new(Type::StructRef(16, bound(vec![Type::GenericParam(0)]))))),
        ],
    ));
    nodes.push(struct_node(17, "Forest", &[], vec![field("t", Type::StructRef(16, bound(vec![Type::StructRef(10, no_brand())])))]));
    let ctx = generate_elm_context(&nodes, &files());
    let trees: Vec<&ElmModule> = ctx.modules.iter().filter(|m| m.path.ends_with("Tree")).collect();
    assert_eq!(trees.len(), 1);
    let own = module_full_name(trees[0]);
    match &trees[0].fields[1].elm_type {
        ElmType::List(inner) => match inner.as_ref() {
            ElmType::StructRef(m, _, args) => {
                assert_eq!(m, &own);
                assert!(args.is_empty());
            }
            _ => panic!(),
        },
        _ => panic!(),
    }
    assert!(!trees[0].imports.iter().any(|i| *i == own));
}
