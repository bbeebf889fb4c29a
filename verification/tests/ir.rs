//! The Elm IR and what the renderer derives from it, on values built by
//! hand.

use capnpc_elm::binding::propagate_needs_cap_table;
use capnpc_elm::capnproto::{Brand, RequestedFile, Type};
use capnpc_elm::elm::{
    float_literal_from_display, module_full_name, ElmContext, ElmDefaultValue, ElmEnumVariant,
    ElmField, ElmMethod, ElmModule, ElmPrimitiveType, ElmType, ElmTypeDef, ElmUnionBranch,
    FloatBits,
};
use capnpc_elm::naming::{escape_elm_keyword, to_union_ctor};
use capnpc_elm::output::{MemoryWriter, OutputWriter};
use capnpc_elm::render::{
    branch_default_xor_mask, data_branches_count, default_xor_mask, has_bool_default_true,
    has_float_default, has_nonzero_default, interface_id_words, is_bool_list, is_float_list,
    is_int_list, is_text_list, merge_module_bodies, module_file_path, module_output_file,
    parenthesize_if_needed, pointer_branches_count, server_module_data, server_output_file,
    strip_list_type, strip_type_args, strip_union_branches, struct_sections,
};
use capnpc_elm::symbols::{member_symbol_prefix, rename_identifiers, replace_all, strip_canon_prefix};
use capnpc_elm::text::{hex8, i64_to_decimal, join_strings, u64_to_decimal};
use capnpc_elm::type_mapping::{
    extract_type_name, module_path_of, module_prefix_of_file, sorted_unique, without_name,
    TypeMappingContext,
};

// ── Builders ──────────────────────────────────────────────────────────

fn prim(p: ElmPrimitiveType) -> ElmType {
    ElmType::Primitive(p)
}

fn sref(m: &str) -> ElmType {
    ElmType::StructRef(m.to_string(), "Entity", vec![])
}

fn iref(m: &str) -> ElmType {
    ElmType::InterfaceRef(m.to_string(), "Entity", vec![])
}

fn field(name: &str, t: ElmType) -> ElmField {
    ElmField {
        name: name.to_string(),
        discriminant: None,
        elm_type: t,
        offset: 0,
        is_union_container: false,
        default_value: None,
        cap_slot: None,
        needs_cap_table: false,
    }
}

fn branch(name: &str, t: ElmType, is_pointer: bool) -> ElmUnionBranch {
    ElmUnionBranch {
        name: name.to_string(),
        discriminant: 0,
        elm_type: t,
        offset: 0,
        is_pointer,
        default_value: None,
        needs_cap_table: false,
    }
}

fn module(path: &str, name: &str, type_def: ElmTypeDef, fields: Vec<ElmField>) -> ElmModule {
    ElmModule {
        id: 0,
        name: name.to_string(),
        path: path.to_string(),
        imports: vec![],
        type_def,
        data_words: 0,
        pointer_words: 0,
        fields,
        discriminant_offset: 0,
        methods: vec![],
        generic_params: vec![],
        needs_cap_table: false,
        merged_members: vec![],
    }
}

fn strings(v: &[&str]) -> Vec<String> {
    v.iter().map(|s| s.to_string()).collect()
}

// ── Elm types ─────────────────────────────────────────────────────────

#[test]
fn elm_type_strings_follow_the_type_table() {
    assert_eq!(prim(ElmPrimitiveType::Bool).to_elm_string(), "Bool");
    assert_eq!(prim(ElmPrimitiveType::Int(8)).to_elm_string(), "Int");
    assert_eq!(prim(ElmPrimitiveType::Int(16)).to_elm_string(), "Int");
    assert_eq!(prim(ElmPrimitiveType::Int(32)).to_elm_string(), "Int");
    assert_eq!(prim(ElmPrimitiveType::Int(64)).to_elm_string(), "Capnproto.Word64");
    assert_eq!(prim(ElmPrimitiveType::Float(32)).to_elm_string(), "Float");
    assert_eq!(prim(ElmPrimitiveType::String).to_elm_string(), "String");
    assert_eq!(prim(ElmPrimitiveType::Bytes).to_elm_string(), "Bytes.Bytes");
    assert_eq!(prim(ElmPrimitiveType::Unit).to_elm_string(), "");
    assert_eq!(ElmType::AnyPointer.to_elm_string(), "Capnproto.AnyPointer");
    assert_eq!(iref("A.Ping").to_elm_string(), "Rpc.Capability");
    assert_eq!(
        ElmType::List(Box::new(prim(ElmPrimitiveType::Int(32)))).to_elm_string(),
        "List (Int)"
    );
    assert_eq!(sref("A.B").to_elm_string(), "A.B.Entity");
    assert_eq!(
        ElmType::StructRef(String::new(), "Entity", vec![ElmType::GenericParam("t".to_string())])
            .to_elm_string(),
        "Entity t"
    );
    assert_eq!(ElmType::UnionInline(vec![], vec![]).to_elm_string(), "Union");
    assert_eq!(ElmType::UnionInline(vec![], strings(&["a"])).to_elm_string(), "Union a");
    assert_eq!(ElmType::UnionInline(vec![], strings(&["a", "b"])).to_elm_string(), "(Union a b)");
}

#[test]
fn write_types_and_byte_widths() {
    assert_eq!(prim(ElmPrimitiveType::Int(8)).write_type(), "UInt8");
    assert_eq!(prim(ElmPrimitiveType::Int(16)).write_type(), "UInt16");
    assert_eq!(prim(ElmPrimitiveType::Int(64)).write_type(), "UInt64");
    assert_eq!(prim(ElmPrimitiveType::Float(32)).write_type(), "Float32");
    assert_eq!(prim(ElmPrimitiveType::Float(64)).read_type(), "Float64");
    assert_eq!(prim(ElmPrimitiveType::Bool).write_type(), "Bool");
    assert_eq!(prim(ElmPrimitiveType::String).write_type(), "Int");
    assert_eq!(prim(ElmPrimitiveType::Int(32)).byte_width(), 4);
    assert_eq!(prim(ElmPrimitiveType::Float(64)).byte_width(), 8);
    assert_eq!(prim(ElmPrimitiveType::Bool).byte_width(), 0);
    assert_eq!(sref("M").byte_width(), 0);
}

#[test]
fn encoder_and_decoder_expressions() {
    assert_eq!(prim(ElmPrimitiveType::String).encoder_expr(), "Capnproto.textToAnyPointer");
    assert_eq!(prim(ElmPrimitiveType::Int(64)).encoder_expr(), "Capnproto.word64ToAnyPointer");
    assert_eq!(sref("M").encoder_expr(), "M.toAnyPointer");
    let applied = ElmType::StructRef(
        "M".to_string(),
        "Entity",
        vec![prim(ElmPrimitiveType::String), ElmType::GenericParam("t".to_string())],
    );
    assert_eq!(applied.encoder_expr(), "Capnproto.textToAnyPointer toAnyPointer");
    assert_eq!(applied.decoder_expr(), "Capnproto.textToAnyPointer toAnyPointer");
    assert_eq!(iref("M").encoder_expr(), "identity");
    assert_eq!(prim(ElmPrimitiveType::Bool).encoder_expr(), "Capnproto.unknownTypeEncoder");
    assert_eq!(sref("M").decoder_expr(), "M.fromAnyPointer");
    assert_eq!(ElmType::GenericParam("t".to_string()).decoder_expr(), "fromAnyPointer");
    assert_eq!(ElmType::AnyPointer.decoder_expr(), "Just");
    assert_eq!(prim(ElmPrimitiveType::Bytes).decoder_expr(), "Capnproto.anyPointerToBytes");
    assert_eq!(prim(ElmPrimitiveType::Bool).decoder_expr(), "Capnproto.unknownTypeDecoder");
}

#[test]
fn list_encoder_and_element_reader_expressions() {
    let list = |t: ElmType| ElmType::List(Box::new(t));
    assert_eq!(
        list(prim(ElmPrimitiveType::Int(16))).list_encoder_expr(),
        "Capnproto.encodePrimitiveIntList 3 2"
    );
    assert_eq!(
        list(prim(ElmPrimitiveType::Int(64))).list_encoder_expr(),
        "Capnproto.encodePrimitiveIntList 5 8"
    );
    assert_eq!(list(prim(ElmPrimitiveType::Bool)).list_encoder_expr(), "Capnproto.encodeBoolList");
    assert_eq!(
        list(sref("M")).list_encoder_expr(),
        "Capnproto.encodeStructList M.encode M.dataWords M.pointerWords"
    );
    assert_eq!(
        list(sref("")).list_encoder_expr(),
        "Capnproto.encodeStructList encode dataWords pointerWords"
    );
    assert_eq!(
        prim(ElmPrimitiveType::Bool).list_encoder_expr(),
        "Capnproto.encodeStructList encode dataWords pointerWords"
    );
    assert_eq!(
        list(prim(ElmPrimitiveType::Bool)).list_element_reader_expr(),
        "\\r -> Capnproto.readBool r 0 0"
    );
    assert_eq!(
        list(prim(ElmPrimitiveType::String)).list_element_reader_expr(),
        "\\r -> Capnproto.readText r 0"
    );
    assert_eq!(
        list(sref("M")).list_element_reader_expr(),
        "\\r -> M.decode r |> Result.toMaybe"
    );
    let e = ElmType::EnumRef("M".to_string(), "Entity", vec![], vec![]);
    assert_eq!(
        list(e).list_element_reader_expr(),
        "\\r -> Capnproto.readUInt16 r 0 |> Maybe.andThen M.fromCode"
    );
    assert_eq!(list(ElmType::AnyPointer).list_element_reader_expr(), "\\r -> Nothing");
}

#[test]
fn type_predicates_and_module_names() {
    assert_eq!(ElmType::UnionInline(vec![], vec![]).module_name(), "Union");
    assert_eq!(sref("A.B").module_name(), "A.B");
    assert_eq!(prim(ElmPrimitiveType::Bool).module_name(), "");
    assert!(prim(ElmPrimitiveType::String).is_pointer());
    assert!(!prim(ElmPrimitiveType::Int(8)).is_pointer());
    assert!(ElmType::List(Box::new(prim(ElmPrimitiveType::Int(8)))).is_primitive_list());
    assert!(!ElmType::List(Box::new(sref("M"))).is_primitive_list());
    assert!(prim(ElmPrimitiveType::Unit).is_void());
    assert!(iref("M").is_interface_ref());
}

#[test]
fn interface_references_are_found_through_arguments_and_lists() {
    let t = ElmType::List(Box::new(ElmType::StructRef("M".to_string(), "Entity", vec![iref("A.Ping")])));
    assert!(t.contains_interface_ref());
    assert_eq!(t.collect_interface_refs(), strings(&["A.Ping"]));
    assert!(!sref("M").contains_interface_ref());
    assert!(sref("M").collect_interface_refs().is_empty());
}

// ── Defaults ──────────────────────────────────────────────────────────

#[test]
fn default_literals_and_zero_defaults() {
    assert_eq!(ElmDefaultValue::Bool(true).to_elm_literal(), Some("True".to_string()));
    assert_eq!(ElmDefaultValue::Bool(false).to_elm_literal(), Some("False".to_string()));
    assert_eq!(ElmDefaultValue::Int(-3).to_elm_literal(), Some("-3".to_string()));
    assert_eq!(ElmDefaultValue::Int(i64::MIN).to_elm_literal(), Some(i64::MIN.to_string()));
    assert_eq!(ElmDefaultValue::Enum(4).to_elm_literal(), Some("4".to_string()));
    assert_eq!(ElmDefaultValue::Float(FloatBits::Double(1.5f64.to_bits())).to_elm_literal(), None);
    assert!(ElmDefaultValue::Bool(false).is_zero());
    assert!(ElmDefaultValue::Int(0).is_zero());
    assert!(!ElmDefaultValue::Enum(1).is_zero());
    assert!(ElmDefaultValue::Float(FloatBits::Double(0.0f64.to_bits())).is_zero());
    assert!(!ElmDefaultValue::Float(FloatBits::Double((-0.0f64).to_bits())).is_zero());
    assert!(!ElmDefaultValue::Float(FloatBits::Single((-0.0f32).to_bits())).is_zero());
    assert!(ElmDefaultValue::Float(FloatBits::Single(0.0f32.to_bits())).is_zero());
    assert!(!ElmDefaultValue::Float(FloatBits::Single(2.0f32.to_bits())).is_zero());
}

#[test]
fn float_literals_get_a_decimal_point() {
    assert_eq!(float_literal_from_display(format!("{}", 1.0f64)), "1.0");
    assert_eq!(float_literal_from_display(format!("{}", 1.5f64)), "1.5");
    assert_eq!(float_literal_from_display("-7".to_string()), "-7.0");
}

#[test]
fn xor_masks_of_fields_and_branches() {
    let mut f = field("level", prim(ElmPrimitiveType::Int(32)));
    assert_eq!(default_xor_mask(&f), Some("0".to_string()));
    assert!(!has_nonzero_default(&f));
    f.default_value = Some(ElmDefaultValue::Int(5));
    assert_eq!(default_xor_mask(&f), Some("5".to_string()));
    assert!(has_nonzero_default(&f));
    f.default_value = Some(ElmDefaultValue::Int(0));
    assert!(!has_nonzero_default(&f));
    f.default_value = Some(ElmDefaultValue::Bool(true));
    assert!(has_bool_default_true(&f));
    assert_eq!(default_xor_mask(&f), Some("True".to_string()));
    f.default_value = Some(ElmDefaultValue::Float(FloatBits::Single(1.0f32.to_bits())));
    assert!(has_float_default(&f));
    assert_eq!(default_xor_mask(&f), None);
    let mut b = branch("on", prim(ElmPrimitiveType::Int(16)), false);
    assert_eq!(branch_default_xor_mask(&b), Some("0".to_string()));
    b.default_value = Some(ElmDefaultValue::Enum(2));
    assert_eq!(branch_default_xor_mask(&b), Some("2".to_string()));
}

// ── Names and files ───────────────────────────────────────────────────

#[test]
fn keywords_are_escaped_and_prelude_constructors_avoided() {
    assert_eq!(escape_elm_keyword("type"), "type_");
    assert_eq!(escape_elm_keyword("module"), "module_");
    assert_eq!(escape_elm_keyword("name"), "name");
    assert_eq!(to_union_ctor("ok"), "OkValue");
    assert_eq!(to_union_ctor("nothing"), "NothingValue");
    assert_eq!(to_union_ctor("some_branch"), "SomeBranch");
}

#[test]
fn module_files_follow_the_dotted_names() {
    assert_eq!(module_file_path("foo_bar.baz"), "FooBar/Baz");
    let m = module("Docs.Lookup", "Json", ElmTypeDef::Struct, vec![]);
    assert_eq!(module_full_name(&m), "Docs.Lookup.Json");
    assert_eq!(module_output_file(&m), "Docs/Lookup/Json.elm");
    assert_eq!(server_output_file(&m), "Docs/Lookup/Json/Server.elm");
    let top = module("", "Point", ElmTypeDef::Struct, vec![]);
    assert_eq!(module_full_name(&top), "Point");
    assert_eq!(server_output_file(&top), "Point/Server.elm");
    assert_eq!(module_output_file(&top), "Point.elm");
}

#[test]
fn module_names_of_files_and_display_names() {
    assert_eq!(module_prefix_of_file("t.capnp"), "T");
    assert_eq!(module_prefix_of_file("rpc.capnp"), "Rpc");
    assert_eq!(extract_type_name("/t.capnp:Machine.mode"), "Mode");
    assert_eq!(extract_type_name("/t.capnp:Point"), "Point");
    assert_eq!(module_path_of("A.B.C"), "A.B");
    assert_eq!(module_path_of("Top"), "");
}

#[test]
fn interface_ids_split_into_hex_words() {
    assert_eq!(
        interface_id_words(0x0123_4567_89AB_CDEF),
        ("0x01234567".to_string(), "0x89ABCDEF".to_string())
    );
    assert_eq!(hex8(0xAB), "0x000000AB");
    assert_eq!(u64_to_decimal(0), "0");
    assert_eq!(u64_to_decimal(u64::MAX), "18446744073709551615");
    assert_eq!(i64_to_decimal(-42), "-42");
    assert_eq!(join_strings(&strings(&["a", "b", "c"]), "/"), "a/b/c");
}

#[test]
fn imports_are_sorted_once_each() {
    let names = strings(&["Rpc.Client as Rpc", "Capnproto", "Bytes", "Capnproto"]);
    assert_eq!(sorted_unique(&names), strings(&["Bytes", "Capnproto", "Rpc.Client as Rpc"]));
    assert_eq!(
        without_name(strings(&["A.B", "Capnproto", "A.B"]), "A.B"),
        strings(&["Capnproto"])
    );
}

// ── Schema types to Elm types ─────────────────────────────────────────

#[test]
fn schema_types_map_as_the_type_table_says() {
    let ctx = TypeMappingContext::new(&vec![], &Vec::<RequestedFile>::new());
    let s = |t: Type| ctx.map_type(&t, 0).to_elm_string();
    assert_eq!(s(Type::Bool), "Bool");
    assert_eq!(s(Type::Int8), "Int");
    assert_eq!(s(Type::Int16), "Int");
    assert_eq!(s(Type::Int32), "Int");
    assert_eq!(s(Type::Int64), "Capnproto.Word64");
    assert_eq!(s(Type::UInt8), "Int");
    assert_eq!(s(Type::UInt16), "Int");
    assert_eq!(s(Type::UInt32), "Int");
    assert_eq!(s(Type::Float32), "Float");
    assert_eq!(s(Type::Float64), "Float");
    assert_eq!(s(Type::Text), "String");
    assert_eq!(s(Type::Data), "Bytes.Bytes");
    assert_eq!(s(Type::List(Box::new(Type::Text))), "List (String)");
    assert_eq!(s(Type::AnyPointer), "Capnproto.AnyPointer");
    let unknown = Type::StructRef(99, Brand { scopes: vec![] });
    assert_eq!(s(unknown), "Entity");
}

// ── Structs, unions and servers ───────────────────────────────────────

#[test]
fn struct_sections_divide_data_and_pointers() {
    let union = ElmType::UnionInline(
        vec![branch("a", prim(ElmPrimitiveType::Int(8)), false), branch("b", prim(ElmPrimitiveType::String), true)],
        vec![],
    );
    let mut u = field("which", union);
    u.is_union_container = true;
    let m = module(
        "T",
        "S",
        ElmTypeDef::Struct,
        vec![
            field("x", prim(ElmPrimitiveType::Int(32))),
            field("name", prim(ElmPrimitiveType::String)),
            field("nothing", prim(ElmPrimitiveType::Unit)),
            u,
        ],
    );
    let s = struct_sections(&m);
    assert_eq!(s.data_fields, vec![0, 3]);
    assert_eq!(s.pointer_fields, vec![1, 3]);
    assert!(s.has_union);
    assert_eq!(s.union_field, Some(3));
}

#[test]
fn union_branches_are_counted_by_section() {
    let bs = vec![
        branch("a", prim(ElmPrimitiveType::Int(8)), false),
        branch("b", prim(ElmPrimitiveType::String), true),
        branch("c", prim(ElmPrimitiveType::Unit), false),
        branch("d", prim(ElmPrimitiveType::Bool), false),
    ];
    assert_eq!(pointer_branches_count(&bs), 1);
    assert_eq!(data_branches_count(&bs), 2);
    let t = ElmType::UnionInline(bs, vec![]);
    assert_eq!(strip_union_branches(&t).len(), 4);
    assert!(strip_union_branches(&sref("M")).is_empty());
}

#[test]
fn list_filters_look_through_one_list() {
    let ints = ElmType::List(Box::new(prim(ElmPrimitiveType::Int(32))));
    assert!(is_int_list(&ints));
    assert!(!is_bool_list(&ints));
    assert!(is_bool_list(&ElmType::List(Box::new(prim(ElmPrimitiveType::Bool)))));
    assert!(is_float_list(&ElmType::List(Box::new(prim(ElmPrimitiveType::Float(64))))));
    assert!(is_text_list(&ElmType::List(Box::new(prim(ElmPrimitiveType::String)))));
    assert!(!is_int_list(&prim(ElmPrimitiveType::Int(32))));
    assert_eq!(strip_list_type(&ints).to_elm_string(), "Int");
    assert_eq!(strip_list_type(&sref("M")).to_elm_string(), "M.Entity");
    let applied = ElmType::StructRef("M".to_string(), "Entity", vec![prim(ElmPrimitiveType::Bool)]);
    assert_eq!(strip_type_args(&applied).len(), 1);
    assert!(strip_type_args(&prim(ElmPrimitiveType::Bool)).is_empty());
}

#[test]
fn parentheses_go_round_applications_only() {
    assert_eq!(parenthesize_if_needed(&prim(ElmPrimitiveType::Int(8))), "Int");
    assert_eq!(
        parenthesize_if_needed(&ElmType::List(Box::new(prim(ElmPrimitiveType::Bool)))),
        "(List (Bool))"
    );
}

#[test]
fn server_module_lists_methods_and_imports() {
    let mut ping = module("T", "Ping", ElmTypeDef::Interface, vec![]);
    ping.id = 0x0000_0001_0000_0002;
    ping.methods = vec![
        ElmMethod {
            id: 0,
            name: "ping".to_string(),
            implicit_parameters: vec![],
            param_type: sref("T.Ping.PingParams"),
            result_type: sref("T.Ping.PingResults"),
            param_has_caps: false,
            result_has_caps: false,
        },
        ElmMethod {
            id: 1,
            name: "again".to_string(),
            implicit_parameters: vec![],
            param_type: sref("T.Ping.PingParams"),
            result_type: prim(ElmPrimitiveType::Unit),
            param_has_caps: true,
            result_has_caps: false,
        },
    ];
    let d = server_module_data(&ping);
    assert_eq!(d.full_module_name, "T.Ping");
    assert_eq!(d.interface_high, "0x00000001");
    assert_eq!(d.interface_low, "0x00000002");
    assert_eq!(d.methods.len(), 2);
    assert_eq!(d.methods[0].param_module, "T.Ping.PingParams");
    assert_eq!(d.methods[1].result_module, "");
    assert!(d.methods[1].param_has_caps);
    assert_eq!(d.imports, strings(&["T.Ping.PingParams", "T.Ping.PingResults"]));
    assert_eq!(d.file_path, "T/Ping/Server.elm");
}

// ── Merging ───────────────────────────────────────────────────────────

#[test]
fn member_symbols_get_the_member_prefix() {
    let table = member_symbol_prefix("Prop", &strings(&["Entity", "Union(..)", "decode"]));
    let get = |w: &str| table.iter().find(|(k, _)| k == w).map(|(_, v)| v.clone());
    assert_eq!(get("Entity"), Some("PropEntity".to_string()));
    assert_eq!(get("Union"), Some("PropUnion".to_string()));
    assert_eq!(get("decode"), Some("propDecode".to_string()));
    assert_eq!(get("dataWords"), Some("propDataWords".to_string()));
    assert_eq!(get("layout"), Some("propLayout".to_string()));
    assert_eq!(get("other"), None);
    assert_eq!(table.iter().filter(|(k, _)| k == "Union").count(), 1);
}

#[test]
fn renaming_leaves_qualified_names_alone() {
    let table = vec![
        ("Entity".to_string(), "PropEntity".to_string()),
        ("decode".to_string(), "propDecode".to_string()),
    ];
    assert_eq!(
        rename_identifiers("decode : Entity -> Other.Entity", &table),
        "propDecode : PropEntity -> Other.Entity"
    );
    assert_eq!(rename_identifiers("Entity.x decodeX", &table), "PropEntity.x decodeX");
    assert_eq!(rename_identifiers("", &table), "");
    assert_eq!(rename_identifiers("a . Entity", &table), "a . PropEntity");
}

#[test]
fn renaming_with_an_empty_table_keeps_the_text() {
    let text = "x = A.b + c_1 (d.e)";
    assert_eq!(rename_identifiers(text, &vec![]), text);
}

#[test]
fn renaming_with_a_table_of_other_names_keeps_the_text() {
    let text = "x = A.b + c_1 (d.e)";
    let table = vec![("y".to_string(), "z".to_string()), ("A.b".to_string(), "q".to_string())];
    assert_eq!(rename_identifiers(text, &table), text);
}

#[test]
fn own_prefix_is_stripped_from_top_level_symbols_only() {
    let syms = strings(&["Entity", "decode"]);
    assert_eq!(
        strip_canon_prefix("A.B.Entity and A.B.Null.Entity and A.B.decode", "A.B.", &syms),
        "Entity and A.B.Null.Entity and decode"
    );
    assert_eq!(strip_canon_prefix("no prefix here", "A.B.", &syms), "no prefix here");
}

#[test]
fn replace_all_replaces_every_occurrence() {
    assert_eq!(replace_all("aXbXc", "X", "--"), "a--b--c");
    assert_eq!(
        replace_all("propDataWords = propDataWords", "propDataWords = propDataWords", "dataWords = propDataWords"),
        "dataWords = propDataWords"
    );
    assert_eq!(replace_all("abc", "z", "y"), "abc");
}

#[test]
fn merged_module_prefixes_member_symbols() {
    let mut canonical = module("T", "Json", ElmTypeDef::Struct, vec![field("x", prim(ElmPrimitiveType::Int(8)))]);
    canonical.merged_members = vec![module("T", "Prop", ElmTypeDef::Struct, vec![field("y", prim(ElmPrimitiveType::Int(8)))])];
    let merged = merge_module_bodies(
        &canonical,
        "decode = T.Json.Entity",
        &strings(&["decode : Entity\npropDataWords = propDataWords"]),
    );
    assert!(merged.exports.iter().any(|e| e == "Entity"));
    assert!(merged.exports.iter().any(|e| e == "PropEntity"));
    assert!(merged.exports.iter().any(|e| e == "propDecode"));
    assert_eq!(
        merged.body,
        "decode = Entity\npropDecode : PropEntity\ndataWords = propDataWords"
    );
}

// ── The capability table ──────────────────────────────────────────────

#[test]
fn cap_table_needs_spread_to_referring_structs() {
    let mut ctx = ElmContext::new();
    ctx.modules.push(module("T", "Holder", ElmTypeDef::Struct, vec![field("cb", iref("T.Ping"))]));
    ctx.modules.push(module("T", "Outer", ElmTypeDef::Struct, vec![field("h", sref("T.Holder"))]));
    ctx.modules.push(module(
        "T",
        "Lists",
        ElmTypeDef::Struct,
        vec![field("hs", ElmType::List(Box::new(sref("T.Outer"))))],
    ));
    ctx.modules.push(module("T", "Plain", ElmTypeDef::Struct, vec![field("n", prim(ElmPrimitiveType::Int(8)))]));
    propagate_needs_cap_table(&mut ctx);
    let needs: Vec<bool> = ctx.modules.iter().map(|m| m.needs_cap_table).collect();
    assert_eq!(needs, vec![true, true, true, false]);
    assert!(ctx.modules[1].imports.iter().any(|i| i == "Rpc.Client as Rpc"));
    assert!(ctx.modules[1].fields[0].needs_cap_table);
    assert!(!ctx.modules[3].fields[0].needs_cap_table);
    assert!(ctx.modules[3].imports.is_empty());
}

#[test]
fn a_second_cap_table_pass_changes_nothing() {
    let mut ctx = ElmContext::new();
    ctx.modules.push(module("T", "Holder", ElmTypeDef::Struct, vec![field("cb", iref("T.Ping"))]));
    ctx.modules.push(module("T", "Outer", ElmTypeDef::Struct, vec![field("h", sref("T.Holder"))]));
    ctx.modules.push(module("T", "Plain", ElmTypeDef::Struct, vec![field("n", prim(ElmPrimitiveType::Int(8)))]));
    propagate_needs_cap_table(&mut ctx);
    let marks = |c: &ElmContext| -> Vec<(bool, Vec<String>, Vec<bool>)> {
        c.modules
            .iter()
            .map(|m| (m.needs_cap_table, m.imports.clone(), m.fields.iter().map(|f| f.needs_cap_table).collect()))
            .collect()
    };
    let first = marks(&ctx);
    propagate_needs_cap_table(&mut ctx);
    assert_eq!(marks(&ctx), first);
    assert_eq!(ctx.modules[0].imports.iter().filter(|i| *i == "Rpc.Client as Rpc").count(), 1);
}

// ── Writers ───────────────────────────────────────────────────────────

#[test]
fn memory_writer_keeps_the_last_content_of_each_path() {
    let mut w = MemoryWriter::new();
    assert!(w.get_all().is_empty());
    assert!(w.write("A.elm", "one").is_ok());
    assert!(w.write("B.elm", "two").is_ok());
    assert!(w.write("A.elm", "three").is_ok());
    let mut all = w.get_all();
    all.sort();
    assert_eq!(
        all,
        vec![
            ("A.elm".to_string(), "three".to_string()),
            ("B.elm".to_string(), "two".to_string()),
        ]
    );
}

#[test]
fn enum_variants_come_from_the_enum_field() {
    let e = ElmType::EnumRef(
        "T.Status".to_string(),
        "Entity",
        vec![
            ElmEnumVariant { name: "on".to_string(), ordinal: 0 },
            ElmEnumVariant { name: "off".to_string(), ordinal: 1 },
        ],
        vec![],
    );
    let vs = capnpc_elm::render::extract_enum_variants(&vec![field("ignored", e)]);
    assert_eq!(vs.len(), 2);
    assert_eq!(vs[1].name, "off");
    assert!(capnpc_elm::render::extract_enum_variants(&vec![field("x", prim(ElmPrimitiveType::Bool))]).is_empty());
}

// ── Schema values ─────────────────────────────────────────────────────

use capnpc_elm::capnproto::{discriminant_from_raw, filter_root_nodes, split_union_fields, Field, Node, NodeKind};

fn schema_field(name: &str, discriminant: Option<u16>) -> Field {
    Field { name: name.to_string(), discriminant, typ: Type::Void, offset: 0, default_value: None }
}

fn schema_node(id: u64, kind: NodeKind, nested: Vec<Node>) -> Node {
    Node {
        id,
        display_name: format!("/t.capnp:N{id}"),
        kind,
        nested_nodes: nested,
        parent_id: 0,
        file_id: 0,
        generic_params: vec![],
    }
}

#[test]
fn references_name_their_target() {
    let brand = || Brand { scopes: vec![] };
    assert_eq!(Type::StructRef(7, brand()).get_ref_id(), Some(7));
    assert_eq!(Type::EnumRef(8, brand()).get_ref_id(), Some(8));
    assert_eq!(Type::InterfaceRef(9, brand()).get_ref_id(), Some(9));
    assert_eq!(Type::List(Box::new(Type::StructRef(7, brand()))).get_ref_id(), None);
    assert_eq!(Type::Text.get_ref_id(), None);
}

#[test]
fn no_discriminant_marks_a_field_outside_the_union() {
    assert_eq!(discriminant_from_raw(0xFFFF), None);
    assert_eq!(discriminant_from_raw(0), Some(0));
    assert_eq!(discriminant_from_raw(3), Some(3));
}

#[test]
fn union_members_are_split_off_in_order() {
    let (plain, union) = split_union_fields(vec![
        schema_field("a", None),
        schema_field("b", Some(0)),
        schema_field("c", None),
        schema_field("d", Some(1)),
    ]);
    let names: Vec<&str> = plain.iter().map(|f| f.name.as_str()).collect();
    assert_eq!(names, vec!["a", "c"]);
    let union = union.expect("two union members");
    let names: Vec<&str> = union.iter().map(|f| f.name.as_str()).collect();
    assert_eq!(names, vec!["b", "d"]);
    let (plain, union) = split_union_fields(vec![schema_field("a", None)]);
    assert_eq!(plain.len(), 1);
    assert!(union.is_none());
}

#[test]
fn roots_are_file_members_without_annotations() {
    let file = schema_node(1, NodeKind::File, vec![schema_node(2, NodeKind::Const, vec![]), schema_node(3, NodeKind::Enum(vec![]), vec![])]);
    let roots = filter_root_nodes(vec![
        schema_node(4, NodeKind::Annotation(0, 4), vec![]),
        file,
        schema_node(5, NodeKind::Other, vec![]),
        schema_node(6, NodeKind::Interface(vec![]), vec![]),
    ]);
    let ids: Vec<u64> = roots.iter().map(|n| n.id).collect();
    assert_eq!(ids, vec![2, 3, 6]);
}

#[test]
fn module_render_data_of_a_struct_with_a_capability() {
    let m = module("T", "Holder", ElmTypeDef::Struct, vec![field("cb", iref("T.Ping"))]);
    let d = capnpc_elm::render::module_render_data(&m);
    assert_eq!(d.full_module_name, "T.Holder");
    assert!(d.has_interface_fields);
    assert!(d.exports.iter().any(|e| e == "encodeWithCaps"));
    assert!(d.exports.iter().any(|e| e == "getCb"));
    assert_eq!(d.file_path, "T/Holder.elm");
    let plain = module("", "Point", ElmTypeDef::Enum, vec![]);
    let d = capnpc_elm::render::module_render_data(&plain);
    assert_eq!(d.full_module_name, "Point");
    assert!(!d.has_interface_fields);
    assert_eq!(d.exports, strings(&["Entity(..)", "fromCode", "toCode"]));
}
