//! The pipeline on requests built in memory: parse, bind, and the files
//! the context renders to, read back from a memory writer.

use capnp::message;
use capnp::schema_capnp::code_generator_request;
use capnp::schema_capnp::{field, node, type_};

use capnpc_elm::binding::{bind_to_elm, BindError};
use capnpc_elm::capnproto::{NodeKind, ParsedSchema};
use capnpc_elm::elm::{ElmContext, ElmDefaultValue, ElmModule, ElmType, ElmTypeDef};
use capnpc_elm::output::MemoryWriter;
use capnpc_elm::render::{
    default_xor_mask, extract_enum_variants, generate_exports, render_elm_to, render_plan,
};
use capnpc_elm::schema_reader::{parse_request, SchemaError};

const FILE_ID: u64 = 1;

// ── Requests ──────────────────────────────────────────────────────────

fn build_message(f: impl FnOnce(code_generator_request::Builder<'_>)) -> Vec<u8> {
    let mut msg = message::Builder::new_default();
    let mut req = msg.init_root::<code_generator_request::Builder>();
    f(req.reborrow());
    capnp::serialize::write_message_to_words(&msg)
}

fn init_file_node(mut n: node::Builder<'_>, id: u64, display: &str) {
    n.set_id(id);
    n.set_scope_id(0);
    n.set_display_name(display);
    n.set_file(());
}

fn empty_struct(mut n: node::Builder<'_>, id: u64, display: &str, scope: u64) {
    n.set_id(id);
    n.set_scope_id(scope);
    n.set_display_name(display);
    let mut s = n.init_struct();
    s.set_data_word_count(0);
    s.set_pointer_count(0);
    s.set_discriminant_offset(0);
    s.init_fields(0);
}

fn add_slot(
    mut f: field::Builder<'_>,
    name: &str,
    offset: u32,
    set_ty: impl FnOnce(type_::Builder<'_>),
    int32_default: Option<i32>,
) {
    f.set_name(name);
    f.set_discriminant_value(0xffff);
    let mut slot = f.init_slot();
    slot.set_offset(offset);
    set_ty(slot.reborrow().init_type());
    if let Some(d) = int32_default {
        slot.set_had_explicit_default(true);
        slot.reborrow().init_default_value().set_int32(d);
    }
}

fn set_requested_file(req: code_generator_request::Builder<'_>, id: u64, filename: &str) {
    let mut rf = req.init_requested_files(1);
    let mut f0 = rf.reborrow().get(0);
    f0.set_id(id);
    f0.set_filename(filename);
}

/// struct Point { x @0 :Int32; y @1 :UInt32; }
fn point_request() -> Vec<u8> {
    build_message(|mut req| {
        {
            let mut nodes = req.reborrow().init_nodes(2);
            init_file_node(nodes.reborrow().get(0), FILE_ID, "/t.capnp:file");
            let mut n = nodes.reborrow().get(1);
            n.set_id(2);
            n.set_scope_id(FILE_ID);
            n.set_display_name("/t.capnp:Point");
            let mut s = n.init_struct();
            s.set_data_word_count(1);
            s.set_pointer_count(0);
            s.set_discriminant_offset(0);
            let mut fields = s.init_fields(2);
            add_slot(fields.reborrow().get(0), "x", 0, |mut t| t.set_int32(()), None);
            add_slot(fields.reborrow().get(1), "y", 1, |mut t| t.set_uint32(()), None);
        }
        set_requested_file(req, FILE_ID, "t.capnp");
    })
}

/// struct Wide { big @0 :Int64; count @1 :UInt32; }
fn wide_request() -> Vec<u8> {
    build_message(|mut req| {
        {
            let mut nodes = req.reborrow().init_nodes(2);
            init_file_node(nodes.reborrow().get(0), FILE_ID, "/t.capnp:file");
            let mut n = nodes.reborrow().get(1);
            n.set_id(2);
            n.set_scope_id(FILE_ID);
            n.set_display_name("/t.capnp:Wide");
            let mut s = n.init_struct();
            s.set_data_word_count(2);
            s.set_pointer_count(0);
            s.set_discriminant_offset(0);
            let mut fields = s.init_fields(2);
            add_slot(fields.reborrow().get(0), "big", 0, |mut t| t.set_int64(()), None);
            add_slot(fields.reborrow().get(1), "count", 2, |mut t| t.set_uint32(()), None);
        }
        set_requested_file(req, FILE_ID, "t.capnp");
    })
}

/// enum Status { on @0; off @1; }
fn status_request() -> Vec<u8> {
    build_message(|mut req| {
        {
            let mut nodes = req.reborrow().init_nodes(2);
            init_file_node(nodes.reborrow().get(0), FILE_ID, "/t.capnp:file");
            let mut n = nodes.reborrow().get(1);
            n.set_id(3);
            n.set_scope_id(FILE_ID);
            n.set_display_name("/t.capnp:Status");
            let e = n.init_enum();
            let mut enumerants = e.init_enumerants(2);
            let mut v = enumerants.reborrow().get(0);
            v.set_name("on");
            v.set_code_order(0);
            let mut v = enumerants.reborrow().get(1);
            v.set_name("off");
            v.set_code_order(1);
        }
        set_requested_file(req, FILE_ID, "t.capnp");
    })
}

/// struct Level { level @0 :Int32 = 5; }
fn level_request() -> Vec<u8> {
    build_message(|mut req| {
        {
            let mut nodes = req.reborrow().init_nodes(2);
            init_file_node(nodes.reborrow().get(0), FILE_ID, "/t.capnp:file");
            let mut n = nodes.reborrow().get(1);
            n.set_id(2);
            n.set_scope_id(FILE_ID);
            n.set_display_name("/t.capnp:Level");
            let mut s = n.init_struct();
            s.set_data_word_count(1);
            s.set_pointer_count(0);
            s.set_discriminant_offset(0);
            let mut fields = s.init_fields(1);
            add_slot(fields.reborrow().get(0), "level", 0, |mut t| t.set_int32(()), Some(5));
        }
        set_requested_file(req, FILE_ID, "t.capnp");
    })
}

/// struct Machine { power @0 :UInt64; mode :union { on @2 :Void; off @3 :Void; } }
fn machine_request() -> Vec<u8> {
    build_message(|mut req| {
        {
            let mut nodes = req.reborrow().init_nodes(3);
            init_file_node(nodes.reborrow().get(0), FILE_ID, "/t.capnp:file");

            let mut n = nodes.reborrow().get(1);
            n.set_id(200);
            n.set_scope_id(FILE_ID);
            n.set_display_name("/t.capnp:Machine");
            let mut s = n.init_struct();
            s.set_data_word_count(1);
            s.set_pointer_count(0);
            s.set_discriminant_offset(0);
            let mut fields = s.init_fields(2);
            add_slot(fields.reborrow().get(0), "power", 0, |mut t| t.set_uint64(()), None);
            let mut f = fields.reborrow().get(1);
            f.set_name("mode");
            f.set_discriminant_value(0xffff);
            f.init_group().set_type_id(201);

            let mut n = nodes.reborrow().get(2);
            n.set_id(201);
            n.set_scope_id(200);
            n.set_display_name("/t.capnp:Machine.mode");
            let mut s = n.init_struct();
            s.set_is_group(true);
            s.set_data_word_count(1);
            s.set_pointer_count(0);
            s.set_discriminant_offset(3);
            let mut fields = s.init_fields(2);
            for (k, name) in ["on", "off"].iter().enumerate() {
                let mut f = fields.reborrow().get(k as u32);
                f.set_name(*name);
                f.set_discriminant_value(k as u16);
                let mut slot = f.init_slot();
                slot.set_offset(0);
                slot.reborrow().init_type().set_void(());
            }
        }
        set_requested_file(req, FILE_ID, "t.capnp");
    })
}

const IFACE_ID: u64 = 5;
const PARAM_ID: u64 = 10;
const RESULT_ID: u64 = 11;
const HOLDER_ID: u64 = 20;

/// interface Ping { ping @0 () -> (); }
/// struct Holder { cb1 @0 :Ping; cb2 @1 :Ping; }
fn interface_request() -> Vec<u8> {
    build_message(|mut req| {
        {
            let mut nodes = req.reborrow().init_nodes(5);
            init_file_node(nodes.reborrow().get(0), FILE_ID, "/t.capnp:file");

            let mut n = nodes.reborrow().get(1);
            n.set_id(IFACE_ID);
            n.set_scope_id(FILE_ID);
            n.set_display_name("/t.capnp:Ping");
            let i = n.init_interface();
            let mut methods = i.init_methods(1);
            let mut m = methods.reborrow().get(0);
            m.set_name("ping");
            m.set_code_order(0);
            m.set_param_struct_type(PARAM_ID);
            m.set_result_struct_type(RESULT_ID);

            empty_struct(nodes.reborrow().get(2), PARAM_ID, "/t.capnp:Ping.ping$Params", IFACE_ID);
            empty_struct(nodes.reborrow().get(3), RESULT_ID, "/t.capnp:Ping.ping$Results", IFACE_ID);

            let mut n = nodes.reborrow().get(4);
            n.set_id(HOLDER_ID);
            n.set_scope_id(FILE_ID);
            n.set_display_name("/t.capnp:Holder");
            let mut s = n.init_struct();
            s.set_data_word_count(0);
            s.set_pointer_count(2);
            s.set_discriminant_offset(0);
            let mut fields = s.init_fields(2);
            for (k, name) in ["cb1", "cb2"].iter().enumerate() {
                let mut f = fields.reborrow().get(k as u32);
                f.set_name(*name);
                f.set_discriminant_value(0xffff);
                let mut slot = f.init_slot();
                slot.set_offset(k as u32);
                let ty = slot.reborrow().init_type();
                let mut iv = ty.init_interface();
                iv.set_type_id(IFACE_ID);
            }
        }
        set_requested_file(req, FILE_ID, "t.capnp");
    })
}

/// A stand-in for the RPC schema: struct Message { } in rpc.capnp.
fn rpc_request() -> Vec<u8> {
    build_message(|mut req| {
        {
            let mut nodes = req.reborrow().init_nodes(2);
            init_file_node(nodes.reborrow().get(0), 77, "/usr/include/capnp/rpc.capnp:file");
            empty_struct(nodes.reborrow().get(1), 78, "/usr/include/capnp/rpc.capnp:Message", 77);
        }
        set_requested_file(req, 77, "/usr/include/capnp/rpc.capnp");
    })
}

// ── Helpers ───────────────────────────────────────────────────────────

fn parse(bytes: Vec<u8>) -> ParsedSchema {
    match parse_request(&bytes) {
        Ok(s) => s,
        Err(_) => panic!("parse_request failed"),
    }
}

fn bind(bytes: Vec<u8>) -> ElmContext {
    let schema = parse(bytes);
    match bind_to_elm(&schema, None) {
        Ok(c) => c,
        Err(_) => panic!("bind_to_elm failed"),
    }
}

fn module<'a>(ctx: &'a ElmContext, name: &str) -> &'a ElmModule {
    let hits: Vec<&ElmModule> = ctx.modules.iter().filter(|m| m.name == name).collect();
    assert_eq!(hits.len(), 1, "expected exactly one module named {name}");
    hits[0]
}

fn plan_paths(ctx: &ElmContext) -> Vec<String> {
    render_plan(ctx).into_iter().map(|o| o.path).collect()
}

// ── Parsing ───────────────────────────────────────────────────────────

#[test]
fn parse_keeps_file_members_as_roots() {
    let schema = parse(point_request());
    assert_eq!(schema.nodes.len(), 1);
    let point = &schema.nodes[0];
    assert_eq!(point.id, 2);
    assert_eq!(point.display_name, "/t.capnp:Point");
    assert_eq!(point.file_id, FILE_ID);
    assert_eq!(schema.requested_files.len(), 1);
    assert_eq!(schema.requested_files[0].filename, "t.capnp");
    match &point.kind {
        NodeKind::Struct { fields, union_fields, data_word_count, .. } => {
            assert_eq!(fields.len(), 2);
            assert_eq!(fields[0].name, "x");
            assert_eq!(fields[1].name, "y");
            assert_eq!(fields[1].offset, 1);
            assert!(fields[0].discriminant.is_none());
            assert!(union_fields.is_none());
            assert_eq!(*data_word_count, 1);
        }
        _ => panic!("Point must be a struct"),
    }
}

#[test]
fn parse_nests_a_group_under_its_struct() {
    let schema = parse(machine_request());
    assert_eq!(schema.nodes.len(), 1);
    let machine = &schema.nodes[0];
    assert_eq!(machine.nested_nodes.len(), 1);
    let mode = &machine.nested_nodes[0];
    assert_eq!(mode.id, 201);
    match &mode.kind {
        NodeKind::Struct { is_group, fields, union_fields, discriminant_offset, .. } => {
            assert!(*is_group);
            assert!(fields.is_empty());
            let u = union_fields.as_ref().expect("the group holds a union");
            assert_eq!(u.len(), 2);
            assert_eq!(u[0].discriminant, Some(0));
            assert_eq!(u[1].discriminant, Some(1));
            assert_eq!(*discriminant_offset, 3);
        }
        _ => panic!("mode must be a struct"),
    }
}

#[test]
fn parse_rejects_bytes_that_are_no_message() {
    let r = parse_request(&[1, 2, 3]);
    assert!(matches!(r, Err(SchemaError::Capnp(_))));
}

// ── Binding ───────────────────────────────────────────────────────────

#[test]
fn struct_module_has_fields_in_order() {
    let ctx = bind(point_request());
    assert_eq!(ctx.modules.len(), 1);
    let m = module(&ctx, "Point");
    assert_eq!(m.path, "T");
    assert_eq!(m.id, 2);
    assert!(m.type_def == ElmTypeDef::Struct);
    assert_eq!(m.data_words, 1);
    assert_eq!(m.pointer_words, 0);
    assert_eq!(m.fields.len(), 2);
    assert_eq!(m.fields[0].name, "x");
    assert_eq!(m.fields[1].name, "y");
    assert_eq!(m.imports, vec!["Capnproto".to_string()]);
    let exports = generate_exports(m, false);
    assert!(exports.iter().any(|e| e == "getX"));
    assert!(exports.iter().any(|e| e == "getY"));
    assert!(exports.iter().any(|e| e == "encode"));
    assert!(exports.iter().any(|e| e == "decode"));
    assert!(!exports.iter().any(|e| e == "encodeWithCaps"));
}

#[test]
fn int64_is_word64_and_uint32_is_written_as_uint32() {
    let ctx = bind(wide_request());
    let m = module(&ctx, "Wide");
    assert_eq!(m.fields[0].elm_type.to_elm_string(), "Capnproto.Word64");
    assert_eq!(m.fields[1].elm_type.to_elm_string(), "Int");
    assert_eq!(m.fields[1].elm_type.write_type(), "UInt32");
}

#[test]
fn enum_module_holds_its_variants() {
    let ctx = bind(status_request());
    let m = module(&ctx, "Status");
    assert!(m.type_def == ElmTypeDef::Enum);
    let variants = extract_enum_variants(&m.fields);
    assert_eq!(variants.len(), 2);
    assert_eq!(variants[0].name, "on");
    assert_eq!(variants[0].ordinal, 0);
    assert_eq!(variants[1].name, "off");
    assert_eq!(variants[1].ordinal, 1);
    assert_eq!(m.imports, vec!["Capnproto".to_string()]);
}

#[test]
fn nonzero_default_is_an_xor_mask_and_imports_bitwise() {
    let ctx = bind(level_request());
    let m = module(&ctx, "Level");
    let f = &m.fields[0];
    assert!(matches!(f.default_value, Some(ElmDefaultValue::Int(5))));
    assert_eq!(default_xor_mask(f), Some("5".to_string()));
    assert_eq!(m.imports, vec!["Bitwise".to_string(), "Capnproto".to_string()]);
}

#[test]
fn named_union_takes_its_tag_offset_from_the_group() {
    let ctx = bind(machine_request());
    let m = module(&ctx, "Machine");
    assert_eq!(m.fields.len(), 2);
    assert_eq!(m.fields[0].name, "power");
    let u = &m.fields[1];
    assert_eq!(u.name, "mode");
    assert!(u.is_union_container);
    assert_eq!(u.offset, 3);
    match &u.elm_type {
        ElmType::UnionInline(branches, _) => {
            assert_eq!(branches.len(), 2);
            assert_eq!(branches[0].name, "on");
            assert_eq!(branches[0].discriminant, 0);
            assert_eq!(branches[1].name, "off");
            assert_eq!(branches[1].discriminant, 1);
        }
        _ => panic!("mode must hold a union"),
    }
    // The group has no module of its own.
    assert_eq!(ctx.modules.len(), 1);
}

#[test]
fn interface_schema_needs_the_rpc_schema() {
    let schema = parse(interface_request());
    assert!(matches!(bind_to_elm(&schema, None), Err(BindError::RpcSchemaNeeded)));
}

#[test]
fn interface_schema_binds_with_rpc_modules_after_its_own() {
    let schema = parse(interface_request());
    let rpc = parse(rpc_request());
    let ctx = match bind_to_elm(&schema, Some(&rpc)) {
        Ok(c) => c,
        Err(_) => panic!("bind_to_elm failed"),
    };
    let last = ctx.modules.last().expect("modules");
    assert_eq!(last.name, "Message");
    assert_eq!(last.path, "Rpc");
    let ping = module(&ctx, "Ping");
    assert!(ping.type_def == ElmTypeDef::Interface);
    assert_eq!(ping.methods.len(), 1);
    assert_eq!(ping.methods[0].name, "ping");
    assert!(!ping.methods[0].param_has_caps);
    assert!(ping.imports.iter().any(|i| i == "Rpc.Client as Rpc"));
    assert!(ping.imports.iter().any(|i| i == "Capnproto"));
}

#[test]
fn capability_fields_get_slots_in_declaration_order() {
    let schema = parse(interface_request());
    let rpc = parse(rpc_request());
    let ctx = match bind_to_elm(&schema, Some(&rpc)) {
        Ok(c) => c,
        Err(_) => panic!("bind_to_elm failed"),
    };
    let holder = module(&ctx, "Holder");
    assert_eq!(holder.fields.len(), 2);
    assert_eq!(holder.fields[0].cap_slot, Some(0));
    assert_eq!(holder.fields[1].cap_slot, Some(1));
    assert!(holder.needs_cap_table);
    let exports = generate_exports(holder, true);
    assert!(exports.iter().any(|e| e == "encodeWithCaps"));
}

// ── Files ─────────────────────────────────────────────────────────────

#[test]
fn interface_schema_plans_rpc_runtime_and_server() {
    let schema = parse(interface_request());
    let rpc = parse(rpc_request());
    let ctx = match bind_to_elm(&schema, Some(&rpc)) {
        Ok(c) => c,
        Err(_) => panic!("bind_to_elm failed"),
    };
    let paths = plan_paths(&ctx);
    assert_eq!(paths[0], "Capnproto.elm");
    for wanted in ["Rpc/Client.elm", "Rpc/WebSocket.elm", "T/Ping.elm", "T/Ping/Server.elm", "T/Holder.elm"] {
        assert_eq!(paths.iter().filter(|p| p.as_str() == wanted).count(), 1, "{wanted} in {paths:?}");
    }
}

#[test]
fn plain_schema_plans_no_rpc_files() {
    let ctx = bind(point_request());
    assert_eq!(plan_paths(&ctx), vec!["Capnproto.elm".to_string(), "T/Point.elm".to_string()]);
}

#[test]
fn rendered_files_read_back_from_memory() {
    let ctx = bind(point_request());
    let contents = vec!["runtime".to_string(), "module Point".to_string()];
    let mut writer = MemoryWriter::new();
    assert!(render_elm_to(&ctx, &contents, &mut writer).is_ok());
    let mut all = writer.get_all();
    all.sort();
    assert_eq!(
        all,
        vec![
            ("Capnproto.elm".to_string(), "runtime".to_string()),
            ("T/Point.elm".to_string(), "module Point".to_string()),
        ]
    );
}
