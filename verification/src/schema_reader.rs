//! Reading a `CodeGeneratorRequest` message with the `capnp` crate's
//! generated readers. Each reader accessor is called through a small
//! trusted wrapper; the schema values are built from what they return by
//! verified code, and the flat node list is assembled by
//! `FlatNodes::into_schema`.
//!
//! A reader is an opaque view into the message, so nothing can be named of
//! the values an accessor returns: its wrapper states no result, and the
//! functions here state what holds of every schema they build.
use vstd::prelude::*;

use capnp::schema_capnp::{brand, code_generator_request, enumerant, field, method, node, type_, value};

use crate::capnproto::{
    discriminant_from_raw, keyed_by_id, nested_pairs, node_filed, resolution_fails, schema_assembled, spec_discriminant, struct_kind_is, struct_fields_split, struct_kind,
    Binding, Brand, BrandScope, DefaultValue, Enumerator, Field, FlatNodes, Method, Node, NodeKind,
    ParsedSchema, RequestedFile, Type,
};

verus! {

// ── Reader types of the `capnp` crate ─────────────────────────────────

#[verifier::external_type_specification]
#[verifier::external_body]
pub struct ExCapnpError(capnp::Error);

#[verifier::external_type_specification]
#[verifier::external_body]
pub struct ExUtf8Error(core::str::Utf8Error);

#[verifier::external_type_specification]
#[verifier::external_body]
pub struct ExTextReader<'a>(capnp::text::Reader<'a>);

#[verifier::external_type_specification]
#[verifier::external_body]
pub struct ExRequestReader<'a>(code_generator_request::Reader<'a>);

#[verifier::external_type_specification]
#[verifier::external_body]
pub struct ExRequestedFileReader<'a>(code_generator_request::requested_file::Reader<'a>);

#[verifier::external_type_specification]
#[verifier::external_body]
pub struct ExNodeReader<'a>(node::Reader<'a>);

#[verifier::external_type_specification]
#[verifier::external_body]
pub struct ExParameterReader<'a>(node::parameter::Reader<'a>);

#[verifier::external_type_specification]
#[verifier::external_body]
pub struct ExNestedNodeReader<'a>(node::nested_node::Reader<'a>);

#[verifier::external_type_specification]
#[verifier::external_body]
pub struct ExStructNodeReader<'a>(node::struct_::Reader<'a>);

#[verifier::external_type_specification]
#[verifier::external_body]
pub struct ExEnumNodeReader<'a>(node::enum_::Reader<'a>);

#[verifier::external_type_specification]
#[verifier::external_body]
pub struct ExInterfaceNodeReader<'a>(node::interface::Reader<'a>);

#[verifier::external_type_specification]
#[verifier::external_body]
pub struct ExMethodReader<'a>(method::Reader<'a>);

#[verifier::external_type_specification]
#[verifier::external_body]
pub struct ExFieldReader<'a>(field::Reader<'a>);

#[verifier::external_type_specification]
#[verifier::external_body]
pub struct ExSlotReader<'a>(field::slot::Reader<'a>);

#[verifier::external_type_specification]
#[verifier::external_body]
pub struct ExGroupReader<'a>(field::group::Reader<'a>);

#[verifier::external_type_specification]
#[verifier::external_body]
pub struct ExValueReader<'a>(value::Reader<'a>);

#[verifier::external_type_specification]
#[verifier::external_body]
pub struct ExEnumerantReader<'a>(enumerant::Reader<'a>);

#[verifier::external_type_specification]
#[verifier::external_body]
pub struct ExTypeReader<'a>(type_::Reader<'a>);

#[verifier::external_type_specification]
#[verifier::external_body]
pub struct ExListTypeReader<'a>(type_::list::Reader<'a>);

#[verifier::external_type_specification]
#[verifier::external_body]
pub struct ExStructTypeReader<'a>(type_::struct_::Reader<'a>);

#[verifier::external_type_specification]
#[verifier::external_body]
pub struct ExEnumTypeReader<'a>(type_::enum_::Reader<'a>);

#[verifier::external_type_specification]
#[verifier::external_body]
pub struct ExInterfaceTypeReader<'a>(type_::interface::Reader<'a>);

#[verifier::external_type_specification]
#[verifier::external_body]
pub struct ExAnyPointerReader<'a>(type_::any_pointer::Reader<'a>);

#[verifier::external_type_specification]
#[verifier::external_body]
pub struct ExParameterTypeReader<'a>(type_::any_pointer::parameter::Reader<'a>);

#[verifier::external_type_specification]
#[verifier::external_body]
pub struct ExImplicitParameterTypeReader<'a>(type_::any_pointer::implicit_method_parameter::Reader<'a>);

#[verifier::external_type_specification]
#[verifier::external_body]
pub struct ExBrandReader<'a>(brand::Reader<'a>);

#[verifier::external_type_specification]
#[verifier::external_body]
pub struct ExScopeReader<'a>(brand::scope::Reader<'a>);

#[verifier::external_type_specification]
#[verifier::external_body]
pub struct ExBindingReader<'a>(brand::binding::Reader<'a>);

#[verifier::external_type_specification]
#[verifier::external_body]
#[verifier::reject_recursive_types(A0)]
#[verifier::reject_recursive_types(A1)]
#[verifier::reject_recursive_types(A2)]
#[verifier::reject_recursive_types(A3)]
#[verifier::reject_recursive_types(A4)]
pub struct ExTypeWhich<A0, A1, A2, A3, A4>(type_::Which<A0, A1, A2, A3, A4>);

#[verifier::external_type_specification]
#[verifier::external_body]
#[verifier::reject_recursive_types(A0)]
#[verifier::reject_recursive_types(A1)]
#[verifier::reject_recursive_types(A2)]
#[verifier::reject_recursive_types(A3)]
#[verifier::reject_recursive_types(A4)]
pub struct ExValueWhich<A0, A1, A2, A3, A4>(value::Which<A0, A1, A2, A3, A4>);

#[verifier::external_type_specification]
#[verifier::external_body]
pub struct ExAnyPointerValueReader<'a>(capnp::any_pointer::Reader<'a>);

/// A `CodeGeneratorRequest` message read into memory: a
/// `capnp::message::Reader` over owned segments. (Its generic type cannot
/// be declared to Verus, so it is held here.)
#[verifier::external_body]
pub struct RequestMessage {
    message: capnp::message::Reader<capnp::serialize::OwnedSegments>,
}

/// Why a request could not be read.
pub enum SchemaError {
    /// Reading the message, or following a pointer in it, failed.
    Capnp(capnp::Error),
    /// A union tag that the schema of schemas does not define.
    NotInSchema(u16),
    /// A name that is not valid UTF-8.
    InvalidUtf8,
    /// A type nested deeper than `TYPE_NESTING_LIMIT`.
    TooDeep,
    /// File resolution ran out of steps.
    ResolutionTooLong,
    /// A union value none of whose arms was recognised, which a reader
    /// that returned the value does not produce.
    UnmatchedArm,
}

/// The union arms of a node, with the reader of each arm's group.
pub enum NodeBody<'a> {
    File,
    Struct(node::struct_::Reader<'a>),
    Enum(node::enum_::Reader<'a>),
    Interface(node::interface::Reader<'a>),
    Const,
    Annotation,
}

/// The union arms of a field.
pub enum FieldBody<'a> {
    Slot(field::slot::Reader<'a>),
    Group(field::group::Reader<'a>),
}

/// The pointer arms of a type, with the reader of each arm's group.
pub enum TypeBody<'a> {
    List(type_::list::Reader<'a>),
    Enum(type_::enum_::Reader<'a>),
    Struct(type_::struct_::Reader<'a>),
    Interface(type_::interface::Reader<'a>),
    AnyPointer(type_::any_pointer::Reader<'a>),
}

/// The union arms of an `AnyPointer` type.
pub enum AnyPointerBody<'a> {
    Unconstrained,
    Parameter(type_::any_pointer::parameter::Reader<'a>),
    ImplicitMethodParameter(type_::any_pointer::implicit_method_parameter::Reader<'a>),
}

/// The union arms of a brand scope.
pub enum ScopeBody<'a> {
    Bind(Result<Vec<brand::binding::Reader<'a>>, capnp::Error>),
    Inherit,
}

/// The union arms of a brand binding.
pub enum BindingBody<'a> {
    Unbound,
    Type(Result<type_::Reader<'a>, capnp::Error>),
}

// ── Wrappers of the reader accessors ──────────────────────────────────

impl RequestMessage {
    /// `capnp::serialize::read_message` over a byte slice, with the
    /// default reader options (`ReaderOptions::new()`).
    #[verifier::external_body]
    pub(crate) fn read(bytes: &[u8]) -> (r: Result<RequestMessage, capnp::Error>)
        ensures
            r is Ok <==> read_segments_of(bytes@) is Some,
            r matches Ok(m) ==> read_segments_of(bytes@) == Some(message_segments(&m)),
    {
        let message = capnp::serialize::read_message(bytes, capnp::message::ReaderOptions::new())?;
        Ok(RequestMessage { message })
    }

    /// `capnp::message::Reader::get_root`, as a `CodeGeneratorRequest`.
    #[verifier::external_body]
    fn root(&self) -> (r: Result<code_generator_request::Reader<'_>, capnp::Error>)
        ensures
            r == message_root_of(self),
    {
        self.message.get_root::<code_generator_request::Reader<'_>>()
    }
}

/// The contents of a message's segments, segment by segment, as bytes.
pub uninterp spec fn message_segments(m: &RequestMessage) -> Seq<Seq<u8>>;

/// The segments `capnp::serialize::read_message` reads from the bytes of
/// a message: the segment table at the front says how many segments of
/// which lengths follow. `None` where the bytes hold no such message (a
/// short or malformed table, too many segments, more words than the
/// reader's traversal limit). Two reads of the same bytes give messages
/// with the same segments, not the same message.
pub uninterp spec fn read_segments_of(bytes: Seq<u8>) -> Option<Seq<Seq<u8>>>;

/// What `RequestMessage::root` gives for a message.
pub uninterp spec fn message_root_of(m: &RequestMessage) -> Result<code_generator_request::Reader<'_>, capnp::Error>;

/// `capnp::text::Reader::to_string`.
#[verifier::external_body]
fn text_to_string(t: capnp::text::Reader<'_>) -> (r: Result<String, core::str::Utf8Error>)
    ensures
        r == text_to_string_of(t),
{
    t.to_string()
}

/// What `text_to_string` gives.
pub uninterp spec fn text_to_string_of(t: capnp::text::Reader<'_>) -> Result<String, core::str::Utf8Error>;

/// `code_generator_request::Reader::get_nodes`, the list's elements in
/// order.
#[verifier::external_body]
fn request_nodes<'a>(req: code_generator_request::Reader<'a>) -> (r: Result<Vec<node::Reader<'a>>, capnp::Error>)
    ensures
        r == request_nodes_of(req),
{
    Ok(req.get_nodes()?.iter().collect())
}

/// What `request_nodes` gives.
pub uninterp spec fn request_nodes_of(r: code_generator_request::Reader<'_>) -> Result<Vec<node::Reader<'_>>, capnp::Error>;

/// `code_generator_request::Reader::get_requested_files`, the list's
/// elements in order.
#[verifier::external_body]
fn request_files<'a>(req: code_generator_request::Reader<'a>) -> (r: Result<Vec<code_generator_request::requested_file::Reader<'a>>, capnp::Error>)
    ensures
        r == request_files_of(req),
{
    Ok(req.get_requested_files()?.iter().collect())
}

/// What `request_files` gives.
pub uninterp spec fn request_files_of(r: code_generator_request::Reader<'_>) -> Result<Vec<code_generator_request::requested_file::Reader<'_>>, capnp::Error>;

/// `requested_file::Reader::get_id`.
#[verifier::external_body]
fn requested_file_id(req: code_generator_request::requested_file::Reader<'_>) -> (r: u64)
    ensures
        r == requested_file_id_of(req),
{
    req.get_id()
}

/// What `requested_file_id` gives.
pub uninterp spec fn requested_file_id_of(r: code_generator_request::requested_file::Reader<'_>) -> u64;

/// `requested_file::Reader::get_filename`.
#[verifier::external_body]
fn requested_file_name<'a>(req: code_generator_request::requested_file::Reader<'a>) -> (r: Result<capnp::text::Reader<'a>, capnp::Error>)
    ensures
        r == requested_file_name_of(req),
{
    req.get_filename()
}

/// What `requested_file_name` gives.
pub uninterp spec fn requested_file_name_of(r: code_generator_request::requested_file::Reader<'_>) -> Result<capnp::text::Reader<'_>, capnp::Error>;

/// `node::Reader::get_id`.
#[verifier::external_body]
fn node_id(n: node::Reader<'_>) -> (r: u64)
    ensures
        r == node_id_of(n),
{
    n.get_id()
}

/// What `node_id` gives.
pub uninterp spec fn node_id_of(n: node::Reader<'_>) -> u64;

/// `node::Reader::get_scope_id`.
#[verifier::external_body]
fn node_scope_id(n: node::Reader<'_>) -> (r: u64)
    ensures
        r == node_scope_id_of(n),
{
    n.get_scope_id()
}

/// What `node_scope_id` gives.
pub uninterp spec fn node_scope_id_of(n: node::Reader<'_>) -> u64;

/// `node::Reader::get_display_name`.
#[verifier::external_body]
fn node_display_name<'a>(n: node::Reader<'a>) -> (r: Result<capnp::text::Reader<'a>, capnp::Error>)
    ensures
        r == node_display_name_of(n),
{
    n.get_display_name()
}

/// What `node_display_name` gives.
pub uninterp spec fn node_display_name_of(n: node::Reader<'_>) -> Result<capnp::text::Reader<'_>, capnp::Error>;

/// `node::Reader::get_parameters`, the list's elements in order.
#[verifier::external_body]
fn node_parameters<'a>(n: node::Reader<'a>) -> (r: Result<Vec<node::parameter::Reader<'a>>, capnp::Error>)
    ensures
        r == node_parameters_of(n),
{
    Ok(n.get_parameters()?.iter().collect())
}

/// What `node_parameters` gives.
pub uninterp spec fn node_parameters_of(n: node::Reader<'_>) -> Result<Vec<node::parameter::Reader<'_>>, capnp::Error>;

/// `node::parameter::Reader::get_name`.
#[verifier::external_body]
fn parameter_name<'a>(p: node::parameter::Reader<'a>) -> (r: Result<capnp::text::Reader<'a>, capnp::Error>)
    ensures
        r == parameter_name_of(p),
{
    p.get_name()
}

/// What `parameter_name` gives.
pub uninterp spec fn parameter_name_of(p: node::parameter::Reader<'_>) -> Result<capnp::text::Reader<'_>, capnp::Error>;

/// `node::Reader::get_nested_nodes`, the list's elements in order.
#[verifier::external_body]
fn node_nested_nodes<'a>(n: node::Reader<'a>) -> (r: Result<Vec<node::nested_node::Reader<'a>>, capnp::Error>)
    ensures
        r == node_nested_nodes_of(n),
{
    Ok(n.get_nested_nodes()?.iter().collect())
}

/// What `node_nested_nodes` gives.
pub uninterp spec fn node_nested_nodes_of(n: node::Reader<'_>) -> Result<Vec<node::nested_node::Reader<'_>>, capnp::Error>;

/// `node::nested_node::Reader::get_id`.
#[verifier::external_body]
fn nested_node_id(n: node::nested_node::Reader<'_>) -> (r: u64)
    ensures
        r == nested_node_id_of(n),
{
    n.get_id()
}

/// What `nested_node_id` gives.
pub uninterp spec fn nested_node_id_of(n: node::nested_node::Reader<'_>) -> u64;

/// `node::Reader::which`: the node's union arm, or the unknown tag.
#[verifier::external_body]
fn node_which<'a>(n: node::Reader<'a>) -> (r: Result<NodeBody<'a>, u16>)
    ensures
        r == node_which_of(n),
{
    match n.which() {
        Ok(node::File(())) => Ok(NodeBody::File),
        Ok(node::Struct(s)) => Ok(NodeBody::Struct(s)),
        Ok(node::Enum(e)) => Ok(NodeBody::Enum(e)),
        Ok(node::Interface(i)) => Ok(NodeBody::Interface(i)),
        Ok(node::Const(_)) => Ok(NodeBody::Const),
        Ok(node::Annotation(_)) => Ok(NodeBody::Annotation),
        Err(capnp::NotInSchema(tag)) => Err(tag),
    }
}

/// What `node_which` gives.
pub uninterp spec fn node_which_of(n: node::Reader<'_>) -> Result<NodeBody<'_>, u16>;

/// `node::struct_::Reader::get_fields`, the list's elements in order.
#[verifier::external_body]
fn struct_fields<'a>(s: node::struct_::Reader<'a>) -> (r: Result<Vec<field::Reader<'a>>, capnp::Error>)
    ensures
        r == struct_fields_of(s),
{
    Ok(s.get_fields()?.iter().collect())
}

/// What `struct_fields` gives.
pub uninterp spec fn struct_fields_of(s: node::struct_::Reader<'_>) -> Result<Vec<field::Reader<'_>>, capnp::Error>;

/// `node::struct_::Reader::get_discriminant_offset`.
#[verifier::external_body]
fn struct_discriminant_offset(s: node::struct_::Reader<'_>) -> (r: u32)
    ensures
        r == struct_discriminant_offset_of(s),
{
    s.get_discriminant_offset()
}

/// What `struct_discriminant_offset` gives.
pub uninterp spec fn struct_discriminant_offset_of(s: node::struct_::Reader<'_>) -> u32;

/// `node::struct_::Reader::get_is_group`.
#[verifier::external_body]
fn struct_is_group(s: node::struct_::Reader<'_>) -> (r: bool)
    ensures
        r == struct_is_group_of(s),
{
    s.get_is_group()
}

/// What `struct_is_group` gives.
pub uninterp spec fn struct_is_group_of(s: node::struct_::Reader<'_>) -> bool;

/// `node::struct_::Reader::get_data_word_count`.
#[verifier::external_body]
fn struct_data_word_count(s: node::struct_::Reader<'_>) -> (r: u16)
    ensures
        r == struct_data_word_count_of(s),
{
    s.get_data_word_count()
}

/// What `struct_data_word_count` gives.
pub uninterp spec fn struct_data_word_count_of(s: node::struct_::Reader<'_>) -> u16;

/// `node::struct_::Reader::get_pointer_count`.
#[verifier::external_body]
fn struct_pointer_count(s: node::struct_::Reader<'_>) -> (r: u16)
    ensures
        r == struct_pointer_count_of(s),
{
    s.get_pointer_count()
}

/// What `struct_pointer_count` gives.
pub uninterp spec fn struct_pointer_count_of(s: node::struct_::Reader<'_>) -> u16;

/// `node::enum_::Reader::get_enumerants`, the list's elements in order.
#[verifier::external_body]
fn enum_enumerants<'a>(e: node::enum_::Reader<'a>) -> (r: Result<Vec<enumerant::Reader<'a>>, capnp::Error>)
    ensures
        r == enum_enumerants_of(e),
{
    Ok(e.get_enumerants()?.iter().collect())
}

/// What `enum_enumerants` gives.
pub uninterp spec fn enum_enumerants_of(e: node::enum_::Reader<'_>) -> Result<Vec<enumerant::Reader<'_>>, capnp::Error>;

/// `node::interface::Reader::get_methods`, the list's elements in order.
#[verifier::external_body]
fn interface_methods<'a>(i: node::interface::Reader<'a>) -> (r: Result<Vec<method::Reader<'a>>, capnp::Error>)
    ensures
        r == interface_methods_of(i),
{
    Ok(i.get_methods()?.iter().collect())
}

/// What `interface_methods` gives.
pub uninterp spec fn interface_methods_of(i: node::interface::Reader<'_>) -> Result<Vec<method::Reader<'_>>, capnp::Error>;

/// `method::Reader::get_name`.
#[verifier::external_body]
fn method_name<'a>(m: method::Reader<'a>) -> (r: Result<capnp::text::Reader<'a>, capnp::Error>)
    ensures
        r == method_name_of(m),
{
    m.get_name()
}

/// What `method_name` gives.
pub uninterp spec fn method_name_of(m: method::Reader<'_>) -> Result<capnp::text::Reader<'_>, capnp::Error>;

/// `method::Reader::get_code_order`.
#[verifier::external_body]
fn method_code_order(m: method::Reader<'_>) -> (r: u16)
    ensures
        r == method_code_order_of(m),
{
    m.get_code_order()
}

/// What `method_code_order` gives.
pub uninterp spec fn method_code_order_of(m: method::Reader<'_>) -> u16;

/// `method::Reader::get_implicit_parameters`, the list's elements in
/// order.
#[verifier::external_body]
fn method_implicit_parameters<'a>(m: method::Reader<'a>) -> (r: Result<Vec<node::parameter::Reader<'a>>, capnp::Error>)
    ensures
        r == method_implicit_parameters_of(m),
{
    Ok(m.get_implicit_parameters()?.iter().collect())
}

/// What `method_implicit_parameters` gives.
pub uninterp spec fn method_implicit_parameters_of(m: method::Reader<'_>) -> Result<Vec<node::parameter::Reader<'_>>, capnp::Error>;

/// `method::Reader::get_param_struct_type`.
#[verifier::external_body]
fn method_param_struct_type(m: method::Reader<'_>) -> (r: u64)
    ensures
        r == method_param_struct_type_of(m),
{
    m.get_param_struct_type()
}

/// What `method_param_struct_type` gives.
pub uninterp spec fn method_param_struct_type_of(m: method::Reader<'_>) -> u64;

/// `method::Reader::get_result_struct_type`.
#[verifier::external_body]
fn method_result_struct_type(m: method::Reader<'_>) -> (r: u64)
    ensures
        r == method_result_struct_type_of(m),
{
    m.get_result_struct_type()
}

/// What `method_result_struct_type` gives.
pub uninterp spec fn method_result_struct_type_of(m: method::Reader<'_>) -> u64;

/// `method::Reader::get_param_brand`.
#[verifier::external_body]
fn method_param_brand<'a>(m: method::Reader<'a>) -> (r: Result<brand::Reader<'a>, capnp::Error>)
    ensures
        r == method_param_brand_of(m),
{
    m.get_param_brand()
}

/// What `method_param_brand` gives.
pub uninterp spec fn method_param_brand_of(m: method::Reader<'_>) -> Result<brand::Reader<'_>, capnp::Error>;

/// `method::Reader::get_result_brand`.
#[verifier::external_body]
fn method_result_brand<'a>(m: method::Reader<'a>) -> (r: Result<brand::Reader<'a>, capnp::Error>)
    ensures
        r == method_result_brand_of(m),
{
    m.get_result_brand()
}

/// What `method_result_brand` gives.
pub uninterp spec fn method_result_brand_of(m: method::Reader<'_>) -> Result<brand::Reader<'_>, capnp::Error>;

/// `field::Reader::get_name`.
#[verifier::external_body]
fn field_name<'a>(f: field::Reader<'a>) -> (r: Result<capnp::text::Reader<'a>, capnp::Error>)
    ensures
        r == field_name_of(f),
{
    f.get_name()
}

/// What `field_name` gives.
pub uninterp spec fn field_name_of(f: field::Reader<'_>) -> Result<capnp::text::Reader<'_>, capnp::Error>;

/// `field::Reader::get_discriminant_value`.
#[verifier::external_body]
fn field_discriminant_value(f: field::Reader<'_>) -> (r: u16)
    ensures
        r == field_discriminant_value_of(f),
{
    f.get_discriminant_value()
}

/// What `field_discriminant_value` gives.
pub uninterp spec fn field_discriminant_value_of(f: field::Reader<'_>) -> u16;

/// `field::Reader::which`: the field's union arm, or the unknown tag.
#[verifier::external_body]
fn field_which<'a>(f: field::Reader<'a>) -> (r: Result<FieldBody<'a>, u16>)
    ensures
        r == field_which_of(f),
{
    match f.which() {
        Ok(field::Slot(s)) => Ok(FieldBody::Slot(s)),
        Ok(field::Group(g)) => Ok(FieldBody::Group(g)),
        Err(capnp::NotInSchema(tag)) => Err(tag),
    }
}

/// What `field_which` gives.
pub uninterp spec fn field_which_of(f: field::Reader<'_>) -> Result<FieldBody<'_>, u16>;

/// `field::slot::Reader::get_offset`.
#[verifier::external_body]
fn slot_offset(s: field::slot::Reader<'_>) -> (r: u32)
    ensures
        r == slot_offset_of(s),
{
    s.get_offset()
}

/// What `slot_offset` gives.
pub uninterp spec fn slot_offset_of(s: field::slot::Reader<'_>) -> u32;

/// `field::slot::Reader::get_type`.
#[verifier::external_body]
fn slot_type<'a>(s: field::slot::Reader<'a>) -> (r: Result<type_::Reader<'a>, capnp::Error>)
    ensures
        r == slot_type_of(s),
{
    s.get_type()
}

/// What `slot_type` gives.
pub uninterp spec fn slot_type_of(s: field::slot::Reader<'_>) -> Result<type_::Reader<'_>, capnp::Error>;

/// `field::slot::Reader::get_had_explicit_default`.
#[verifier::external_body]
fn slot_had_explicit_default(s: field::slot::Reader<'_>) -> (r: bool)
    ensures
        r == slot_had_explicit_default_of(s),
{
    s.get_had_explicit_default()
}

/// What `slot_had_explicit_default` gives.
pub uninterp spec fn slot_had_explicit_default_of(s: field::slot::Reader<'_>) -> bool;

/// `field::slot::Reader::get_default_value`.
#[verifier::external_body]
fn slot_default_value<'a>(s: field::slot::Reader<'a>) -> (r: Result<value::Reader<'a>, capnp::Error>)
    ensures
        r == slot_default_value_of(s),
{
    s.get_default_value()
}

/// What `slot_default_value` gives.
pub uninterp spec fn slot_default_value_of(s: field::slot::Reader<'_>) -> Result<value::Reader<'_>, capnp::Error>;

/// `field::group::Reader::get_type_id`.
#[verifier::external_body]
fn group_type_id(g: field::group::Reader<'_>) -> (r: u64)
    ensures
        r == group_type_id_of(g),
{
    g.get_type_id()
}

/// What `group_type_id` gives.
pub uninterp spec fn group_type_id_of(g: field::group::Reader<'_>) -> u64;

/// `value::Reader::which`, the unknown tag for an error.
#[verifier::external_body]
fn value_which<'a>(v: value::Reader<'a>) -> (r: Result<value::WhichReader<'a>, u16>)
    ensures
        r == value_which_of(v),
{
    match v.which() {
        Ok(w) => Ok(w),
        Err(capnp::NotInSchema(tag)) => Err(tag),
    }
}

/// What `value_which` gives.
pub uninterp spec fn value_which_of(v: value::Reader<'_>) -> Result<value::WhichReader<'_>, u16>;

/// The default value held by the `bool`, `int8` to `int64`, `uint8` and
/// `uint16` arms of a value; `None` for the other arms.
#[verifier::external_body]
fn small_default(w: &value::WhichReader<'_>) -> (r: Option<DefaultValue>)
    ensures
        r == small_default_of(*w),
{
    match w {
        value::Bool(b) => Some(DefaultValue::Bool(*b)),
        value::Int8(x) => Some(DefaultValue::Int8(*x)),
        value::Int16(x) => Some(DefaultValue::Int16(*x)),
        value::Int32(x) => Some(DefaultValue::Int32(*x)),
        value::Int64(x) => Some(DefaultValue::Int64(*x)),
        value::Uint8(x) => Some(DefaultValue::UInt8(*x)),
        value::Uint16(x) => Some(DefaultValue::UInt16(*x)),
        _ => None,
    }
}

/// What `small_default` gives.
pub uninterp spec fn small_default_of(w: value::WhichReader<'_>) -> Option<DefaultValue>;

/// The default value held by the `uint32`, `uint64`, `float32`,
/// `float64` (by their IEEE-754 bits, `to_bits`) and `enum` arms of a
/// value; `None` for the other arms.
#[verifier::external_body]
fn wide_default(w: &value::WhichReader<'_>) -> (r: Option<DefaultValue>)
    ensures
        r == wide_default_of(*w),
{
    match w {
        value::Uint32(x) => Some(DefaultValue::UInt32(*x)),
        value::Uint64(x) => Some(DefaultValue::UInt64(*x)),
        value::Float32(x) => Some(DefaultValue::Float32(x.to_bits())),
        value::Float64(x) => Some(DefaultValue::Float64(x.to_bits())),
        value::Enum(x) => Some(DefaultValue::Enum(*x)),
        _ => None,
    }
}

/// What `wide_default` gives.
pub uninterp spec fn wide_default_of(w: value::WhichReader<'_>) -> Option<DefaultValue>;

/// `enumerant::Reader::get_name`.
#[verifier::external_body]
fn enumerant_name<'a>(e: enumerant::Reader<'a>) -> (r: Result<capnp::text::Reader<'a>, capnp::Error>)
    ensures
        r == enumerant_name_of(e),
{
    e.get_name()
}

/// What `enumerant_name` gives.
pub uninterp spec fn enumerant_name_of(e: enumerant::Reader<'_>) -> Result<capnp::text::Reader<'_>, capnp::Error>;

/// `enumerant::Reader::get_code_order`.
#[verifier::external_body]
fn enumerant_code_order(e: enumerant::Reader<'_>) -> (r: u16)
    ensures
        r == enumerant_code_order_of(e),
{
    e.get_code_order()
}

/// What `enumerant_code_order` gives.
pub uninterp spec fn enumerant_code_order_of(e: enumerant::Reader<'_>) -> u16;

/// `type_::Reader::which`, the unknown tag for an error.
#[verifier::external_body]
fn type_which<'a>(t: type_::Reader<'a>) -> (r: Result<type_::WhichReader<'a>, u16>)
    ensures
        r == type_which_of(t),
{
    match t.which() {
        Ok(w) => Ok(w),
        Err(capnp::NotInSchema(tag)) => Err(tag),
    }
}

/// What `type_which` gives.
pub uninterp spec fn type_which_of(t: type_::Reader<'_>) -> Result<type_::WhichReader<'_>, u16>;

/// The type of the `void`, `bool`, `text`, `data` and `int8` to `int32`
/// arms of a type; `None` for the other arms.
#[verifier::external_body]
fn small_scalar_type(w: &type_::WhichReader<'_>) -> (r: Option<Type>)
    ensures
        r == small_scalar_type_of(*w),
{
    match w {
        type_::Void(()) => Some(Type::Void),
        type_::Bool(()) => Some(Type::Bool),
        type_::Text(()) => Some(Type::Text),
        type_::Data(()) => Some(Type::Data),
        type_::Int8(()) => Some(Type::Int8),
        type_::Int16(()) => Some(Type::Int16),
        type_::Int32(()) => Some(Type::Int32),
        _ => None,
    }
}

/// What `small_scalar_type` gives.
pub uninterp spec fn small_scalar_type_of(w: type_::WhichReader<'_>) -> Option<Type>;

/// The type of the `int64`, `uint8` to `uint64` and float arms of a type;
/// `None` for the other arms.
#[verifier::external_body]
fn wide_scalar_type(w: &type_::WhichReader<'_>) -> (r: Option<Type>)
    ensures
        r == wide_scalar_type_of(*w),
{
    match w {
        type_::Int64(()) => Some(Type::Int64),
        type_::Uint8(()) => Some(Type::UInt8),
        type_::Uint16(()) => Some(Type::UInt16),
        type_::Uint32(()) => Some(Type::UInt32),
        type_::Uint64(()) => Some(Type::UInt64),
        type_::Float32(()) => Some(Type::Float32),
        type_::Float64(()) => Some(Type::Float64),
        _ => None,
    }
}

/// What `wide_scalar_type` gives.
pub uninterp spec fn wide_scalar_type_of(w: type_::WhichReader<'_>) -> Option<Type>;

/// The reader of the `list`, `enum`, `struct`, `interface` and
/// `anyPointer` arms of a type; `None` for the scalar arms.
#[verifier::external_body]
fn pointer_type_body<'a>(w: &type_::WhichReader<'a>) -> (r: Option<TypeBody<'a>>)
    ensures
        r == pointer_type_body_of(*w),
{
    match w {
        type_::List(l) => Some(TypeBody::List(*l)),
        type_::Enum(e) => Some(TypeBody::Enum(*e)),
        type_::Struct(s) => Some(TypeBody::Struct(*s)),
        type_::Interface(i) => Some(TypeBody::Interface(*i)),
        type_::AnyPointer(a) => Some(TypeBody::AnyPointer(*a)),
        _ => None,
    }
}

/// What `pointer_type_body` gives.
pub uninterp spec fn pointer_type_body_of(w: type_::WhichReader<'_>) -> Option<TypeBody<'_>>;

/// `type_::list::Reader::get_element_type`.
#[verifier::external_body]
fn list_element_type<'a>(l: type_::list::Reader<'a>) -> (r: Result<type_::Reader<'a>, capnp::Error>)
    ensures
        r == list_element_type_of(l),
{
    l.get_element_type()
}

/// What `list_element_type` gives.
pub uninterp spec fn list_element_type_of(l: type_::list::Reader<'_>) -> Result<type_::Reader<'_>, capnp::Error>;

/// `type_::struct_::Reader::get_type_id`.
#[verifier::external_body]
fn struct_type_id(s: type_::struct_::Reader<'_>) -> (r: u64)
    ensures
        r == struct_type_id_of(s),
{
    s.get_type_id()
}

/// What `struct_type_id` gives.
pub uninterp spec fn struct_type_id_of(s: type_::struct_::Reader<'_>) -> u64;

/// `type_::struct_::Reader::get_brand`.
#[verifier::external_body]
fn struct_type_brand<'a>(s: type_::struct_::Reader<'a>) -> (r: Result<brand::Reader<'a>, capnp::Error>)
    ensures
        r == struct_type_brand_of(s),
{
    s.get_brand()
}

/// What `struct_type_brand` gives.
pub uninterp spec fn struct_type_brand_of(s: type_::struct_::Reader<'_>) -> Result<brand::Reader<'_>, capnp::Error>;

/// `type_::enum_::Reader::get_type_id`.
#[verifier::external_body]
fn enum_type_id(e: type_::enum_::Reader<'_>) -> (r: u64)
    ensures
        r == enum_type_id_of(e),
{
    e.get_type_id()
}

/// What `enum_type_id` gives.
pub uninterp spec fn enum_type_id_of(e: type_::enum_::Reader<'_>) -> u64;

/// `type_::enum_::Reader::get_brand`.
#[verifier::external_body]
fn enum_type_brand<'a>(e: type_::enum_::Reader<'a>) -> (r: Result<brand::Reader<'a>, capnp::Error>)
    ensures
        r == enum_type_brand_of(e),
{
    e.get_brand()
}

/// What `enum_type_brand` gives.
pub uninterp spec fn enum_type_brand_of(e: type_::enum_::Reader<'_>) -> Result<brand::Reader<'_>, capnp::Error>;

/// `type_::interface::Reader::get_type_id`.
#[verifier::external_body]
fn interface_type_id(i: type_::interface::Reader<'_>) -> (r: u64)
    ensures
        r == interface_type_id_of(i),
{
    i.get_type_id()
}

/// What `interface_type_id` gives.
pub uninterp spec fn interface_type_id_of(i: type_::interface::Reader<'_>) -> u64;

/// `type_::interface::Reader::get_brand`.
#[verifier::external_body]
fn interface_type_brand<'a>(i: type_::interface::Reader<'a>) -> (r: Result<brand::Reader<'a>, capnp::Error>)
    ensures
        r == interface_type_brand_of(i),
{
    i.get_brand()
}

/// What `interface_type_brand` gives.
pub uninterp spec fn interface_type_brand_of(i: type_::interface::Reader<'_>) -> Result<brand::Reader<'_>, capnp::Error>;

/// `type_::any_pointer::Reader::which`: the arm, or the unknown tag.
#[verifier::external_body]
fn any_pointer_which<'a>(a: type_::any_pointer::Reader<'a>) -> (r: Result<AnyPointerBody<'a>, u16>)
    ensures
        r == any_pointer_which_of(a),
{
    match a.which() {
        Ok(type_::any_pointer::Unconstrained(_)) => Ok(AnyPointerBody::Unconstrained),
        Ok(type_::any_pointer::Parameter(p)) => Ok(AnyPointerBody::Parameter(p)),
        Ok(type_::any_pointer::ImplicitMethodParameter(p)) => Ok(AnyPointerBody::ImplicitMethodParameter(p)),
        Err(capnp::NotInSchema(tag)) => Err(tag),
    }
}

/// What `any_pointer_which` gives.
pub uninterp spec fn any_pointer_which_of(a: type_::any_pointer::Reader<'_>) -> Result<AnyPointerBody<'_>, u16>;

/// `type_::any_pointer::parameter::Reader::get_parameter_index`.
#[verifier::external_body]
fn parameter_index(p: type_::any_pointer::parameter::Reader<'_>) -> (r: u16)
    ensures
        r == parameter_index_of(p),
{
    p.get_parameter_index()
}

/// What `parameter_index` gives.
pub uninterp spec fn parameter_index_of(p: type_::any_pointer::parameter::Reader<'_>) -> u16;

/// `type_::any_pointer::implicit_method_parameter::Reader::get_parameter_index`.
#[verifier::external_body]
fn implicit_parameter_index(p: type_::any_pointer::implicit_method_parameter::Reader<'_>) -> (r: u16)
    ensures
        r == implicit_parameter_index_of(p),
{
    p.get_parameter_index()
}

/// What `implicit_parameter_index` gives.
pub uninterp spec fn implicit_parameter_index_of(p: type_::any_pointer::implicit_method_parameter::Reader<'_>) -> u16;

/// `brand::Reader::get_scopes`, the list's elements in order.
#[verifier::external_body]
fn brand_scopes<'a>(b: brand::Reader<'a>) -> (r: Result<Vec<brand::scope::Reader<'a>>, capnp::Error>)
    ensures
        r == brand_scopes_of(b),
{
    Ok(b.get_scopes()?.iter().collect())
}

/// What `brand_scopes` gives.
pub uninterp spec fn brand_scopes_of(b: brand::Reader<'_>) -> Result<Vec<brand::scope::Reader<'_>>, capnp::Error>;

/// `brand::scope::Reader::which`: the scope's arm (the bindings of a
/// `bind` arm in order), or the unknown tag.
#[verifier::external_body]
fn scope_which<'a>(s: brand::scope::Reader<'a>) -> (r: Result<ScopeBody<'a>, u16>)
    ensures
        r == scope_which_of(s),
{
    match s.which() {
        Ok(brand::scope::Bind(Ok(list))) => Ok(ScopeBody::Bind(Ok(list.iter().collect()))),
        Ok(brand::scope::Bind(Err(e))) => Ok(ScopeBody::Bind(Err(e))),
        Ok(brand::scope::Inherit(())) => Ok(ScopeBody::Inherit),
        Err(capnp::NotInSchema(tag)) => Err(tag),
    }
}

/// What `scope_which` gives.
pub uninterp spec fn scope_which_of(s: brand::scope::Reader<'_>) -> Result<ScopeBody<'_>, u16>;

/// `brand::binding::Reader::which`: the binding's arm, or the unknown tag.
#[verifier::external_body]
fn binding_which<'a>(b: brand::binding::Reader<'a>) -> (r: Result<BindingBody<'a>, u16>)
    ensures
        r == binding_which_of(b),
{
    match b.which() {
        Ok(brand::binding::Unbound(())) => Ok(BindingBody::Unbound),
        Ok(brand::binding::Type(t)) => Ok(BindingBody::Type(t)),
        Err(capnp::NotInSchema(tag)) => Err(tag),
    }
}

/// What `binding_which` gives.
pub uninterp spec fn binding_which_of(b: brand::binding::Reader<'_>) -> Result<BindingBody<'_>, u16>;

// ── Reading the request ───────────────────────────────────────────────

/// How deep types and brands nest before reading gives up. A reader with
/// the default options follows at most 64 nested pointers, and every level
/// of type or brand nesting lies behind at least one pointer, so a request
/// that the reader accepts never comes this deep.
pub const TYPE_NESTING_LIMIT: u32 = 64;

/// An error of reading the request, which is any error but running out
/// of steps in file resolution.
pub open spec fn is_read_error(e: SchemaError) -> bool {
    !(e is ResolutionTooLong)
}

// ── What reading gives ───────────────────────────────────────────────

/// The characters of a text read, when both the read and the UTF-8 check
/// succeed.
pub open spec fn text_read(t: Result<capnp::text::Reader<'_>, capnp::Error>) -> Option<Seq<char>> {
    match t {
        Ok(tr) => match text_to_string_of(tr) {
            Ok(s) => Some(s@),
            Err(_) => None,
        },
        Err(_) => None,
    }
}

/// `names` are the names of the parameters `ps`, in order.
pub open spec fn names_read(ps: Seq<node::parameter::Reader<'_>>, names: Seq<String>) -> bool {
    &&& names.len() == ps.len()
    &&& forall|i: int| 0 <= i < ps.len() ==> text_read(parameter_name_of(ps[i])) == Some((#[trigger] names[i])@)
}

/// Every parameter of `ps` has a readable name.
pub open spec fn names_readable(ps: Seq<node::parameter::Reader<'_>>) -> bool {
    forall|i: int| 0 <= i < ps.len() ==> (#[trigger] text_read(parameter_name_of(ps[i]))) is Some
}

/// `t` is the type read from `reader` with `depth` levels of nesting left.
pub open spec fn type_read(reader: type_::Reader<'_>, depth: nat, t: Type) -> bool
    decreases depth, 3nat,
{
    if depth == 0 {
        false
    } else {
        match type_which_of(reader) {
            Err(_) => false,
            Ok(w) => match small_scalar_type_of(w) {
                Some(x) => t == x,
                None => match wide_scalar_type_of(w) {
                    Some(x) => t == x,
                    None => match pointer_type_body_of(w) {
                        Some(TypeBody::List(l)) => match list_element_type_of(l) {
                            Ok(e) => t matches Type::List(inner) && type_read(e, (depth - 1) as nat, *inner),
                            Err(_) => false,
                        },
                        Some(TypeBody::Struct(st)) => match struct_type_brand_of(st) {
                            Ok(b) => t matches Type::StructRef(id, br) && id == struct_type_id_of(st) && brand_read(
                                b,
                                (depth - 1) as nat,
                                br,
                            ),
                            Err(_) => false,
                        },
                        Some(TypeBody::Enum(en)) => match enum_type_brand_of(en) {
                            Ok(b) => t matches Type::EnumRef(id, br) && id == enum_type_id_of(en) && brand_read(
                                b,
                                (depth - 1) as nat,
                                br,
                            ),
                            Err(_) => false,
                        },
                        Some(TypeBody::Interface(it)) => match interface_type_brand_of(it) {
                            Ok(b) => t matches Type::InterfaceRef(id, br) && id == interface_type_id_of(it) && brand_read(
                                b,
                                (depth - 1) as nat,
                                br,
                            ),
                            Err(_) => false,
                        },
                        Some(TypeBody::AnyPointer(a)) => match any_pointer_which_of(a) {
                            Ok(AnyPointerBody::Parameter(p)) => t == Type::GenericParam(parameter_index_of(p)),
                            Ok(AnyPointerBody::ImplicitMethodParameter(p)) => t == Type::GenericParam(
                                implicit_parameter_index_of(p),
                            ),
                            Ok(AnyPointerBody::Unconstrained) => t == Type::AnyPointer,
                            Err(_) => false,
                        },
                        None => false,
                    },
                },
            },
        }
    }
}

/// `b` is the brand read from `reader` with `depth` levels of nesting
/// left: its scopes, in order.
pub open spec fn brand_read(reader: brand::Reader<'_>, depth: nat, b: Brand) -> bool
    decreases depth, 2nat,
{
    if depth == 0 {
        false
    } else {
        match brand_scopes_of(reader) {
            Err(_) => false,
            Ok(scopes) => b.scopes@.len() == scopes@.len() && forall|i: int|
                0 <= i < scopes@.len() ==> scope_read(scopes@[i], depth, #[trigger] b.scopes@[i]),
        }
    }
}

/// `x` is the brand scope read from `s`: an inherited scope, or the
/// bindings of a bound one, in order.
pub open spec fn scope_read(s: brand::scope::Reader<'_>, depth: nat, x: BrandScope) -> bool
    decreases depth, 1nat,
{
    match scope_which_of(s) {
        Err(_) => false,
        Ok(ScopeBody::Inherit) => x is Inherit,
        Ok(ScopeBody::Bind(Err(_))) => false,
        Ok(ScopeBody::Bind(Ok(bs))) => x matches BrandScope::Bind(v) && v@.len() == bs@.len() && forall|j: int|
            0 <= j < bs@.len() ==> binding_read(bs@[j], depth, #[trigger] v@[j]),
    }
}

/// `x` is the binding read from `b`, a bound type read one level deeper.
pub open spec fn binding_read(b: brand::binding::Reader<'_>, depth: nat, x: Binding) -> bool
    decreases depth, 0nat,
{
    match binding_which_of(b) {
        Err(_) => false,
        Ok(BindingBody::Unbound) => x is Unbound,
        Ok(BindingBody::Type(Err(_))) => false,
        Ok(BindingBody::Type(Ok(t))) => depth > 0 && (x matches Binding::Type(tt) && type_read(t, (depth - 1) as nat, tt)),
    }
}

/// The written-out default of a slot: the value of a data-section arm;
/// `None` for a pointer or interface arm, or a value that cannot be read.
pub open spec fn default_read(slot: field::slot::Reader<'_>) -> Option<DefaultValue> {
    match slot_default_value_of(slot) {
        Err(_) => None,
        Ok(v) => match value_which_of(v) {
            Err(_) => None,
            Ok(w) => match small_default_of(w) {
                Some(d) => Some(d),
                None => wide_default_of(w),
            },
        },
    }
}

/// `f` is the field read from `reader`: its name and discriminant; for a
/// slot its offset, its type and its default when one was written out;
/// for a group offset 0, the group's struct with no brand, and no
/// default.
pub open spec fn field_read(reader: field::Reader<'_>, f: Field) -> bool {
    &&& text_read(field_name_of(reader)) == Some(f.name@)
    &&& f.discriminant == spec_discriminant(field_discriminant_value_of(reader))
    &&& match field_which_of(reader) {
        Err(_) => false,
        Ok(FieldBody::Slot(slot)) => {
            &&& f.offset == slot_offset_of(slot)
            &&& (slot_type_of(slot) matches Ok(t) && type_read(t, TYPE_NESTING_LIMIT as nat, f.typ))
            &&& f.default_value == if slot_had_explicit_default_of(slot) {
                default_read(slot)
            } else {
                None
            }
        },
        Ok(FieldBody::Group(g)) => {
            &&& f.offset == 0
            &&& f.typ matches Type::StructRef(id, br) && id == group_type_id_of(g) && br.scopes@.len() == 0
            &&& f.default_value is None
        },
    }
}

/// `e` is the enumerant read from `reader`.
pub open spec fn enumerant_read(reader: enumerant::Reader<'_>, e: Enumerator) -> bool {
    &&& text_read(enumerant_name_of(reader)) == Some(e.name@)
    &&& e.ordinal == enumerant_code_order_of(reader)
}

/// `x` is the method read from `m`: its name, ordinal and implicit
/// parameters, and its parameter and result structs with their brands.
pub open spec fn method_read(m: method::Reader<'_>, x: Method) -> bool {
    &&& text_read(method_name_of(m)) == Some(x.name@)
    &&& x.id == method_code_order_of(m)
    &&& (method_implicit_parameters_of(m) matches Ok(ps) && names_read(ps@, x.implicit_parameters@))
    &&& (method_param_brand_of(m) matches Ok(b) && x.param_type matches Type::StructRef(id, br) && id
        == method_param_struct_type_of(m) && brand_read(b, TYPE_NESTING_LIMIT as nat, br))
    &&& (method_result_brand_of(m) matches Ok(b) && x.result_type matches Type::StructRef(id, br) && id
        == method_result_struct_type_of(m) && brand_read(b, TYPE_NESTING_LIMIT as nat, br))
}

/// The parameter and result struct of each method, in order.
pub open spec fn method_struct_ids(ms: Seq<method::Reader<'_>>) -> Seq<u64> {
    Seq::new(
        2 * ms.len(),
        |t: int|
            if t % 2 == 0 {
                method_param_struct_type_of(ms[t / 2])
            } else {
                method_result_struct_type_of(ms[t / 2])
            },
    )
}

/// The ids a node lists before its nested nodes: the method structs of
/// an interface.
pub open spec fn leading_ids(reader: node::Reader<'_>) -> Seq<u64> {
    match node_which_of(reader) {
        Ok(NodeBody::Interface(it)) => match interface_methods_of(it) {
            Ok(ms) => method_struct_ids(ms@),
            Err(_) => Seq::empty(),
        },
        _ => Seq::empty(),
    }
}

/// The kind read from a node's union.
pub open spec fn kind_read(reader: node::Reader<'_>, k: NodeKind) -> bool {
    match node_which_of(reader) {
        Err(_) => false,
        Ok(NodeBody::File) => k is File,
        Ok(NodeBody::Const) => k is Const,
        Ok(NodeBody::Annotation) => k == NodeKind::Annotation(node_scope_id_of(reader), node_id_of(reader)),
        Ok(NodeBody::Struct(st)) => struct_fields_of(st) matches Ok(frs) && exists|all: Seq<Field>|
            all.len() == frs@.len() && (forall|i: int| 0 <= i < frs@.len() ==> field_read(frs@[i], #[trigger] all[i]))
                && #[trigger] struct_kind_is(
                k,
                struct_is_group_of(st),
                struct_data_word_count_of(st),
                struct_pointer_count_of(st),
                all,
                struct_discriminant_offset_of(st),
            ),
        Ok(NodeBody::Enum(en)) => enum_enumerants_of(en) matches Ok(ers) && k matches NodeKind::Enum(es) && es@.len()
            == ers@.len() && forall|i: int| 0 <= i < ers@.len() ==> enumerant_read(ers@[i], #[trigger] es@[i]),
        Ok(NodeBody::Interface(it)) => interface_methods_of(it) matches Ok(mrs) && k matches NodeKind::Interface(ms)
            && ms@.len() == mrs@.len() && forall|i: int| 0 <= i < mrs@.len() ==> method_read(mrs@[i], #[trigger] ms@[i]),
    }
}

/// `res` is the node read from `reader`, with the ids it lists as nested:
/// its id, its scope as parent, its name, generic parameters and kind;
/// no file and nothing nested in it yet.
pub open spec fn node_parsed(reader: node::Reader<'_>, res: ParseNodeResult) -> bool {
    let n = res.node;
    &&& n.id == node_id_of(reader)
    &&& n.parent_id == node_scope_id_of(reader)
    &&& n.file_id == 0
    &&& n.nested_nodes@.len() == 0
    &&& text_read(node_display_name_of(reader)) == Some(n.display_name@)
    &&& (node_parameters_of(reader) matches Ok(ps) && names_read(ps@, n.generic_params@))
    &&& kind_read(reader, n.kind)
    &&& (node_nested_nodes_of(reader) matches Ok(nns) && res.nested_node_ids@ == leading_ids(reader) + nns@.map_values(
        |x: node::nested_node::Reader<'_>| nested_node_id_of(x),
    ))
}

/// A node can be read.
pub open spec fn node_readable(reader: node::Reader<'_>) -> bool {
    exists|res: ParseNodeResult| node_parsed(reader, res)
}

/// `flat` is what recording the nodes read from `readers`, one by one
/// from nothing, gives.
pub open spec fn flat_read(readers: Seq<node::Reader<'_>>, flat: FlatNodes) -> bool {
    exists|states: Seq<FlatNodes>, parsed: Seq<ParseNodeResult>|
        #![trigger states.last(), parsed.len()]
        {
            &&& states.len() == readers.len() + 1
            &&& parsed.len() == readers.len()
            &&& states[0].nodes@ == Map::<u64, Node>::empty()
            &&& states[0].children@ == Map::<u64, Vec<u64>>::empty()
            &&& states[0].nested@ == Seq::<(u64, Vec<u64>)>::empty()
            &&& states.last() == flat
            &&& forall|i: int|
                0 <= i < readers.len() ==> node_parsed(readers[i], #[trigger] parsed[i]) && node_filed(
                    states[i],
                    parsed[i].node,
                    node_scope_id_of(readers[i]),
                    parsed[i].nested_node_ids,
                    states[i + 1],
                )
        }
}

/// `files` are the requested files read from `frs`: ids and names.
pub open spec fn files_read(frs: Seq<code_generator_request::requested_file::Reader<'_>>, files: Seq<RequestedFile>) -> bool {
    &&& files.len() == frs.len()
    &&& forall|i: int|
        0 <= i < frs.len() ==> (#[trigger] files[i]).id == requested_file_id_of(frs[i]) && text_read(
            requested_file_name_of(frs[i]),
        ) == Some(files[i].filename@)
}

/// Every requested file of `frs` has a readable name.
pub open spec fn files_readable(frs: Seq<code_generator_request::requested_file::Reader<'_>>) -> bool {
    forall|i: int| 0 <= i < frs.len() ==> (#[trigger] text_read(requested_file_name_of(frs[i]))) is Some
}

/// Everything the schema is read from can be read: the request, its node
/// list and every node, and its file list and every file's name.
pub open spec fn request_readable(m: &RequestMessage) -> bool {
    message_root_of(m) matches Ok(req) && (request_nodes_of(req) matches Ok(rs) && forall|i: int|
        0 <= i < rs@.len() ==> #[trigger] node_readable(rs@[i])) && (request_files_of(req) matches Ok(frs)
        && files_readable(frs@))
}

/// `s` is the schema read from the message: its requested files, and its
/// nodes assembled (see `schema_assembled`) from the nodes read.
pub open spec fn schema_read(m: &RequestMessage, s: ParsedSchema) -> bool {
    message_root_of(m) matches Ok(req) && (request_files_of(req) matches Ok(frs) && files_read(
        frs@,
        s.requested_files@,
    )) && (request_nodes_of(req) matches Ok(rs) && exists|flat: FlatNodes|
        #[trigger] flat_read(rs@, flat) && keyed_by_id(flat.nodes@) && all_structs_split(flat.nodes@) && schema_assembled(
            flat.nodes@,
            flat.children@,
            nested_pairs(flat.nested@),
            s.requested_files@,
            s.nodes@,
        ))
}

/// Reading fails over file resolution: everything is read, and file
/// resolution over the nodes read does not end.
pub open spec fn resolution_fails_for(m: &RequestMessage) -> bool {
    message_root_of(m) matches Ok(req) && (request_files_of(req) matches Ok(frs) && exists|files: Seq<RequestedFile>|
        #[trigger] files_read(frs@, files) && (request_nodes_of(req) matches Ok(rs) && exists|flat: FlatNodes|
            #[trigger] flat_read(rs@, flat) && resolution_fails(
                flat.nodes@,
                flat.children@,
                nested_pairs(flat.nested@),
                files,
            )))
}

/// A reader's error as a schema error.
fn lift<T>(r: Result<T, capnp::Error>) -> (out: Result<T, SchemaError>)
    ensures
        r is Ok <==> out is Ok,
        r matches Ok(v) ==> out matches Ok(w) && w == v,
        out matches Err(e) ==> e is Capnp,
{
    match r {
        Ok(v) => Ok(v),
        Err(e) => Err(SchemaError::Capnp(e)),
    }
}

/// A text of the message as a `String`.
fn read_text(t: Result<capnp::text::Reader<'_>, capnp::Error>) -> (r: Result<String, SchemaError>)
    ensures
        t is Err ==> r matches Err(SchemaError::Capnp(_)),
        r matches Err(e) ==> is_read_error(e),
        r is Ok <==> text_read(t) is Some,
        r matches Ok(s) ==> text_read(t) == Some(s@),
{
    match t {
        Ok(t) => match text_to_string(t) {
            Ok(s) => Ok(s),
            Err(_) => Err(SchemaError::InvalidUtf8),
        },
        Err(e) => Err(SchemaError::Capnp(e)),
    }
}

/// The names of a list of generic parameters, in order.
fn parameter_names(params: Vec<node::parameter::Reader<'_>>) -> (r: Result<Vec<String>, SchemaError>)
    ensures
        r matches Err(e) ==> is_read_error(e),
        r is Ok <==> names_readable(params@),
        r matches Ok(names) ==> names_read(params@, names@),
{
    let mut names: Vec<String> = Vec::new();
    let mut i: usize = 0;
    while i < params.len()
        invariant
            i <= params.len(),
            names.len() == i,
            forall|k: int| 0 <= k < i ==> text_read(parameter_name_of(params@[k])) == Some((#[trigger] names@[k])@),
        decreases params.len() - i,
    {
        let name = match read_text(parameter_name(params[i])) {
            Ok(n) => n,
            Err(e) => {
                assert(text_read(parameter_name_of(params@[i as int])) is None);
                return Err(e);
            },
        };
        names.push(name);
        i += 1;
    }
    proof {
        assert forall|k: int| 0 <= k < params@.len() implies (#[trigger] text_read(parameter_name_of(params@[k]))) is Some by {
            assert(text_read(parameter_name_of(params@[k])) == Some(names@[k]@));
        }
    }
    Ok(names)
}

fn parse_enumerant(reader: enumerant::Reader<'_>) -> (r: Result<Enumerator, SchemaError>)
    ensures
        r matches Err(e) ==> is_read_error(e),
        r is Ok <==> text_read(enumerant_name_of(reader)) is Some,
        r matches Ok(e) ==> enumerant_read(reader, e),
{
    let name = read_text(enumerant_name(reader))?;
    let ordinal = enumerant_code_order(reader);
    Ok(Enumerator { name, ordinal })
}

/// The default of a slot whose default was written out: the value of a
/// data-section arm; `None` for a pointer or interface arm, or a value
/// that cannot be read.
fn extract_default_value(slot: field::slot::Reader<'_>) -> (r: Option<DefaultValue>)
    ensures
        r == default_read(slot),
{
    match slot_default_value(slot) {
        Err(_) => None,
        Ok(v) => match value_which(v) {
            Err(_) => None,
            Ok(w) => match small_default(&w) {
                Some(d) => Some(d),
                None => wide_default(&w),
            },
        },
    }
}

/// Reads a brand: each scope either binds its parameters, in order, or
/// inherits them.
fn parse_brand(reader: brand::Reader<'_>, depth: u32) -> (r: Result<Brand, SchemaError>)
    ensures
        r matches Err(e) ==> is_read_error(e),
        depth == 0 ==> r matches Err(SchemaError::TooDeep),
        r matches Ok(b) ==> brand_read(reader, depth as nat, b),
        r is Err ==> forall|b: Brand| !brand_read(reader, depth as nat, b),
    decreases depth,
{
    if depth == 0 {
        return Err(SchemaError::TooDeep);
    }
    let ghost d = depth as nat;
    let scope_readers = match brand_scopes(reader) {
        Ok(v) => v,
        Err(e) => {
            return Err(SchemaError::Capnp(e));
        },
    };
    let mut scopes: Vec<BrandScope> = Vec::new();
    let mut i: usize = 0;
    while i < scope_readers.len()
        invariant
            i <= scope_readers.len(),
            depth > 0,
            d == depth as nat,
            brand_scopes_of(reader) == Ok::<Vec<brand::scope::Reader<'_>>, capnp::Error>(scope_readers),
            scopes@.len() == i,
            forall|k: int| 0 <= k < i ==> scope_read(scope_readers@[k], d, #[trigger] scopes@[k]),
        decreases scope_readers.len() - i,
    {
        let sr = scope_readers[i];
        let scope = match scope_which(sr) {
            Err(tag) => {
                proof {
                    lemma_brand_fails_at(reader, d, scope_readers@, i as int);
                }
                return Err(SchemaError::NotInSchema(tag));
            },
            Ok(ScopeBody::Inherit) => BrandScope::Inherit,
            Ok(ScopeBody::Bind(binding_readers)) => {
                let binding_readers = match binding_readers {
                    Ok(v) => v,
                    Err(e) => {
                        proof {
                            lemma_brand_fails_at(reader, d, scope_readers@, i as int);
                        }
                        return Err(SchemaError::Capnp(e));
                    },
                };
                let mut bindings: Vec<Binding> = Vec::new();
                let mut j: usize = 0;
                while j < binding_readers.len()
                    invariant
                        j <= binding_readers.len(),
                        depth > 0,
                        d == depth as nat,
                        brand_scopes_of(reader) == Ok::<Vec<brand::scope::Reader<'_>>, capnp::Error>(scope_readers),
                        i < scope_readers.len(),
                        sr == scope_readers@[i as int],
                        scope_which_of(sr) == Ok::<ScopeBody<'_>, u16>(ScopeBody::Bind(Ok(binding_readers))),
                        bindings@.len() == j,
                        forall|k: int| 0 <= k < j ==> binding_read(binding_readers@[k], d, #[trigger] bindings@[k]),
                    decreases binding_readers.len() - j,
                {
                    let br = binding_readers[j];
                    let binding = match binding_which(br) {
                        Err(tag) => {
                            proof {
                                lemma_scope_fails_at(sr, d, binding_readers@, j as int);
                                lemma_brand_fails_at(reader, d, scope_readers@, i as int);
                            }
                            return Err(SchemaError::NotInSchema(tag));
                        },
                        Ok(BindingBody::Unbound) => Binding::Unbound,
                        Ok(BindingBody::Type(t)) => {
                            let t = match t {
                                Ok(t) => t,
                                Err(e) => {
                                    proof {
                                        lemma_scope_fails_at(sr, d, binding_readers@, j as int);
                                        lemma_brand_fails_at(reader, d, scope_readers@, i as int);
                                    }
                                    return Err(SchemaError::Capnp(e));
                                },
                            };
                            match parse_type(t, depth - 1) {
                                Ok(typ) => Binding::Type(typ),
                                Err(e) => {
                                    proof {
                                        assert forall|x: Binding| !binding_read(br, d, x) by {
                                            if let Binding::Type(tt) = x {
                                                assert(!type_read(t, (d - 1) as nat, tt));
                                            }
                                        }
                                        lemma_scope_fails_at(sr, d, binding_readers@, j as int);
                                        lemma_brand_fails_at(reader, d, scope_readers@, i as int);
                                    }
                                    return Err(e);
                                },
                            }
                        },
                    };
                    bindings.push(binding);
                    j += 1;
                }
                BrandScope::Bind(bindings)
            },
        };
        scopes.push(scope);
        i += 1;
    }
    let b = Brand { scopes };
    assert(brand_read(reader, d, b));
    Ok(b)
}

proof fn lemma_scope_fails_at(s: brand::scope::Reader<'_>, d: nat, bs: Seq<brand::binding::Reader<'_>>, j: int)
    requires
        0 <= j < bs.len(),
        forall|x: Binding| !binding_read(bs[j], d, x),
        scope_which_of(s) matches Ok(ScopeBody::Bind(Ok(v))) && v@ == bs,
    ensures
        forall|x: BrandScope| !scope_read(s, d, x),
{
    assert forall|x: BrandScope| !scope_read(s, d, x) by {
        if scope_read(s, d, x) {
            if let BrandScope::Bind(v) = x {
                assert(binding_read(bs[j], d, v@[j]));
            }
        }
    }
}

proof fn lemma_brand_fails_at(reader: brand::Reader<'_>, d: nat, scopes: Seq<brand::scope::Reader<'_>>, i: int)
    requires
        0 <= i < scopes.len(),
        forall|x: BrandScope| !scope_read(scopes[i], d, x),
        brand_scopes_of(reader) matches Ok(v) && v@ == scopes,
    ensures
        forall|b: Brand| !brand_read(reader, d, b),
{
    assert forall|b: Brand| !brand_read(reader, d, b) by {
        if brand_read(reader, d, b) {
            assert(scope_read(scopes[i], d, b.scopes@[i]));
        }
    }
}

/// Reads a type. A generic parameter, of the enclosing scope or implicit
/// in a method, becomes its index; any other `AnyPointer` stays one.
fn parse_type(reader: type_::Reader<'_>, depth: u32) -> (r: Result<Type, SchemaError>)
    ensures
        r matches Err(e) ==> is_read_error(e),
        depth == 0 ==> r matches Err(SchemaError::TooDeep),
        r matches Ok(t) ==> type_read(reader, depth as nat, t),
        r is Err ==> forall|t: Type| !type_read(reader, depth as nat, t),
    decreases depth,
{
    if depth == 0 {
        return Err(SchemaError::TooDeep);
    }
    let w = match type_which(reader) {
        Ok(w) => w,
        Err(tag) => {
            return Err(SchemaError::NotInSchema(tag));
        },
    };
    if let Some(t) = small_scalar_type(&w) {
        return Ok(t);
    }
    if let Some(t) = wide_scalar_type(&w) {
        return Ok(t);
    }
    match pointer_type_body(&w) {
        Some(TypeBody::List(list)) => {
            let element = lift(list_element_type(list))?;
            match parse_type(element, depth - 1) {
                Ok(element_type) => Ok(Type::List(Box::new(element_type))),
                Err(e) => {
                    assert forall|t: Type| !type_read(reader, depth as nat, t) by {
                        if let Type::List(inner) = t {
                            assert(!type_read(element, (depth - 1) as nat, *inner));
                        }
                    }
                    Err(e)
                },
            }
        },
        Some(TypeBody::Struct(st)) => {
            let type_id = struct_type_id(st);
            let b = lift(struct_type_brand(st))?;
            match parse_brand(b, depth - 1) {
                Ok(brand) => Ok(Type::StructRef(type_id, brand)),
                Err(e) => {
                    assert forall|t: Type| !type_read(reader, depth as nat, t) by {
                        if let Type::StructRef(_, br) = t {
                            assert(!brand_read(b, (depth - 1) as nat, br));
                        }
                    }
                    Err(e)
                },
            }
        },
        Some(TypeBody::Enum(en)) => {
            let type_id = enum_type_id(en);
            let b = lift(enum_type_brand(en))?;
            match parse_brand(b, depth - 1) {
                Ok(brand) => Ok(Type::EnumRef(type_id, brand)),
                Err(e) => {
                    assert forall|t: Type| !type_read(reader, depth as nat, t) by {
                        if let Type::EnumRef(_, br) = t {
                            assert(!brand_read(b, (depth - 1) as nat, br));
                        }
                    }
                    Err(e)
                },
            }
        },
        Some(TypeBody::Interface(it)) => {
            let type_id = interface_type_id(it);
            let b = lift(interface_type_brand(it))?;
            match parse_brand(b, depth - 1) {
                Ok(brand) => Ok(Type::InterfaceRef(type_id, brand)),
                Err(e) => {
                    assert forall|t: Type| !type_read(reader, depth as nat, t) by {
                        if let Type::InterfaceRef(_, br) = t {
                            assert(!brand_read(b, (depth - 1) as nat, br));
                        }
                    }
                    Err(e)
                },
            }
        },
        Some(TypeBody::AnyPointer(a)) => match any_pointer_which(a) {
            Ok(AnyPointerBody::Parameter(p)) => Ok(Type::GenericParam(parameter_index(p))),
            Ok(AnyPointerBody::ImplicitMethodParameter(p)) => Ok(Type::GenericParam(implicit_parameter_index(p))),
            Ok(AnyPointerBody::Unconstrained) => Ok(Type::AnyPointer),
            Err(tag) => Err(SchemaError::NotInSchema(tag)),
        },
        None => Err(SchemaError::UnmatchedArm),
    }
}

/// Reads a field: a slot with its offset, type and written-out default,
/// or a group, which lies inline and refers to the group's struct.
fn parse_field(reader: field::Reader<'_>) -> (r: Result<Field, SchemaError>)
    ensures
        r matches Err(e) ==> is_read_error(e),
        r matches Ok(f) ==> f.discriminant != Some(0xFFFFu16),
        r matches Ok(f) ==> field_read(reader, f),
        r is Err ==> forall|f: Field| !field_read(reader, f),
{
    let name = read_text(field_name(reader))?;
    let discriminant = discriminant_from_raw(field_discriminant_value(reader));
    match field_which(reader) {
        Err(tag) => Err(SchemaError::NotInSchema(tag)),
        Ok(FieldBody::Slot(slot)) => {
            let offset = slot_offset(slot);
            let t = lift(slot_type(slot))?;
            let typ = match parse_type(t, TYPE_NESTING_LIMIT) {
                Ok(typ) => typ,
                Err(e) => {
                    assert forall|f: Field| !field_read(reader, f) by {
                        assert(!type_read(t, TYPE_NESTING_LIMIT as nat, f.typ));
                    }
                    return Err(e);
                },
            };
            let default_value = if slot_had_explicit_default(slot) {
                extract_default_value(slot)
            } else {
                None
            };
            Ok(Field { name, discriminant, typ, offset, default_value })
        },
        Ok(FieldBody::Group(group)) => {
            let type_id = group_type_id(group);
            Ok(Field {
                name,
                discriminant,
                typ: Type::StructRef(type_id, Brand { scopes: Vec::new() }),
                offset: 0,
                default_value: None,
            })
        },
    }
}

/// A node as read, with the ids of the nodes it lists as nested: first
/// the parameter and result struct of each of its methods, then its
/// nested nodes.
pub struct ParseNodeResult {
    pub node: Node,
    pub nested_node_ids: Vec<u64>,
}

/// The nested-node ids of a node begin with the parameter and result
/// struct of each of its methods, in order.
pub open spec fn method_structs_first(methods: Seq<Method>, ids: Seq<u64>) -> bool {
    &&& ids.len() >= 2 * methods.len()
    &&& forall|k: int|
        0 <= k < methods.len() ==> ((#[trigger] methods[k]).param_type matches Type::StructRef(p, _)
            && p == ids[2 * k]) && (methods[k].result_type matches Type::StructRef(q, _) && q == ids[2
            * k + 1])
}

/// What holds of every node read: nothing is nested in it yet and it has
/// no file; its struct fields are split; an annotation records its scope
/// and id; an interface lists its method structs first among its nested
/// ids.
pub open spec fn node_read(n: Node, nested_ids: Seq<u64>) -> bool {
    &&& n.nested_nodes@.len() == 0
    &&& n.file_id == 0
    &&& struct_fields_split(n.kind)
    &&& (n.kind matches NodeKind::Annotation(scope, own) ==> scope == n.parent_id && own == n.id)
    &&& (n.kind matches NodeKind::Interface(ms) ==> method_structs_first(ms@, nested_ids))
}

/// Reads one node of the request.
fn parse_node(reader: node::Reader<'_>) -> (r: Result<ParseNodeResult, SchemaError>)
    ensures
        r matches Err(e) ==> is_read_error(e),
        r matches Ok(res) ==> node_read(res.node, res.nested_node_ids@),
        r matches Ok(res) ==> node_parsed(reader, res),
        r is Err ==> !node_readable(reader),
{
    let id = node_id(reader);
    let scope_id = node_scope_id(reader);
    let display_name = read_text(node_display_name(reader))?;
    let mut nested_node_ids: Vec<u64> = Vec::new();
    let params = lift(node_parameters(reader))?;
    let generic_params = match parameter_names(params) {
        Ok(g) => g,
        Err(e) => {
            proof {
                assert forall|res: ParseNodeResult| !node_parsed(reader, res) by {
                    lemma_names_unreadable(params@, res.node.generic_params@);
                }
            }
            return Err(e);
        },
    };
    let kind = match node_which(reader) {
        Err(tag) => {
            return Err(SchemaError::NotInSchema(tag));
        },
        Ok(NodeBody::Struct(st)) => {
            let field_readers = lift(struct_fields(st))?;
            let mut all_fields: Vec<Field> = Vec::new();
            let mut i: usize = 0;
            while i < field_readers.len()
                invariant
                    i <= field_readers.len(),
                    node_which_of(reader) == Ok::<NodeBody<'_>, u16>(NodeBody::Struct(st)),
                    struct_fields_of(st) == Ok::<Vec<field::Reader<'_>>, capnp::Error>(field_readers),
                    all_fields@.len() == i,
                    forall|k: int| 0 <= k < i ==> field_read(field_readers@[k], #[trigger] all_fields@[k]),
                decreases field_readers.len() - i,
            {
                let f = match parse_field(field_readers[i]) {
                    Ok(f) => f,
                    Err(e) => {
                        proof {
                            assert forall|res: ParseNodeResult| !node_parsed(reader, res) by {
                                if node_parsed(reader, res) {
                                    let all = choose|all: Seq<Field>|
                                        all.len() == field_readers@.len() && (forall|k: int|
                                            0 <= k < field_readers@.len() ==> field_read(field_readers@[k], #[trigger] all[k]))
                                            && #[trigger] struct_kind_is(
                                            res.node.kind,
                                            struct_is_group_of(st),
                                            struct_data_word_count_of(st),
                                            struct_pointer_count_of(st),
                                            all,
                                            struct_discriminant_offset_of(st),
                                        );
                                    assert(field_read(field_readers@[i as int], all[i as int]));
                                }
                            }
                        }
                        return Err(e);
                    },
                };
                all_fields.push(f);
                i += 1;
            }
            let ghost all = all_fields@;
            let discriminant_offset = struct_discriminant_offset(st);
            let k = struct_kind(
                struct_is_group(st),
                struct_data_word_count(st),
                struct_pointer_count(st),
                all_fields,
                discriminant_offset,
            );
            assert(kind_read(reader, k));
            k
        },
        Ok(NodeBody::Enum(en)) => {
            let enumerant_readers = lift(enum_enumerants(en))?;
            let mut enumerants: Vec<Enumerator> = Vec::new();
            let mut i: usize = 0;
            while i < enumerant_readers.len()
                invariant
                    i <= enumerant_readers.len(),
                    node_which_of(reader) == Ok::<NodeBody<'_>, u16>(NodeBody::Enum(en)),
                    enum_enumerants_of(en) == Ok::<Vec<enumerant::Reader<'_>>, capnp::Error>(enumerant_readers),
                    enumerants@.len() == i,
                    forall|k: int| 0 <= k < i ==> enumerant_read(enumerant_readers@[k], #[trigger] enumerants@[k]),
                decreases enumerant_readers.len() - i,
            {
                let e = match parse_enumerant(enumerant_readers[i]) {
                    Ok(e) => e,
                    Err(err) => {
                        proof {
                            assert forall|res: ParseNodeResult| !node_parsed(reader, res) by {
                                if node_parsed(reader, res) {
                                    if let NodeKind::Enum(es) = res.node.kind {
                                        assert(enumerant_read(enumerant_readers@[i as int], es@[i as int]));
                                    }
                                }
                            }
                        }
                        return Err(err);
                    },
                };
                enumerants.push(e);
                i += 1;
            }
            NodeKind::Enum(enumerants)
        },
        Ok(NodeBody::Interface(iface)) => {
            let method_readers = lift(interface_methods(iface))?;
            let mut methods: Vec<Method> = Vec::new();
            let mut k: usize = 0;
            while k < method_readers.len()
                invariant
                    k <= method_readers.len(),
                    node_which_of(reader) == Ok::<NodeBody<'_>, u16>(NodeBody::Interface(iface)),
                    interface_methods_of(iface) == Ok::<Vec<method::Reader<'_>>, capnp::Error>(method_readers),
                    methods.len() == k,
                    nested_node_ids.len() == 2 * k,
                    method_structs_first(methods@, nested_node_ids@),
                    nested_node_ids@ == method_struct_ids(method_readers@.take(k as int)),
                    forall|q: int| 0 <= q < k ==> method_read(method_readers@[q], #[trigger] methods@[q]),
                decreases method_readers.len() - k,
            {
                let m = method_readers[k];
                let parsed = parse_method(m);
                let method = match parsed {
                    Ok(method) => method,
                    Err(e) => {
                        proof {
                            assert forall|res: ParseNodeResult| !node_parsed(reader, res) by {
                                if node_parsed(reader, res) {
                                    if let NodeKind::Interface(ms) = res.node.kind {
                                        assert(method_read(method_readers@[k as int], ms@[k as int]));
                                    }
                                }
                            }
                        }
                        return Err(e);
                    },
                };
                let param_type_id = method_param_struct_type(m);
                let result_type_id = method_result_struct_type(m);
                let ghost ids0 = nested_node_ids@;
                nested_node_ids.push(param_type_id);
                nested_node_ids.push(result_type_id);
                proof {
                    assert(method_struct_ids(method_readers@.take(k + 1)) =~= ids0.push(param_type_id).push(result_type_id)) by {
                        let a = method_struct_ids(method_readers@.take(k + 1));
                        let b = ids0.push(param_type_id).push(result_type_id);
                        assert forall|t: int| 0 <= t < a.len() implies a[t] == b[t] by {
                            assert(method_readers@.take(k + 1)[t / 2] == method_readers@[t / 2]);
                            if t < 2 * k {
                                assert(method_readers@.take(k as int)[t / 2] == method_readers@[t / 2]);
                            }
                        }
                    }
                }
                methods.push(method);
                k += 1;
            }
            assert(method_readers@.take(method_readers.len() as int) =~= method_readers@);
            NodeKind::Interface(methods)
        },
        Ok(NodeBody::Const) => NodeKind::Const,
        Ok(NodeBody::Annotation) => NodeKind::Annotation(scope_id, id),
        Ok(NodeBody::File) => NodeKind::File,
    };
    let nested_readers = lift(node_nested_nodes(reader))?;
    let ghost prefix = nested_node_ids@;
    assert(prefix == leading_ids(reader));
    let mut i: usize = 0;
    while i < nested_readers.len()
        invariant
            i <= nested_readers.len(),
            nested_node_ids@.len() == prefix.len() + i,
            nested_node_ids@.take(prefix.len() as int) == prefix,
            nested_node_ids@ == prefix + nested_readers@.take(i as int).map_values(
                |x: node::nested_node::Reader<'_>| nested_node_id_of(x),
            ),
        decreases nested_readers.len() - i,
    {
        let ghost before = nested_node_ids@;
        nested_node_ids.push(nested_node_id(nested_readers[i]));
        assert(nested_node_ids@.take(prefix.len() as int) =~= before.take(prefix.len() as int));
        assert(nested_readers@.take(i + 1).map_values(|x: node::nested_node::Reader<'_>| nested_node_id_of(x))
            =~= nested_readers@.take(i as int).map_values(|x: node::nested_node::Reader<'_>| nested_node_id_of(x)).push(
            nested_node_id_of(nested_readers@[i as int]),
        ));
        i += 1;
    }
    assert(nested_readers@.take(nested_readers.len() as int) =~= nested_readers@);
    let node = Node {
        id,
        display_name,
        kind,
        nested_nodes: Vec::new(),
        parent_id: scope_id,
        file_id: 0,
        generic_params,
    };
    proof {
        if let NodeKind::Interface(ms) = &node.kind {
            assert forall|k: int| 0 <= k < ms@.len() implies ((#[trigger] ms@[k]).param_type matches Type::StructRef(p, _)
                && p == nested_node_ids@[2 * k]) && (ms@[k].result_type matches Type::StructRef(q, _) && q == nested_node_ids@[2 * k + 1]) by {
                assert(nested_node_ids@.take(prefix.len() as int)[2 * k] == prefix[2 * k]);
                assert(nested_node_ids@.take(prefix.len() as int)[2 * k + 1] == prefix[2 * k + 1]);
            }
        }
    }
    let res = ParseNodeResult { node, nested_node_ids };
    assert(node_parsed(reader, res));
    Ok(res)
}

proof fn lemma_names_unreadable(ps: Seq<node::parameter::Reader<'_>>, names: Seq<String>)
    requires
        !names_readable(ps),
    ensures
        !names_read(ps, names),
{
    if names_read(ps, names) {
        assert forall|i: int| 0 <= i < ps.len() implies (#[trigger] text_read(parameter_name_of(ps[i]))) is Some by {
            assert(text_read(parameter_name_of(ps[i])) == Some(names[i]@));
        }
    }
}

/// Reads one method of an interface.
fn parse_method(m: method::Reader<'_>) -> (r: Result<Method, SchemaError>)
    ensures
        r matches Err(e) ==> is_read_error(e),
        r matches Ok(x) ==> method_read(m, x),
        r is Err ==> forall|x: Method| !method_read(m, x),
{
    let name = read_text(method_name(m))?;
    let ps = lift(method_implicit_parameters(m))?;
    let implicit_parameters = match parameter_names(ps) {
        Ok(v) => v,
        Err(e) => {
            proof {
                assert forall|x: Method| !method_read(m, x) by {
                    lemma_names_unreadable(ps@, x.implicit_parameters@);
                }
            }
            return Err(e);
        },
    };
    let param_type_id = method_param_struct_type(m);
    let result_type_id = method_result_struct_type(m);
    let pb = lift(method_param_brand(m))?;
    let param_brand = match parse_brand(pb, TYPE_NESTING_LIMIT) {
        Ok(b) => b,
        Err(e) => {
            proof {
                assert forall|x: Method| !method_read(m, x) by {
                    if let Type::StructRef(_, br) = x.param_type {
                        assert(!brand_read(pb, TYPE_NESTING_LIMIT as nat, br));
                    }
                }
            }
            return Err(e);
        },
    };
    let rb = lift(method_result_brand(m))?;
    let result_brand = match parse_brand(rb, TYPE_NESTING_LIMIT) {
        Ok(b) => b,
        Err(e) => {
            proof {
                assert forall|x: Method| !method_read(m, x) by {
                    if let Type::StructRef(_, br) = x.result_type {
                        assert(!brand_read(rb, TYPE_NESTING_LIMIT as nat, br));
                    }
                }
            }
            return Err(e);
        },
    };
    Ok(Method {
        id: method_code_order(m),
        name,
        implicit_parameters,
        param_type: Type::StructRef(param_type_id, param_brand),
        result_type: Type::StructRef(result_type_id, result_brand),
    })
}

/// Every struct among the nodes has its fields split.
pub open spec fn all_structs_split(nodes: Map<u64, Node>) -> bool {
    forall|k: u64| #[trigger] nodes.contains_key(k) ==> struct_fields_split(nodes[k].kind)
}

/// Reads every node of the request, in order, into the flat node list.
fn collect_flat_nodes(request: code_generator_request::Reader<'_>) -> (r: Result<FlatNodes, SchemaError>)
    ensures
        r matches Err(e) ==> is_read_error(e),
        r matches Ok(flat) ==> flat.wf() && all_structs_split(flat.nodes@),
        r matches Ok(flat) ==> request_nodes_of(request) matches Ok(rs) && flat_read(rs@, flat),
        r is Err ==> !(request_nodes_of(request) matches Ok(rs) && forall|i: int|
            0 <= i < rs@.len() ==> #[trigger] node_readable(rs@[i])),
{
    let node_readers = lift(request_nodes(request))?;
    let mut flat = FlatNodes::new();
    let ghost mut states: Seq<FlatNodes> = seq![flat];
    let ghost mut parsed_nodes: Seq<ParseNodeResult> = Seq::empty();
    let mut i: usize = 0;
    while i < node_readers.len()
        invariant
            i <= node_readers.len(),
            request_nodes_of(request) == Ok::<Vec<node::Reader<'_>>, capnp::Error>(node_readers),
            flat.wf(),
            all_structs_split(flat.nodes@),
            states.len() == i + 1,
            parsed_nodes.len() == i,
            states[0].nodes@ == Map::<u64, Node>::empty(),
            states[0].children@ == Map::<u64, Vec<u64>>::empty(),
            states[0].nested@ == Seq::<(u64, Vec<u64>)>::empty(),
            states.last() == flat,
            forall|k: int|
                0 <= k < i ==> node_parsed(node_readers@[k], #[trigger] parsed_nodes[k]) && node_filed(
                    states[k],
                    parsed_nodes[k].node,
                    node_scope_id_of(node_readers@[k]),
                    parsed_nodes[k].nested_node_ids,
                    states[k + 1],
                ),
        decreases node_readers.len() - i,
    {
        let reader = node_readers[i];
        let scope_id = node_scope_id(reader);
        let parsed = match parse_node(reader) {
            Ok(p) => p,
            Err(e) => {
                proof {
                    assert(!node_readable(node_readers@[i as int]));
                    if let Ok(rs) = request_nodes_of(request) {
                        assert(rs@[i as int] == node_readers@[i as int]);
                        assert(!node_readable(rs@[i as int]));
                    }
                }
                return Err(e);
            },
        };
        let ghost n = parsed.node;
        let ghost pn = parsed;
        let ghost before = flat.nodes@;
        let ghost flat0 = flat;
        flat.add_node(parsed.node, scope_id, parsed.nested_node_ids);
        proof {
            assert forall|k: u64| #[trigger] flat.nodes@.contains_key(k) implies struct_fields_split(flat.nodes@[k].kind) by {
                if k != n.id || n.kind is Annotation {
                    assert(before.contains_key(k));
                }
            }
            let s0 = states;
            let p0 = parsed_nodes;
            states = states.push(flat);
            parsed_nodes = parsed_nodes.push(pn);
            assert forall|k: int|
                0 <= k < i + 1 implies node_parsed(node_readers@[k], #[trigger] parsed_nodes[k]) && node_filed(
                    states[k],
                    parsed_nodes[k].node,
                    node_scope_id_of(node_readers@[k]),
                    parsed_nodes[k].nested_node_ids,
                    states[k + 1],
                ) by {
                if k < i {
                    assert(parsed_nodes[k] == p0[k]);
                    assert(states[k] == s0[k] && states[k + 1] == s0[k + 1]);
                } else {
                    assert(states[k] == flat0);
                }
            }
        }
        i += 1;
    }
    assert(flat_read(node_readers@, flat));
    Ok(flat)
}

/// Reads the files the request asks code for, in order.
fn collect_requested_files(request: code_generator_request::Reader<'_>) -> (r: Result<Vec<RequestedFile>, SchemaError>)
    ensures
        r matches Err(e) ==> is_read_error(e),
        r matches Ok(files) ==> request_files_of(request) matches Ok(frs) && files_read(frs@, files@),
        r is Err ==> !(request_files_of(request) matches Ok(frs) && files_readable(frs@)),
{
    let file_readers = lift(request_files(request))?;
    let mut requested_files: Vec<RequestedFile> = Vec::new();
    let mut i: usize = 0;
    while i < file_readers.len()
        invariant
            i <= file_readers.len(),
            request_files_of(request) == Ok::<
                Vec<code_generator_request::requested_file::Reader<'_>>,
                capnp::Error,
            >(file_readers),
            requested_files@.len() == i,
            forall|k: int|
                0 <= k < i ==> (#[trigger] requested_files@[k]).id == requested_file_id_of(file_readers@[k]) && text_read(
                    requested_file_name_of(file_readers@[k]),
                ) == Some(requested_files@[k].filename@),
        decreases file_readers.len() - i,
    {
        let id = requested_file_id(file_readers[i]);
        let filename = match read_text(requested_file_name(file_readers[i])) {
            Ok(f) => f,
            Err(e) => {
                assert(text_read(requested_file_name_of(file_readers@[i as int])) is None);
                return Err(e);
            },
        };
        requested_files.push(RequestedFile { id, filename });
        i += 1;
    }
    Ok(requested_files)
}

/// The schema of a `CodeGeneratorRequest` message: its nodes read one by
/// one, linked, resolved to their files, nested and filtered (see
/// `FlatNodes::into_schema`), and the requested files.
pub fn parse_schema(message: &RequestMessage) -> (r: Result<ParsedSchema, SchemaError>)
    ensures
        r matches Ok(s) ==> schema_read(message, s),
        r matches Err(e) ==> e is ResolutionTooLong || !request_readable(message),
        r matches Err(SchemaError::ResolutionTooLong) ==> resolution_fails_for(message),
{
    let request = lift(message.root())?;
    let flat = match collect_flat_nodes(request) {
        Ok(f) => f,
        Err(e) => {
            return Err(e);
        },
    };
    let requested_files = match collect_requested_files(request) {
        Ok(f) => f,
        Err(e) => {
            return Err(e);
        },
    };
    let ghost flat0 = flat;
    let ghost files = requested_files@;
    proof {
        let rs = request_nodes_of(request)->Ok_0;
        assert(flat_read(rs@, flat0));
        let frs = request_files_of(request)->Ok_0;
        assert(files_read(frs@, files));
    }
    match flat.into_schema(requested_files) {
        Some(schema) => {
            assert(schema_read(message, schema));
            Ok(schema)
        },
        None => {
            assert(resolution_fails_for(message));
            Err(SchemaError::ResolutionTooLong)
        },
    }
}

/// Reads a `CodeGeneratorRequest` message from its bytes and parses its
/// schema.
pub fn parse_request(bytes: &[u8]) -> (r: Result<ParsedSchema, SchemaError>)
    ensures
        r matches Ok(s) ==> exists|m: RequestMessage|
            read_segments_of(bytes@) == Some(#[trigger] message_segments(&m)) && schema_read(&m, s),
        r matches Err(e) ==> e is ResolutionTooLong || read_segments_of(bytes@) is None || exists|m: RequestMessage|
            read_segments_of(bytes@) == Some(#[trigger] message_segments(&m)) && !request_readable(&m),
        r matches Err(SchemaError::ResolutionTooLong) ==> exists|m: RequestMessage|
            read_segments_of(bytes@) == Some(#[trigger] message_segments(&m)) && resolution_fails_for(&m),
{
    let message = lift(RequestMessage::read(bytes))?;
    let r = parse_schema(&message);
    assert(read_segments_of(bytes@) == Some(message_segments(&message)));
    r
}

} // verus!
