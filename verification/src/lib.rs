use vstd::prelude::*;

pub mod binding;
pub mod capnproto;
pub mod elm;
pub mod generics;
pub mod naming;
pub mod output;
pub mod render;
pub mod schema_reader;
pub mod symbols;
pub mod text;
pub mod type_mapping;

verus! {

} // verus!
