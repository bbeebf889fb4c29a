# capnpc-elm

A Cap'n Proto schema to Elm code generator, run as a `capnp compile -oelm`
plugin. The library is written in Verus: what it computes is stated in
`requires` / `ensures` contracts and proved. What the `capnp` reader gives
back for a message (its segments, a node's id, a field's list, a text) is
taken on trust: each reader call has a name for its result, and the parsers
are proved against those names, so their contracts say which read values
end up where, not what the bytes of a message hold.

## Layout

- `src/schema_reader.rs` reads a `CodeGeneratorRequest` through the `capnp`
  crate, behind small trusted wrappers, and hands plain values to
  `src/capnproto.rs`, which splits fields, resolves files, nests the nodes
  and picks the roots (`parse_request`).
- `src/type_mapping.rs` indexes the nodes and maps schema types to Elm
  types; `src/binding.rs` turns nodes into Elm modules, marks the modules
  whose decoding needs the capability table, and appends the RPC schema's
  modules (`bind_to_elm`).
- `src/generics.rs` builds a module for each instantiation of a generic
  struct that the schema's types name (`Lookup(Json)` becomes
  `….Lookup.Of…Json`), with the parameters replaced by the bound types,
  and points the references at it.
- `src/elm.rs` is the Elm IR; `src/render.rs` derives what the templates
  are filled from (exports, sections, server data, merged bodies) and the
  files a context renders to, and writes them (`render_elm_to`);
  `src/symbols.rs` renames and strips the symbols of merged modules.
- `src/output.rs` holds the writer trait and the in-memory writer.
- `app/main.rs` is the plugin: stdin, loading `rpc.capnp` through the
  `capnp` tool, files on disk and `elm-format`.
