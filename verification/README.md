# proto_gen

Generates protobuf definitions (`.proto` files) from the C# type dump that
il2cpp tools write for a game client, and the Rust module tree that pulls in
the code `prost` generates from them. The logic is verified with Verus.

## Layout

- `src/syntax.rs`: the parse tree of a dump (`Pair`, `Rule`) and the errors
  met while reading it.
- `src/parser/`: reading the tree into classes, enums, fields, methods and
  properties (`ParsedFile::from_tree`, `ParsedFile::try_from_tree`).
- `src/protobuf/builders/`: turning a class that implements `IMessage` into a
  message (field numbers, accessors, repeated fields, maps, oneofs) and
  placing nested messages and enums in the messages that declare them.
- `src/protobuf/resolve.rs`: resolving each custom type name to its full
  path, choosing the closest package, and collecting the imports.
- `src/protobuf/package.rs` and `src/protobuf/package/`: the namespace
  filter, grouping by package, sorting, and the text of each `.proto` file
  (`ProtoPackages::from_parsed`, `ProtoPackages::try_from_parsed`).
- `src/modules.rs`: the module tree of the generated Rust code and its
  decode map (`ModuleNode`).
- `src/cli.rs`: the protocol names and the packet source of the capture
  tools.
- `src/decode.rs`: reading a captured hex stream, choosing the protocol
  decoder, and the text reporting what the decoder gave.
- `src/text.rs`, `src/names.rs`, `src/case.rs`, `src/vecs.rs`: strings,
  name-keyed maps, letter cases and vectors, each with its specification.
- `app/`: the command line program: arguments, reading the dump, the
  tokenizer that builds the parse tree, and writing the files.

The pest grammar in `app/dump.rs` was written anew from the parse trees the
readers in `src/parser/` expect; it is not verified. The decoding program,
its wasm entry point, the packet capture example and the protocol build
step (which runs `prost_build` and writes the module tree) are not part of
this crate: they rest on the code generated from the `.proto` files, which
is not here. Their decisions that work on plain values are in `src/decode.rs`,
`src/cli.rs` and `src/modules.rs`.

Calls into `regex`, `convert_case`, `phf_codegen` and a few `std` functions
go through small trusted wrappers whose contracts are stated in their doc
comments.
