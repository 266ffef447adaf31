# v8x

The logic of a layer that offers the interface of V8 on top of two other JavaScript engines,
JavaScriptCore and QuickJS. The engines parse, compile and run; this library decides what is asked of
them and what becomes of their answers. Values, modules and contexts of an engine are handles (`usize`,
zero for none), so that every decision is a function on plain values, with a contract that Verus proves.

## Layout

- `src/text.rs`, `src/utf8.rs`, `src/scan.rs`, `src/bytes.rs`, `src/table.rs`, `src/handle_map.rs`: texts,
  bytes and tables.
- `src/string.rs`, `src/value.rs`, `src/object.rs`, `src/status.rs`, `src/specifier.rs`,
  `src/code_cache.rs`, `src/import_host.rs`: what both engines share.
- `src/jsc/`: JavaScriptCore. Modules are rewritten to function bodies (`comments`, `comment_laws`,
  `statements`, `rewrite`, `dynamic_import`, `top_level_await`, `wrap`), then instantiated, linked and evaluated
  (`module`, `instantiate`, `populate`, `evaluate`). Beside them stand scripts, strings, values, objects
  and termination.
- `src/qjs/`: QuickJS. The imports of a module are found in its text (`lexer`, `request`, `imports`,
  `composition`, `export_lists`, `passing`, `source_phase`), and whether it awaits (`top_level_await`,
  `top_level_await_laws`). They are resolved (`resolve`, `walk`) and evaluated (`module`, `evaluate`).
  Beside them stand isolates, handles, templates, calls, backing stores, the serializer and more.
- `tests/`: the library on concrete values.
- `app/`: files, floating-point numbers, the loops in which an engine carries out what the library
  decides, and the entry points of the QuickJS side, which an embedder calls.

Public proof functions whose names begin with `law_` state what holds of the library as a whole.
