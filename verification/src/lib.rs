//! Engine-independent logic of a V8-compatible embedding layer.

pub mod bytes;
pub mod code_cache;
pub mod handle_map;
pub mod import_host;
pub mod jsc;
pub mod object;
pub mod qjs;
pub mod scan;
pub mod scan_laws;
pub mod specifier;
pub mod status;
pub mod string;
pub mod table;
pub mod text;
pub mod text_laws;
pub mod utf8;
pub mod value;
