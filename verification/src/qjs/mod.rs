//! The part of the layer that serves QuickJS.

pub mod await_comment_laws;
pub mod backing_store;
pub mod bytecode;
pub mod call;
pub mod cells;
pub mod composition;
pub mod embedder_data;
pub mod evaluate;
pub mod export_lists;
pub mod imports;
pub mod isolate;
pub mod lexer;
pub mod lexer_laws;
pub mod module;
pub mod normalize_laws;
pub mod object;
pub mod object_laws;
pub mod passing;
pub mod platform;
pub mod reading_laws;
pub mod request;
pub mod request_laws;
pub mod resolve;
pub mod serializer;
pub mod source_phase;
pub mod source_phase_laws;
pub mod string;
pub mod template;
pub mod top_level_await;
pub mod top_level_await_laws;
pub mod value;
pub mod walk;
pub mod wrap;
