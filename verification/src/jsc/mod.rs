//! The part of the layer that serves JavaScriptCore.

pub mod comment_laws;
pub mod comments;
pub mod default_export_laws;
pub mod dynamic_import;
pub mod evaluate;
pub mod evaluate_laws;
pub mod failure;
pub mod instantiate;
pub mod module;
pub mod module_laws;
pub mod object;
pub mod populate;
pub mod rewrite;
pub mod rewrite_laws;
pub mod rewrite_shapes;
pub mod script;
pub mod statement_laws;
pub mod statements;
pub mod string;
pub mod terminate;
pub mod top_level_await;
pub mod top_level_await_laws;
pub mod value;
pub mod wrap;
pub mod wrap_laws;
