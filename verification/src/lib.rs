//! The logic of a code-review application, without its window, processes and
//! network: display rows of a diff and the cursor on them, what to ask `git` and
//! what to make of its answers, connections to remote shells, the protocol of a
//! language server, the event stream of an assistant, and the configuration.
pub mod text;
pub mod number;
pub mod bytes;
pub mod text_laws;
pub mod json;

pub mod rows;
pub mod row_laws;
pub mod review;
pub mod paint;
pub mod review_laws;

pub mod shell;
pub mod ssh;
pub mod git;
pub mod resolve;
pub mod resolve_laws;
pub mod remote;
pub mod base_refs;
pub mod list_laws;
pub mod patch;
pub mod patch_laws;
pub mod files;
pub mod remote_laws;

pub mod uri;
pub mod uri_laws;
pub mod rpc;
pub mod symbols;
pub mod symbol_laws;
pub mod lsp;
pub mod server_laws;

pub mod chat;
pub mod chat_laws;
pub mod config;
pub mod config_laws;
pub mod model_laws;
