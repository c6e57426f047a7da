//! Verified core of a language server for Debian packaging files: field-name
//! tables, detection of file kinds from their URIs, completion candidates,
//! hover texts, duplicate-entry diagnostics and the small pieces of text
//! scanning they rest on.

pub mod text;
pub mod order;
pub mod lsp;
pub mod actions;
pub mod changelog;
pub mod code_actions;
pub mod check;
pub mod control;
pub mod diagnostics;
pub mod document;
pub mod file_type;
pub mod formatting;
pub mod templates;
pub mod position;
pub mod settings;
pub mod substvars;
pub mod lintian_overrides;
pub mod debhelper;
pub mod patches_series;
pub mod tests_control;
pub mod workspace;

