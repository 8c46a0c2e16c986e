//! Reactions to editor events: what to request, when, and what to do with what comes back.

pub mod auto_reload;
pub mod auto_save;
pub mod blame;
pub mod completion;
pub mod debounce;
pub mod diagnostics;
pub mod document_colors;
pub mod local;
pub mod lsp_features;
pub mod pkg;
pub mod signature_help;
pub mod snippet;
pub mod workspace_trust;
