//! Requests to language servers and what becomes of their answers.

pub mod actions;
pub mod annotations;
pub mod diagnostics;
pub mod folding;
pub mod inline_values;
pub mod requests;
pub mod semantic;
pub mod task;
