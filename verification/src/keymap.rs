//! What keys do: tries of key bindings, looked up one key at a time.

pub mod infobox;
pub mod key;
pub mod lookup;
pub mod modal;
pub mod parse;
pub mod reverse;
pub mod trie;
pub mod vim;
