//! A live content cache for a small content site: source documents are
//! compiled into pages, kept in an in-memory store, rebuilt while keeping the
//! identity of unchanged pages, and served with conditional-GET semantics.

pub mod codeblocks;
pub mod handler;
pub mod page;
pub mod render;
pub mod settings;
pub mod store;
pub mod text;
pub mod watcher;
