//! A project-local context store: Markdown notes addressed by short keys.
//!
//! The library resolves keys to store paths, rejects paths that would leave
//! the store, and decides what each store operation does from what the caller
//! observed on disk. Reading and writing files is left to the caller.

mod text;

pub mod error;
pub mod resolve;
pub mod validate;
pub mod store;
pub mod laws;
