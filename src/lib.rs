//! An in-memory document store driven by a small statement language.
//!
//! - `lexer`: source text to lines of tokens (`token`, `text`).
//! - `ast`: lines to a tree of statements and blocks, checked against the
//!   grammar of `grammar`.
//! - `query`: the tree applied to the `store` of templates and instances
//!   (`data`), with `error` for what can go wrong.
//! - `crypto`: the block cipher that protects the wire payload.
//! - `laws`: properties of the language and the store, proved over the
//!   models the contracts use.

pub mod ast;
pub mod crypto;
pub mod data;
pub mod error;
pub mod grammar;
pub mod laws;
pub mod lexer;
pub mod query;
pub mod store;
pub mod text;
pub mod token;
