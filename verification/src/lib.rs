//! Compilation front-end for a small statically typed functional language.
//!
//! Source programs live in versioned projects whose modules hold source
//! files.  Starting from `main`, every reachable call site is compiled
//! on demand for the concrete argument types observed there, producing a
//! typed intermediate representation that is memoized in a function store.

pub mod id;
pub mod util;
pub mod value;
pub mod mir;
pub mod ast;
pub mod scope;
pub mod config;
pub mod modules;
pub mod project;
pub mod types;
pub mod store;
pub mod error;
pub mod typing;
pub mod compiler;
