//! Patching and filling of structs.
//!
//! A patch is a value that, applied onto a struct, replaces some of its
//! fields and leaves the others unchanged. This crate holds the traits that
//! patch types implement, the fine-grained list operations of list fields,
//! the runtime semantics of each kind of patch field, and the model of the
//! derive input from which patch types are generated.
pub mod traits;
pub mod list;
pub mod field;
pub mod patch;

pub use traits::{Catalyst, Complex, Filler, Merge, Patch, Status, Substrate};
