//! Merging of utility-class lists: later classes win over earlier ones that
//! style the same property in the same modifier context.
//!
//! A class list is read as class names separated by spaces. Each name is
//! taken apart into a modifier context and a base utility, and the base
//! utility is classified by the style properties that it sets. A name stays
//! in the merged list while it has the last word on one of its properties;
//! each property keeps the position at which it was first written.

pub mod text;
pub mod tokenizer;
pub mod tokenizer_proofs;
pub mod classifier;
pub mod stems;
pub mod options;
pub mod parser;
pub mod conflict;
pub mod resolver;
pub mod resolver_proofs;
pub mod serializer;
pub mod merge;
pub mod merge_proofs;

pub use crate::merge::{merge, merge_with};
pub use crate::options::{configure, ConfigurationError, MergeOptions};
