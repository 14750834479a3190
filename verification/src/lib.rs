//! Source analysis and rewriting engine for typed local variables.
//!
//! The crate parses a source text into a flat token tree, discovers typed
//! local-variable declarations together with their literal initial values,
//! splices freshly rendered literals back into the original text, and
//! performs textual-identity renames over the token tree.

pub mod discover;
pub mod front;
pub mod inject;
pub mod lit;
pub mod model;
pub mod rename;
pub mod text;
pub mod tokens;
pub mod unparse;
