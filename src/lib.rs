//! A compile-time dependency registry: register directives bind a key to the
//! text of an expression, and resolve directives hand that text back for the
//! host to splice in place of the key.

pub mod text;
pub mod registry;
pub mod directive;
pub mod laws;

pub use directive::{inject, provide, DirectiveError};
pub use registry::Registry;
