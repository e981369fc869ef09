//! Flattening of structured Content-Security-Policy documents into the text of a
//! `Content-Security-Policy` header.
//!
//! A document maps directive names to source values. A value is a text, the
//! keyword `none`, or a group that puts a common prefix before the values below
//! it. [`compile`] reads such a document and gives the header text; [`load`],
//! [`flatten_csp`] and [`render`] are its steps.

pub mod copy;
pub mod decode;
pub mod flatten;
pub mod laws;
pub mod map;
pub mod model;
pub mod policy;
pub mod render;
pub mod text;
pub mod yaml;

pub use decode::{decode, DecodeError, ErrorKind, Step};
pub use flatten::{flatten_csp, flatten_values};
pub use model::{CspDirective, DirectiveMap, MaybeVec, CSP};
pub use policy::{compile, load};
pub use render::render;
pub use yaml::Yaml;
