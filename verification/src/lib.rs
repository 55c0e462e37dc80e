//! Parser for the Khronos OpenGL API registry (`gl.xml` and its siblings).
//!
//! The registry is read as a stream of XML events; the grammar over those
//! events, the selection of features and extensions, and the filtering of
//! enums and commands are specified and verified here.
//!
//! - `xml_events`: the events of a document, as the `xml-rs` reader yields them
//! - `text`: string helpers (prefix trimming, splitting, ordering)
//! - `api`: APIs, profiles and their name prefixes
//! - `registry`: the registry that parsing produces, and its string collections
//! - `parse`: the registry grammar and the parser
//! - `select`: choosing one API version, profile and set of extensions
//! - `laws`: properties that hold for every input
//! - `event_laws`: events that change nothing where they stand (comments,
//!   whitespace, `<type>` elements in features)
//! - `block_laws`: a `<remove>` block for another profile changes nothing
//! - `meaning_laws`: what removal, prefixes, supported APIs, parameters,
//!   block and enum reading and the version order are
pub mod text;
pub mod xml_events;
pub mod api;
pub mod registry;
pub mod parse;
pub mod select;
pub mod laws;
pub mod event_laws;
pub mod block_laws;
pub mod meaning_laws;

pub use api::{Api, Fallbacks, Profile};
pub use parse::{RegistryError, RegistryParser};
pub use registry::Registry;
pub use select::Filter;
