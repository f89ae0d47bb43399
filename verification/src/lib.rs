//! Raven: a parser that turns Markdown notes into typed, addressable
//! objects.
//!
//! A note is a Markdown file with an optional YAML frontmatter. The file is
//! an object; every heading in it starts an embedded object, which a
//! declaration `::type(id=..., ...)` on the next line gives a type, and which
//! is a section otherwise. Annotations `@trait(...)` and references
//! `[[target]]` belong to the object in whose lines they stand.
//!
//! [`document::parse_document`] is the entry point. Every function of the
//! library is verified against a contract over mathematical models: texts
//! are sequences of characters, field bags are maps, and each type has a
//! model as its view. What `pulldown-cmark`, `serde_yaml`, `slug` and
//! `chrono` compute is named in the contracts and not looked into.

pub mod coerce;
pub mod commands;
pub mod config;
pub mod document;
pub mod frontmatter;
pub mod hierarchy;
pub mod index;
pub mod markdown;
pub mod queries;
pub mod refs;
pub mod schema;
pub mod text;
pub mod traits;
pub mod type_decl;
pub mod validator;
pub mod value;
pub mod yaml;
