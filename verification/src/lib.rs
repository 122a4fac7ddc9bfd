//! A frontmatter document engine for static-site content trees.
//!
//! The crate parses text documents made of a structured metadata block
//! (frontmatter) followed by free-form body text, re-encodes them into one
//! canonical form, resolves a project's content layout, and classifies
//! content files into posts, pages and drafts.

pub mod assets;
pub mod binding;
pub mod classify;
pub mod document;
pub mod fmconfig;
pub mod hugoconfig;
pub mod layout;
pub mod mapping;
pub mod model;
pub mod parserx;
pub mod paths;
pub mod recent;
pub mod roundtrip;
pub mod scalars;
pub mod serializer;
pub mod slug;
pub mod text;
pub mod tomlish;
pub mod trusted;
