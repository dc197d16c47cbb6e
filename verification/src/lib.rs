//! A typed model of XML Schema documents.
//!
//! [`document::parse`] turns the text of a document into a tree of
//! [`node::Node`]s. The builders of the declaration types turn nodes into
//! declarations. [`parser::Parser`] walks whole documents, and the documents
//! that they import, into one flat list of top-level declarations.

pub mod complex_type;
pub mod document;
pub mod element;
pub mod errors;
pub mod import;
pub mod inclusion;
pub mod node;
pub mod parser;
pub mod restriction;
pub mod schema;
pub mod shared;
pub mod simple_type;
pub mod text;

pub use errors::Error;
pub use parser::{Elements, Parser};
