//! The directive that brings in the declarations of another namespace.

use crate::errors::{outcome, Error, ErrorView};
use crate::node::{Node, NodeView};
use crate::text::{owned, text_of};
use vstd::prelude::*;

verus! {

/// An `import` directive.
#[derive(Debug, PartialEq)]
pub struct Import {
    pub id: Option<String>,
    pub namespace: Option<String>,
    pub schema_location: Option<String>,
}

/// The view of an [`Import`]: the same parts, with sequences of characters for
/// strings and mathematical sequences for vectors.
pub struct ImportView {
    pub id: Option<Seq<char>>,
    pub namespace: Option<Seq<char>>,
    pub schema_location: Option<Seq<char>>,
}

impl View for Import {
    type V = ImportView;

    open spec fn view(&self) -> ImportView {
        ImportView {
            id: text_of(self.id),
            namespace: text_of(self.namespace),
            schema_location: text_of(self.schema_location),
        }
    }
}

impl Import {
    /// The directive that an `import` node stands for; no node is refused.
    pub open spec fn spec_try_from(node: NodeView) -> Result<ImportView, ErrorView> {
        Ok(
            ImportView {
                id: node.attribute("id"@),
                namespace: node.attribute("namespace"@),
                schema_location: node.attribute("schemaLocation"@),
            },
        )
    }

    /// Builds the directive from an `import` node.
    pub fn try_from(node: &Node) -> (r: Result<Import, Error>)
        ensures
            outcome(r) == Import::spec_try_from(node@),
    {
        Ok(
            Import {
                id: owned(node.attribute("id")),
                namespace: owned(node.attribute("namespace")),
                schema_location: owned(node.attribute("schemaLocation")),
            },
        )
    }
}

} // verus!
