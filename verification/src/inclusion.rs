//! The directive that brings in the declarations of another document of the
//! same namespace.

use crate::errors::{outcome, Error, ErrorView};
use crate::node::{Node, NodeView};
use crate::text::{owned, text_of};
use vstd::prelude::*;

verus! {

/// An `include` directive.
#[derive(Debug, PartialEq)]
pub struct Include {
    pub id: Option<String>,
    pub schema_location: Option<String>,
}

/// The view of an [`Include`]: the same parts, with sequences of characters for
/// strings and mathematical sequences for vectors.
pub struct IncludeView {
    pub id: Option<Seq<char>>,
    pub schema_location: Option<Seq<char>>,
}

impl View for Include {
    type V = IncludeView;

    open spec fn view(&self) -> IncludeView {
        IncludeView { id: text_of(self.id), schema_location: text_of(self.schema_location) }
    }
}

impl Include {
    /// The directive that an `include` node stands for; no node is refused.
    pub open spec fn spec_try_from(node: NodeView) -> Result<IncludeView, ErrorView> {
        Ok(
            IncludeView {
                id: node.attribute("id"@),
                schema_location: node.attribute("schemaLocation"@),
            },
        )
    }

    /// Builds the directive from an `include` node.
    pub fn try_from(node: &Node) -> (r: Result<Include, Error>)
        ensures
            outcome(r) == Include::spec_try_from(node@),
    {
        Ok(
            Include {
                id: owned(node.attribute("id")),
                schema_location: owned(node.attribute("schemaLocation")),
            },
        )
    }
}

} // verus!
