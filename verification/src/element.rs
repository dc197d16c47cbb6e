//! Element declarations.

use crate::errors::{outcome, Error, ErrorView};
use crate::node::{Node, NodeView};
use crate::shared::{optional, BlockDefault, Final, Occurrence};
use crate::text::{owned, same_text, text_of};
use vstd::prelude::*;

verus! {

/// The literal value that an element declaration supplies or prescribes.
#[derive(Debug, PartialEq)]
pub enum DefaultFixed {
    Default(String),
    Fixed(String),
}

/// The view of a [`DefaultFixed`]: the same parts, with sequences of characters for
/// strings and mathematical sequences for vectors.
pub enum DefaultFixedView {
    Default(Seq<char>),
    Fixed(Seq<char>),
}

impl View for DefaultFixed {
    type V = DefaultFixedView;

    open spec fn view(&self) -> DefaultFixedView {
        match *self {
            DefaultFixed::Default(s) => DefaultFixedView::Default(s@),
            DefaultFixed::Fixed(s) => DefaultFixedView::Fixed(s@),
        }
    }
}

/// An `element` declaration.
#[derive(Debug, Default, PartialEq)]
pub struct Element {
    pub abstract_: bool,
    pub block: Option<BlockDefault>,
    pub default_fixed: Option<DefaultFixed>,
    pub final_: Option<Final>,
    pub id: Option<String>,
    pub max_occurrences: Option<Occurrence>,
    pub min_occurrences: Option<Occurrence>,
    pub name: Option<String>,
    pub nillable: bool,
    pub substitution_group: Option<String>,
    pub type_: Option<String>,
}

/// The view of an [`Element`]: the same parts, with sequences of characters for
/// strings and mathematical sequences for vectors.
pub struct ElementView {
    pub abstract_: bool,
    pub block: Option<BlockDefault>,
    pub default_fixed: Option<DefaultFixedView>,
    pub final_: Option<Final>,
    pub id: Option<Seq<char>>,
    pub max_occurrences: Option<Occurrence>,
    pub min_occurrences: Option<Occurrence>,
    pub name: Option<Seq<char>>,
    pub nillable: bool,
    pub substitution_group: Option<Seq<char>>,
    pub type_: Option<Seq<char>>,
}

impl View for Element {
    type V = ElementView;

    open spec fn view(&self) -> ElementView {
        ElementView {
            abstract_: self.abstract_,
            block: self.block,
            default_fixed: match self.default_fixed {
                Some(d) => Some(d@),
                None => None,
            },
            final_: self.final_,
            id: text_of(self.id),
            max_occurrences: self.max_occurrences,
            min_occurrences: self.min_occurrences,
            name: text_of(self.name),
            nillable: self.nillable,
            substitution_group: text_of(self.substitution_group),
            type_: text_of(self.type_),
        }
    }
}

/// A flag attribute is set exactly when it is there and reads `true`.
pub open spec fn flag(value: Option<Seq<char>>) -> bool {
    value == Some("true"@)
}

/// A `fixed` attribute takes precedence over a `default` attribute.
pub open spec fn default_or_fixed(
    default: Option<Seq<char>>,
    fixed: Option<Seq<char>>,
) -> Option<DefaultFixedView> {
    match fixed {
        Some(f) => Some(DefaultFixedView::Fixed(f)),
        None => match default {
            Some(d) => Some(DefaultFixedView::Default(d)),
            None => None,
        },
    }
}

impl Element {
    /// The declaration that an `element` node stands for. Of the attributes
    /// that can be wrong, `block` is read first, then `final`, `maxOccurs`
    /// and `minOccurs`; the first wrong one decides the error. Children are
    /// not looked at.
    pub open spec fn spec_try_from(node: NodeView) -> Result<ElementView, ErrorView> {
        let block = optional(node.attribute("block"@), |s| BlockDefault::spec_parse(s));
        let final_ = optional(node.attribute("final"@), |s| Final::spec_parse(s));
        let max = optional(node.attribute("maxOccurs"@), |s| Occurrence::spec_parse(s));
        let min = optional(node.attribute("minOccurs"@), |s| Occurrence::spec_parse(s));
        match (block, final_, max, min) {
            (Err(e), _, _, _) => Err(e),
            (_, Err(e), _, _) => Err(e),
            (_, _, Err(e), _) => Err(e),
            (_, _, _, Err(e)) => Err(e),
            (Ok(block), Ok(final_), Ok(max), Ok(min)) => Ok(
                ElementView {
                    abstract_: flag(node.attribute("abstract"@)),
                    block,
                    default_fixed: default_or_fixed(
                        node.attribute("default"@),
                        node.attribute("fixed"@),
                    ),
                    final_,
                    id: node.attribute("id"@),
                    max_occurrences: max,
                    min_occurrences: min,
                    name: node.attribute("name"@),
                    nillable: flag(node.attribute("nillable"@)),
                    substitution_group: node.attribute("substitutionGroup"@),
                    type_: node.attribute("type"@),
                },
            ),
        }
    }

    /// Builds the declaration from an `element` node.
    pub fn try_from(node: &Node) -> (r: Result<Element, Error>)
        ensures
            outcome(r) == Element::spec_try_from(node@),
    {
        let abstract_ = match node.attribute("abstract") {
            Some(v) => same_text(v, "true"),
            None => false,
        };
        let block = match node.attribute("block") {
            Some(v) => Some(BlockDefault::parse(v)?),
            None => None,
        };
        let default_fixed = match node.attribute("fixed") {
            Some(f) => Some(DefaultFixed::Fixed(f.to_owned())),
            None => match node.attribute("default") {
                Some(d) => Some(DefaultFixed::Default(d.to_owned())),
                None => None,
            },
        };
        let final_ = match node.attribute("final") {
            Some(v) => Some(Final::parse(v)?),
            None => None,
        };
        let max_occurrences = match node.attribute("maxOccurs") {
            Some(v) => Some(Occurrence::parse(v)?),
            None => None,
        };
        let min_occurrences = match node.attribute("minOccurs") {
            Some(v) => Some(Occurrence::parse(v)?),
            None => None,
        };
        let nillable = match node.attribute("nillable") {
            Some(v) => same_text(v, "true"),
            None => false,
        };
        Ok(
            Element {
                abstract_,
                block,
                default_fixed,
                final_,
                id: owned(node.attribute("id")),
                max_occurrences,
                min_occurrences,
                name: owned(node.attribute("name")),
                nillable,
                substitution_group: owned(node.attribute("substitutionGroup")),
                type_: owned(node.attribute("type")),
            },
        )
    }
}

} // verus!
