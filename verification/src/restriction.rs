//! Restrictions and their facets.

use crate::errors::{outcome, Error, ErrorView};
use crate::node::{lemma_before_end, lemma_elements_ends, lemma_elements_step, Node, NodeView};
use crate::text::same_text;
use vstd::prelude::*;

verus! {

/// One facet of a restriction, with its literal value.
#[derive(Debug, PartialEq)]
pub enum Restrictions {
    Enumeration(String),
    Pattern(String),
    Length(String),
    MinLength(String),
    MaxLength(String),
    MinInclusive(String),
    MaxInclusive(String),
    FractionDigits(String),
    TotalDigits(String),
}

/// The view of a [`Restrictions`]: the same parts, with sequences of characters for
/// strings and mathematical sequences for vectors.
pub enum RestrictionsView {
    Enumeration(Seq<char>),
    Pattern(Seq<char>),
    Length(Seq<char>),
    MinLength(Seq<char>),
    MaxLength(Seq<char>),
    MinInclusive(Seq<char>),
    MaxInclusive(Seq<char>),
    FractionDigits(Seq<char>),
    TotalDigits(Seq<char>),
}

impl View for Restrictions {
    type V = RestrictionsView;

    open spec fn view(&self) -> RestrictionsView {
        match *self {
            Restrictions::Enumeration(v) => RestrictionsView::Enumeration(v@),
            Restrictions::Pattern(v) => RestrictionsView::Pattern(v@),
            Restrictions::Length(v) => RestrictionsView::Length(v@),
            Restrictions::MinLength(v) => RestrictionsView::MinLength(v@),
            Restrictions::MaxLength(v) => RestrictionsView::MaxLength(v@),
            Restrictions::MinInclusive(v) => RestrictionsView::MinInclusive(v@),
            Restrictions::MaxInclusive(v) => RestrictionsView::MaxInclusive(v@),
            Restrictions::FractionDigits(v) => RestrictionsView::FractionDigits(v@),
            Restrictions::TotalDigits(v) => RestrictionsView::TotalDigits(v@),
        }
    }
}

/// A `restriction`: the type it restricts and its facets in document order.
#[derive(Debug, PartialEq)]
pub struct Restriction {
    pub base: String,
    pub restrictions: Vec<Restrictions>,
}

/// The view of a [`Restriction`]: the same parts, with sequences of characters for
/// strings and mathematical sequences for vectors.
pub struct RestrictionView {
    pub base: Seq<char>,
    pub restrictions: Seq<RestrictionsView>,
}

impl View for Restriction {
    type V = RestrictionView;

    open spec fn view(&self) -> RestrictionView {
        RestrictionView {
            base: self.base@,
            restrictions: self.restrictions@.map_values(|r: Restrictions| r@),
        }
    }
}

impl Restrictions {
    /// The facet with tag `tag` and value `value`; `None` where `tag` names no facet.
    pub open spec fn facet(tag: Seq<char>, value: Seq<char>) -> Option<RestrictionsView> {
        if tag == "enumeration"@ {
            Some(RestrictionsView::Enumeration(value))
        } else if tag == "pattern"@ {
            Some(RestrictionsView::Pattern(value))
        } else if tag == "length"@ {
            Some(RestrictionsView::Length(value))
        } else if tag == "minLength"@ {
            Some(RestrictionsView::MinLength(value))
        } else if tag == "maxLength"@ {
            Some(RestrictionsView::MaxLength(value))
        } else if tag == "minInclusive"@ {
            Some(RestrictionsView::MinInclusive(value))
        } else if tag == "maxInclusive"@ {
            Some(RestrictionsView::MaxInclusive(value))
        } else if tag == "fractionDigits"@ {
            Some(RestrictionsView::FractionDigits(value))
        } else if tag == "totalDigits"@ {
            Some(RestrictionsView::TotalDigits(value))
        } else {
            None
        }
    }

    /// What a child element of a restriction named `parent` stands for: a
    /// child whose tag names no facet is not handled, whatever else it
    /// holds; a facet without a `value` attribute lacks it.
    pub open spec fn spec_try_from(parent: Seq<char>, node: NodeView) -> Result<
        RestrictionsView,
        ErrorView,
    > {
        if !Restriction::handles(node.name) {
            Err(ErrorView::UnhandledTag { parent, tag: node.name })
        } else {
            match node.attribute("value"@) {
                None => Err(
                    ErrorView::MissingAttribute { tag: node.name, attribute: "value"@ },
                ),
                Some(value) => Ok(Restrictions::facet(node.name, value)->0),
            }
        }
    }

    /// Whether `tag` names a facet.
    fn is_facet(tag: &str) -> (r: bool)
        ensures
            r == Restriction::handles(tag@),
    {
        same_text(tag, "enumeration") || same_text(tag, "pattern") || same_text(tag, "length")
            || same_text(tag, "minLength") || same_text(tag, "maxLength") || same_text(
            tag,
            "minInclusive",
        ) || same_text(tag, "maxInclusive") || same_text(tag, "fractionDigits") || same_text(
            tag,
            "totalDigits",
        )
    }

    /// Builds the facet from a child element of a restriction whose tag is `parent`.
    pub fn try_from(parent: &str, node: &Node) -> (r: Result<Restrictions, Error>)
        ensures
            outcome(r) == Restrictions::spec_try_from(parent@, node@),
    {
        let tag = node.name.as_str();
        if !Restrictions::is_facet(tag) {
            return Err(Error::UnhandledTag { parent: parent.to_owned(), tag: node.name.clone() });
        }
        let value = match node.attribute("value") {
            Some(v) => v.to_owned(),
            None => {
                return Err(
                    Error::MissingAttribute {
                        tag: node.name.clone(),
                        attribute: "value".to_owned(),
                    },
                );
            },
        };
        if same_text(tag, "enumeration") {
            Ok(Restrictions::Enumeration(value))
        } else if same_text(tag, "pattern") {
            Ok(Restrictions::Pattern(value))
        } else if same_text(tag, "length") {
            Ok(Restrictions::Length(value))
        } else if same_text(tag, "minLength") {
            Ok(Restrictions::MinLength(value))
        } else if same_text(tag, "maxLength") {
            Ok(Restrictions::MaxLength(value))
        } else if same_text(tag, "minInclusive") {
            Ok(Restrictions::MinInclusive(value))
        } else if same_text(tag, "maxInclusive") {
            Ok(Restrictions::MaxInclusive(value))
        } else if same_text(tag, "fractionDigits") {
            Ok(Restrictions::FractionDigits(value))
        } else {
            Ok(Restrictions::TotalDigits(value))
        }
    }
}

impl Restriction {
    /// The restriction `acc` after the child element `child` of a node named
    /// `parent` has been added: a facet goes to the end of the list, and any
    /// other tag is not handled.
    pub open spec fn add(acc: RestrictionView, parent: Seq<char>, child: NodeView) -> Result<
        RestrictionView,
        ErrorView,
    > {
        match Restrictions::spec_try_from(parent, child) {
            Err(e) => Err(e),
            Ok(facet) => Ok(RestrictionView { restrictions: acc.restrictions.push(facet), ..acc }),
        }
    }

    /// The restriction `acc` after the children of `node` from position
    /// `from` on have been added in document order. Children that are not
    /// elements are passed over; the first child that cannot be added decides
    /// the error.
    pub open spec fn fill(acc: RestrictionView, node: NodeView, from: int) -> Result<
        RestrictionView,
        ErrorView,
    >
        decreases node.children.len() - from,
    {
        if from < 0 || from >= node.children.len() {
            Ok(acc)
        } else if !node.children[from].is_element() {
            Restriction::fill(acc, node, from + 1)
        } else {
            match Restriction::add(acc, node.name, node.children[from]) {
                Err(e) => Err(e),
                Ok(next) => Restriction::fill(next, node, from + 1),
            }
        }
    }

    /// The restriction that a `restriction` node stands for: its `base`
    /// attribute, which it must carry, and the facets among its children.
    pub open spec fn spec_try_from(node: NodeView) -> Result<RestrictionView, ErrorView> {
        match node.attribute("base"@) {
            None => Err(ErrorView::MissingAttribute { tag: node.name, attribute: "base"@ }),
            Some(base) => Restriction::fill(
                RestrictionView { base, restrictions: Seq::empty() },
                node,
                0,
            ),
        }
    }

    /// Whether a restriction handles a child element with this tag.
    pub open spec fn handles(tag: Seq<char>) -> bool {
        Restrictions::facet(tag, Seq::empty()) is Some
    }

    /// What the children before position `upto` make of `acc` is what the
    /// children from `upto` on are added to; where they fail, their error
    /// stands, whatever comes after them.
    pub proof fn lemma_fill_prefix(acc: RestrictionView, node: NodeView, from: int, upto: int)
        requires
            0 <= from <= upto <= node.children.len(),
        ensures
            Restriction::fill(acc, node, from) == match Restriction::fill(
                acc,
                node.before(upto),
                from,
            ) {
                Ok(built) => Restriction::fill(built, node, upto),
                Err(e) => Err(e),
            },
        decreases upto - from,
    {
        if from < upto {
            assert(node.before(upto).children[from] == node.children[from]);
            if !node.children[from].is_element() {
                Restriction::lemma_fill_prefix(acc, node, from + 1, upto);
            } else if let Ok(next) = Restriction::add(acc, node.name, node.children[from]) {
                Restriction::lemma_fill_prefix(next, node, from + 1, upto);
            }
        }
    }

    /// A child element whose tag a restriction does not handle ends the
    /// construction, where the children before it were added without error,
    /// with an error that names the node and the child.
    pub proof fn lemma_unhandled_child(node: NodeView, at: int)
        requires
            0 <= at < node.children.len(),
            node.children[at].is_element(),
            !Restriction::handles(node.children[at].name),
            Restriction::spec_try_from(node.before(at)) is Ok,
        ensures
            Restriction::spec_try_from(node) == Err::<RestrictionView, ErrorView>(
                ErrorView::UnhandledTag { parent: node.name, tag: node.children[at].name },
            ),
    {
        let start = RestrictionView {
            base: node.attribute("base"@)->0,
            restrictions: Seq::empty(),
        };
        Restriction::lemma_fill_prefix(start, node, 0, at);
    }

    /// What the restriction built from `node` holds: the base of the node,
    /// and the facets that its child elements stand for, in document order.
    pub open spec fn holds(built: RestrictionView, node: NodeView) -> bool {
        &&& Some(built.base) == node.attribute("base"@)
        &&& built.restrictions == node.elements().map_values(
            |c: NodeView| Restrictions::spec_try_from(node.name, c)->Ok_0,
        )
    }

    /// What is built from the children before position `upto` holds what
    /// those children stand for.
    proof fn lemma_holds_prefix(node: NodeView, upto: int)
        requires
            0 <= upto <= node.children.len(),
            Restriction::spec_try_from(node) is Ok,
        ensures
            Restriction::spec_try_from(node.before(upto)) matches Ok(built) && Restriction::holds(
                built,
                node.before(upto),
            ),
        decreases upto,
    {
        reveal_with_fuel(Restriction::fill, 2);
        let start = RestrictionView {
            base: node.attribute("base"@)->0,
            restrictions: Seq::empty(),
        };
        Restriction::lemma_fill_prefix(start, node, 0, upto);
        let head = node.before(upto);
        if upto == 0 {
            lemma_elements_ends(node);
            assert(start.restrictions =~= head.elements().map_values(
                |c: NodeView| Restrictions::spec_try_from(head.name, c)->Ok_0,
            ));
        } else {
            let shorter = node.before(upto - 1);
            Restriction::lemma_holds_prefix(node, upto - 1);
            assert(head.before(upto - 1) == shorter) by {
                assert(head.children.take(upto - 1) =~= node.children.take(upto - 1));
            }
            Restriction::lemma_fill_prefix(start, head, 0, upto - 1);
            lemma_elements_step(node, upto - 1);
            let built = Restriction::spec_try_from(head)->Ok_0;
            assert(built.restrictions =~= head.elements().map_values(
                |c: NodeView| Restrictions::spec_try_from(head.name, c)->Ok_0,
            ));
        }
    }

    /// Nothing is dropped and nothing is reordered: the restriction built
    /// from a node holds one facet for each child element, in document order.
    pub proof fn lemma_holds(node: NodeView)
        requires
            Restriction::spec_try_from(node) is Ok,
        ensures
            Restriction::holds(Restriction::spec_try_from(node)->Ok_0, node),
    {
        Restriction::lemma_holds_prefix(node, node.children.len() as int);
        lemma_before_end(node);
    }

    /// Builds the restriction from a `restriction` node.
    pub fn try_from(node: &Node) -> (r: Result<Restriction, Error>)
        ensures
            outcome(r) == Restriction::spec_try_from(node@),
            r matches Ok(built) ==> Restriction::holds(built@, node@),
    {
        let base = match node.attribute("base") {
            Some(b) => b.to_owned(),
            None => {
                return Err(
                    Error::MissingAttribute {
                        tag: node.name.clone(),
                        attribute: "base".to_owned(),
                    },
                );
            },
        };
        let mut restriction = Restriction { base, restrictions: Vec::new() };
        assert(restriction@.restrictions =~= Seq::empty());
        let mut i: usize = 0;
        while i < node.children.len()
            invariant
                i <= node.children.len(),
                node@.children.len() == node.children.len(),
                Restriction::fill(restriction@, node@, i as int) == Restriction::spec_try_from(
                    node@,
                ),
            decreases node.children.len() - i,
        {
            let child = &node.children[i];
            if child.is_element() {
                let ghost before = restriction@;
                let facet = Restrictions::try_from(node.name.as_str(), child)?;
                restriction.restrictions.push(facet);
                assert(restriction@.restrictions =~= before.restrictions.push(facet@));
            }
            i += 1;
        }
        proof {
            Restriction::lemma_holds(node@);
        }
        Ok(restriction)
    }
}

} // verus!
