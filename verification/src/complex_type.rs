//! Complex types and what they are made of: attributes, wildcards, sequences,
//! choices, extensions and content.

use crate::element::{Element, ElementView};
use crate::errors::{outcome, Error, ErrorView};
use crate::node::{
    element_from, last_of, lemma_before_end, lemma_element_from_prefix, lemma_tagged_step, Node,
    NodeView,
};
use crate::restriction::{Restriction, RestrictionView};
use crate::shared::{optional, Occurrence};
use crate::text::{owned, same_text, text_of};
use std::str::FromStr;
use vstd::prelude::*;

verus! {

/// Whether an attribute may, must or must not appear.
#[derive(Debug, Clone, Copy, PartialEq, Eq, Structural)]
pub enum Usage {
    Optional,
    Prohibited,
    Required,
}

impl View for Usage {
    type V = Usage;

    open spec fn view(&self) -> Usage {
        *self
    }
}

impl Usage {
    /// `optional`, `prohibited` and `required` are the three tokens; nothing else is one.
    pub open spec fn spec_parse(s: Seq<char>) -> Result<Usage, ErrorView> {
        if s == "optional"@ {
            Ok(Usage::Optional)
        } else if s == "prohibited"@ {
            Ok(Usage::Prohibited)
        } else if s == "required"@ {
            Ok(Usage::Required)
        } else {
            Err(ErrorView::InvalidUse)
        }
    }

    /// Each token stands for its own variant, and nothing else is a token.
    pub proof fn lemma_tokens()
        ensures
            Usage::spec_parse("optional"@) matches Ok(Usage::Optional),
            Usage::spec_parse("prohibited"@) matches Ok(Usage::Prohibited),
            Usage::spec_parse("required"@) matches Ok(Usage::Required),
            forall|s: Seq<char>|
                s != "optional"@ && s != "prohibited"@ && s != "required"@
                    ==> #[trigger] Usage::spec_parse(s) matches Err(ErrorView::InvalidUse),
    {
        reveal_strlit("optional");
        reveal_strlit("prohibited");
        reveal_strlit("required");
        assert("optional"@[0] != "required"@[0]);
    }

    /// Reads the value of a `use` attribute.
    pub fn parse(s: &str) -> (r: Result<Usage, Error>)
        ensures
            outcome(r) == Usage::spec_parse(s@),
    {
        if same_text(s, "optional") {
            Ok(Usage::Optional)
        } else if same_text(s, "prohibited") {
            Ok(Usage::Prohibited)
        } else if same_text(s, "required") {
            Ok(Usage::Required)
        } else {
            Err(Error::InvalidUse)
        }
    }
}

impl FromStr for Usage {
    type Err = Error;

    fn from_str(s: &str) -> (r: Result<Usage, Error>)
        ensures
            outcome(r) == Usage::spec_parse(s@),
    {
        Usage::parse(s)
    }
}

impl Default for Usage {
    fn default() -> (r: Usage)
        ensures
            r == Usage::Optional,
    {
        Usage::Optional
    }
}

/// An `attribute` declaration.
#[derive(Debug, Default, PartialEq)]
pub struct Attribute {
    pub name: Option<String>,
    pub usage: Usage,
}

/// The view of an [`Attribute`]: the same parts, with sequences of characters for
/// strings and mathematical sequences for vectors.
pub struct AttributeView {
    pub name: Option<Seq<char>>,
    pub usage: Usage,
}

impl View for Attribute {
    type V = AttributeView;

    open spec fn view(&self) -> AttributeView {
        AttributeView { name: text_of(self.name), usage: self.usage }
    }
}

impl Attribute {
    /// The declaration that an `attribute` node stands for. A wrong `use`
    /// attribute is reported first; after that any child element at all is
    /// one that the node does not handle.
    pub open spec fn spec_try_from(node: NodeView) -> Result<AttributeView, ErrorView> {
        match optional(node.attribute("use"@), |s| Usage::spec_parse(s)) {
            Err(e) => Err(e),
            Ok(usage) => match node.first_element() {
                Some(child) => Err(ErrorView::UnhandledTag { parent: node.name, tag: child.name }),
                None => Ok(
                    AttributeView {
                        name: node.attribute("name"@),
                        usage: match usage {
                            Some(u) => u,
                            None => Usage::Optional,
                        },
                    },
                ),
            },
        }
    }

    /// An attribute handles no child element: one ends the construction,
    /// where the attribute up to it could be built, with an error that names
    /// the node and the child.
    pub proof fn lemma_unhandled_child(node: NodeView, at: int)
        requires
            0 <= at < node.children.len(),
            node.children[at].is_element(),
            Attribute::spec_try_from(node.before(at)) is Ok,
        ensures
            Attribute::spec_try_from(node) == Err::<AttributeView, ErrorView>(
                ErrorView::UnhandledTag { parent: node.name, tag: node.children[at].name },
            ),
    {
        lemma_element_from_prefix(node, 0, at);
    }

    /// Builds the declaration from an `attribute` node.
    pub fn try_from(node: &Node) -> (r: Result<Attribute, Error>)
        ensures
            outcome(r) == Attribute::spec_try_from(node@),
    {
        let usage = match node.attribute("use") {
            Some(v) => Usage::parse(v)?,
            None => Usage::Optional,
        };
        match node.first_element() {
            Some(child) => Err(
                Error::UnhandledTag { parent: node.name.clone(), tag: child.name.clone() },
            ),
            None => Ok(Attribute { name: owned(node.attribute("name")), usage }),
        }
    }
}

/// An `any` wildcard.
#[derive(Debug, Default, PartialEq)]
pub struct Any {
    pub min_occurrences: Option<Occurrence>,
    pub max_occurrences: Option<Occurrence>,
    pub namespace: Option<String>,
}

/// The view of an [`Any`]: the same parts, with sequences of characters for
/// strings and mathematical sequences for vectors.
pub struct AnyView {
    pub min_occurrences: Option<Occurrence>,
    pub max_occurrences: Option<Occurrence>,
    pub namespace: Option<Seq<char>>,
}

impl View for Any {
    type V = AnyView;

    open spec fn view(&self) -> AnyView {
        AnyView {
            min_occurrences: self.min_occurrences,
            max_occurrences: self.max_occurrences,
            namespace: text_of(self.namespace),
        }
    }
}

/// The occurrence bounds of a particle: `minOccurs` is read before
/// `maxOccurs`, and the first wrong one decides the error.
pub open spec fn spec_bounds(node: NodeView) -> Result<
    (Option<Occurrence>, Option<Occurrence>),
    ErrorView,
> {
    match optional(node.attribute("minOccurs"@), |s| Occurrence::spec_parse(s)) {
        Err(e) => Err(e),
        Ok(min) => match optional(node.attribute("maxOccurs"@), |s| Occurrence::spec_parse(s)) {
            Err(e) => Err(e),
            Ok(max) => Ok((min, max)),
        },
    }
}

/// Reads the occurrence bounds of a particle.
fn bounds(node: &Node) -> (r: Result<(Option<Occurrence>, Option<Occurrence>), Error>)
    ensures
        match r {
            Ok(b) => spec_bounds(node@) == Ok::<_, ErrorView>(b),
            Err(e) => spec_bounds(node@) == Err::<(Option<Occurrence>, Option<Occurrence>), _>(e@),
        },
{
    let min = match node.attribute("minOccurs") {
        Some(v) => Some(Occurrence::parse(v)?),
        None => None,
    };
    let max = match node.attribute("maxOccurs") {
        Some(v) => Some(Occurrence::parse(v)?),
        None => None,
    };
    Ok((min, max))
}

impl Any {
    /// The wildcard that an `any` node stands for.
    pub open spec fn spec_try_from(node: NodeView) -> Result<AnyView, ErrorView> {
        match spec_bounds(node) {
            Err(e) => Err(e),
            Ok((min, max)) => Ok(
                AnyView {
                    min_occurrences: min,
                    max_occurrences: max,
                    namespace: node.attribute("namespace"@),
                },
            ),
        }
    }

    /// Builds the wildcard from an `any` node.
    pub fn try_from(node: &Node) -> (r: Result<Any, Error>)
        ensures
            outcome(r) == Any::spec_try_from(node@),
    {
        let (min_occurrences, max_occurrences) = bounds(node)?;
        Ok(Any { min_occurrences, max_occurrences, namespace: owned(node.attribute("namespace")) })
    }
}

/// A `sequence` particle: its children of each kind in document order.
#[derive(Debug, Default, PartialEq)]
pub struct Sequence {
    pub min_occurrences: Option<Occurrence>,
    pub max_occurrences: Option<Occurrence>,
    pub elements: Vec<Element>,
    pub anys: Vec<Any>,
    pub choice: Option<Choice>,
    pub sequences: Vec<Sequence>,
}

/// A `choice` particle: its children of each kind in document order.
#[derive(Debug, Default, PartialEq)]
pub struct Choice {
    pub min_occurrences: Option<Occurrence>,
    pub max_occurrences: Option<Occurrence>,
    pub elements: Vec<Element>,
    pub any: Option<Any>,
    pub sequences: Vec<Sequence>,
}

/// The view of a [`Sequence`]: the same parts, with sequences of characters for
/// strings and mathematical sequences for vectors.
pub struct SequenceView {
    pub min_occurrences: Option<Occurrence>,
    pub max_occurrences: Option<Occurrence>,
    pub elements: Seq<ElementView>,
    pub anys: Seq<AnyView>,
    pub choice: Option<ChoiceView>,
    pub sequences: Seq<SequenceView>,
}

/// The view of a [`Choice`]: the same parts, with sequences of characters for
/// strings and mathematical sequences for vectors.
pub struct ChoiceView {
    pub min_occurrences: Option<Occurrence>,
    pub max_occurrences: Option<Occurrence>,
    pub elements: Seq<ElementView>,
    pub any: Option<AnyView>,
    pub sequences: Seq<SequenceView>,
}

/// The view of a sequence: the views of its parts, nested particles included.
pub open spec fn sequence_view(s: Sequence) -> SequenceView
    decreases s,
{
    SequenceView {
        min_occurrences: s.min_occurrences,
        max_occurrences: s.max_occurrences,
        elements: s.elements@.map_values(|e: Element| e@),
        anys: s.anys@.map_values(|a: Any| a@),
        choice: match s.choice {
            Some(c) => Some(choice_view(c)),
            None => None,
        },
        sequences: Seq::new(
            s.sequences@.len(),
            |i: int|
                if 0 <= i < s.sequences@.len() {
                    sequence_view(s.sequences@[i])
                } else {
                    arbitrary()
                },
        ),
    }
}

/// The view of a choice: the views of its parts, nested particles included.
pub open spec fn choice_view(c: Choice) -> ChoiceView
    decreases c,
{
    ChoiceView {
        min_occurrences: c.min_occurrences,
        max_occurrences: c.max_occurrences,
        elements: c.elements@.map_values(|e: Element| e@),
        any: match c.any {
            Some(a) => Some(a@),
            None => None,
        },
        sequences: Seq::new(
            c.sequences@.len(),
            |i: int|
                if 0 <= i < c.sequences@.len() {
                    sequence_view(c.sequences@[i])
                } else {
                    arbitrary()
                },
        ),
    }
}

impl View for Sequence {
    type V = SequenceView;

    open spec fn view(&self) -> SequenceView {
        sequence_view(*self)
    }
}

impl View for Choice {
    type V = ChoiceView;

    open spec fn view(&self) -> ChoiceView {
        choice_view(*self)
    }
}

impl Sequence {
    /// The sequence `acc` after the child element `child` of a node named
    /// `parent` has been added: an `element`, an `any` or a nested `sequence`
    /// goes to the end of its list, a `choice` takes the place of an earlier
    /// one, and any other tag is not handled.
    pub open spec fn add(acc: SequenceView, parent: Seq<char>, child: NodeView) -> Result<
        SequenceView,
        ErrorView,
    >
        decreases child, child.children.len() + 2,
    {
        if child.name == "element"@ {
            match Element::spec_try_from(child) {
                Err(e) => Err(e),
                Ok(element) => Ok(SequenceView { elements: acc.elements.push(element), ..acc }),
            }
        } else if child.name == "any"@ {
            match Any::spec_try_from(child) {
                Err(e) => Err(e),
                Ok(any) => Ok(SequenceView { anys: acc.anys.push(any), ..acc }),
            }
        } else if child.name == "choice"@ {
            match Choice::spec_try_from(child) {
                Err(e) => Err(e),
                Ok(choice) => Ok(SequenceView { choice: Some(choice), ..acc }),
            }
        } else if child.name == "sequence"@ {
            match Sequence::spec_try_from(child) {
                Err(e) => Err(e),
                Ok(sequence) => Ok(SequenceView { sequences: acc.sequences.push(sequence), ..acc }),
            }
        } else {
            Err(ErrorView::UnhandledTag { parent, tag: child.name })
        }
    }

    /// The sequence `acc` after the children of `node` from position `from`
    /// on have been added in document order. Children that are not elements
    /// are passed over; the first child that cannot be added decides the error.
    pub open spec fn fill(acc: SequenceView, node: NodeView, from: int) -> Result<
        SequenceView,
        ErrorView,
    >
        decreases node, node.children.len() - from,
    {
        if from < 0 || from >= node.children.len() {
            Ok(acc)
        } else if !node.children[from].is_element() {
            Sequence::fill(acc, node, from + 1)
        } else {
            match Sequence::add(acc, node.name, node.children[from]) {
                Err(e) => Err(e),
                Ok(next) => Sequence::fill(next, node, from + 1),
            }
        }
    }

    /// The particle that a `sequence` node stands for: its occurrence
    /// bounds, then its children.
    pub open spec fn spec_try_from(node: NodeView) -> Result<SequenceView, ErrorView>
        decreases node, node.children.len() + 1,
    {
        match spec_bounds(node) {
            Err(e) => Err(e),
            Ok((min, max)) => Sequence::fill(
                SequenceView {
                    min_occurrences: min,
                    max_occurrences: max,
                    elements: Seq::empty(),
                    anys: Seq::empty(),
                    choice: None,
                    sequences: Seq::empty(),
                },
                node,
                0,
            ),
        }
    }

    /// Whether a sequence handles a child element with this tag.
    pub open spec fn handles(tag: Seq<char>) -> bool {
        tag == "element"@ || tag == "any"@ || tag == "choice"@ || tag == "sequence"@
    }

    /// What the children before position `upto` make of `acc` is what the
    /// children from `upto` on are added to; where they fail, their error
    /// stands, whatever comes after them.
    pub proof fn lemma_fill_prefix(acc: SequenceView, node: NodeView, from: int, upto: int)
        requires
            0 <= from <= upto <= node.children.len(),
        ensures
            Sequence::fill(acc, node, from) == match Sequence::fill(acc, node.before(upto), from) {
                Ok(built) => Sequence::fill(built, node, upto),
                Err(e) => Err(e),
            },
        decreases upto - from,
    {
        if from < upto {
            assert(node.before(upto).children[from] == node.children[from]);
            if !node.children[from].is_element() {
                Sequence::lemma_fill_prefix(acc, node, from + 1, upto);
            } else if let Ok(next) = Sequence::add(acc, node.name, node.children[from]) {
                Sequence::lemma_fill_prefix(next, node, from + 1, upto);
            }
        }
    }

    /// A child element whose tag a sequence does not handle ends the
    /// construction, where the children before it were added without error,
    /// with an error that names the node and the child.
    pub proof fn lemma_unhandled_child(node: NodeView, at: int)
        requires
            0 <= at < node.children.len(),
            node.children[at].is_element(),
            !Sequence::handles(node.children[at].name),
            Sequence::spec_try_from(node.before(at)) is Ok,
        ensures
            Sequence::spec_try_from(node) == Err::<SequenceView, ErrorView>(
                ErrorView::UnhandledTag { parent: node.name, tag: node.children[at].name },
            ),
    {
        reveal_with_fuel(Sequence::fill, 2);
        let (min, max) = spec_bounds(node)->Ok_0;
        let start = SequenceView {
            min_occurrences: min,
            max_occurrences: max,
            elements: Seq::empty(),
            anys: Seq::empty(),
            choice: None,
            sequences: Seq::empty(),
        };
        Sequence::lemma_fill_prefix(start, node, 0, at);
    }

    /// What the sequence built from `node` holds: the occurrence bounds of the
    /// node; of each kind of child that it lists, what the children of that
    /// kind stand for, in document order; of the choices, what the last stands for.
    pub open spec fn holds(built: SequenceView, node: NodeView) -> bool {
        &&& spec_bounds(node) == Ok::<_, ErrorView>((built.min_occurrences, built.max_occurrences))
        &&& built.elements == node.tagged("element"@).map_values(
            |c: NodeView| Element::spec_try_from(c)->Ok_0,
        )
        &&& built.anys == node.tagged("any"@).map_values(|c: NodeView| Any::spec_try_from(c)->Ok_0)
        &&& built.sequences == node.tagged("sequence"@).map_values(
            |c: NodeView| Sequence::spec_try_from(c)->Ok_0,
        )
        &&& built.choice == last_of(
            node.tagged("choice"@),
            |c: NodeView| Choice::spec_try_from(c)->Ok_0,
        )
    }

    /// The tags that are told apart are different texts.
    proof fn lemma_tags_differ()
        ensures
            "element"@ != "any"@,
            "element"@ != "choice"@,
            "element"@ != "sequence"@,
            "any"@ != "choice"@,
            "any"@ != "sequence"@,
            "choice"@ != "sequence"@,
    {
        reveal_strlit("element");
        reveal_strlit("any");
        reveal_strlit("choice");
        reveal_strlit("sequence");
        assert("element"@.len() == 7);
        assert("any"@.len() == 3);
        assert("choice"@.len() == 6);
    }

    /// One more child keeps what is built in step with what the children
    /// stand for.
    proof fn lemma_holds_step(before: SequenceView, node: NodeView, upto: int)
        requires
            0 <= upto < node.children.len(),
            Sequence::holds(before, node.before(upto)),
        ensures
            !node.children[upto].is_element() ==> Sequence::holds(before, node.before(upto + 1)),
            node.children[upto].is_element() ==> (Sequence::add(
                before,
                node.name,
                node.children[upto],
            ) matches Ok(next) ==> Sequence::holds(next, node.before(upto + 1))),
    {
        Sequence::lemma_tags_differ();
        lemma_tagged_step(node, "element"@, upto);
        lemma_tagged_step(node, "any"@, upto);
        lemma_tagged_step(node, "choice"@, upto);
        lemma_tagged_step(node, "sequence"@, upto);
        let child = node.children[upto];
        let longer = node.before(upto + 1);
        if child.is_element() {
            if let Ok(next) = Sequence::add(before, node.name, child) {
                if child.name == "element"@ {
                    assert(next.elements =~= longer.tagged("element"@).map_values(
                        |c: NodeView| Element::spec_try_from(c)->Ok_0,
                    ));
                } else if child.name == "any"@ {
                    assert(next.anys =~= longer.tagged("any"@).map_values(
                        |c: NodeView| Any::spec_try_from(c)->Ok_0,
                    ));
                } else if child.name == "sequence"@ {
                    assert(next.sequences =~= longer.tagged("sequence"@).map_values(
                        |c: NodeView| Sequence::spec_try_from(c)->Ok_0,
                    ));
                }
            }
        }
    }

    /// What is built from the children before position `upto` holds what
    /// those children stand for.
    proof fn lemma_holds_prefix(node: NodeView, upto: int)
        requires
            0 <= upto <= node.children.len(),
            Sequence::spec_try_from(node) is Ok,
        ensures
            Sequence::spec_try_from(node.before(upto)) matches Ok(built) && Sequence::holds(
                built,
                node.before(upto),
            ),
        decreases upto,
    {
        reveal_with_fuel(Sequence::fill, 2);
        let (min, max) = spec_bounds(node)->Ok_0;
        let start = SequenceView {
            min_occurrences: min,
            max_occurrences: max,
            elements: Seq::empty(),
            anys: Seq::empty(),
            choice: None,
            sequences: Seq::empty(),
        };
        Sequence::lemma_fill_prefix(start, node, 0, upto);
        let head = node.before(upto);
        if upto == 0 {
            assert(start.elements =~= head.tagged("element"@).map_values(
                |c: NodeView| Element::spec_try_from(c)->Ok_0,
            ));
            assert(start.anys =~= head.tagged("any"@).map_values(
                |c: NodeView| Any::spec_try_from(c)->Ok_0,
            ));
            assert(start.sequences =~= head.tagged("sequence"@).map_values(
                |c: NodeView| Sequence::spec_try_from(c)->Ok_0,
            ));
        } else {
            let shorter = node.before(upto - 1);
            Sequence::lemma_holds_prefix(node, upto - 1);
            assert(head.before(upto - 1) == shorter) by {
                assert(head.children.take(upto - 1) =~= node.children.take(upto - 1));
            }
            Sequence::lemma_fill_prefix(start, head, 0, upto - 1);
            Sequence::lemma_holds_step(Sequence::spec_try_from(shorter)->Ok_0, node, upto - 1);
        }
    }

    /// Nothing is dropped and nothing is reordered: the sequence built from
    /// a node holds exactly what its children stand for, kind by kind and in
    /// document order.
    pub proof fn lemma_holds(node: NodeView)
        requires
            Sequence::spec_try_from(node) is Ok,
        ensures
            Sequence::holds(Sequence::spec_try_from(node)->Ok_0, node),
    {
        Sequence::lemma_holds_prefix(node, node.children.len() as int);
        lemma_before_end(node);
    }

    /// Builds the particle from a `sequence` node.
    pub fn try_from(node: &Node) -> (r: Result<Sequence, Error>)
        ensures
            outcome(r) == Sequence::spec_try_from(node@),
            r matches Ok(built) ==> Sequence::holds(built@, node@),
        decreases node,
    {
        let (min_occurrences, max_occurrences) = bounds(node)?;
        let mut sequence = Sequence {
            min_occurrences,
            max_occurrences,
            elements: Vec::new(),
            anys: Vec::new(),
            choice: None,
            sequences: Vec::new(),
        };
        assert(sequence@.elements =~= Seq::empty());
        assert(sequence@.anys =~= Seq::empty());
        assert(sequence@.sequences =~= Seq::empty());
        let mut i: usize = 0;
        while i < node.children.len()
            invariant
                i <= node.children.len(),
                node@.children.len() == node.children.len(),
                Sequence::fill(sequence@, node@, i as int) == Sequence::spec_try_from(node@),
            decreases node.children.len() - i,
        {
            let child = &node.children[i];
            proof {
                reveal_with_fuel(Sequence::fill, 2);
            }
            if child.is_element() {
                let ghost before = sequence@;
                let tag = child.name.as_str();
                if same_text(tag, "element") {
                    let element = Element::try_from(child)?;
                    sequence.elements.push(element);
                    assert(sequence@.elements =~= before.elements.push(element@));
                } else if same_text(tag, "any") {
                    let any = Any::try_from(child)?;
                    sequence.anys.push(any);
                    assert(sequence@.anys =~= before.anys.push(any@));
                } else if same_text(tag, "choice") {
                    let choice = Choice::try_from(child)?;
                    sequence.choice = Some(choice);
                } else if same_text(tag, "sequence") {
                    let nested = Sequence::try_from(child)?;
                    sequence.sequences.push(nested);
                    assert(sequence@.sequences =~= before.sequences.push(nested@));
                } else {
                    return Err(
                        Error::UnhandledTag { parent: node.name.clone(), tag: child.name.clone() },
                    );
                }
            }
            i += 1;
        }
        proof {
            Sequence::lemma_holds(node@);
        }
        Ok(sequence)
    }
}

impl Choice {
    /// The choice `acc` after the child element `child` of a node named
    /// `parent` has been added: an `element` or a `sequence` goes to the end
    /// of its list, an `any` takes the place of an earlier one, and any other
    /// tag, that of a nested `choice` too, is not handled.
    pub open spec fn add(acc: ChoiceView, parent: Seq<char>, child: NodeView) -> Result<
        ChoiceView,
        ErrorView,
    >
        decreases child, child.children.len() + 2,
    {
        if child.name == "element"@ {
            match Element::spec_try_from(child) {
                Err(e) => Err(e),
                Ok(element) => Ok(ChoiceView { elements: acc.elements.push(element), ..acc }),
            }
        } else if child.name == "any"@ {
            match Any::spec_try_from(child) {
                Err(e) => Err(e),
                Ok(any) => Ok(ChoiceView { any: Some(any), ..acc }),
            }
        } else if child.name == "sequence"@ {
            match Sequence::spec_try_from(child) {
                Err(e) => Err(e),
                Ok(sequence) => Ok(ChoiceView { sequences: acc.sequences.push(sequence), ..acc }),
            }
        } else {
            Err(ErrorView::UnhandledTag { parent, tag: child.name })
        }
    }

    /// The choice `acc` after the children of `node` from position `from` on
    /// have been added in document order. Children that are not elements are
    /// passed over; the first child that cannot be added decides the error.
    pub open spec fn fill(acc: ChoiceView, node: NodeView, from: int) -> Result<
        ChoiceView,
        ErrorView,
    >
        decreases node, node.children.len() - from,
    {
        if from < 0 || from >= node.children.len() {
            Ok(acc)
        } else if !node.children[from].is_element() {
            Choice::fill(acc, node, from + 1)
        } else {
            match Choice::add(acc, node.name, node.children[from]) {
                Err(e) => Err(e),
                Ok(next) => Choice::fill(next, node, from + 1),
            }
        }
    }

    /// The particle that a `choice` node stands for: its occurrence bounds,
    /// then its children.
    pub open spec fn spec_try_from(node: NodeView) -> Result<ChoiceView, ErrorView>
        decreases node, node.children.len() + 1,
    {
        match spec_bounds(node) {
            Err(e) => Err(e),
            Ok((min, max)) => Choice::fill(
                ChoiceView {
                    min_occurrences: min,
                    max_occurrences: max,
                    elements: Seq::empty(),
                    any: None,
                    sequences: Seq::empty(),
                },
                node,
                0,
            ),
        }
    }

    /// Whether a choice handles a child element with this tag.
    pub open spec fn handles(tag: Seq<char>) -> bool {
        tag == "element"@ || tag == "any"@ || tag == "sequence"@
    }

    /// What the children before position `upto` make of `acc` is what the
    /// children from `upto` on are added to; where they fail, their error
    /// stands, whatever comes after them.
    pub proof fn lemma_fill_prefix(acc: ChoiceView, node: NodeView, from: int, upto: int)
        requires
            0 <= from <= upto <= node.children.len(),
        ensures
            Choice::fill(acc, node, from) == match Choice::fill(acc, node.before(upto), from) {
                Ok(built) => Choice::fill(built, node, upto),
                Err(e) => Err(e),
            },
        decreases upto - from,
    {
        if from < upto {
            assert(node.before(upto).children[from] == node.children[from]);
            if !node.children[from].is_element() {
                Choice::lemma_fill_prefix(acc, node, from + 1, upto);
            } else if let Ok(next) = Choice::add(acc, node.name, node.children[from]) {
                Choice::lemma_fill_prefix(next, node, from + 1, upto);
            }
        }
    }

    /// A child element whose tag a choice does not handle ends the
    /// construction, where the children before it were added without error,
    /// with an error that names the node and the child.
    pub proof fn lemma_unhandled_child(node: NodeView, at: int)
        requires
            0 <= at < node.children.len(),
            node.children[at].is_element(),
            !Choice::handles(node.children[at].name),
            Choice::spec_try_from(node.before(at)) is Ok,
        ensures
            Choice::spec_try_from(node) == Err::<ChoiceView, ErrorView>(
                ErrorView::UnhandledTag { parent: node.name, tag: node.children[at].name },
            ),
    {
        let (min, max) = spec_bounds(node)->Ok_0;
        let start = ChoiceView {
            min_occurrences: min,
            max_occurrences: max,
            elements: Seq::empty(),
            any: None,
            sequences: Seq::empty(),
        };
        Choice::lemma_fill_prefix(start, node, 0, at);
    }

    /// What the choice built from `node` holds: the occurrence bounds of the
    /// node; of each kind of child that it lists, what the children of that
    /// kind stand for, in document order; of the wildcards, what the last stands for.
    pub open spec fn holds(built: ChoiceView, node: NodeView) -> bool {
        &&& spec_bounds(node) == Ok::<_, ErrorView>((built.min_occurrences, built.max_occurrences))
        &&& built.elements == node.tagged("element"@).map_values(
            |c: NodeView| Element::spec_try_from(c)->Ok_0,
        )
        &&& built.sequences == node.tagged("sequence"@).map_values(
            |c: NodeView| Sequence::spec_try_from(c)->Ok_0,
        )
        &&& built.any == last_of(node.tagged("any"@), |c: NodeView| Any::spec_try_from(c)->Ok_0)
    }

    /// The tags that are told apart are different texts.
    proof fn lemma_tags_differ()
        ensures
            "element"@ != "any"@,
            "element"@ != "sequence"@,
            "any"@ != "sequence"@,
    {
        reveal_strlit("element");
        reveal_strlit("any");
        reveal_strlit("sequence");
        assert("element"@.len() == 7);
        assert("any"@.len() == 3);
    }

    /// One more child keeps what is built in step with what the children
    /// stand for.
    proof fn lemma_holds_step(before: ChoiceView, node: NodeView, upto: int)
        requires
            0 <= upto < node.children.len(),
            Choice::holds(before, node.before(upto)),
        ensures
            !node.children[upto].is_element() ==> Choice::holds(before, node.before(upto + 1)),
            node.children[upto].is_element() ==> (Choice::add(
                before,
                node.name,
                node.children[upto],
            ) matches Ok(next) ==> Choice::holds(next, node.before(upto + 1))),
    {
        Choice::lemma_tags_differ();
        lemma_tagged_step(node, "element"@, upto);
        lemma_tagged_step(node, "any"@, upto);
        lemma_tagged_step(node, "sequence"@, upto);
        let child = node.children[upto];
        let longer = node.before(upto + 1);
        if child.is_element() {
            if let Ok(next) = Choice::add(before, node.name, child) {
                if child.name == "element"@ {
                    assert(next.elements =~= longer.tagged("element"@).map_values(
                        |c: NodeView| Element::spec_try_from(c)->Ok_0,
                    ));
                } else if child.name == "sequence"@ {
                    assert(next.sequences =~= longer.tagged("sequence"@).map_values(
                        |c: NodeView| Sequence::spec_try_from(c)->Ok_0,
                    ));
                }
            }
        }
    }

    /// What is built from the children before position `upto` holds what
    /// those children stand for.
    proof fn lemma_holds_prefix(node: NodeView, upto: int)
        requires
            0 <= upto <= node.children.len(),
            Choice::spec_try_from(node) is Ok,
        ensures
            Choice::spec_try_from(node.before(upto)) matches Ok(built) && Choice::holds(
                built,
                node.before(upto),
            ),
        decreases upto,
    {
        reveal_with_fuel(Choice::fill, 2);
        let (min, max) = spec_bounds(node)->Ok_0;
        let start = ChoiceView {
            min_occurrences: min,
            max_occurrences: max,
            elements: Seq::empty(),
            any: None,
            sequences: Seq::empty(),
        };
        Choice::lemma_fill_prefix(start, node, 0, upto);
        let head = node.before(upto);
        if upto == 0 {
            assert(start.elements =~= head.tagged("element"@).map_values(
                |c: NodeView| Element::spec_try_from(c)->Ok_0,
            ));
            assert(start.sequences =~= head.tagged("sequence"@).map_values(
                |c: NodeView| Sequence::spec_try_from(c)->Ok_0,
            ));
        } else {
            let shorter = node.before(upto - 1);
            Choice::lemma_holds_prefix(node, upto - 1);
            assert(head.before(upto - 1) == shorter) by {
                assert(head.children.take(upto - 1) =~= node.children.take(upto - 1));
            }
            Choice::lemma_fill_prefix(start, head, 0, upto - 1);
            Choice::lemma_holds_step(Choice::spec_try_from(shorter)->Ok_0, node, upto - 1);
        }
    }

    /// Nothing is dropped and nothing is reordered: the choice built from a
    /// node holds exactly what its children stand for, kind by kind and in
    /// document order.
    pub proof fn lemma_holds(node: NodeView)
        requires
            Choice::spec_try_from(node) is Ok,
        ensures
            Choice::holds(Choice::spec_try_from(node)->Ok_0, node),
    {
        Choice::lemma_holds_prefix(node, node.children.len() as int);
        lemma_before_end(node);
    }

    /// Builds the particle from a `choice` node.
    pub fn try_from(node: &Node) -> (r: Result<Choice, Error>)
        ensures
            outcome(r) == Choice::spec_try_from(node@),
            r matches Ok(built) ==> Choice::holds(built@, node@),
        decreases node,
    {
        let (min_occurrences, max_occurrences) = bounds(node)?;
        let mut choice = Choice {
            min_occurrences,
            max_occurrences,
            elements: Vec::new(),
            any: None,
            sequences: Vec::new(),
        };
        assert(choice@.elements =~= Seq::empty());
        assert(choice@.sequences =~= Seq::empty());
        let mut i: usize = 0;
        while i < node.children.len()
            invariant
                i <= node.children.len(),
                node@.children.len() == node.children.len(),
                Choice::fill(choice@, node@, i as int) == Choice::spec_try_from(node@),
            decreases node.children.len() - i,
        {
            let child = &node.children[i];
            proof {
                reveal_with_fuel(Choice::fill, 2);
            }
            if child.is_element() {
                let ghost before = choice@;
                let tag = child.name.as_str();
                if same_text(tag, "element") {
                    let element = Element::try_from(child)?;
                    choice.elements.push(element);
                    assert(choice@.elements =~= before.elements.push(element@));
                } else if same_text(tag, "any") {
                    let any = Any::try_from(child)?;
                    choice.any = Some(any);
                } else if same_text(tag, "sequence") {
                    let nested = Sequence::try_from(child)?;
                    choice.sequences.push(nested);
                    assert(choice@.sequences =~= before.sequences.push(nested@));
                } else {
                    return Err(
                        Error::UnhandledTag { parent: node.name.clone(), tag: child.name.clone() },
                    );
                }
            }
            i += 1;
        }
        proof {
            Choice::lemma_holds(node@);
        }
        Ok(choice)
    }
}

/// An `extension`: the type it extends and what it adds.
#[derive(Debug, PartialEq)]
pub struct Extension {
    pub base: String,
    pub attribute: Option<Attribute>,
    pub sequence: Option<Sequence>,
    pub choice: Option<Choice>,
}

/// The view of an [`Extension`]: the same parts, with sequences of characters for
/// strings and mathematical sequences for vectors.
pub struct ExtensionView {
    pub base: Seq<char>,
    pub attribute: Option<AttributeView>,
    pub sequence: Option<SequenceView>,
    pub choice: Option<ChoiceView>,
}

impl View for Extension {
    type V = ExtensionView;

    open spec fn view(&self) -> ExtensionView {
        ExtensionView {
            base: self.base@,
            attribute: match self.attribute {
                Some(a) => Some(a@),
                None => None,
            },
            sequence: match self.sequence {
                Some(s) => Some(s@),
                None => None,
            },
            choice: match self.choice {
                Some(c) => Some(c@),
                None => None,
            },
        }
    }
}

impl Extension {
    /// The extension `acc` after the child element `child` of a node named
    /// `parent` has been added: an `attribute`, a `sequence` or a `choice`
    /// takes the place of an earlier one of its kind, and any other tag is
    /// not handled.
    pub open spec fn add(acc: ExtensionView, parent: Seq<char>, child: NodeView) -> Result<
        ExtensionView,
        ErrorView,
    > {
        if child.name == "attribute"@ {
            match Attribute::spec_try_from(child) {
                Err(e) => Err(e),
                Ok(attribute) => Ok(ExtensionView { attribute: Some(attribute), ..acc }),
            }
        } else if child.name == "sequence"@ {
            match Sequence::spec_try_from(child) {
                Err(e) => Err(e),
                Ok(sequence) => Ok(ExtensionView { sequence: Some(sequence), ..acc }),
            }
        } else if child.name == "choice"@ {
            match Choice::spec_try_from(child) {
                Err(e) => Err(e),
                Ok(choice) => Ok(ExtensionView { choice: Some(choice), ..acc }),
            }
        } else {
            Err(ErrorView::UnhandledTag { parent, tag: child.name })
        }
    }

    /// The extension `acc` after the children of `node` from position `from`
    /// on have been added in document order. Children that are not elements
    /// are passed over; the first child that cannot be added decides the error.
    pub open spec fn fill(acc: ExtensionView, node: NodeView, from: int) -> Result<
        ExtensionView,
        ErrorView,
    >
        decreases node.children.len() - from,
    {
        if from < 0 || from >= node.children.len() {
            Ok(acc)
        } else if !node.children[from].is_element() {
            Extension::fill(acc, node, from + 1)
        } else {
            match Extension::add(acc, node.name, node.children[from]) {
                Err(e) => Err(e),
                Ok(next) => Extension::fill(next, node, from + 1),
            }
        }
    }

    /// The extension that an `extension` node stands for: its `base`
    /// attribute, which it must carry, then its children.
    pub open spec fn spec_try_from(node: NodeView) -> Result<ExtensionView, ErrorView> {
        match node.attribute("base"@) {
            None => Err(ErrorView::MissingAttribute { tag: node.name, attribute: "base"@ }),
            Some(base) => Extension::fill(
                ExtensionView { base, attribute: None, sequence: None, choice: None },
                node,
                0,
            ),
        }
    }

    /// Whether an extension handles a child element with this tag.
    pub open spec fn handles(tag: Seq<char>) -> bool {
        tag == "attribute"@ || tag == "sequence"@ || tag == "choice"@
    }

    /// What the children before position `upto` make of `acc` is what the
    /// children from `upto` on are added to; where they fail, their error
    /// stands, whatever comes after them.
    pub proof fn lemma_fill_prefix(acc: ExtensionView, node: NodeView, from: int, upto: int)
        requires
            0 <= from <= upto <= node.children.len(),
        ensures
            Extension::fill(acc, node, from) == match Extension::fill(
                acc,
                node.before(upto),
                from,
            ) {
                Ok(built) => Extension::fill(built, node, upto),
                Err(e) => Err(e),
            },
        decreases upto - from,
    {
        if from < upto {
            assert(node.before(upto).children[from] == node.children[from]);
            if !node.children[from].is_element() {
                Extension::lemma_fill_prefix(acc, node, from + 1, upto);
            } else if let Ok(next) = Extension::add(acc, node.name, node.children[from]) {
                Extension::lemma_fill_prefix(next, node, from + 1, upto);
            }
        }
    }

    /// A child element whose tag an extension does not handle ends the
    /// construction, where the children before it were added without error,
    /// with an error that names the node and the child.
    pub proof fn lemma_unhandled_child(node: NodeView, at: int)
        requires
            0 <= at < node.children.len(),
            node.children[at].is_element(),
            !Extension::handles(node.children[at].name),
            Extension::spec_try_from(node.before(at)) is Ok,
        ensures
            Extension::spec_try_from(node) == Err::<ExtensionView, ErrorView>(
                ErrorView::UnhandledTag { parent: node.name, tag: node.children[at].name },
            ),
    {
        let start = ExtensionView {
            base: node.attribute("base"@)->0,
            attribute: None,
            sequence: None,
            choice: None,
        };
        Extension::lemma_fill_prefix(start, node, 0, at);
    }

    /// What the extension built from `node` holds: the base of the node, and
    /// in each slot what the last child of that kind stands for, or nothing
    /// where there is no such child.
    pub open spec fn holds(built: ExtensionView, node: NodeView) -> bool {
        &&& Some(built.base) == node.attribute("base"@)
        &&& built.attribute == last_of(
            node.tagged("attribute"@),
            |c: NodeView| Attribute::spec_try_from(c)->Ok_0,
        )
        &&& built.sequence == last_of(
            node.tagged("sequence"@),
            |c: NodeView| Sequence::spec_try_from(c)->Ok_0,
        )
        &&& built.choice == last_of(
            node.tagged("choice"@),
            |c: NodeView| Choice::spec_try_from(c)->Ok_0,
        )
    }

    /// The tags that are told apart are different texts.
    proof fn lemma_tags_differ()
        ensures
            "attribute"@ != "sequence"@,
            "attribute"@ != "choice"@,
            "sequence"@ != "choice"@,
    {
        reveal_strlit("attribute");
        reveal_strlit("sequence");
        reveal_strlit("choice");
        assert("attribute"@.len() == 9);
        assert("sequence"@.len() == 8);
    }

    /// One more child keeps what is built in step with what the children
    /// stand for.
    proof fn lemma_holds_step(before: ExtensionView, node: NodeView, upto: int)
        requires
            0 <= upto < node.children.len(),
            Extension::holds(before, node.before(upto)),
        ensures
            !node.children[upto].is_element() ==> Extension::holds(before, node.before(upto + 1)),
            node.children[upto].is_element() ==> (Extension::add(
                before,
                node.name,
                node.children[upto],
            ) matches Ok(next) ==> Extension::holds(next, node.before(upto + 1))),
    {
        Extension::lemma_tags_differ();
        lemma_tagged_step(node, "attribute"@, upto);
        lemma_tagged_step(node, "sequence"@, upto);
        lemma_tagged_step(node, "choice"@, upto);
    }

    /// What is built from the children before position `upto` holds what
    /// those children stand for.
    proof fn lemma_holds_prefix(node: NodeView, upto: int)
        requires
            0 <= upto <= node.children.len(),
            Extension::spec_try_from(node) is Ok,
        ensures
            Extension::spec_try_from(node.before(upto)) matches Ok(built) && Extension::holds(
                built,
                node.before(upto),
            ),
        decreases upto,
    {
        reveal_with_fuel(Extension::fill, 2);
        let start = ExtensionView {
            base: node.attribute("base"@)->0,
            attribute: None,
            sequence: None,
            choice: None,
        };
        Extension::lemma_fill_prefix(start, node, 0, upto);
        let head = node.before(upto);
        if upto > 0 {
            let shorter = node.before(upto - 1);
            Extension::lemma_holds_prefix(node, upto - 1);
            assert(head.before(upto - 1) == shorter) by {
                assert(head.children.take(upto - 1) =~= node.children.take(upto - 1));
            }
            Extension::lemma_fill_prefix(start, head, 0, upto - 1);
            Extension::lemma_holds_step(Extension::spec_try_from(shorter)->Ok_0, node, upto - 1);
        }
    }

    /// Each slot of the extension built from a node holds what the last child
    /// of its kind stands for, and is empty where there is none.
    pub proof fn lemma_holds(node: NodeView)
        requires
            Extension::spec_try_from(node) is Ok,
        ensures
            Extension::holds(Extension::spec_try_from(node)->Ok_0, node),
    {
        Extension::lemma_holds_prefix(node, node.children.len() as int);
        lemma_before_end(node);
    }

    /// Builds the extension from an `extension` node.
    pub fn try_from(node: &Node) -> (r: Result<Extension, Error>)
        ensures
            outcome(r) == Extension::spec_try_from(node@),
            r matches Ok(built) ==> Extension::holds(built@, node@),
    {
        let base = match node.attribute("base") {
            Some(b) => b.to_owned(),
            None => {
                return Err(
                    Error::MissingAttribute {
                        tag: node.name.clone(),
                        attribute: "base".to_owned(),
                    },
                );
            },
        };
        let mut extension = Extension { base, attribute: None, sequence: None, choice: None };
        let mut i: usize = 0;
        while i < node.children.len()
            invariant
                i <= node.children.len(),
                node@.children.len() == node.children.len(),
                Extension::fill(extension@, node@, i as int) == Extension::spec_try_from(node@),
            decreases node.children.len() - i,
        {
            let child = &node.children[i];
            if child.is_element() {
                let tag = child.name.as_str();
                if same_text(tag, "attribute") {
                    extension.attribute = Some(Attribute::try_from(child)?);
                } else if same_text(tag, "sequence") {
                    extension.sequence = Some(Sequence::try_from(child)?);
                } else if same_text(tag, "choice") {
                    extension.choice = Some(Choice::try_from(child)?);
                } else {
                    return Err(
                        Error::UnhandledTag { parent: node.name.clone(), tag: child.name.clone() },
                    );
                }
            }
            i += 1;
        }
        proof {
            Extension::lemma_holds(node@);
        }
        Ok(extension)
    }
}

/// What a `simpleContent` or a `complexContent` holds.
#[derive(Debug, PartialEq)]
pub enum Content {
    Restriction(Restriction),
    Extension(Extension),
}

/// The view of a [`Content`]: the same parts, with sequences of characters for
/// strings and mathematical sequences for vectors.
pub enum ContentView {
    Restriction(RestrictionView),
    Extension(ExtensionView),
}

impl View for Content {
    type V = ContentView;

    open spec fn view(&self) -> ContentView {
        match *self {
            Content::Restriction(r) => ContentView::Restriction(r@),
            Content::Extension(e) => ContentView::Extension(e@),
        }
    }
}

impl Content {
    /// A content node must have a child element.
    pub open spec fn admits(node: NodeView) -> bool {
        node.first_element() is Some
    }

    /// The content that a `simpleContent` or `complexContent` node stands
    /// for, decided by its first child element alone: a `restriction`, an
    /// `extension`, or a tag that is not handled.
    pub open spec fn spec_try_from(node: NodeView) -> Result<ContentView, ErrorView> {
        let child = node.first_element()->0;
        if child.name == "restriction"@ {
            match Restriction::spec_try_from(child) {
                Err(e) => Err(e),
                Ok(restriction) => Ok(ContentView::Restriction(restriction)),
            }
        } else if child.name == "extension"@ {
            match Extension::spec_try_from(child) {
                Err(e) => Err(e),
                Ok(extension) => Ok(ContentView::Extension(extension)),
            }
        } else {
            Err(ErrorView::UnhandledTag { parent: node.name, tag: child.name })
        }
    }

    /// Whether a content node handles a first child element with this tag.
    pub open spec fn handles(tag: Seq<char>) -> bool {
        tag == "restriction"@ || tag == "extension"@
    }

    /// A first child element whose tag a content node does not handle ends
    /// the construction with an error that names the node and the child.
    pub proof fn lemma_unhandled_child(node: NodeView, at: int)
        requires
            element_from(node, 0) == Some(at),
            !Content::handles(node.children[at].name),
        ensures
            Content::spec_try_from(node) == Err::<ContentView, ErrorView>(
                ErrorView::UnhandledTag { parent: node.name, tag: node.children[at].name },
            ),
    {
    }

    /// Builds the content from a `simpleContent` or `complexContent` node,
    /// where the node has the child element that it must have; says so where
    /// it has not.
    pub fn build(node: &Node) -> (r: Option<Result<Content, Error>>)
        ensures
            match r {
                None => !Content::admits(node@),
                Some(built) => Content::admits(node@) && outcome(built) == Content::spec_try_from(
                    node@,
                ),
            },
    {
        match node.first_element() {
            None => None,
            Some(child) => {
                let tag = child.name.as_str();
                if same_text(tag, "restriction") {
                    match Restriction::try_from(child) {
                        Ok(restriction) => Some(Ok(Content::Restriction(restriction))),
                        Err(e) => Some(Err(e)),
                    }
                } else if same_text(tag, "extension") {
                    match Extension::try_from(child) {
                        Ok(extension) => Some(Ok(Content::Extension(extension))),
                        Err(e) => Some(Err(e)),
                    }
                } else {
                    Some(
                        Err(
                            Error::UnhandledTag {
                                parent: node.name.clone(),
                                tag: child.name.clone(),
                            },
                        ),
                    )
                }
            },
        }
    }

    /// Builds the content from a `simpleContent` or `complexContent` node.
    pub fn try_from(node: &Node) -> (r: Result<Content, Error>)
        requires
            Content::admits(node@),
        ensures
            outcome(r) == Content::spec_try_from(node@),
    {
        Content::build(node).unwrap()
    }
}

/// A `simpleContent`.
#[derive(Debug, PartialEq)]
pub struct SimpleContent {
    pub content: Content,
}

/// The view of a [`SimpleContent`]: the same parts, with sequences of characters for
/// strings and mathematical sequences for vectors.
pub struct SimpleContentView {
    pub content: ContentView,
}

impl View for SimpleContent {
    type V = SimpleContentView;

    open spec fn view(&self) -> SimpleContentView {
        SimpleContentView { content: self.content@ }
    }
}

impl SimpleContent {
    /// The content of the node, as a `simpleContent`.
    pub open spec fn spec_try_from(node: NodeView) -> Result<SimpleContentView, ErrorView> {
        match Content::spec_try_from(node) {
            Err(e) => Err(e),
            Ok(content) => Ok(SimpleContentView { content }),
        }
    }

    /// Builds the declaration from a `simpleContent` node, where the node has
    /// the child element that it must have; says so where it has not.
    pub fn build(node: &Node) -> (r: Option<Result<SimpleContent, Error>>)
        ensures
            match r {
                None => !Content::admits(node@),
                Some(built) => Content::admits(node@) && outcome(built)
                    == SimpleContent::spec_try_from(node@),
            },
    {
        match Content::build(node) {
            None => None,
            Some(Ok(content)) => Some(Ok(SimpleContent { content })),
            Some(Err(e)) => Some(Err(e)),
        }
    }

    /// Builds the declaration from a `simpleContent` node.
    pub fn try_from(node: &Node) -> (r: Result<SimpleContent, Error>)
        requires
            Content::admits(node@),
        ensures
            outcome(r) == SimpleContent::spec_try_from(node@),
    {
        SimpleContent::build(node).unwrap()
    }
}

/// A `complexContent`.
#[derive(Debug, PartialEq)]
pub struct ComplexContent {
    pub content: Content,
}

/// The view of a [`ComplexContent`]: the same parts, with sequences of characters for
/// strings and mathematical sequences for vectors.
pub struct ComplexContentView {
    pub content: ContentView,
}

impl View for ComplexContent {
    type V = ComplexContentView;

    open spec fn view(&self) -> ComplexContentView {
        ComplexContentView { content: self.content@ }
    }
}

impl ComplexContent {
    /// The content of the node, as a `complexContent`.
    pub open spec fn spec_try_from(node: NodeView) -> Result<ComplexContentView, ErrorView> {
        match Content::spec_try_from(node) {
            Err(e) => Err(e),
            Ok(content) => Ok(ComplexContentView { content }),
        }
    }

    /// Builds the declaration from a `complexContent` node, where the node has
    /// the child element that it must have; says so where it has not.
    pub fn build(node: &Node) -> (r: Option<Result<ComplexContent, Error>>)
        ensures
            match r {
                None => !Content::admits(node@),
                Some(built) => Content::admits(node@) && outcome(built)
                    == ComplexContent::spec_try_from(node@),
            },
    {
        match Content::build(node) {
            None => None,
            Some(Ok(content)) => Some(Ok(ComplexContent { content })),
            Some(Err(e)) => Some(Err(e)),
        }
    }

    /// Builds the declaration from a `complexContent` node.
    pub fn try_from(node: &Node) -> (r: Result<ComplexContent, Error>)
        requires
            Content::admits(node@),
        ensures
            outcome(r) == ComplexContent::spec_try_from(node@),
    {
        ComplexContent::build(node).unwrap()
    }
}

/// A `complexType` declaration. Each kind of child has a slot of its own,
/// and more than one slot may be filled.
#[derive(Debug, Default, PartialEq)]
pub struct ComplexType {
    pub name: Option<String>,
    pub sequence: Option<Sequence>,
    pub attribute: Option<Attribute>,
    pub simple_content: Option<SimpleContent>,
    pub choice: Option<Choice>,
    pub complex_content: Option<ComplexContent>,
}

/// The view of a [`ComplexType`]: the same parts, with sequences of characters for
/// strings and mathematical sequences for vectors.
pub struct ComplexTypeView {
    pub name: Option<Seq<char>>,
    pub sequence: Option<SequenceView>,
    pub attribute: Option<AttributeView>,
    pub simple_content: Option<SimpleContentView>,
    pub choice: Option<ChoiceView>,
    pub complex_content: Option<ComplexContentView>,
}

impl View for ComplexType {
    type V = ComplexTypeView;

    open spec fn view(&self) -> ComplexTypeView {
        ComplexTypeView {
            name: text_of(self.name),
            sequence: match self.sequence {
                Some(s) => Some(s@),
                None => None,
            },
            attribute: match self.attribute {
                Some(a) => Some(a@),
                None => None,
            },
            simple_content: match self.simple_content {
                Some(c) => Some(c@),
                None => None,
            },
            choice: match self.choice {
                Some(c) => Some(c@),
                None => None,
            },
            complex_content: match self.complex_content {
                Some(c) => Some(c@),
                None => None,
            },
        }
    }
}

impl ComplexType {
    /// Whether `child` is a content node: an element tagged `simpleContent`
    /// or `complexContent`.
    pub open spec fn is_content(child: NodeView) -> bool {
        child.is_element() && (child.name == "simpleContent"@ || child.name == "complexContent"@)
    }

    /// Every content node among the children that the construction gets to,
    /// the children before it having been added without error, must have a
    /// child element.
    pub open spec fn admits(node: NodeView) -> bool {
        forall|i: int|
            0 <= i < node.children.len() && ComplexType::is_content(#[trigger] node.children[i])
                && ComplexType::spec_try_from(node.before(i)) is Ok ==> Content::admits(
                node.children[i],
            )
    }

    /// The type `acc` after the child element `child` of a node named
    /// `parent` has been added: each kind of child takes the place of an
    /// earlier one of its kind, and any other tag is not handled.
    pub open spec fn add(acc: ComplexTypeView, parent: Seq<char>, child: NodeView) -> Result<
        ComplexTypeView,
        ErrorView,
    > {
        if child.name == "sequence"@ {
            match Sequence::spec_try_from(child) {
                Err(e) => Err(e),
                Ok(sequence) => Ok(ComplexTypeView { sequence: Some(sequence), ..acc }),
            }
        } else if child.name == "attribute"@ {
            match Attribute::spec_try_from(child) {
                Err(e) => Err(e),
                Ok(attribute) => Ok(ComplexTypeView { attribute: Some(attribute), ..acc }),
            }
        } else if child.name == "simpleContent"@ {
            match SimpleContent::spec_try_from(child) {
                Err(e) => Err(e),
                Ok(content) => Ok(ComplexTypeView { simple_content: Some(content), ..acc }),
            }
        } else if child.name == "choice"@ {
            match Choice::spec_try_from(child) {
                Err(e) => Err(e),
                Ok(choice) => Ok(ComplexTypeView { choice: Some(choice), ..acc }),
            }
        } else if child.name == "complexContent"@ {
            match ComplexContent::spec_try_from(child) {
                Err(e) => Err(e),
                Ok(content) => Ok(ComplexTypeView { complex_content: Some(content), ..acc }),
            }
        } else {
            Err(ErrorView::UnhandledTag { parent, tag: child.name })
        }
    }

    /// The type `acc` after the children of `node` from position `from` on
    /// have been added in document order. Children that are not elements are
    /// passed over; the first child that cannot be added decides the error.
    pub open spec fn fill(acc: ComplexTypeView, node: NodeView, from: int) -> Result<
        ComplexTypeView,
        ErrorView,
    >
        decreases node.children.len() - from,
    {
        if from < 0 || from >= node.children.len() {
            Ok(acc)
        } else if !node.children[from].is_element() {
            ComplexType::fill(acc, node, from + 1)
        } else {
            match ComplexType::add(acc, node.name, node.children[from]) {
                Err(e) => Err(e),
                Ok(next) => ComplexType::fill(next, node, from + 1),
            }
        }
    }

    /// The declaration that a `complexType` node stands for: its name, then
    /// its children.
    pub open spec fn spec_try_from(node: NodeView) -> Result<ComplexTypeView, ErrorView> {
        ComplexType::fill(
            ComplexTypeView {
                name: node.attribute("name"@),
                sequence: None,
                attribute: None,
                simple_content: None,
                choice: None,
                complex_content: None,
            },
            node,
            0,
        )
    }

    /// Whether a complex type handles a child element with this tag.
    pub open spec fn handles(tag: Seq<char>) -> bool {
        tag == "sequence"@ || tag == "attribute"@ || tag == "simpleContent"@ || tag == "choice"@
            || tag == "complexContent"@
    }

    /// What the children before position `upto` make of `acc` is what the
    /// children from `upto` on are added to; where they fail, their error
    /// stands, whatever comes after them.
    pub proof fn lemma_fill_prefix(acc: ComplexTypeView, node: NodeView, from: int, upto: int)
        requires
            0 <= from <= upto <= node.children.len(),
        ensures
            ComplexType::fill(acc, node, from) == match ComplexType::fill(
                acc,
                node.before(upto),
                from,
            ) {
                Ok(built) => ComplexType::fill(built, node, upto),
                Err(e) => Err(e),
            },
        decreases upto - from,
    {
        if from < upto {
            assert(node.before(upto).children[from] == node.children[from]);
            if !node.children[from].is_element() {
                ComplexType::lemma_fill_prefix(acc, node, from + 1, upto);
            } else if let Ok(next) = ComplexType::add(acc, node.name, node.children[from]) {
                ComplexType::lemma_fill_prefix(next, node, from + 1, upto);
            }
        }
    }

    /// A child element whose tag a complex type does not handle ends the
    /// construction, where the children before it were added without error,
    /// with an error that names the node and the child.
    pub proof fn lemma_unhandled_child(node: NodeView, at: int)
        requires
            0 <= at < node.children.len(),
            node.children[at].is_element(),
            !ComplexType::handles(node.children[at].name),
            ComplexType::spec_try_from(node.before(at)) is Ok,
        ensures
            ComplexType::spec_try_from(node) == Err::<ComplexTypeView, ErrorView>(
                ErrorView::UnhandledTag { parent: node.name, tag: node.children[at].name },
            ),
    {
        let start = ComplexTypeView {
            name: node.attribute("name"@),
            sequence: None,
            attribute: None,
            simple_content: None,
            choice: None,
            complex_content: None,
        };
        ComplexType::lemma_fill_prefix(start, node, 0, at);
    }

    /// What the complex type built from `node` holds: the name of the node,
    /// and in each slot what the last child of that kind stands for, or
    /// nothing where there is no such child.
    pub open spec fn holds(built: ComplexTypeView, node: NodeView) -> bool {
        &&& built.name == node.attribute("name"@)
        &&& built.sequence == last_of(
            node.tagged("sequence"@),
            |c: NodeView| Sequence::spec_try_from(c)->Ok_0,
        )
        &&& built.attribute == last_of(
            node.tagged("attribute"@),
            |c: NodeView| Attribute::spec_try_from(c)->Ok_0,
        )
        &&& built.simple_content == last_of(
            node.tagged("simpleContent"@),
            |c: NodeView| SimpleContent::spec_try_from(c)->Ok_0,
        )
        &&& built.choice == last_of(
            node.tagged("choice"@),
            |c: NodeView| Choice::spec_try_from(c)->Ok_0,
        )
        &&& built.complex_content == last_of(
            node.tagged("complexContent"@),
            |c: NodeView| ComplexContent::spec_try_from(c)->Ok_0,
        )
    }

    /// The tags that are told apart are different texts.
    proof fn lemma_tags_differ()
        ensures
            "sequence"@ != "attribute"@,
            "sequence"@ != "simpleContent"@,
            "sequence"@ != "choice"@,
            "sequence"@ != "complexContent"@,
            "attribute"@ != "simpleContent"@,
            "attribute"@ != "choice"@,
            "attribute"@ != "complexContent"@,
            "simpleContent"@ != "choice"@,
            "simpleContent"@ != "complexContent"@,
            "choice"@ != "complexContent"@,
    {
        reveal_strlit("sequence");
        reveal_strlit("attribute");
        reveal_strlit("simpleContent");
        reveal_strlit("choice");
        reveal_strlit("complexContent");
        assert("sequence"@.len() == 8);
        assert("attribute"@.len() == 9);
        assert("simpleContent"@.len() == 13);
        assert("choice"@.len() == 6);
    }

    /// One more child keeps what is built in step with what the children
    /// stand for.
    proof fn lemma_holds_step(before: ComplexTypeView, node: NodeView, upto: int)
        requires
            0 <= upto < node.children.len(),
            ComplexType::holds(before, node.before(upto)),
        ensures
            !node.children[upto].is_element() ==> ComplexType::holds(before, node.before(upto + 1)),
            node.children[upto].is_element() ==> (ComplexType::add(
                before,
                node.name,
                node.children[upto],
            ) matches Ok(next) ==> ComplexType::holds(next, node.before(upto + 1))),
    {
        ComplexType::lemma_tags_differ();
        lemma_tagged_step(node, "sequence"@, upto);
        lemma_tagged_step(node, "attribute"@, upto);
        lemma_tagged_step(node, "simpleContent"@, upto);
        lemma_tagged_step(node, "choice"@, upto);
        lemma_tagged_step(node, "complexContent"@, upto);
    }

    /// What is built from the children before position `upto` holds what
    /// those children stand for.
    proof fn lemma_holds_prefix(node: NodeView, upto: int)
        requires
            0 <= upto <= node.children.len(),
            ComplexType::spec_try_from(node) is Ok,
        ensures
            ComplexType::spec_try_from(node.before(upto)) matches Ok(built) && ComplexType::holds(
                built,
                node.before(upto),
            ),
        decreases upto,
    {
        reveal_with_fuel(ComplexType::fill, 2);
        let start = ComplexTypeView {
            name: node.attribute("name"@),
            sequence: None,
            attribute: None,
            simple_content: None,
            choice: None,
            complex_content: None,
        };
        ComplexType::lemma_fill_prefix(start, node, 0, upto);
        let head = node.before(upto);
        if upto > 0 {
            let shorter = node.before(upto - 1);
            ComplexType::lemma_holds_prefix(node, upto - 1);
            assert(head.before(upto - 1) == shorter) by {
                assert(head.children.take(upto - 1) =~= node.children.take(upto - 1));
            }
            ComplexType::lemma_fill_prefix(start, head, 0, upto - 1);
            ComplexType::lemma_holds_step(
                ComplexType::spec_try_from(shorter)->Ok_0,
                node,
                upto - 1,
            );
        }
    }

    /// Each slot of the complex type built from a node holds what the last
    /// child of its kind stands for, and is empty where there is none.
    pub proof fn lemma_holds(node: NodeView)
        requires
            ComplexType::spec_try_from(node) is Ok,
        ensures
            ComplexType::holds(ComplexType::spec_try_from(node)->Ok_0, node),
    {
        ComplexType::lemma_holds_prefix(node, node.children.len() as int);
        lemma_before_end(node);
    }

    /// One more child is added to what the children before it have made, or
    /// passed over; an error before it stands.
    proof fn lemma_fill_next(acc: ComplexTypeView, node: NodeView, upto: int)
        requires
            0 <= upto < node.children.len(),
        ensures
            ComplexType::fill(acc, node.before(upto + 1), 0) == match ComplexType::fill(
                acc,
                node.before(upto),
                0,
            ) {
                Err(e) => Err(e),
                Ok(built) => if !node.children[upto].is_element() {
                    Ok(built)
                } else {
                    ComplexType::add(built, node.name, node.children[upto])
                },
            },
    {
        reveal_with_fuel(ComplexType::fill, 2);
        let longer = node.before(upto + 1);
        assert(longer.before(upto) == node.before(upto)) by {
            assert(longer.children.take(upto) =~= node.children.take(upto));
        }
        ComplexType::lemma_fill_prefix(acc, longer, 0, upto);
    }

    /// An error among the first children stands, however many more follow.
    proof fn lemma_failure_stays(acc: ComplexTypeView, node: NodeView, upto: int, later: int)
        requires
            0 <= upto <= later <= node.children.len(),
            ComplexType::fill(acc, node.before(upto), 0) is Err,
        ensures
            ComplexType::fill(acc, node.before(later), 0) == ComplexType::fill(
                acc,
                node.before(upto),
                0,
            ),
    {
        let longer = node.before(later);
        assert(longer.before(upto) == node.before(upto)) by {
            assert(longer.children.take(upto) =~= node.children.take(upto));
        }
        ComplexType::lemma_fill_prefix(acc, longer, 0, upto);
    }

    /// An error at a child decides the outcome, and the construction gets to
    /// no child after it.
    proof fn lemma_stopped(acc: ComplexTypeView, node: NodeView, at: int)
        requires
            0 <= at < node.children.len(),
            ComplexType::fill(acc, node.before(at + 1), 0) is Err,
        ensures
            ComplexType::fill(acc, node, 0) == ComplexType::fill(acc, node.before(at + 1), 0),
            forall|j: int|
                at < j <= node.children.len() ==> #[trigger] ComplexType::fill(
                    acc,
                    node.before(j),
                    0,
                ) is Err,
    {
        ComplexType::lemma_failure_stays(acc, node, at + 1, node.children.len() as int);
        lemma_before_end(node);
        assert forall|j: int| at < j <= node.children.len() implies #[trigger] ComplexType::fill(
            acc,
            node.before(j),
            0,
        ) is Err by {
            ComplexType::lemma_failure_stays(acc, node, at + 1, j);
        }
    }

    /// Builds the declaration from a `complexType` node, where each content
    /// node that the construction gets to has the child element that it must
    /// have; says so where one has not.
    pub fn build(node: &Node) -> (r: Option<Result<ComplexType, Error>>)
        ensures
            match r {
                None => !ComplexType::admits(node@),
                Some(built) => ComplexType::admits(node@) && outcome(built)
                    == ComplexType::spec_try_from(node@) && (built matches Ok(complex_type)
                    ==> ComplexType::holds(complex_type@, node@)),
            },
    {
        let mut complex_type = ComplexType {
            name: owned(node.attribute("name")),
            sequence: None,
            attribute: None,
            simple_content: None,
            choice: None,
            complex_content: None,
        };
        let ghost start = complex_type@;
        let mut i: usize = 0;
        while i < node.children.len()
            invariant
                i <= node.children.len(),
                node@.children.len() == node.children.len(),
                start == (ComplexTypeView {
                    name: node@.attribute("name"@),
                    sequence: None,
                    attribute: None,
                    simple_content: None,
                    choice: None,
                    complex_content: None,
                }),
                ComplexType::fill(start, node@.before(i as int), 0) == Ok::<_, ErrorView>(
                    complex_type@,
                ),
                forall|j: int|
                    0 <= j < i && ComplexType::is_content(#[trigger] node@.children[j])
                        && ComplexType::spec_try_from(node@.before(j)) is Ok ==> Content::admits(
                        node@.children[j],
                    ),
            decreases node.children.len() - i,
        {
            let child = &node.children[i];
            proof {
                ComplexType::lemma_fill_next(start, node@, i as int);
                ComplexType::lemma_tags_differ();
            }
            if child.is_element() {
                let tag = child.name.as_str();
                if same_text(tag, "sequence") {
                    match Sequence::try_from(child) {
                        Ok(built) => {
                            complex_type.sequence = Some(built);
                        },
                        Err(e) => {
                            proof {
                                ComplexType::lemma_stopped(start, node@, i as int);
                            }
                            return Some(Err(e));
                        },
                    }
                } else if same_text(tag, "attribute") {
                    match Attribute::try_from(child) {
                        Ok(built) => {
                            complex_type.attribute = Some(built);
                        },
                        Err(e) => {
                            proof {
                                ComplexType::lemma_stopped(start, node@, i as int);
                            }
                            return Some(Err(e));
                        },
                    }
                } else if same_text(tag, "simpleContent") {
                    match SimpleContent::build(child) {
                        None => {
                            return None;
                        },
                        Some(Ok(built)) => {
                            complex_type.simple_content = Some(built);
                        },
                        Some(Err(e)) => {
                            proof {
                                ComplexType::lemma_stopped(start, node@, i as int);
                            }
                            return Some(Err(e));
                        },
                    }
                } else if same_text(tag, "choice") {
                    match Choice::try_from(child) {
                        Ok(built) => {
                            complex_type.choice = Some(built);
                        },
                        Err(e) => {
                            proof {
                                ComplexType::lemma_stopped(start, node@, i as int);
                            }
                            return Some(Err(e));
                        },
                    }
                } else if same_text(tag, "complexContent") {
                    match ComplexContent::build(child) {
                        None => {
                            return None;
                        },
                        Some(Ok(built)) => {
                            complex_type.complex_content = Some(built);
                        },
                        Some(Err(e)) => {
                            proof {
                                ComplexType::lemma_stopped(start, node@, i as int);
                            }
                            return Some(Err(e));
                        },
                    }
                } else {
                    proof {
                        ComplexType::lemma_stopped(start, node@, i as int);
                    }
                    return Some(
                        Err(
                            Error::UnhandledTag {
                                parent: node.name.clone(),
                                tag: child.name.clone(),
                            },
                        ),
                    );
                }
            }
            i += 1;
        }
        proof {
            lemma_before_end(node@);
            ComplexType::lemma_holds(node@);
        }
        Some(Ok(complex_type))
    }

    /// Builds the declaration from a `complexType` node.
    pub fn try_from(node: &Node) -> (r: Result<ComplexType, Error>)
        requires
            ComplexType::admits(node@),
        ensures
            outcome(r) == ComplexType::spec_try_from(node@),
            r matches Ok(built) ==> ComplexType::holds(built@, node@),
    {
        ComplexType::build(node).unwrap()
    }
}

} // verus!
