//! Simple types and annotations.

use crate::errors::{outcome, Error, ErrorView};
use crate::node::{last_of, lemma_before_end, lemma_tagged_step, Node, NodeView};
use crate::restriction::{Restriction, RestrictionView};
use crate::text::{owned, same_text, text_of};
use vstd::prelude::*;

verus! {

/// An `annotation`: its documentation and application information, each in
/// document order.
#[derive(Debug, Default, PartialEq)]
pub struct Annotation {
    pub documentation: Vec<String>,
    pub app_info: Vec<String>,
}

/// The view of an [`Annotation`]: the same parts, with sequences of characters for
/// strings and mathematical sequences for vectors.
pub struct AnnotationView {
    pub documentation: Seq<Seq<char>>,
    pub app_info: Seq<Seq<char>>,
}

impl View for Annotation {
    type V = AnnotationView;

    open spec fn view(&self) -> AnnotationView {
        AnnotationView {
            documentation: self.documentation@.map_values(|s: String| s@),
            app_info: self.app_info@.map_values(|s: String| s@),
        }
    }
}

impl Annotation {
    /// Whether `child` is an element that carries text for an annotation:
    /// one tagged `documentation` or `appinfo`.
    pub open spec fn bears_text(child: NodeView) -> bool {
        child.is_element() && (child.name == "documentation"@ || child.name == "appinfo"@)
    }

    /// Every `documentation` and `appinfo` child that the construction gets
    /// to, the children before it having been added without error, must have
    /// text.
    pub open spec fn admits(node: NodeView) -> bool {
        forall|i: int|
            0 <= i < node.children.len() && Annotation::bears_text(#[trigger] node.children[i])
                && Annotation::spec_try_from(node.before(i)) is Ok
                ==> node.children[i].text is Some
    }

    /// The annotation `acc` after the child element `child` of a node named
    /// `parent` has been added: the text of a `documentation` or an `appinfo`
    /// goes to the end of its list, and any other tag is not handled.
    pub open spec fn add(acc: AnnotationView, parent: Seq<char>, child: NodeView) -> Result<
        AnnotationView,
        ErrorView,
    > {
        if child.name == "documentation"@ {
            Ok(AnnotationView { documentation: acc.documentation.push(child.text->0), ..acc })
        } else if child.name == "appinfo"@ {
            Ok(AnnotationView { app_info: acc.app_info.push(child.text->0), ..acc })
        } else {
            Err(ErrorView::UnhandledTag { parent, tag: child.name })
        }
    }

    /// The annotation `acc` after the children of `node` from position `from`
    /// on have been added in document order. Children that are not elements
    /// are passed over; the first child that cannot be added decides the error.
    pub open spec fn fill(acc: AnnotationView, node: NodeView, from: int) -> Result<
        AnnotationView,
        ErrorView,
    >
        decreases node.children.len() - from,
    {
        if from < 0 || from >= node.children.len() {
            Ok(acc)
        } else if !node.children[from].is_element() {
            Annotation::fill(acc, node, from + 1)
        } else {
            match Annotation::add(acc, node.name, node.children[from]) {
                Err(e) => Err(e),
                Ok(next) => Annotation::fill(next, node, from + 1),
            }
        }
    }

    /// The annotation that an `annotation` node stands for.
    pub open spec fn spec_try_from(node: NodeView) -> Result<AnnotationView, ErrorView> {
        Annotation::fill(
            AnnotationView { documentation: Seq::empty(), app_info: Seq::empty() },
            node,
            0,
        )
    }

    /// Whether an annotation handles a child element with this tag.
    pub open spec fn handles(tag: Seq<char>) -> bool {
        tag == "documentation"@ || tag == "appinfo"@
    }

    /// What the children before position `upto` make of `acc` is what the
    /// children from `upto` on are added to; where they fail, their error
    /// stands, whatever comes after them.
    pub proof fn lemma_fill_prefix(acc: AnnotationView, node: NodeView, from: int, upto: int)
        requires
            0 <= from <= upto <= node.children.len(),
        ensures
            Annotation::fill(acc, node, from) == match Annotation::fill(
                acc,
                node.before(upto),
                from,
            ) {
                Ok(built) => Annotation::fill(built, node, upto),
                Err(e) => Err(e),
            },
        decreases upto - from,
    {
        if from < upto {
            assert(node.before(upto).children[from] == node.children[from]);
            if !node.children[from].is_element() {
                Annotation::lemma_fill_prefix(acc, node, from + 1, upto);
            } else if let Ok(next) = Annotation::add(acc, node.name, node.children[from]) {
                Annotation::lemma_fill_prefix(next, node, from + 1, upto);
            }
        }
    }

    /// A child element whose tag an annotation does not handle ends the
    /// construction, where the children before it were added without error,
    /// with an error that names the node and the child.
    pub proof fn lemma_unhandled_child(node: NodeView, at: int)
        requires
            0 <= at < node.children.len(),
            node.children[at].is_element(),
            !Annotation::handles(node.children[at].name),
            Annotation::spec_try_from(node.before(at)) is Ok,
        ensures
            Annotation::spec_try_from(node) == Err::<AnnotationView, ErrorView>(
                ErrorView::UnhandledTag { parent: node.name, tag: node.children[at].name },
            ),
    {
        let start = AnnotationView { documentation: Seq::empty(), app_info: Seq::empty() };
        Annotation::lemma_fill_prefix(start, node, 0, at);
    }

    /// What the annotation built from `node` holds: of each kind of child, the
    /// texts of the children of that kind, in document order.
    pub open spec fn holds(built: AnnotationView, node: NodeView) -> bool {
        &&& built.documentation == node.tagged("documentation"@).map_values(|c: NodeView| c.text->0)
        &&& built.app_info == node.tagged("appinfo"@).map_values(|c: NodeView| c.text->0)
    }

    /// The tags that are told apart are different texts.
    proof fn lemma_tags_differ()
        ensures
            "documentation"@ != "appinfo"@,
    {
        reveal_strlit("documentation");
        reveal_strlit("appinfo");
        assert("documentation"@.len() == 13);
    }

    /// One more child keeps what is built in step with what the children
    /// stand for.
    proof fn lemma_holds_step(before: AnnotationView, node: NodeView, upto: int)
        requires
            0 <= upto < node.children.len(),
            Annotation::holds(before, node.before(upto)),
        ensures
            !node.children[upto].is_element() ==> Annotation::holds(before, node.before(upto + 1)),
            node.children[upto].is_element() ==> (Annotation::add(
                before,
                node.name,
                node.children[upto],
            ) matches Ok(next) ==> Annotation::holds(next, node.before(upto + 1))),
    {
        Annotation::lemma_tags_differ();
        lemma_tagged_step(node, "documentation"@, upto);
        lemma_tagged_step(node, "appinfo"@, upto);
        let child = node.children[upto];
        let longer = node.before(upto + 1);
        if child.is_element() {
            if let Ok(next) = Annotation::add(before, node.name, child) {
                if child.name == "documentation"@ {
                    assert(next.documentation =~= longer.tagged("documentation"@).map_values(
                        |c: NodeView| c.text->0,
                    ));
                } else if child.name == "appinfo"@ {
                    assert(next.app_info =~= longer.tagged("appinfo"@).map_values(
                        |c: NodeView| c.text->0,
                    ));
                }
            }
        }
    }

    /// What is built from the children before position `upto` holds what
    /// those children stand for.
    proof fn lemma_holds_prefix(node: NodeView, upto: int)
        requires
            0 <= upto <= node.children.len(),
            Annotation::spec_try_from(node) is Ok,
        ensures
            Annotation::spec_try_from(node.before(upto)) matches Ok(built) && Annotation::holds(
                built,
                node.before(upto),
            ),
        decreases upto,
    {
        reveal_with_fuel(Annotation::fill, 2);
        let start = AnnotationView { documentation: Seq::empty(), app_info: Seq::empty() };
        Annotation::lemma_fill_prefix(start, node, 0, upto);
        let head = node.before(upto);
        if upto == 0 {
            assert(start.documentation =~= head.tagged("documentation"@).map_values(
                |c: NodeView| c.text->0,
            ));
            assert(start.app_info =~= head.tagged("appinfo"@).map_values(
                |c: NodeView| c.text->0,
            ));
        } else {
            let shorter = node.before(upto - 1);
            Annotation::lemma_holds_prefix(node, upto - 1);
            assert(head.before(upto - 1) == shorter) by {
                assert(head.children.take(upto - 1) =~= node.children.take(upto - 1));
            }
            Annotation::lemma_fill_prefix(start, head, 0, upto - 1);
            Annotation::lemma_holds_step(Annotation::spec_try_from(shorter)->Ok_0, node, upto - 1);
        }
    }

    /// Nothing is dropped and nothing is reordered: the annotation built from
    /// a node holds the texts of its children, kind by kind and in document order.
    pub proof fn lemma_holds(node: NodeView)
        requires
            Annotation::spec_try_from(node) is Ok,
        ensures
            Annotation::holds(Annotation::spec_try_from(node)->Ok_0, node),
    {
        Annotation::lemma_holds_prefix(node, node.children.len() as int);
        lemma_before_end(node);
    }

    /// One more child is added to what the children before it have made, or
    /// passed over; an error before it stands.
    proof fn lemma_fill_next(acc: AnnotationView, node: NodeView, upto: int)
        requires
            0 <= upto < node.children.len(),
        ensures
            Annotation::fill(acc, node.before(upto + 1), 0) == match Annotation::fill(
                acc,
                node.before(upto),
                0,
            ) {
                Err(e) => Err(e),
                Ok(built) => if !node.children[upto].is_element() {
                    Ok(built)
                } else {
                    Annotation::add(built, node.name, node.children[upto])
                },
            },
    {
        reveal_with_fuel(Annotation::fill, 2);
        let longer = node.before(upto + 1);
        assert(longer.before(upto) == node.before(upto)) by {
            assert(longer.children.take(upto) =~= node.children.take(upto));
        }
        Annotation::lemma_fill_prefix(acc, longer, 0, upto);
    }

    /// An error among the first children stands, however many more follow.
    proof fn lemma_failure_stays(acc: AnnotationView, node: NodeView, upto: int, later: int)
        requires
            0 <= upto <= later <= node.children.len(),
            Annotation::fill(acc, node.before(upto), 0) is Err,
        ensures
            Annotation::fill(acc, node.before(later), 0) == Annotation::fill(
                acc,
                node.before(upto),
                0,
            ),
    {
        let longer = node.before(later);
        assert(longer.before(upto) == node.before(upto)) by {
            assert(longer.children.take(upto) =~= node.children.take(upto));
        }
        Annotation::lemma_fill_prefix(acc, longer, 0, upto);
    }

    /// An error at a child decides the outcome, and the construction gets to
    /// no child after it.
    proof fn lemma_stopped(acc: AnnotationView, node: NodeView, at: int)
        requires
            0 <= at < node.children.len(),
            Annotation::fill(acc, node.before(at + 1), 0) is Err,
        ensures
            Annotation::fill(acc, node, 0) == Annotation::fill(acc, node.before(at + 1), 0),
            forall|j: int|
                at < j <= node.children.len() ==> #[trigger] Annotation::fill(
                    acc,
                    node.before(j),
                    0,
                ) is Err,
    {
        Annotation::lemma_failure_stays(acc, node, at + 1, node.children.len() as int);
        lemma_before_end(node);
        assert forall|j: int| at < j <= node.children.len() implies #[trigger] Annotation::fill(
            acc,
            node.before(j),
            0,
        ) is Err by {
            Annotation::lemma_failure_stays(acc, node, at + 1, j);
        }
    }

    /// Builds the annotation from an `annotation` node, where the node has
    /// the text that it must have; says so where it has not.
    pub fn build(node: &Node) -> (r: Option<Result<Annotation, Error>>)
        ensures
            match r {
                None => !Annotation::admits(node@),
                Some(built) => Annotation::admits(node@) && outcome(built)
                    == Annotation::spec_try_from(node@) && (built matches Ok(annotation)
                    ==> Annotation::holds(annotation@, node@)),
            },
    {
        let mut annotation = Annotation { documentation: Vec::new(), app_info: Vec::new() };
        let ghost start = AnnotationView { documentation: Seq::empty(), app_info: Seq::empty() };
        assert(annotation@.documentation =~= Seq::empty());
        let mut i: usize = 0;
        while i < node.children.len()
            invariant
                i <= node.children.len(),
                node@.children.len() == node.children.len(),
                start == (AnnotationView { documentation: Seq::empty(), app_info: Seq::empty() }),
                Annotation::fill(start, node@.before(i as int), 0) == Ok::<_, ErrorView>(
                    annotation@,
                ),
                forall|j: int|
                    0 <= j < i && Annotation::bears_text(#[trigger] node@.children[j])
                        && Annotation::spec_try_from(node@.before(j)) is Ok
                        ==> node@.children[j].text is Some,
            decreases node.children.len() - i,
        {
            let child = &node.children[i];
            proof {
                Annotation::lemma_fill_next(start, node@, i as int);
            }
            if child.is_element() {
                let ghost before = annotation@;
                let tag = child.name.as_str();
                if same_text(tag, "documentation") {
                    match &child.text {
                        None => {
                            return None;
                        },
                        Some(text) => {
                            annotation.documentation.push(text.clone());
                            assert(annotation@.documentation =~= before.documentation.push(
                                text@,
                            ));
                        },
                    }
                } else if same_text(tag, "appinfo") {
                    match &child.text {
                        None => {
                            return None;
                        },
                        Some(text) => {
                            annotation.app_info.push(text.clone());
                            assert(annotation@.app_info =~= before.app_info.push(text@));
                        },
                    }
                } else {
                    proof {
                        Annotation::lemma_stopped(start, node@, i as int);
                    }
                    return Some(
                        Err(
                            Error::UnhandledTag {
                                parent: node.name.clone(),
                                tag: child.name.clone(),
                            },
                        ),
                    );
                }
            }
            i += 1;
        }
        proof {
            lemma_before_end(node@);
            Annotation::lemma_holds(node@);
        }
        Some(Ok(annotation))
    }

    /// Builds the annotation from an `annotation` node.
    pub fn try_from(node: &Node) -> (r: Result<Annotation, Error>)
        requires
            Annotation::admits(node@),
        ensures
            outcome(r) == Annotation::spec_try_from(node@),
            r matches Ok(built) ==> Annotation::holds(built@, node@),
    {
        Annotation::build(node).unwrap()
    }
}

/// A `simpleType` declaration.
#[derive(Debug, Default, PartialEq)]
pub struct SimpleType {
    pub name: Option<String>,
    pub restriction: Option<Restriction>,
    pub annotation: Option<Annotation>,
}

/// The view of a [`SimpleType`]: the same parts, with sequences of characters for
/// strings and mathematical sequences for vectors.
pub struct SimpleTypeView {
    pub name: Option<Seq<char>>,
    pub restriction: Option<RestrictionView>,
    pub annotation: Option<AnnotationView>,
}

impl View for SimpleType {
    type V = SimpleTypeView;

    open spec fn view(&self) -> SimpleTypeView {
        SimpleTypeView {
            name: text_of(self.name),
            restriction: match self.restriction {
                Some(r) => Some(r@),
                None => None,
            },
            annotation: match self.annotation {
                Some(a) => Some(a@),
                None => None,
            },
        }
    }
}

impl SimpleType {
    /// Whether `child` is an element tagged `annotation`.
    pub open spec fn is_annotation(child: NodeView) -> bool {
        child.is_element() && child.name == "annotation"@
    }

    /// Every `annotation` child that the construction gets to, the children
    /// before it having been added without error, must have the text that an
    /// annotation must have.
    pub open spec fn admits(node: NodeView) -> bool {
        forall|i: int|
            0 <= i < node.children.len() && SimpleType::is_annotation(#[trigger] node.children[i])
                && SimpleType::spec_try_from(node.before(i)) is Ok ==> Annotation::admits(
                node.children[i],
            )
    }

    /// The type `acc` after the child element `child` of a node named
    /// `parent` has been added: a `restriction` or an `annotation` takes the
    /// place of an earlier one of its kind, and any other tag is not handled.
    pub open spec fn add(acc: SimpleTypeView, parent: Seq<char>, child: NodeView) -> Result<
        SimpleTypeView,
        ErrorView,
    > {
        if child.name == "restriction"@ {
            match Restriction::spec_try_from(child) {
                Err(e) => Err(e),
                Ok(restriction) => Ok(SimpleTypeView { restriction: Some(restriction), ..acc }),
            }
        } else if child.name == "annotation"@ {
            match Annotation::spec_try_from(child) {
                Err(e) => Err(e),
                Ok(annotation) => Ok(SimpleTypeView { annotation: Some(annotation), ..acc }),
            }
        } else {
            Err(ErrorView::UnhandledTag { parent, tag: child.name })
        }
    }

    /// The type `acc` after the children of `node` from position `from` on
    /// have been added in document order. Children that are not elements are
    /// passed over; the first child that cannot be added decides the error.
    pub open spec fn fill(acc: SimpleTypeView, node: NodeView, from: int) -> Result<
        SimpleTypeView,
        ErrorView,
    >
        decreases node.children.len() - from,
    {
        if from < 0 || from >= node.children.len() {
            Ok(acc)
        } else if !node.children[from].is_element() {
            SimpleType::fill(acc, node, from + 1)
        } else {
            match SimpleType::add(acc, node.name, node.children[from]) {
                Err(e) => Err(e),
                Ok(next) => SimpleType::fill(next, node, from + 1),
            }
        }
    }

    /// The declaration that a `simpleType` node stands for: its name, then
    /// its children.
    pub open spec fn spec_try_from(node: NodeView) -> Result<SimpleTypeView, ErrorView> {
        SimpleType::fill(
            SimpleTypeView { name: node.attribute("name"@), restriction: None, annotation: None },
            node,
            0,
        )
    }

    /// Whether a simple type handles a child element with this tag.
    pub open spec fn handles(tag: Seq<char>) -> bool {
        tag == "restriction"@ || tag == "annotation"@
    }

    /// What the children before position `upto` make of `acc` is what the
    /// children from `upto` on are added to; where they fail, their error
    /// stands, whatever comes after them.
    pub proof fn lemma_fill_prefix(acc: SimpleTypeView, node: NodeView, from: int, upto: int)
        requires
            0 <= from <= upto <= node.children.len(),
        ensures
            SimpleType::fill(acc, node, from) == match SimpleType::fill(
                acc,
                node.before(upto),
                from,
            ) {
                Ok(built) => SimpleType::fill(built, node, upto),
                Err(e) => Err(e),
            },
        decreases upto - from,
    {
        if from < upto {
            assert(node.before(upto).children[from] == node.children[from]);
            if !node.children[from].is_element() {
                SimpleType::lemma_fill_prefix(acc, node, from + 1, upto);
            } else if let Ok(next) = SimpleType::add(acc, node.name, node.children[from]) {
                SimpleType::lemma_fill_prefix(next, node, from + 1, upto);
            }
        }
    }

    /// A child element whose tag a simple type does not handle ends the
    /// construction, where the children before it were added without error,
    /// with an error that names the node and the child.
    pub proof fn lemma_unhandled_child(node: NodeView, at: int)
        requires
            0 <= at < node.children.len(),
            node.children[at].is_element(),
            !SimpleType::handles(node.children[at].name),
            SimpleType::spec_try_from(node.before(at)) is Ok,
        ensures
            SimpleType::spec_try_from(node) == Err::<SimpleTypeView, ErrorView>(
                ErrorView::UnhandledTag { parent: node.name, tag: node.children[at].name },
            ),
    {
        let start = SimpleTypeView {
            name: node.attribute("name"@),
            restriction: None,
            annotation: None,
        };
        SimpleType::lemma_fill_prefix(start, node, 0, at);
    }

    /// What the simple type built from `node` holds: the name of the node, and
    /// in each slot what the last child of that kind stands for, or nothing
    /// where there is no such child.
    pub open spec fn holds(built: SimpleTypeView, node: NodeView) -> bool {
        &&& built.name == node.attribute("name"@)
        &&& built.restriction == last_of(
            node.tagged("restriction"@),
            |c: NodeView| Restriction::spec_try_from(c)->Ok_0,
        )
        &&& built.annotation == last_of(
            node.tagged("annotation"@),
            |c: NodeView| Annotation::spec_try_from(c)->Ok_0,
        )
    }

    /// The tags that are told apart are different texts.
    proof fn lemma_tags_differ()
        ensures
            "restriction"@ != "annotation"@,
    {
        reveal_strlit("restriction");
        reveal_strlit("annotation");
        assert("restriction"@.len() == 11);
    }

    /// One more child keeps what is built in step with what the children
    /// stand for.
    proof fn lemma_holds_step(before: SimpleTypeView, node: NodeView, upto: int)
        requires
            0 <= upto < node.children.len(),
            SimpleType::holds(before, node.before(upto)),
        ensures
            !node.children[upto].is_element() ==> SimpleType::holds(before, node.before(upto + 1)),
            node.children[upto].is_element() ==> (SimpleType::add(
                before,
                node.name,
                node.children[upto],
            ) matches Ok(next) ==> SimpleType::holds(next, node.before(upto + 1))),
    {
        SimpleType::lemma_tags_differ();
        lemma_tagged_step(node, "restriction"@, upto);
        lemma_tagged_step(node, "annotation"@, upto);
    }

    /// What is built from the children before position `upto` holds what
    /// those children stand for.
    proof fn lemma_holds_prefix(node: NodeView, upto: int)
        requires
            0 <= upto <= node.children.len(),
            SimpleType::spec_try_from(node) is Ok,
        ensures
            SimpleType::spec_try_from(node.before(upto)) matches Ok(built) && SimpleType::holds(
                built,
                node.before(upto),
            ),
        decreases upto,
    {
        reveal_with_fuel(SimpleType::fill, 2);
        let start = SimpleTypeView {
            name: node.attribute("name"@),
            restriction: None,
            annotation: None,
        };
        SimpleType::lemma_fill_prefix(start, node, 0, upto);
        let head = node.before(upto);
        if upto > 0 {
            let shorter = node.before(upto - 1);
            SimpleType::lemma_holds_prefix(node, upto - 1);
            assert(head.before(upto - 1) == shorter) by {
                assert(head.children.take(upto - 1) =~= node.children.take(upto - 1));
            }
            SimpleType::lemma_fill_prefix(start, head, 0, upto - 1);
            SimpleType::lemma_holds_step(SimpleType::spec_try_from(shorter)->Ok_0, node, upto - 1);
        }
    }

    /// Each slot of the simple type built from a node holds what the last
    /// child of its kind stands for, and is empty where there is none.
    pub proof fn lemma_holds(node: NodeView)
        requires
            SimpleType::spec_try_from(node) is Ok,
        ensures
            SimpleType::holds(SimpleType::spec_try_from(node)->Ok_0, node),
    {
        SimpleType::lemma_holds_prefix(node, node.children.len() as int);
        lemma_before_end(node);
    }

    /// One more child is added to what the children before it have made, or
    /// passed over; an error before it stands.
    proof fn lemma_fill_next(acc: SimpleTypeView, node: NodeView, upto: int)
        requires
            0 <= upto < node.children.len(),
        ensures
            SimpleType::fill(acc, node.before(upto + 1), 0) == match SimpleType::fill(
                acc,
                node.before(upto),
                0,
            ) {
                Err(e) => Err(e),
                Ok(built) => if !node.children[upto].is_element() {
                    Ok(built)
                } else {
                    SimpleType::add(built, node.name, node.children[upto])
                },
            },
    {
        reveal_with_fuel(SimpleType::fill, 2);
        let longer = node.before(upto + 1);
        assert(longer.before(upto) == node.before(upto)) by {
            assert(longer.children.take(upto) =~= node.children.take(upto));
        }
        SimpleType::lemma_fill_prefix(acc, longer, 0, upto);
    }

    /// An error among the first children stands, however many more follow.
    proof fn lemma_failure_stays(acc: SimpleTypeView, node: NodeView, upto: int, later: int)
        requires
            0 <= upto <= later <= node.children.len(),
            SimpleType::fill(acc, node.before(upto), 0) is Err,
        ensures
            SimpleType::fill(acc, node.before(later), 0) == SimpleType::fill(
                acc,
                node.before(upto),
                0,
            ),
    {
        let longer = node.before(later);
        assert(longer.before(upto) == node.before(upto)) by {
            assert(longer.children.take(upto) =~= node.children.take(upto));
        }
        SimpleType::lemma_fill_prefix(acc, longer, 0, upto);
    }

    /// An error at a child decides the outcome, and the construction gets to
    /// no child after it.
    proof fn lemma_stopped(acc: SimpleTypeView, node: NodeView, at: int)
        requires
            0 <= at < node.children.len(),
            SimpleType::fill(acc, node.before(at + 1), 0) is Err,
        ensures
            SimpleType::fill(acc, node, 0) == SimpleType::fill(acc, node.before(at + 1), 0),
            forall|j: int|
                at < j <= node.children.len() ==> #[trigger] SimpleType::fill(
                    acc,
                    node.before(j),
                    0,
                ) is Err,
    {
        SimpleType::lemma_failure_stays(acc, node, at + 1, node.children.len() as int);
        lemma_before_end(node);
        assert forall|j: int| at < j <= node.children.len() implies #[trigger] SimpleType::fill(
            acc,
            node.before(j),
            0,
        ) is Err by {
            SimpleType::lemma_failure_stays(acc, node, at + 1, j);
        }
    }

    /// Builds the declaration from a `simpleType` node, where the node has
    /// the text that it must have; says so where it has not.
    pub fn build(node: &Node) -> (r: Option<Result<SimpleType, Error>>)
        ensures
            match r {
                None => !SimpleType::admits(node@),
                Some(built) => SimpleType::admits(node@) && outcome(built)
                    == SimpleType::spec_try_from(node@) && (built matches Ok(simple_type)
                    ==> SimpleType::holds(simple_type@, node@)),
            },
    {
        let mut simple_type = SimpleType {
            name: owned(node.attribute("name")),
            restriction: None,
            annotation: None,
        };
        let ghost start = simple_type@;
        let mut i: usize = 0;
        while i < node.children.len()
            invariant
                i <= node.children.len(),
                node@.children.len() == node.children.len(),
                start == (SimpleTypeView {
                    name: node@.attribute("name"@),
                    restriction: None,
                    annotation: None,
                }),
                SimpleType::fill(start, node@.before(i as int), 0) == Ok::<_, ErrorView>(
                    simple_type@,
                ),
                forall|j: int|
                    0 <= j < i && SimpleType::is_annotation(#[trigger] node@.children[j])
                        && SimpleType::spec_try_from(node@.before(j)) is Ok
                        ==> Annotation::admits(node@.children[j]),
            decreases node.children.len() - i,
        {
            let child = &node.children[i];
            proof {
                SimpleType::lemma_fill_next(start, node@, i as int);
                SimpleType::lemma_tags_differ();
            }
            if child.is_element() {
                let tag = child.name.as_str();
                if same_text(tag, "restriction") {
                    match Restriction::try_from(child) {
                        Ok(restriction) => {
                            simple_type.restriction = Some(restriction);
                        },
                        Err(e) => {
                            proof {
                                SimpleType::lemma_stopped(start, node@, i as int);
                            }
                            return Some(Err(e));
                        },
                    }
                } else if same_text(tag, "annotation") {
                    match Annotation::build(child) {
                        None => {
                            return None;
                        },
                        Some(Ok(annotation)) => {
                            simple_type.annotation = Some(annotation);
                        },
                        Some(Err(e)) => {
                            proof {
                                SimpleType::lemma_stopped(start, node@, i as int);
                            }
                            return Some(Err(e));
                        },
                    }
                } else {
                    proof {
                        SimpleType::lemma_stopped(start, node@, i as int);
                    }
                    return Some(
                        Err(
                            Error::UnhandledTag {
                                parent: node.name.clone(),
                                tag: child.name.clone(),
                            },
                        ),
                    );
                }
            }
            i += 1;
        }
        proof {
            lemma_before_end(node@);
            SimpleType::lemma_holds(node@);
        }
        Some(Ok(simple_type))
    }

    /// Builds the declaration from a `simpleType` node.
    pub fn try_from(node: &Node) -> (r: Result<SimpleType, Error>)
        requires
            SimpleType::admits(node@),
        ensures
            outcome(r) == SimpleType::spec_try_from(node@),
            r matches Ok(built) ==> SimpleType::holds(built@, node@),
    {
        SimpleType::build(node).unwrap()
    }
}

} // verus!
