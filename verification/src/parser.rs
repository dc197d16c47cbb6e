//! The walk over documents and the resolution of the documents they name.

use crate::complex_type::{ComplexType, ComplexTypeView};
use crate::element::{Element, ElementView};
use crate::errors::{outcome, Error, ErrorView};
use crate::import::{Import, ImportView};
use crate::inclusion::{Include, IncludeView};
use crate::node::{Node, NodeKind, NodeView};
use crate::schema::{Schema, SchemaView};
use crate::simple_type::{SimpleType, SimpleTypeView};
use crate::text::{owned_copy, same_text, text_of};
use std::collections::VecDeque;
use vstd::pervasive::unreached;
use vstd::prelude::*;

verus! {

/// A top-level declaration of a schema document.
#[derive(Debug, PartialEq)]
pub enum Elements {
    Schema(Schema),
    Import(Import),
    Include(Include),
    Element(Element),
    SimpleType(SimpleType),
    ComplexType(Box<ComplexType>),
}

/// The view of an [`Elements`]: the same parts, with sequences of characters for
/// strings and mathematical sequences for vectors.
pub enum ElementsView {
    Schema(SchemaView),
    Import(ImportView),
    Include(IncludeView),
    Element(ElementView),
    SimpleType(SimpleTypeView),
    ComplexType(ComplexTypeView),
}

impl View for Elements {
    type V = ElementsView;

    open spec fn view(&self) -> ElementsView {
        match *self {
            Elements::Schema(s) => ElementsView::Schema(s@),
            Elements::Import(i) => ElementsView::Import(i@),
            Elements::Include(i) => ElementsView::Include(i@),
            Elements::Element(e) => ElementsView::Element(e@),
            Elements::SimpleType(s) => ElementsView::SimpleType(s@),
            Elements::ComplexType(c) => ElementsView::ComplexType(c@),
        }
    }
}

/// One step of the walk over a document.
#[derive(Debug)]
pub enum Step {
    /// Append this declaration to the output.
    Declare(Elements),
    /// Walk the document at this schema location before going on.
    Resolve(String),
    /// Stop with this error.
    Fail(Error),
    /// Stop: the walk has come to a node that lacks what its declaration
    /// must have, so that none can be built from it.
    Break,
}

/// The view of a [`Step`]: the same parts, with sequences of characters for
/// strings and mathematical sequences for vectors.
pub enum StepView {
    Declare(ElementsView),
    Resolve(Seq<char>),
    Fail(ErrorView),
    Break,
}

impl View for Step {
    type V = StepView;

    open spec fn view(&self) -> StepView {
        match *self {
            Step::Declare(d) => StepView::Declare(d@),
            Step::Resolve(l) => StepView::Resolve(l@),
            Step::Fail(e) => StepView::Fail(e@),
            Step::Break => StepView::Break,
        }
    }
}

/// The steps of a list, by their views.
pub open spec fn steps_view(steps: Seq<Step>) -> Seq<StepView> {
    steps.map_values(|s: Step| s@)
}

/// The declarations of a list, by their views.
pub open spec fn elements_view(elements: Seq<Elements>) -> Seq<ElementsView> {
    elements.map_values(|e: Elements| e@)
}

/// Whether a run of steps ends in a failure or a break, after which no step
/// is taken.
pub open spec fn stopped(steps: Seq<StepView>) -> bool {
    steps.len() > 0 && (steps.last() is Fail || steps.last() is Break)
}

/// The steps that a directive with the schema location `location` gives:
/// where it has one, the document there is walked first, and the directive
/// itself is declared after it.
pub open spec fn directive(location: Option<Seq<char>>, declaration: ElementsView) -> Seq<
    StepView,
> {
    match location {
        Some(l) => seq![StepView::Resolve(l), StepView::Declare(declaration)],
        None => seq![StepView::Declare(declaration)],
    }
}

/// The steps that one declaration gives: it is declared, or its error ends the walk.
pub open spec fn declare(built: Result<ElementsView, ErrorView>) -> Seq<StepView> {
    match built {
        Ok(declaration) => seq![StepView::Declare(declaration)],
        Err(e) => seq![StepView::Fail(e)],
    }
}

/// The steps for the child `child` of a node named `parent`. A `schema` is
/// declared and then walked itself, so that what it holds follows it in the
/// same flat list. An `import` or `include` is a directive. An `element`, a
/// `simpleType` or a `complexType` is declared; a type that lacks what it
/// must have is a break. Any other tag is not handled.
pub open spec fn spec_visit(parent: Seq<char>, child: NodeView) -> Seq<StepView>
    decreases child, child.children.len() + 2,
{
    if child.name == "schema"@ {
        match Schema::spec_try_from(child) {
            Err(e) => seq![StepView::Fail(e)],
            Ok(s) => seq![StepView::Declare(ElementsView::Schema(s))] + spec_walk(child),
        }
    } else if child.name == "import"@ {
        match Import::spec_try_from(child) {
            Err(e) => seq![StepView::Fail(e)],
            Ok(i) => directive(i.schema_location, ElementsView::Import(i)),
        }
    } else if child.name == "include"@ {
        match Include::spec_try_from(child) {
            Err(e) => seq![StepView::Fail(e)],
            Ok(i) => directive(i.schema_location, ElementsView::Include(i)),
        }
    } else if child.name == "element"@ {
        declare(
            match Element::spec_try_from(child) {
                Ok(e) => Ok(ElementsView::Element(e)),
                Err(e) => Err(e),
            },
        )
    } else if child.name == "simpleType"@ {
        if !SimpleType::admits(child) {
            seq![StepView::Break]
        } else {
            declare(
                match SimpleType::spec_try_from(child) {
                    Ok(s) => Ok(ElementsView::SimpleType(s)),
                    Err(e) => Err(e),
                },
            )
        }
    } else if child.name == "complexType"@ {
        if !ComplexType::admits(child) {
            seq![StepView::Break]
        } else {
            declare(
                match ComplexType::spec_try_from(child) {
                    Ok(c) => Ok(ElementsView::ComplexType(c)),
                    Err(e) => Err(e),
                },
            )
        }
    } else {
        seq![StepView::Fail(ErrorView::UnhandledTag { parent, tag: child.name })]
    }
}

/// The steps for the children of `parent` from position `from` on, in
/// document order, up to and with the first failure or break. Children that
/// are neither elements nor roots are passed over.
pub open spec fn spec_walk_from(parent: NodeView, from: int) -> Seq<StepView>
    decreases parent, parent.children.len() - from,
{
    if from < 0 || from >= parent.children.len() {
        Seq::empty()
    } else if parent.children[from].kind == NodeKind::Other {
        spec_walk_from(parent, from + 1)
    } else {
        let steps = spec_visit(parent.name, parent.children[from]);
        if stopped(steps) {
            steps
        } else {
            steps + spec_walk_from(parent, from + 1)
        }
    }
}

/// The steps of the walk over what `parent` holds.
pub open spec fn spec_walk(parent: NodeView) -> Seq<StepView>
    decreases parent, parent.children.len() + 1,
{
    spec_walk_from(parent, 0)
}

/// Whether the walk handles a child with this tag.
pub open spec fn handles(tag: Seq<char>) -> bool {
    tag == "schema"@ || tag == "import"@ || tag == "include"@ || tag == "element"@ || tag
        == "simpleType"@ || tag == "complexType"@
}

/// Whether no step but the last is a failure or a break.
pub open spec fn stops_last(steps: Seq<StepView>) -> bool {
    forall|i: int|
        0 <= i < steps.len() - 1 ==> !(#[trigger] steps[i] is Fail) && !(steps[i] is Break)
}

/// The walk over the children before position `upto` is the start of the
/// walk over all of them, and all of it where it stops.
pub proof fn lemma_walk_prefix(parent: NodeView, from: int, upto: int)
    requires
        0 <= from <= upto <= parent.children.len(),
    ensures
        spec_walk_from(parent, from) == if stopped(spec_walk_from(parent.before(upto), from)) {
            spec_walk_from(parent.before(upto), from)
        } else {
            spec_walk_from(parent.before(upto), from) + spec_walk_from(parent, upto)
        },
    decreases upto - from,
{
    let head = parent.before(upto);
    if from < upto {
        assert(head.children[from] == parent.children[from]);
        lemma_walk_prefix(parent, from + 1, upto);
        if parent.children[from].kind != NodeKind::Other {
            let steps = spec_visit(parent.name, parent.children[from]);
            let short = spec_walk_from(head, from + 1);
            if !stopped(steps) {
                assert(stopped(steps + short) == stopped(short));
                assert((steps + short) + spec_walk_from(parent, upto) =~= steps + (short
                    + spec_walk_from(parent, upto)));
            }
        }
    } else {
        assert(Seq::<StepView>::empty() + spec_walk_from(parent, upto) =~= spec_walk_from(
            parent,
            upto,
        ));
    }
}

/// A child whose tag the walk does not handle ends it, where the walk over
/// the children before it did not stop, with a failure that names the
/// parent and the child.
pub proof fn lemma_unhandled_child(parent: NodeView, at: int)
    requires
        0 <= at < parent.children.len(),
        parent.children[at].kind != NodeKind::Other,
        !handles(parent.children[at].name),
        !stopped(spec_walk(parent.before(at))),
    ensures
        spec_walk(parent) == spec_walk(parent.before(at)) + seq![
            StepView::Fail(
                ErrorView::UnhandledTag { parent: parent.name, tag: parent.children[at].name },
            ),
        ],
{
    reveal_with_fuel(spec_walk_from, 2);
    lemma_walk_prefix(parent, 0, at);
}

/// A directive that names a schema location asks for the document there
/// first and is declared right after it; one that names none is declared
/// and asks for nothing.
pub proof fn lemma_directive_follows_its_document(parent: Seq<char>, child: NodeView)
    ensures
        child.name == "import"@ ==> spec_visit(parent, child) == directive(
            child.attribute("schemaLocation"@),
            ElementsView::Import(Import::spec_try_from(child)->Ok_0),
        ),
        child.name == "include"@ ==> spec_visit(parent, child) == directive(
            child.attribute("schemaLocation"@),
            ElementsView::Include(Include::spec_try_from(child)->Ok_0),
        ),
        forall|location: Seq<char>, declaration: ElementsView|
            #[trigger] directive(Some(location), declaration) == seq![
                StepView::Resolve(location),
                StepView::Declare(declaration),
            ],
{
    reveal_strlit("schema");
    reveal_strlit("import");
    reveal_strlit("include");
    assert("import"@.len() == 6);
    assert("schema"@[0] != "import"@[0]);
}

/// Whether the child at position `at` is the only child of `parent` that the
/// walk visits: every other child is neither an element nor a root.
pub open spec fn only_visits(parent: NodeView, at: int) -> bool {
    &&& 0 <= at < parent.children.len()
    &&& parent.children[at].kind != NodeKind::Other
    &&& forall|j: int|
        0 <= j < parent.children.len() && j != at ==> (#[trigger] parent.children[j]).kind
            == NodeKind::Other
}

/// Children that are not visited add no step.
proof fn lemma_walk_skips(parent: NodeView, from: int, upto: int)
    requires
        0 <= from <= upto <= parent.children.len(),
        forall|j: int| from <= j < upto ==> (#[trigger] parent.children[j]).kind == NodeKind::Other,
    ensures
        spec_walk_from(parent, from) == spec_walk_from(parent, upto),
    decreases upto - from,
{
    if from < upto {
        lemma_walk_skips(parent, from + 1, upto);
    }
}

/// The walk over a node that has one child to visit is made of the steps
/// for that child.
pub proof fn lemma_walk_of_one(parent: NodeView, at: int)
    requires
        only_visits(parent, at),
    ensures
        spec_walk(parent) == spec_visit(parent.name, parent.children[at]),
{
    lemma_walk_skips(parent, 0, at);
    lemma_walk_skips(parent, at + 1, parent.children.len() as int);
    let steps = spec_visit(parent.name, parent.children[at]);
    assert(spec_walk_from(parent, parent.children.len() as int) == Seq::<StepView>::empty());
    assert(steps + Seq::<StepView>::empty() =~= steps);
}

/// A `schema` whose metadata can be built is declared, and what it holds
/// follows it.
pub proof fn lemma_visit_schema(parent: Seq<char>, child: NodeView)
    requires
        child.name == "schema"@,
        Schema::spec_try_from(child) is Ok,
    ensures
        spec_visit(parent, child) == seq![
            StepView::Declare(ElementsView::Schema(Schema::spec_try_from(child)->Ok_0)),
        ] + spec_walk(child),
{
}

/// A `complexType` that has what it must have and can be built is declared.
pub proof fn lemma_visit_complex_type(parent: Seq<char>, child: NodeView)
    requires
        child.name == "complexType"@,
        ComplexType::admits(child),
        ComplexType::spec_try_from(child) is Ok,
    ensures
        spec_visit(parent, child) == seq![
            StepView::Declare(ElementsView::ComplexType(ComplexType::spec_try_from(child)->Ok_0)),
        ],
{
    reveal_strlit("schema");
    reveal_strlit("import");
    reveal_strlit("include");
    reveal_strlit("element");
    reveal_strlit("simpleType");
    reveal_strlit("complexType");
    assert("complexType"@.len() == 11);
    assert("schema"@.len() == 6);
    assert("import"@.len() == 6);
    assert("include"@.len() == 7);
    assert("element"@.len() == 7);
    assert("simpleType"@.len() == 10);
}

/// An `element` that can be built is declared.
pub proof fn lemma_visit_element(parent: Seq<char>, child: NodeView)
    requires
        child.name == "element"@,
        Element::spec_try_from(child) is Ok,
    ensures
        spec_visit(parent, child) == seq![
            StepView::Declare(ElementsView::Element(Element::spec_try_from(child)->Ok_0)),
        ],
{
    reveal_strlit("schema");
    reveal_strlit("import");
    reveal_strlit("include");
    reveal_strlit("element");
    assert("element"@.len() == 7);
    assert("schema"@.len() == 6);
    assert("import"@.len() == 6);
    assert("include"@[0] != "element"@[0]);
}

/// A `simpleType` that has what it must have and can be built is declared.
pub proof fn lemma_visit_simple_type(parent: Seq<char>, child: NodeView)
    requires
        child.name == "simpleType"@,
        SimpleType::admits(child),
        SimpleType::spec_try_from(child) is Ok,
    ensures
        spec_visit(parent, child) == seq![
            StepView::Declare(ElementsView::SimpleType(SimpleType::spec_try_from(child)->Ok_0)),
        ],
{
    reveal_strlit("schema");
    reveal_strlit("import");
    reveal_strlit("include");
    reveal_strlit("element");
    reveal_strlit("simpleType");
    assert("simpleType"@.len() == 10);
    assert("schema"@.len() == 6);
    assert("import"@.len() == 6);
    assert("include"@.len() == 7);
    assert("element"@.len() == 7);
}

/// The test for a child that the walk visits.
pub open spec fn is_visited() -> spec_fn(NodeView) -> bool {
    |c: NodeView| c.kind != NodeKind::Other
}

/// The children of `parent` that the walk visits, in document order.
pub open spec fn visited(parent: NodeView) -> Seq<NodeView> {
    parent.children.filter(is_visited())
}

/// Whether the steps for `child` under a node named `parent` are one
/// declaration and nothing else.
pub open spec fn declares(parent: Seq<char>, child: NodeView) -> bool {
    spec_visit(parent, child).len() == 1 && spec_visit(parent, child)[0] is Declare
}

/// What a child that is declared is declared as.
pub open spec fn declaration_of(parent: Seq<char>) -> spec_fn(NodeView) -> ElementsView {
    |c: NodeView| spec_visit(parent, c)[0]->Declare_0
}

/// Where every child that is visited from position `from` on is declared,
/// the walk from there on declares each of them, in document order, and
/// does nothing else.
proof fn lemma_walk_declares_from(parent: NodeView, from: int)
    requires
        0 <= from <= parent.children.len(),
        forall|i: int|
            from <= i < parent.children.len() && (#[trigger] parent.children[i]).kind
                != NodeKind::Other ==> declares(parent.name, parent.children[i]),
    ensures
        all_declared(spec_walk_from(parent, from)),
        declared(
            spec_walk_from(parent, from),
            spec_walk_from(parent, from).len() as int,
        ) == parent.children.subrange(from, parent.children.len() as int).filter(
            is_visited(),
        ).map_values(declaration_of(parent.name)),
    decreases parent.children.len() - from,
{
    let rest = parent.children.subrange(from, parent.children.len() as int);
    let steps = spec_walk_from(parent, from);
    if from < parent.children.len() {
        let child = parent.children[from];
        let later = parent.children.subrange(from + 1, parent.children.len() as int);
        lemma_walk_declares_from(parent, from + 1);
        assert(rest =~= seq![child] + later);
        later.lemma_filter_prepend(child, is_visited());
        let after = spec_walk_from(parent, from + 1);
        if child.kind != NodeKind::Other {
            let found = spec_visit(parent.name, child);
            assert(found =~= seq![found[0]]);
            assert(steps == found + after);
            assert(declared(steps, steps.len() as int) =~= seq![found[0]->Declare_0] + declared(
                after,
                after.len() as int,
            ));
            assert((seq![child] + later.filter(is_visited())).map_values(
                declaration_of(parent.name),
            ) =~= seq![found[0]->Declare_0] + later.filter(is_visited()).map_values(
                declaration_of(parent.name),
            ));
        }
    } else {
        reveal(Seq::filter);
        assert(declared(steps, steps.len() as int) =~= rest.filter(is_visited()).map_values(
            declaration_of(parent.name),
        ));
    }
}

/// Where every child of `parent` that is visited is declared, the walk
/// over `parent` declares each of them, in document order, and does nothing
/// else: no entry is missing and none is added.
pub proof fn lemma_walk_declares(parent: NodeView)
    requires
        forall|i: int|
            0 <= i < parent.children.len() && (#[trigger] parent.children[i]).kind
                != NodeKind::Other ==> declares(parent.name, parent.children[i]),
    ensures
        all_declared(spec_walk(parent)),
        declared(spec_walk(parent), spec_walk(parent).len() as int) == visited(
            parent,
        ).map_values(declaration_of(parent.name)),
{
    lemma_walk_declares_from(parent, 0);
    assert(parent.children.subrange(0, parent.children.len() as int) =~= parent.children);
}

/// The steps for a child stop in the last step or not at all.
proof fn lemma_visit_stops_last(parent: Seq<char>, child: NodeView)
    ensures
        stops_last(spec_visit(parent, child)),
    decreases child, 1int, 0int,
{
    if child.name == "schema"@ && Schema::spec_try_from(child) is Ok {
        lemma_walk_stops_last(child, 0);
    }
}

/// The steps for the children from `from` on stop in the last step or not at all.
proof fn lemma_walk_stops_last(parent: NodeView, from: int)
    ensures
        stops_last(spec_walk_from(parent, from)),
    decreases parent, 0int, parent.children.len() - from,
{
    if 0 <= from < parent.children.len() {
        lemma_walk_stops_last(parent, from + 1);
        if parent.children[from].kind != NodeKind::Other {
            lemma_visit_stops_last(parent.name, parent.children[from]);
        }
    }
}

/// The first failure or break ends the walk: no step but the last is one.
pub proof fn lemma_stop_is_last(parent: NodeView)
    ensures
        stops_last(spec_walk(parent)),
{
    lemma_walk_stops_last(parent, 0);
}

/// Appends a step to a list.
fn push_step(steps: &mut Vec<Step>, step: Step)
    ensures
        steps_view(final(steps)@) == steps_view(old(steps)@) + seq![step@],
{
    steps.push(step);
}

/// Appends the steps of a directive to a list.
fn push_directive(steps: &mut Vec<Step>, location: &Option<String>, declaration: Elements)
    ensures
        steps_view(final(steps)@) == steps_view(old(steps)@) + directive(
            text_of(*location),
            declaration@,
        ),
{
    match location {
        Some(l) => {
            push_step(steps, Step::Resolve(l.clone()));
        },
        None => {},
    }
    push_step(steps, Step::Declare(declaration));
}

/// Appends the steps for one child to a list, and says whether the walk goes on.
fn visit(parent: &Node, child: &Node, steps: &mut Vec<Step>) -> (completed: bool)
    ensures
        steps_view(final(steps)@) == steps_view(old(steps)@) + spec_visit(parent@.name, child@),
        completed == !stopped(spec_visit(parent@.name, child@)),
    decreases child, 1int,
{
    let tag = child.name.as_str();
    if same_text(tag, "schema") {
        match Schema::try_from(child) {
            Err(e) => {
                push_step(steps, Step::Fail(e));
                false
            },
            Ok(schema) => {
                push_step(steps, Step::Declare(Elements::Schema(schema)));
                walk(child, steps)
            },
        }
    } else if same_text(tag, "import") {
        match Import::try_from(child) {
            Err(e) => {
                push_step(steps, Step::Fail(e));
                false
            },
            Ok(import) => {
                let location = owned_copy(&import.schema_location);
                push_directive(steps, &location, Elements::Import(import));
                true
            },
        }
    } else if same_text(tag, "include") {
        match Include::try_from(child) {
            Err(e) => {
                push_step(steps, Step::Fail(e));
                false
            },
            Ok(inclusion) => {
                let location = owned_copy(&inclusion.schema_location);
                push_directive(steps, &location, Elements::Include(inclusion));
                true
            },
        }
    } else if same_text(tag, "element") {
        match Element::try_from(child) {
            Err(e) => {
                push_step(steps, Step::Fail(e));
                false
            },
            Ok(element) => {
                push_step(steps, Step::Declare(Elements::Element(element)));
                true
            },
        }
    } else if same_text(tag, "simpleType") {
        match SimpleType::build(child) {
            None => {
                push_step(steps, Step::Break);
                false
            },
            Some(Err(e)) => {
                push_step(steps, Step::Fail(e));
                false
            },
            Some(Ok(simple_type)) => {
                push_step(steps, Step::Declare(Elements::SimpleType(simple_type)));
                true
            },
        }
    } else if same_text(tag, "complexType") {
        match ComplexType::build(child) {
            None => {
                push_step(steps, Step::Break);
                false
            },
            Some(Err(e)) => {
                push_step(steps, Step::Fail(e));
                false
            },
            Some(Ok(complex_type)) => {
                push_step(steps, Step::Declare(Elements::ComplexType(Box::new(complex_type))));
                true
            },
        }
    } else {
        push_step(
            steps,
            Step::Fail(
                Error::UnhandledTag { parent: parent.name.clone(), tag: child.name.clone() },
            ),
        );
        false
    }
}

/// Appends the steps of the walk over what `parent` holds to a list, and says
/// whether the walk came to its end without a failure.
fn walk(parent: &Node, steps: &mut Vec<Step>) -> (completed: bool)
    ensures
        steps_view(final(steps)@) == steps_view(old(steps)@) + spec_walk(parent@),
        completed == !stopped(spec_walk(parent@)),
    decreases parent, 0int,
{
    let ghost before = steps_view(steps@);
    let ghost done: Seq<StepView> = Seq::empty();
    let mut i: usize = 0;
    while i < parent.children.len()
        invariant
            i <= parent.children.len(),
            parent@.children.len() == parent.children.len(),
            before == steps_view(old(steps)@),
            steps_view(steps@) == before + done,
            !stopped(done),
            done + spec_walk_from(parent@, i as int) == spec_walk(parent@),
        decreases parent.children.len() - i,
    {
        let child = &parent.children[i];
        match child.kind {
            NodeKind::Other => {},
            _ => {
                if !visit(parent, child, steps) {
                    return false;
                }
                proof {
                    done = done + spec_visit(parent@.name, child@);
                }
            },
        }
        i += 1;
    }
    true
}

/// What the resolution of a forest of documents asks for next.
#[derive(Debug, PartialEq)]
pub enum Request {
    /// The document at this schema location, to be loaded next.
    Document(String),
    /// Nothing: every declaration is in the output.
    Finished,
}

/// The view of a [`Request`]: the same parts, with sequences of characters for
/// strings and mathematical sequences for vectors.
pub enum RequestView {
    Document(Seq<char>),
    Finished,
}

impl View for Request {
    type V = RequestView;

    open spec fn view(&self) -> RequestView {
        match *self {
            Request::Document(l) => RequestView::Document(l@),
            Request::Finished => RequestView::Finished,
        }
    }
}

/// The position of the first step at or after `from` that is no declaration;
/// the length of the list where every step from there on is one.
pub open spec fn halt_from(pending: Seq<StepView>, from: int) -> int
    decreases pending.len() - from,
{
    if from >= pending.len() {
        pending.len() as int
    } else if from >= 0 && !(pending[from] is Declare) {
        from
    } else {
        halt_from(pending, from + 1)
    }
}

/// The declarations of the first `count` steps.
pub open spec fn declared(pending: Seq<StepView>, count: int) -> Seq<ElementsView> {
    Seq::new(count as nat, |i: int| pending[i]->Declare_0)
}

/// Whether every step is a declaration.
pub open spec fn all_declared(steps: Seq<StepView>) -> bool {
    forall|i: int| 0 <= i < steps.len() ==> #[trigger] steps[i] is Declare
}

/// The halt is a position of the list or its end, and every step before it
/// is a declaration.
pub proof fn lemma_halt(pending: Seq<StepView>, from: int)
    requires
        0 <= from <= pending.len(),
    ensures
        from <= halt_from(pending, from) <= pending.len(),
        forall|i: int| from <= i < halt_from(pending, from) ==> #[trigger] pending[i] is Declare,
        halt_from(pending, from) < pending.len() ==> !(pending[halt_from(pending, from)]
            is Declare),
    decreases pending.len() - from,
{
    if from < pending.len() && pending[from] is Declare {
        lemma_halt(pending, from + 1);
    }
}

/// Behind a run of steps the halt is where it is in the rest, further on
/// by the length of the run.
proof fn lemma_halt_shift(first: Seq<StepView>, rest: Seq<StepView>, from: int)
    requires
        0 <= from,
    ensures
        halt_from(first + rest, first.len() + from) == first.len() + halt_from(rest, from),
    decreases rest.len() - from,
{
    if from < rest.len() {
        if rest[from] is Declare {
            lemma_halt_shift(first, rest, from + 1);
        }
    }
}

/// No halt is at a declaration: within a run of declarations the halt is
/// the one from its end on.
proof fn lemma_halt_skip(first: Seq<StepView>, rest: Seq<StepView>, from: int)
    requires
        0 <= from <= first.len(),
        all_declared(first),
    ensures
        halt_from(first + rest, from) == halt_from(first + rest, first.len() as int),
    decreases first.len() - from,
{
    if from < first.len() {
        lemma_halt_skip(first, rest, from + 1);
    }
}

/// Declarations at the head of what is pending go to the output first and
/// in their order, ahead of whatever is pending behind them. So what a
/// document declares comes before the directive that asked for it, which
/// was pending when the document was loaded.
pub proof fn lemma_declarations_first(first: Seq<StepView>, rest: Seq<StepView>)
    requires
        all_declared(first),
    ensures
        halt_from(first + rest, 0) == first.len() + halt_from(rest, 0),
        declared(first + rest, halt_from(first + rest, 0)) == declared(first, first.len() as int)
            + declared(rest, halt_from(rest, 0)),
{
    lemma_halt_skip(first, rest, 0);
    lemma_halt_shift(first, rest, 0);
    lemma_halt(rest, 0);
}

/// The resolution of a schema document and of the documents that it imports
/// and includes, into one flat list of declarations.
///
/// A resolution starts with [`Parser::new`] and the entry document handed to
/// [`Parser::load`]. After that [`Parser::advance`] is called until it
/// answers [`Request::Finished`] or fails; each time it answers
/// [`Request::Document`], the document asked for is handed to
/// [`Parser::load`] first. `elements` is the output so far.
#[derive(Debug)]
pub struct Parser {
    pub elements: Vec<Elements>,
    root_folder: String,
    agenda: VecDeque<Step>,
}

/// The view of a [`Parser`]: the same parts, with sequences of characters for
/// strings and mathematical sequences for vectors.
pub struct ParserView {
    /// The declarations in the output.
    pub elements: Seq<ElementsView>,
    /// The folder against which schema locations are resolved.
    pub root_folder: Seq<char>,
    /// The steps still to be taken, next one first.
    pub pending: Seq<StepView>,
}

impl View for Parser {
    type V = ParserView;

    closed spec fn view(&self) -> ParserView {
        ParserView {
            elements: elements_view(self.elements@),
            root_folder: self.root_folder@,
            pending: steps_view(self.agenda@),
        }
    }
}

/// The state after the walk over `document` has been put before everything
/// that is pending.
pub open spec fn spec_load(state: ParserView, document: NodeView) -> ParserView {
    ParserView { pending: spec_walk(document) + state.pending, ..state }
}

/// Whether the next halt is at a break, where no step can be taken.
pub open spec fn breaks(state: ParserView) -> bool {
    let halt = halt_from(state.pending, 0);
    halt < state.pending.len() && state.pending[halt] is Break
}

/// The state after the steps up to the next halt have been taken, and what
/// is answered there. The declarations before the halt go to the output. At
/// the end of the steps the resolution is finished. A step that asks for a
/// document is taken, and the document is asked for. A failure is answered
/// with its error, and nothing is kept of the output or of what was pending.
pub open spec fn spec_advance(state: ParserView) -> (ParserView, Result<RequestView, ErrorView>) {
    let halt = halt_from(state.pending, 0);
    let output = state.elements + declared(state.pending, halt);
    if halt >= state.pending.len() {
        (
            ParserView { elements: output, pending: Seq::empty(), ..state },
            Ok(RequestView::Finished),
        )
    } else {
        match state.pending[halt] {
            StepView::Fail(e) => (
                ParserView { elements: Seq::empty(), pending: Seq::empty(), ..state },
                Err(e),
            ),
            StepView::Resolve(location) => (
                ParserView {
                    elements: output,
                    pending: state.pending.subrange(halt + 1, state.pending.len() as int),
                    ..state
                },
                Ok(RequestView::Document(location)),
            ),
            // the halt is never at a declaration, and no step is taken at a break
            StepView::Declare(_) | StepView::Break => (state, Ok(RequestView::Finished)),
        }
    }
}

/// A loaded document that asks for nothing and does not stop has its
/// declarations put out ahead of those that were pending, and the answer is
/// the one that was due before it was loaded. So what an imported document
/// declares comes before the directive that asked for it.
pub proof fn lemma_loaded_comes_first(state: ParserView, document: NodeView)
    requires
        all_declared(spec_walk(document)),
        !breaks(state),
        spec_advance(state).1 is Ok,
    ensures
        spec_advance(spec_load(state, document)).1 == spec_advance(state).1,
        spec_advance(spec_load(state, document)).0.elements == state.elements + declared(
            spec_walk(document),
            spec_walk(document).len() as int,
        ) + declared(state.pending, halt_from(state.pending, 0)),
        spec_advance(spec_load(state, document)).0.pending == spec_advance(state).0.pending,
        breaks(spec_load(state, document)) == breaks(state),
{
    lemma_declarations_first(spec_walk(document), state.pending);
    lemma_halt(state.pending, 0);
}

/// From a declaration followed by a step that asks for a document, the
/// declaration goes to the output and the document is asked for.
proof fn lemma_advance_to_request(
    state: ParserView,
    first: ElementsView,
    location: Seq<char>,
    rest: Seq<StepView>,
)
    requires
        state.pending == seq![StepView::Declare(first), StepView::Resolve(location)] + rest,
    ensures
        !breaks(state),
        spec_advance(state).1 == Ok::<RequestView, ErrorView>(RequestView::Document(location)),
        spec_advance(state).0 == (ParserView {
            elements: state.elements.push(first),
            pending: rest,
            ..state
        }),
{
    reveal_with_fuel(halt_from, 3);
    let pending = state.pending;
    assert(pending[0] == StepView::Declare(first));
    assert(pending[1] == StepView::Resolve(location));
    assert(halt_from(pending, 0) == 1);
    assert(state.elements + declared(pending, 1) =~= state.elements.push(first));
    assert(pending.subrange(2, pending.len() as int) =~= rest);
}

/// From three declarations and nothing else, all three go to the output in
/// their order and the resolution is finished.
proof fn lemma_advance_to_end(
    state: ParserView,
    first: ElementsView,
    second: ElementsView,
    third: ElementsView,
)
    requires
        state.pending == seq![
            StepView::Declare(first),
            StepView::Declare(second),
            StepView::Declare(third),
        ],
    ensures
        !breaks(state),
        spec_advance(state).1 == Ok::<RequestView, ErrorView>(RequestView::Finished),
        spec_advance(state).0 == (ParserView {
            elements: state.elements.push(first).push(second).push(third),
            pending: Seq::empty(),
            ..state
        }),
{
    reveal_with_fuel(halt_from, 5);
    let pending = state.pending;
    assert(pending[0] == StepView::Declare(first));
    assert(pending[1] == StepView::Declare(second));
    assert(pending[2] == StepView::Declare(third));
    assert(halt_from(pending, 0) == 3);
    assert(state.elements + declared(pending, 3) =~= state.elements.push(first).push(
        second,
    ).push(third));
}

/// The walk over a document that holds a `schema` that holds an `import`
/// with a schema location: the schema is declared, the document at the
/// location is asked for, and the import is declared.
proof fn lemma_walk_to_import(entry: NodeView, at: int, below: int)
    requires
        only_visits(entry, at),
        entry.children[at].name == "schema"@,
        Schema::spec_try_from(entry.children[at]) is Ok,
        only_visits(entry.children[at], below),
        entry.children[at].children[below].name == "import"@,
        entry.children[at].children[below].attribute("schemaLocation"@) is Some,
    ensures
        spec_walk(entry) == seq![
            StepView::Declare(
                ElementsView::Schema(Schema::spec_try_from(entry.children[at])->Ok_0),
            ),
            StepView::Resolve(entry.children[at].children[below].attribute("schemaLocation"@)->0),
            StepView::Declare(
                ElementsView::Import(
                    Import::spec_try_from(entry.children[at].children[below])->Ok_0,
                ),
            ),
        ],
{
    let outer = entry.children[at];
    let import = outer.children[below];
    lemma_walk_of_one(entry, at);
    lemma_visit_schema(entry.name, outer);
    lemma_walk_of_one(outer, below);
    lemma_directive_follows_its_document(outer.name, import);
    assert(spec_walk(entry) =~= seq![
        StepView::Declare(ElementsView::Schema(Schema::spec_try_from(outer)->Ok_0)),
        StepView::Resolve(import.attribute("schemaLocation"@)->0),
        StepView::Declare(ElementsView::Import(Import::spec_try_from(import)->Ok_0)),
    ]);
}

/// The walk over a document that holds a `schema` that holds a
/// `complexType`: both are declared.
proof fn lemma_walk_to_complex_type(document: NodeView, at: int, below: int)
    requires
        only_visits(document, at),
        document.children[at].name == "schema"@,
        Schema::spec_try_from(document.children[at]) is Ok,
        only_visits(document.children[at], below),
        document.children[at].children[below].name == "complexType"@,
        ComplexType::admits(document.children[at].children[below]),
        ComplexType::spec_try_from(document.children[at].children[below]) is Ok,
    ensures
        spec_walk(document) == seq![
            StepView::Declare(
                ElementsView::Schema(Schema::spec_try_from(document.children[at])->Ok_0),
            ),
            StepView::Declare(
                ElementsView::ComplexType(
                    ComplexType::spec_try_from(document.children[at].children[below])->Ok_0,
                ),
            ),
        ],
{
    let inner = document.children[at];
    let declared_type = inner.children[below];
    lemma_walk_of_one(document, at);
    lemma_visit_schema(document.name, inner);
    lemma_walk_of_one(inner, below);
    lemma_visit_complex_type(inner.name, declared_type);
    assert(spec_walk(document) =~= seq![
        StepView::Declare(ElementsView::Schema(Schema::spec_try_from(inner)->Ok_0)),
        StepView::Declare(
            ElementsView::ComplexType(ComplexType::spec_try_from(declared_type)->Ok_0),
        ),
    ]);
}

/// The resolution of two walks, the first of which asks for the second:
/// the declarations of the second go out ahead of the directive that was
/// pending behind the request.
proof fn lemma_resolution_of_two(
    start: ParserView,
    first: Seq<StepView>,
    second: Seq<StepView>,
    location: Seq<char>,
    declarations: (ElementsView, ElementsView, ElementsView, ElementsView),
)
    requires
        start.elements == Seq::<ElementsView>::empty(),
        start.pending == Seq::<StepView>::empty(),
        first == seq![
            StepView::Declare(declarations.0),
            StepView::Resolve(location),
            StepView::Declare(declarations.3),
        ],
        second == seq![StepView::Declare(declarations.1), StepView::Declare(declarations.2)],
    ensures
        ({
            let loaded = ParserView { pending: first + start.pending, ..start };
            let asked = spec_advance(loaded);
            let resumed = ParserView { pending: second + asked.0.pending, ..asked.0 };
            let finished = spec_advance(resumed);
            &&& !breaks(loaded)
            &&& asked.1 == Ok::<RequestView, ErrorView>(RequestView::Document(location))
            &&& asked.0.elements == seq![declarations.0]
            &&& !breaks(resumed)
            &&& finished.1 == Ok::<RequestView, ErrorView>(RequestView::Finished)
            &&& finished.0.pending == Seq::<StepView>::empty()
            &&& finished.0.elements == seq![
                declarations.0,
                declarations.1,
                declarations.2,
                declarations.3,
            ]
        }),
{
    let after_request = seq![StepView::Declare(declarations.3)];
    let loaded = ParserView { pending: first + start.pending, ..start };
    assert(loaded.pending =~= seq![
        StepView::Declare(declarations.0),
        StepView::Resolve(location),
    ] + after_request);
    lemma_advance_to_request(loaded, declarations.0, location, after_request);
    let asked = spec_advance(loaded);
    assert(asked.0.elements =~= seq![declarations.0]);
    let resumed = ParserView { pending: second + asked.0.pending, ..asked.0 };
    assert(resumed.pending =~= seq![
        StepView::Declare(declarations.1),
        StepView::Declare(declarations.2),
        StepView::Declare(declarations.3),
    ]);
    lemma_advance_to_end(resumed, declarations.1, declarations.2, declarations.3);
    assert(spec_advance(resumed).0.elements =~= seq![
        declarations.0,
        declarations.1,
        declarations.2,
        declarations.3,
    ]);
}

/// What an imported document declares is in the flat list, once, and before
/// the import that named it. The entry document holds a `schema` that holds
/// an `import` with a schema location; the document at that location holds
/// a `schema` that holds a `complexType`. The resolution of the entry
/// document asks for the document at the location with the schema of the
/// entry document put out; with that document loaded it finishes, and the
/// output is the two schemas, then the complex type, then the import.
pub proof fn lemma_import_resolution(
    start: ParserView,
    entry: NodeView,
    imported: NodeView,
    positions: (int, int, int, int),
)
    requires
        start.elements == Seq::<ElementsView>::empty(),
        start.pending == Seq::<StepView>::empty(),
        only_visits(entry, positions.0),
        entry.children[positions.0].name == "schema"@,
        Schema::spec_try_from(entry.children[positions.0]) is Ok,
        only_visits(entry.children[positions.0], positions.1),
        entry.children[positions.0].children[positions.1].name == "import"@,
        entry.children[positions.0].children[positions.1].attribute("schemaLocation"@) is Some,
        only_visits(imported, positions.2),
        imported.children[positions.2].name == "schema"@,
        Schema::spec_try_from(imported.children[positions.2]) is Ok,
        only_visits(imported.children[positions.2], positions.3),
        imported.children[positions.2].children[positions.3].name == "complexType"@,
        ComplexType::admits(imported.children[positions.2].children[positions.3]),
        ComplexType::spec_try_from(imported.children[positions.2].children[positions.3]) is Ok,
    ensures
        ({
            let outer = entry.children[positions.0];
            let import = outer.children[positions.1];
            let inner = imported.children[positions.2];
            let declared_type = inner.children[positions.3];
            let loaded = spec_load(start, entry);
            let asked = spec_advance(loaded);
            let resumed = spec_load(asked.0, imported);
            let finished = spec_advance(resumed);
            &&& !breaks(loaded)
            &&& asked.1 == Ok::<RequestView, ErrorView>(
                RequestView::Document(import.attribute("schemaLocation"@)->0),
            )
            &&& asked.0.elements == seq![
                ElementsView::Schema(Schema::spec_try_from(outer)->Ok_0),
            ]
            &&& !breaks(resumed)
            &&& finished.1 == Ok::<RequestView, ErrorView>(RequestView::Finished)
            &&& finished.0.pending == Seq::<StepView>::empty()
            &&& finished.0.elements == seq![
                ElementsView::Schema(Schema::spec_try_from(outer)->Ok_0),
                ElementsView::Schema(Schema::spec_try_from(inner)->Ok_0),
                ElementsView::ComplexType(ComplexType::spec_try_from(declared_type)->Ok_0),
                ElementsView::Import(Import::spec_try_from(import)->Ok_0),
            ]
        }),
{
    let outer = entry.children[positions.0];
    let import = outer.children[positions.1];
    let inner = imported.children[positions.2];
    let declared_type = inner.children[positions.3];
    lemma_walk_to_import(entry, positions.0, positions.1);
    lemma_walk_to_complex_type(imported, positions.2, positions.3);
    lemma_resolution_of_two(
        start,
        spec_walk(entry),
        spec_walk(imported),
        import.attribute("schemaLocation"@)->0,
        (
            ElementsView::Schema(Schema::spec_try_from(outer)->Ok_0),
            ElementsView::Schema(Schema::spec_try_from(inner)->Ok_0),
            ElementsView::ComplexType(ComplexType::spec_try_from(declared_type)->Ok_0),
            ElementsView::Import(Import::spec_try_from(import)->Ok_0),
        ),
    );
}

/// From declarations and nothing else, all go to the output in their order
/// and the resolution is finished.
proof fn lemma_advance_over_declarations(state: ParserView)
    requires
        all_declared(state.pending),
    ensures
        !breaks(state),
        spec_advance(state).1 == Ok::<RequestView, ErrorView>(RequestView::Finished),
        spec_advance(state).0 == (ParserView {
            elements: state.elements + declared(state.pending, state.pending.len() as int),
            pending: Seq::empty(),
            ..state
        }),
{
    let pending = state.pending;
    assert(pending + Seq::<StepView>::empty() =~= pending);
    lemma_halt_skip(pending, Seq::empty(), 0);
}

/// A document of declarations resolves into its schema followed by one
/// entry for each declaration, in document order, with nothing missing and
/// nothing added. The document holds a `schema` whose metadata can be
/// built, and each child of the schema that is visited is declared: an
/// `element`, a `simpleType` or a `complexType` that can be built, or a
/// directive without a schema location.
pub proof fn lemma_flat_list(start: ParserView, document: NodeView, at: int)
    requires
        start.elements == Seq::<ElementsView>::empty(),
        start.pending == Seq::<StepView>::empty(),
        only_visits(document, at),
        document.children[at].name == "schema"@,
        Schema::spec_try_from(document.children[at]) is Ok,
        forall|i: int|
            0 <= i < document.children[at].children.len() && (
            #[trigger] document.children[at].children[i]).kind != NodeKind::Other ==> declares(
                document.children[at].name,
                document.children[at].children[i],
            ),
    ensures
        !breaks(spec_load(start, document)),
        spec_advance(spec_load(start, document)).1 == Ok::<RequestView, ErrorView>(
            RequestView::Finished,
        ),
        spec_advance(spec_load(start, document)).0.pending == Seq::<StepView>::empty(),
        spec_advance(spec_load(start, document)).0.elements == seq![
            ElementsView::Schema(Schema::spec_try_from(document.children[at])->Ok_0),
        ] + visited(document.children[at]).map_values(
            declaration_of(document.children[at].name),
        ),
{
    let schema = document.children[at];
    let first = seq![StepView::Declare(ElementsView::Schema(Schema::spec_try_from(schema)->Ok_0))];
    let below = spec_walk(schema);
    lemma_walk_of_one(document, at);
    lemma_visit_schema(document.name, schema);
    lemma_walk_declares(schema);
    let loaded = spec_load(start, document);
    assert(loaded.pending =~= first + below);
    assert(all_declared(first));
    lemma_declarations_first(first, below);
    lemma_advance_over_declarations(loaded);
    lemma_halt_skip(below, Seq::empty(), 0);
    assert(below + Seq::<StepView>::empty() =~= below);
    assert(declared(first, 1) =~= seq![ElementsView::Schema(Schema::spec_try_from(schema)->Ok_0)]);
    assert(all_declared(loaded.pending)) by {
        assert forall|i: int| 0 <= i < loaded.pending.len() implies #[trigger] loaded.pending[i]
            is Declare by {
            if i > 0 {
                assert(loaded.pending[i] == below[i - 1]);
            }
        }
    }
    assert(start.elements + declared(loaded.pending, loaded.pending.len() as int) =~= declared(
        first,
        1,
    ) + declared(below, below.len() as int));
}

impl Parser {
    /// Whether a resolution can start from `root_folder`: the folder of the
    /// entry document must be known, and a path without a directory part,
    /// whose folder is the empty path, has none.
    pub open spec fn has_root(root_folder: Option<String>) -> bool {
        root_folder matches Some(folder) && folder@.len() > 0
    }

    /// Starts a resolution with nothing declared and nothing to do.
    pub fn new(root_folder: Option<String>) -> (r: Result<Parser, Error>)
        ensures
            match r {
                Ok(parser) => Parser::has_root(root_folder) && parser@ == (ParserView {
                    elements: Seq::empty(),
                    root_folder: root_folder->0@,
                    pending: Seq::empty(),
                }),
                Err(e) => !Parser::has_root(root_folder) && e@ == ErrorView::InvalidRootFolder,
            },
    {
        match root_folder {
            None => Err(Error::InvalidRootFolder),
            Some(folder) => {
                if folder.as_str().is_empty() {
                    return Err(Error::InvalidRootFolder);
                }
                let parser = Parser {
                    elements: Vec::new(),
                    root_folder: folder,
                    agenda: VecDeque::new(),
                };
                assert(parser@.pending =~= Seq::<StepView>::empty());
                assert(parser@.elements =~= Seq::<ElementsView>::empty());
                Ok(parser)
            },
        }
    }

    /// The folder against which schema locations are resolved.
    pub fn root_folder(&self) -> (r: &str)
        ensures
            r@ == self@.root_folder,
    {
        self.root_folder.as_str()
    }

    /// The declarations in the output.
    pub fn elements(&self) -> (r: &Vec<Elements>)
        ensures
            elements_view(r@) == self@.elements,
    {
        &self.elements
    }

    /// Puts the walk over `document` before everything that is still to be
    /// done: the entry document at the start, and later each document that
    /// was asked for.
    pub fn load(&mut self, document: &Node)
        ensures
            final(self)@ == spec_load(old(self)@, document@),
    {
        let mut steps: Vec<Step> = Vec::new();
        walk(document, &mut steps);
        let ghost before = self@.pending;
        let ghost all = steps_view(steps@);
        assert(all.subrange(0, all.len() as int) =~= all);
        while steps.len() > 0
            invariant
                steps_view(steps@) == all.subrange(0, steps@.len() as int),
                steps@.len() <= all.len(),
                self@ == (ParserView {
                    pending: all.subrange(steps@.len() as int, all.len() as int) + before,
                    ..old(self)@
                }),
            decreases steps.len(),
        {
            let ghost queued = self@.pending;
            let ghost held = steps_view(steps@);
            let step = steps.pop().unwrap();
            self.agenda.push_front(step);
            assert(step@ == held[steps@.len() as int]);
            assert(self@.pending =~= seq![step@] + queued);
            assert(self@.pending =~= all.subrange(steps@.len() as int, all.len() as int)
                + before);
        }
    }

    /// Whether the next halt is at a break, so that [`Parser::advance`] may
    /// not be called.
    pub fn breaks(&self) -> (r: bool)
        ensures
            r == breaks(self@),
    {
        let mut i: usize = 0;
        while i < self.agenda.len()
            invariant
                i <= self.agenda@.len(),
                self@.pending.len() == self.agenda@.len(),
                halt_from(self@.pending, 0) == halt_from(self@.pending, i as int),
            decreases self.agenda.len() - i,
        {
            match &self.agenda[i] {
                Step::Declare(_) => {},
                Step::Break => {
                    return true;
                },
                _ => {
                    return false;
                },
            }
            i += 1;
        }
        false
    }

    /// Takes steps until a document is needed, an error stops the
    /// resolution, or nothing is left to do. The declarations passed on the
    /// way go to the output in their order; after an error nothing is kept.
    pub fn advance(&mut self) -> (r: Result<Request, Error>)
        requires
            !breaks(old(self)@),
        ensures
            (final(self)@, outcome(r)) == spec_advance(old(self)@),
    {
        let ghost pending = self@.pending;
        let ghost output = self@.elements;
        let ghost count: int = 0;
        loop
            invariant
                pending == old(self)@.pending,
                output == old(self)@.elements,
                !breaks(old(self)@),
                0 <= count <= pending.len(),
                halt_from(pending, 0) == halt_from(pending, count),
                self@.pending == pending.subrange(count, pending.len() as int),
                self@.elements == output + declared(pending, count),
                self@.root_folder == old(self)@.root_folder,
            decreases pending.len() - count,
        {
            let ghost queued = self@.pending;
            let ghost held = self@.elements;
            match self.agenda.pop_front() {
                None => {
                    assert(self@.pending =~= Seq::<StepView>::empty());
                    return Ok(Request::Finished);
                },
                Some(step) => {
                    assert(step@ == queued[0]);
                    assert(self@.pending =~= queued.subrange(1, queued.len() as int));
                    assert(self@.pending =~= pending.subrange(count + 1, pending.len() as int));
                    match step {
                        Step::Declare(declaration) => {
                            self.elements.push(declaration);
                            assert(self@.elements =~= held + seq![declaration@]);
                            proof {
                                count = count + 1;
                            }
                        },
                        Step::Resolve(location) => {
                            return Ok(Request::Document(location));
                        },
                        Step::Fail(e) => {
                            self.elements.clear();
                            self.agenda.clear();
                            assert(self@.elements =~= Seq::<ElementsView>::empty());
                            assert(self@.pending =~= Seq::<StepView>::empty());
                            return Err(e);
                        },
                        Step::Break => {
                            // the next halt is at no break
                            return unreached();
                        },
                    }
                },
            }
        }
    }

    /// Takes steps as [`Parser::advance`] does, unless the next halt is at a
    /// break; then it takes none and says so.
    pub fn try_advance(&mut self) -> (r: Option<Result<Request, Error>>)
        ensures
            match r {
                None => breaks(old(self)@) && final(self)@ == old(self)@,
                Some(answer) => !breaks(old(self)@) && (final(self)@, outcome(answer))
                    == spec_advance(old(self)@),
            },
    {
        if self.breaks() {
            None
        } else {
            Some(self.advance())
        }
    }
}

} // verus!
