//! The root metadata of a schema document.

use crate::errors::{outcome, Error, ErrorView};
use crate::node::{NamespaceView, Node, NodeView};
use crate::shared::{optional, BlockDefault, FinalDefault, FormDefault};
use crate::text::{chars_of, owned, same_text, text_of};
use vstd::prelude::*;

verus! {

/// The root metadata of a schema document.
///
/// `namespaces` binds prefixes to URIs as a map does, and is kept as a list
/// of pairs in the order in which the prefixes first occur, so that what it
/// holds is proved of it; no prefix occurs twice. The namespace without a prefix is
/// bound under the prefix `default`. `xml_lang` is the value of the
/// attribute `lang` of the XML namespace, which documents write `xml:lang`.
#[derive(Debug, Default, PartialEq)]
pub struct Schema {
    pub attribute_form_default: Option<FormDefault>,
    pub block_default: Option<BlockDefault>,
    pub element_form_default: Option<FormDefault>,
    pub final_default: Option<FinalDefault>,
    pub id: Option<String>,
    pub namespaces: Vec<(String, String)>,
    pub target_namespace: Option<String>,
    pub version: Option<String>,
    pub xml_lang: Option<String>,
}

/// The view of a [`Schema`]: the same parts, with sequences of characters for
/// strings and mathematical sequences for vectors.
pub struct SchemaView {
    pub attribute_form_default: Option<FormDefault>,
    pub block_default: Option<BlockDefault>,
    pub element_form_default: Option<FormDefault>,
    pub final_default: Option<FinalDefault>,
    pub id: Option<Seq<char>>,
    pub namespaces: Seq<(Seq<char>, Seq<char>)>,
    pub target_namespace: Option<Seq<char>>,
    pub version: Option<Seq<char>>,
    pub xml_lang: Option<Seq<char>>,
}

impl View for Schema {
    type V = SchemaView;

    open spec fn view(&self) -> SchemaView {
        SchemaView {
            attribute_form_default: self.attribute_form_default,
            block_default: self.block_default,
            element_form_default: self.element_form_default,
            final_default: self.final_default,
            id: text_of(self.id),
            namespaces: self.namespaces@.map_values(|b: (String, String)| (b.0@, b.1@)),
            target_namespace: text_of(self.target_namespace),
            version: text_of(self.version),
            xml_lang: text_of(self.xml_lang),
        }
    }
}

/// The position at or after `from` of the first binding of `prefix`.
pub open spec fn position_from(
    bindings: Seq<(Seq<char>, Seq<char>)>,
    prefix: Seq<char>,
    from: int,
) -> Option<int>
    decreases bindings.len() - from,
{
    if from < 0 || from >= bindings.len() {
        None
    } else if bindings[from].0 == prefix {
        Some(from)
    } else {
        position_from(bindings, prefix, from + 1)
    }
}

/// The bindings after `prefix` has been bound to `uri`: a binding of
/// `prefix` that is already there gets the new URI and keeps its place, a
/// new one goes to the end.
pub open spec fn bind(
    bindings: Seq<(Seq<char>, Seq<char>)>,
    prefix: Seq<char>,
    uri: Seq<char>,
) -> Seq<(Seq<char>, Seq<char>)> {
    match position_from(bindings, prefix, 0) {
        Some(i) => bindings.update(i, (prefix, uri)),
        None => bindings.push((prefix, uri)),
    }
}

/// The prefix under which a namespace is bound.
pub open spec fn binding_prefix(namespace: NamespaceView) -> Seq<char> {
    match namespace.prefix {
        Some(p) => p,
        None => "default"@,
    }
}

/// `acc` after the namespaces from position `from` on have been bound, one
/// after the other.
pub open spec fn bind_all(
    acc: Seq<(Seq<char>, Seq<char>)>,
    namespaces: Seq<NamespaceView>,
    from: int,
) -> Seq<(Seq<char>, Seq<char>)>
    decreases namespaces.len() - from,
{
    if from < 0 || from >= namespaces.len() {
        acc
    } else {
        bind_all(
            bind(acc, binding_prefix(namespaces[from]), namespaces[from].uri),
            namespaces,
            from + 1,
        )
    }
}

/// Whether no prefix is bound twice.
pub open spec fn distinct_prefixes(bindings: Seq<(Seq<char>, Seq<char>)>) -> bool {
    forall|i: int, j: int|
        0 <= i < j < bindings.len() ==> (#[trigger] bindings[i]).0 != (#[trigger] bindings[j]).0
}

/// A search that finds nothing has seen no binding of the prefix, and one
/// that finds a position has found the first binding of it.
pub proof fn lemma_position(bindings: Seq<(Seq<char>, Seq<char>)>, prefix: Seq<char>, from: int)
    requires
        0 <= from,
    ensures
        match position_from(bindings, prefix, from) {
            Some(i) => from <= i < bindings.len() && bindings[i].0 == prefix && forall|k: int|
                from <= k < i ==> (#[trigger] bindings[k]).0 != prefix,
            None => forall|k: int|
                from <= k < bindings.len() ==> (#[trigger] bindings[k]).0 != prefix,
        },
    decreases bindings.len() - from,
{
    if from < bindings.len() && bindings[from].0 != prefix {
        lemma_position(bindings, prefix, from + 1);
    }
}

/// Binding a prefix keeps the prefixes distinct, and afterwards the prefix
/// is bound to the URI given.
pub proof fn lemma_bind(bindings: Seq<(Seq<char>, Seq<char>)>, prefix: Seq<char>, uri: Seq<char>)
    requires
        distinct_prefixes(bindings),
    ensures
        distinct_prefixes(bind(bindings, prefix, uri)),
        position_from(bind(bindings, prefix, uri), prefix, 0) matches Some(i) && bind(
            bindings,
            prefix,
            uri,
        )[i] == (prefix, uri),
{
    lemma_position(bindings, prefix, 0);
    let after = bind(bindings, prefix, uri);
    lemma_position(after, prefix, 0);
    match position_from(bindings, prefix, 0) {
        Some(i) => {
            assert(after[i].0 == prefix);
        },
        None => {
            assert(after[bindings.len() as int].0 == prefix);
        },
    }
}

/// Binding any number of namespaces keeps the prefixes distinct.
pub proof fn lemma_bind_all(
    acc: Seq<(Seq<char>, Seq<char>)>,
    namespaces: Seq<NamespaceView>,
    from: int,
)
    requires
        distinct_prefixes(acc),
    ensures
        distinct_prefixes(bind_all(acc, namespaces, from)),
    decreases namespaces.len() - from,
{
    if 0 <= from < namespaces.len() {
        lemma_bind(acc, binding_prefix(namespaces[from]), namespaces[from].uri);
        lemma_bind_all(
            bind(acc, binding_prefix(namespaces[from]), namespaces[from].uri),
            namespaces,
            from + 1,
        );
    }
}

/// The map that a list of bindings stands for: each prefix to the URI of its
/// last binding.
pub open spec fn map_of(bindings: Seq<(Seq<char>, Seq<char>)>) -> Map<Seq<char>, Seq<char>>
    decreases bindings.len(),
{
    if bindings.len() == 0 {
        Map::empty()
    } else {
        map_of(bindings.drop_last()).insert(bindings.last().0, bindings.last().1)
    }
}

/// The map `acc` after the namespaces from position `from` on have been put
/// into it, each under its prefix, a later one in the place of an earlier one.
pub open spec fn collect(
    acc: Map<Seq<char>, Seq<char>>,
    namespaces: Seq<NamespaceView>,
    from: int,
) -> Map<Seq<char>, Seq<char>>
    decreases namespaces.len() - from,
{
    if from < 0 || from >= namespaces.len() {
        acc
    } else {
        collect(
            acc.insert(binding_prefix(namespaces[from]), namespaces[from].uri),
            namespaces,
            from + 1,
        )
    }
}

/// Bindings without the last of them are distinct where all of them are.
proof fn lemma_distinct_without_last(bindings: Seq<(Seq<char>, Seq<char>)>)
    requires
        distinct_prefixes(bindings),
        bindings.len() > 0,
    ensures
        distinct_prefixes(bindings.drop_last()),
{
    let shorter = bindings.drop_last();
    assert forall|i: int, j: int| 0 <= i < j < shorter.len() implies (#[trigger] shorter[i]).0 != (
    #[trigger] shorter[j]).0 by {
        assert(shorter[i] == bindings[i]);
        assert(shorter[j] == bindings[j]);
    }
}

/// A binding that gets a new URI changes the map as putting the prefix into
/// it does.
proof fn lemma_update_map(
    bindings: Seq<(Seq<char>, Seq<char>)>,
    at: int,
    prefix: Seq<char>,
    uri: Seq<char>,
)
    requires
        distinct_prefixes(bindings),
        0 <= at < bindings.len(),
        bindings[at].0 == prefix,
    ensures
        map_of(bindings.update(at, (prefix, uri))) == map_of(bindings).insert(prefix, uri),
    decreases bindings.len(),
{
    let after = bindings.update(at, (prefix, uri));
    let shorter = bindings.drop_last();
    if at == bindings.len() - 1 {
        assert(after.drop_last() =~= shorter);
        assert(map_of(after) =~= map_of(bindings).insert(prefix, uri));
    } else {
        assert(after.drop_last() =~= shorter.update(at, (prefix, uri)));
        lemma_distinct_without_last(bindings);
        assert(shorter[at] == bindings[at]);
        lemma_update_map(shorter, at, prefix, uri);
        assert(bindings[at].0 != bindings[bindings.len() - 1].0);
        assert(map_of(after) =~= map_of(bindings).insert(prefix, uri));
    }
}

/// Binding a prefix changes the map as putting the prefix into it does.
pub proof fn lemma_bind_map(
    bindings: Seq<(Seq<char>, Seq<char>)>,
    prefix: Seq<char>,
    uri: Seq<char>,
)
    requires
        distinct_prefixes(bindings),
    ensures
        map_of(bind(bindings, prefix, uri)) == map_of(bindings).insert(prefix, uri),
{
    lemma_position(bindings, prefix, 0);
    match position_from(bindings, prefix, 0) {
        Some(i) => {
            lemma_update_map(bindings, i, prefix, uri);
        },
        None => {
            assert(bindings.push((prefix, uri)).drop_last() =~= bindings);
        },
    }
}

/// Binding namespaces one after the other gives the bindings of the map
/// into which they are collected.
pub proof fn lemma_bind_all_map(
    acc: Seq<(Seq<char>, Seq<char>)>,
    namespaces: Seq<NamespaceView>,
    from: int,
)
    requires
        distinct_prefixes(acc),
    ensures
        map_of(bind_all(acc, namespaces, from)) == collect(map_of(acc), namespaces, from),
    decreases namespaces.len() - from,
{
    if 0 <= from < namespaces.len() {
        let prefix = binding_prefix(namespaces[from]);
        let uri = namespaces[from].uri;
        lemma_bind(acc, prefix, uri);
        lemma_bind_map(acc, prefix, uri);
        lemma_bind_all_map(bind(acc, prefix, uri), namespaces, from + 1);
    }
}

/// Where no prefix is bound twice, the first binding of a prefix is the one
/// that the map holds.
pub proof fn lemma_lookup(bindings: Seq<(Seq<char>, Seq<char>)>, prefix: Seq<char>)
    requires
        distinct_prefixes(bindings),
    ensures
        match position_from(bindings, prefix, 0) {
            Some(i) => map_of(bindings).dom().contains(prefix) && map_of(bindings)[prefix]
                == bindings[i].1,
            None => !map_of(bindings).dom().contains(prefix),
        },
    decreases bindings.len(),
{
    lemma_position(bindings, prefix, 0);
    if bindings.len() > 0 {
        let shorter = bindings.drop_last();
        lemma_distinct_without_last(bindings);
        lemma_lookup(shorter, prefix);
        lemma_position(shorter, prefix, 0);
        match position_from(bindings, prefix, 0) {
            Some(i) => {
                if i < shorter.len() {
                    assert(shorter[i] == bindings[i]);
                    assert(bindings[i].0 != bindings[bindings.len() - 1].0);
                    assert(position_from(shorter, prefix, 0) is Some) by {
                        if position_from(shorter, prefix, 0) is None {
                            assert(shorter[i].0 != prefix);
                        }
                    }
                    let k = position_from(shorter, prefix, 0)->0;
                    assert(shorter[k] == bindings[k]);
                    assert(k == i) by {
                        if k < i {
                            assert(bindings[k].0 != prefix);
                        } else if i < k {
                            assert(shorter[i].0 != prefix);
                        }
                    }
                }
            },
            None => {
                assert(position_from(shorter, prefix, 0) is None) by {
                    if position_from(shorter, prefix, 0) is Some {
                        let k = position_from(shorter, prefix, 0)->0;
                        assert(shorter[k] == bindings[k]);
                        assert(bindings[k].0 != prefix);
                    }
                }
                assert(bindings[bindings.len() - 1].0 != prefix);
            },
        }
    }
}

impl SchemaView {
    /// The URI that `prefix` is bound to, if it is bound.
    pub open spec fn namespace(self, prefix: Seq<char>) -> Option<Seq<char>> {
        match position_from(self.namespaces, prefix, 0) {
            Some(i) => Some(self.namespaces[i].1),
            None => None,
        }
    }

    /// The namespaces as a map from prefix to URI.
    pub open spec fn namespace_map(self) -> Map<Seq<char>, Seq<char>> {
        map_of(self.namespaces)
    }

    /// Whether no prefix is bound twice.
    pub open spec fn well_formed(self) -> bool {
        distinct_prefixes(self.namespaces)
    }

    /// In well-formed metadata the URI that a prefix is bound to is the one
    /// that the map of the namespaces holds for it.
    pub proof fn lemma_namespace(self, prefix: Seq<char>)
        requires
            self.well_formed(),
        ensures
            self.namespace(prefix) == if self.namespace_map().dom().contains(prefix) {
                Some(self.namespace_map()[prefix])
            } else {
                None
            },
    {
        lemma_lookup(self.namespaces, prefix);
    }
}

/// The position of the binding of `prefix`, if there is one.
fn find_binding(bindings: &Vec<(String, String)>, prefix: &str) -> (r: Option<usize>)
    ensures
        match r {
            Some(i) => position_from(
                bindings@.map_values(|b: (String, String)| (b.0@, b.1@)),
                prefix@,
                0,
            ) == Some(i as int) && i < bindings.len(),
            None => position_from(
                bindings@.map_values(|b: (String, String)| (b.0@, b.1@)),
                prefix@,
                0,
            ) is None,
        },
{
    let ghost view = bindings@.map_values(|b: (String, String)| (b.0@, b.1@));
    let mut i: usize = 0;
    while i < bindings.len()
        invariant
            i <= bindings.len(),
            view == bindings@.map_values(|b: (String, String)| (b.0@, b.1@)),
            position_from(view, prefix@, 0) == position_from(view, prefix@, i as int),
        decreases bindings.len() - i,
    {
        if same_text(bindings[i].0.as_str(), prefix) {
            return Some(i);
        }
        i += 1;
    }
    None
}

impl Schema {
    /// The metadata that a `schema` node stands for. Of the attributes that
    /// can be wrong, `attributeFormDefault` is read first, then
    /// `blockDefault`, `elementFormDefault` and `finalDefault`; the first
    /// wrong one decides the error. Every namespace in scope at the node is
    /// bound, a later one replacing an earlier one of the same prefix. The
    /// language is read from the attribute `lang` of the XML namespace; the
    /// other strings from the first attribute of their local name.
    pub open spec fn spec_try_from(node: NodeView) -> Result<SchemaView, ErrorView> {
        let attribute_form = optional(
            node.attribute("attributeFormDefault"@),
            |s| FormDefault::spec_parse(s),
        );
        let block = optional(node.attribute("blockDefault"@), |s| BlockDefault::spec_parse(s));
        let element_form = optional(
            node.attribute("elementFormDefault"@),
            |s| FormDefault::spec_parse(s),
        );
        let final_ = optional(node.attribute("finalDefault"@), |s| FinalDefault::spec_parse(s));
        match (attribute_form, block, element_form, final_) {
            (Err(e), _, _, _) => Err(e),
            (_, Err(e), _, _) => Err(e),
            (_, _, Err(e), _) => Err(e),
            (_, _, _, Err(e)) => Err(e),
            (Ok(attribute_form), Ok(block), Ok(element_form), Ok(final_)) => Ok(
                SchemaView {
                    attribute_form_default: attribute_form,
                    block_default: block,
                    element_form_default: element_form,
                    final_default: final_,
                    id: node.attribute("id"@),
                    namespaces: bind_all(Seq::empty(), node.namespaces, 0),
                    target_namespace: node.attribute("targetNamespace"@),
                    version: node.attribute("version"@),
                    xml_lang: node.attribute_in(
                        "http://www.w3.org/XML/1998/namespace"@,
                        "lang"@,
                    ),
                },
            ),
        }
    }

    /// Builds the metadata from a `schema` node.
    pub fn try_from(node: &Node) -> (r: Result<Schema, Error>)
        ensures
            outcome(r) == Schema::spec_try_from(node@),
            r matches Ok(schema) ==> schema@.well_formed() && schema@.namespace_map() == collect(
                Map::empty(),
                node@.namespaces,
                0,
            ),
    {
        let mut namespaces: Vec<(String, String)> = Vec::new();
        let ghost all = node@.namespaces;
        assert(namespaces@.map_values(|b: (String, String)| (b.0@, b.1@)) =~= Seq::empty());
        let mut i: usize = 0;
        while i < node.namespaces.len()
            invariant
                i <= node.namespaces.len(),
                all == node@.namespaces,
                all.len() == node.namespaces.len(),
                bind_all(
                    namespaces@.map_values(|b: (String, String)| (b.0@, b.1@)),
                    all,
                    i as int,
                ) == bind_all(Seq::empty(), all, 0),
            decreases node.namespaces.len() - i,
        {
            let namespace = &node.namespaces[i];
            assert(namespace@ == all[i as int]);
            let prefix = match &namespace.prefix {
                Some(p) => p.clone(),
                None => "default".to_owned(),
            };
            let uri = namespace.uri.clone();
            let ghost before = namespaces@.map_values(|b: (String, String)| (b.0@, b.1@));
            match find_binding(&namespaces, prefix.as_str()) {
                Some(at) => {
                    namespaces.set(at, (prefix, uri));
                    assert(namespaces@.map_values(|b: (String, String)| (b.0@, b.1@))
                        =~= before.update(at as int, (prefix@, uri@)));
                },
                None => {
                    namespaces.push((prefix, uri));
                    assert(namespaces@.map_values(|b: (String, String)| (b.0@, b.1@))
                        =~= before.push((prefix@, uri@)));
                },
            }
            i += 1;
        }
        proof {
            lemma_bind_all(Seq::empty(), all, 0);
            lemma_bind_all_map(Seq::empty(), all, 0);
        }
        let attribute_form_default = match node.attribute("attributeFormDefault") {
            Some(v) => Some(FormDefault::parse(v)?),
            None => None,
        };
        let block_default = match node.attribute("blockDefault") {
            Some(v) => Some(BlockDefault::parse(v)?),
            None => None,
        };
        let element_form_default = match node.attribute("elementFormDefault") {
            Some(v) => Some(FormDefault::parse(v)?),
            None => None,
        };
        let final_default = match node.attribute("finalDefault") {
            Some(v) => Some(FinalDefault::parse(v)?),
            None => None,
        };
        Ok(
            Schema {
                attribute_form_default,
                block_default,
                element_form_default,
                final_default,
                id: owned(node.attribute("id")),
                namespaces,
                target_namespace: owned(node.attribute("targetNamespace")),
                version: owned(node.attribute("version")),
                xml_lang: owned(
                    node.attribute_in("http://www.w3.org/XML/1998/namespace", "lang"),
                ),
            },
        )
    }

    /// The URI that `prefix` is bound to, if it is bound.
    pub fn namespace(&self, prefix: &str) -> (r: Option<&str>)
        ensures
            chars_of(r) == self@.namespace(prefix@),
    {
        match find_binding(&self.namespaces, prefix) {
            Some(at) => Some(self.namespaces[at].1.as_str()),
            None => None,
        }
    }
}

} // verus!
