use xsd::complex_type::{
    Any, Attribute, Choice, ComplexContent, ComplexType, Content, Extension, Sequence,
    SimpleContent, Usage,
};
use xsd::document;
use xsd::element::{DefaultFixed, Element};
use xsd::errors::Error;
use xsd::import::Import;
use xsd::inclusion::Include;
use xsd::node::{Namespace, Node, NodeAttribute, NodeKind};
use xsd::restriction::{Restriction, Restrictions};
use xsd::schema::Schema;
use xsd::shared::{BlockDefault, Final, FinalDefault, FormDefault, Occurrence};
use xsd::simple_type::{Annotation, SimpleType};

/// The outermost element of a document that binds the prefix `xsd`.
fn first(body: &str) -> Node {
    let text = format!("<xsd:wrap xmlns:xsd='http://www.w3.org/2001/XMLSchema'>{}</xsd:wrap>", body);
    let mut root = document::parse(&text).unwrap();
    let mut wrap = root.children.remove(0);
    wrap.children.remove(0)
}

fn node(name: &str, attributes: &[(&str, &str)], children: Vec<Node>) -> Node {
    Node {
        kind: NodeKind::Element,
        name: name.to_owned(),
        attributes: attributes
            .iter()
            .map(|(name, value)| NodeAttribute {
                namespace: None,
                name: (*name).to_owned(),
                value: (*value).to_owned(),
            })
            .collect(),
        namespaces: vec![],
        text: None,
        children,
    }
}

fn text(value: &str) -> Node {
    Node {
        kind: NodeKind::Other,
        name: String::new(),
        attributes: vec![],
        namespaces: vec![],
        text: Some(value.to_owned()),
        children: vec![],
    }
}

fn named(name: &str) -> Element {
    Element { name: Some(name.to_owned()), ..Default::default() }
}

fn unhandled(result: Error) -> (String, String) {
    match result {
        Error::UnhandledTag { parent, tag } => (parent, tag),
        other => panic!("{:?}", other),
    }
}

fn missing(result: Error) -> (String, String) {
    match result {
        Error::MissingAttribute { tag, attribute } => (tag, attribute),
        other => panic!("{:?}", other),
    }
}


fn content_admits(node: &Node) -> bool {
    Content::build(node).is_some()
}

fn complex_type_admits(node: &Node) -> bool {
    ComplexType::build(node).is_some()
}

fn annotation_admits(node: &Node) -> bool {
    Annotation::build(node).is_some()
}

fn simple_type_admits(node: &Node) -> bool {
    SimpleType::build(node).is_some()
}

// element

#[test]
fn element_without_attributes_is_the_default() {
    assert_eq!(Element::try_from(&first("<xsd:element/>")).unwrap(), Element::default());
    assert_eq!(Element::try_from(&node("element", &[], vec![])).unwrap(), Element::default());
}

#[test]
fn element_reads_every_attribute() {
    let built = Element::try_from(&first(
        "<xsd:element abstract='true' block='substitution' default='d' final='#all' id='i' \
         maxOccurs='unbounded' minOccurs='2' name='n' nillable='true' substitutionGroup='g' \
         type='t' other='ignored'/>",
    ))
    .unwrap();
    let expected = Element {
        abstract_: true,
        block: Some(BlockDefault::Substitution),
        default_fixed: Some(DefaultFixed::Default("d".to_owned())),
        final_: Some(Final::All),
        id: Some("i".to_owned()),
        max_occurrences: Some(Occurrence::Unbounded),
        min_occurrences: Some(Occurrence::Limit(2)),
        name: Some("n".to_owned()),
        nillable: true,
        substitution_group: Some("g".to_owned()),
        type_: Some("t".to_owned()),
    };
    assert_eq!(built, expected);
}

#[test]
fn element_flags_are_set_by_true_alone() {
    let built =
        Element::try_from(&node("element", &[("abstract", "TRUE"), ("nillable", "1")], vec![]))
            .unwrap();
    assert!(!built.abstract_);
    assert!(!built.nillable);
    let built =
        Element::try_from(&node("element", &[("abstract", "false"), ("nillable", "true")], vec![]))
            .unwrap();
    assert!(!built.abstract_);
    assert!(built.nillable);
}

#[test]
fn element_fixed_takes_precedence_over_default() {
    let built =
        Element::try_from(&node("element", &[("default", "d"), ("fixed", "f")], vec![])).unwrap();
    assert_eq!(built.default_fixed, Some(DefaultFixed::Fixed("f".to_owned())));
    let built =
        Element::try_from(&node("element", &[("fixed", "f"), ("default", "d")], vec![])).unwrap();
    assert_eq!(built.default_fixed, Some(DefaultFixed::Fixed("f".to_owned())));
    let built = Element::try_from(&node("element", &[("fixed", "f")], vec![])).unwrap();
    assert_eq!(built.default_fixed, Some(DefaultFixed::Fixed("f".to_owned())));
    let built = Element::try_from(&node("element", &[("default", "d")], vec![])).unwrap();
    assert_eq!(built.default_fixed, Some(DefaultFixed::Default("d".to_owned())));
}

#[test]
fn element_reads_the_first_of_two_attributes_of_one_name() {
    let built = Element::try_from(&node("element", &[("name", "a"), ("name", "b")], vec![])).unwrap();
    assert_eq!(built.name, Some("a".to_owned()));
}

#[test]
fn element_reports_the_first_wrong_attribute() {
    let all_wrong =
        [("minOccurs", "x"), ("maxOccurs", "y"), ("final", "z"), ("block", "w")];
    assert!(matches!(
        Element::try_from(&node("element", &all_wrong, vec![])),
        Err(Error::InvalidBlockDefault)
    ));
    assert!(matches!(
        Element::try_from(&node("element", &all_wrong[..3], vec![])),
        Err(Error::InvalidFinal)
    ));
    assert!(matches!(
        Element::try_from(&node("element", &all_wrong[..2], vec![])),
        Err(Error::ParseInt(_))
    ));
    assert!(matches!(
        Element::try_from(&node("element", &all_wrong[..1], vec![])),
        Err(Error::ParseInt(_))
    ));
}

#[test]
fn element_does_not_look_at_children() {
    let built = Element::try_from(&first("<xsd:element name='n'><xsd:foo/></xsd:element>")).unwrap();
    assert_eq!(built, named("n"));
}

// attribute

#[test]
fn attribute_reads_name_and_use() {
    let built = Attribute::try_from(&first("<xsd:attribute name='Date' use='required'/>")).unwrap();
    assert_eq!(built, Attribute { name: Some("Date".to_owned()), usage: Usage::Required });
    let built = Attribute::try_from(&first("<xsd:attribute/>")).unwrap();
    assert_eq!(built, Attribute { name: None, usage: Usage::Optional });
}

#[test]
fn attribute_refuses_a_wrong_use() {
    assert!(matches!(
        Attribute::try_from(&first("<xsd:attribute use='sometimes'/>")),
        Err(Error::InvalidUse)
    ));
    assert!(matches!(
        Attribute::try_from(&first("<xsd:attribute use='sometimes'><xsd:foo/></xsd:attribute>")),
        Err(Error::InvalidUse)
    ));
}

#[test]
fn attribute_does_not_handle_any_child_element() {
    let error =
        Attribute::try_from(&first("<xsd:attribute name='a'><foo/></xsd:attribute>")).unwrap_err();
    assert_eq!(unhandled(error), ("attribute".to_owned(), "foo".to_owned()));
    let error = Attribute::try_from(&first(
        "<xsd:attribute> text <!-- note --><xsd:annotation/><foo/></xsd:attribute>",
    ))
    .unwrap_err();
    assert_eq!(unhandled(error), ("attribute".to_owned(), "annotation".to_owned()));
}

#[test]
fn attribute_passes_over_children_that_are_no_elements() {
    let built =
        Attribute::try_from(&first("<xsd:attribute name='a'> text <!-- note --></xsd:attribute>"))
            .unwrap();
    assert_eq!(built.name, Some("a".to_owned()));
}

// any

#[test]
fn any_reads_bounds_and_namespace() {
    let built =
        Any::try_from(&first("<xsd:any minOccurs='0' maxOccurs='unbounded' namespace='##other'/>"))
            .unwrap();
    let expected = Any {
        min_occurrences: Some(Occurrence::Limit(0)),
        max_occurrences: Some(Occurrence::Unbounded),
        namespace: Some("##other".to_owned()),
    };
    assert_eq!(built, expected);
    assert_eq!(Any::try_from(&first("<xsd:any/>")).unwrap(), Any::default());
}

#[test]
fn any_refuses_a_wrong_bound() {
    assert!(matches!(Any::try_from(&first("<xsd:any minOccurs='many'/>")), Err(Error::ParseInt(_))));
    assert!(matches!(Any::try_from(&first("<xsd:any maxOccurs='-1'/>")), Err(Error::ParseInt(_))));
}

// sequence and choice

#[test]
fn sequence_keeps_each_kind_of_child_in_document_order() {
    let built = Sequence::try_from(&first(
        "<xsd:sequence minOccurs='1' maxOccurs='3'>\
           <xsd:element name='a'/>\
           <xsd:any namespace='n1'/>\
           <xsd:sequence><xsd:element name='inner1'/></xsd:sequence>\
           <xsd:element name='b'/>\
           <xsd:choice><xsd:element name='c1'/></xsd:choice>\
           <xsd:any namespace='n2'/>\
           <xsd:sequence><xsd:element name='inner2'/></xsd:sequence>\
           <xsd:element name='c'/>\
         </xsd:sequence>",
    ))
    .unwrap();
    let expected = Sequence {
        min_occurrences: Some(Occurrence::Limit(1)),
        max_occurrences: Some(Occurrence::Limit(3)),
        elements: vec![named("a"), named("b"), named("c")],
        anys: vec![
            Any { namespace: Some("n1".to_owned()), ..Default::default() },
            Any { namespace: Some("n2".to_owned()), ..Default::default() },
        ],
        choice: Some(Choice { elements: vec![named("c1")], ..Default::default() }),
        sequences: vec![
            Sequence { elements: vec![named("inner1")], ..Default::default() },
            Sequence { elements: vec![named("inner2")], ..Default::default() },
        ],
    };
    assert_eq!(built, expected);
}

#[test]
fn sequence_keeps_the_last_of_several_choices() {
    let built = Sequence::try_from(&first(
        "<xsd:sequence>\
           <xsd:choice><xsd:element name='first'/></xsd:choice>\
           <xsd:choice><xsd:element name='last'/></xsd:choice>\
         </xsd:sequence>",
    ))
    .unwrap();
    assert_eq!(built.choice, Some(Choice { elements: vec![named("last")], ..Default::default() }));
}

#[test]
fn sequence_of_nothing_is_the_default() {
    assert_eq!(Sequence::try_from(&first("<xsd:sequence/>")).unwrap(), Sequence::default());
    assert_eq!(Choice::try_from(&first("<xsd:choice/>")).unwrap(), Choice::default());
}

#[test]
fn sequence_does_not_handle_other_children() {
    let error = Sequence::try_from(&first(
        "<xsd:sequence><xsd:element name='a'/><xsd:attribute name='b'/></xsd:sequence>",
    ))
    .unwrap_err();
    assert_eq!(unhandled(error), ("sequence".to_owned(), "attribute".to_owned()));
}

#[test]
fn sequence_reports_the_first_failure_in_document_order() {
    let error = Sequence::try_from(&first(
        "<xsd:sequence><xsd:element final='x'/><xsd:foo/></xsd:sequence>",
    ))
    .unwrap_err();
    assert!(matches!(error, Error::InvalidFinal));
    let error = Sequence::try_from(&first(
        "<xsd:sequence><xsd:foo/><xsd:element final='x'/></xsd:sequence>",
    ))
    .unwrap_err();
    assert_eq!(unhandled(error), ("sequence".to_owned(), "foo".to_owned()));
    let error = Sequence::try_from(&first(
        "<xsd:sequence minOccurs='x'><xsd:foo/></xsd:sequence>",
    ))
    .unwrap_err();
    assert!(matches!(error, Error::ParseInt(_)));
}

#[test]
fn sequence_reports_failures_from_below_with_their_own_parent() {
    let error = Sequence::try_from(&first(
        "<xsd:sequence><xsd:sequence><xsd:choice><xsd:bar/></xsd:choice></xsd:sequence></xsd:sequence>",
    ))
    .unwrap_err();
    assert_eq!(unhandled(error), ("choice".to_owned(), "bar".to_owned()));
}

#[test]
fn choice_keeps_elements_and_sequences_and_the_last_any() {
    let built = Choice::try_from(&first(
        "<xsd:choice minOccurs='0'>\
           <xsd:any namespace='n1'/>\
           <xsd:element name='a'/>\
           <xsd:sequence><xsd:element name='inner'/></xsd:sequence>\
           <xsd:any namespace='n2'/>\
           <xsd:element name='b'/>\
         </xsd:choice>",
    ))
    .unwrap();
    let expected = Choice {
        min_occurrences: Some(Occurrence::Limit(0)),
        max_occurrences: None,
        elements: vec![named("a"), named("b")],
        any: Some(Any { namespace: Some("n2".to_owned()), ..Default::default() }),
        sequences: vec![Sequence { elements: vec![named("inner")], ..Default::default() }],
    };
    assert_eq!(built, expected);
}

#[test]
fn choice_does_not_handle_a_nested_choice() {
    let error =
        Choice::try_from(&first("<xsd:choice><xsd:choice/></xsd:choice>")).unwrap_err();
    assert_eq!(unhandled(error), ("choice".to_owned(), "choice".to_owned()));
}

#[test]
fn choice_refuses_a_wrong_bound() {
    assert!(matches!(
        Choice::try_from(&first("<xsd:choice maxOccurs='lots'/>")),
        Err(Error::ParseInt(_))
    ));
}

// restriction

#[test]
fn restriction_keeps_facets_in_document_order_and_repeated() {
    let built = Restriction::try_from(&first(
        "<xsd:restriction base='xsd:string'>\
           <xsd:enumeration value='a'/>\
           <xsd:pattern value='[a-z]'/>\
           <xsd:length value='1'/>\
           <xsd:minLength value='2'/>\
           <xsd:maxLength value='3'/>\
           <xsd:minInclusive value='4'/>\
           <xsd:maxInclusive value='5'/>\
           <xsd:fractionDigits value='6'/>\
           <xsd:totalDigits value='7'/>\
           <xsd:enumeration value='a'/>\
         </xsd:restriction>",
    ))
    .unwrap();
    let expected = Restriction {
        base: "xsd:string".to_owned(),
        restrictions: vec![
            Restrictions::Enumeration("a".to_owned()),
            Restrictions::Pattern("[a-z]".to_owned()),
            Restrictions::Length("1".to_owned()),
            Restrictions::MinLength("2".to_owned()),
            Restrictions::MaxLength("3".to_owned()),
            Restrictions::MinInclusive("4".to_owned()),
            Restrictions::MaxInclusive("5".to_owned()),
            Restrictions::FractionDigits("6".to_owned()),
            Restrictions::TotalDigits("7".to_owned()),
            Restrictions::Enumeration("a".to_owned()),
        ],
    };
    assert_eq!(built, expected);
}

#[test]
fn restriction_must_have_a_base() {
    let error = Restriction::try_from(&first("<xsd:restriction/>")).unwrap_err();
    assert_eq!(missing(error), ("restriction".to_owned(), "base".to_owned()));
    let error =
        Restriction::try_from(&first("<xsd:restriction><xsd:foo/></xsd:restriction>")).unwrap_err();
    assert_eq!(missing(error), ("restriction".to_owned(), "base".to_owned()));
}

#[test]
fn restriction_facets_must_have_a_value() {
    let error = Restriction::try_from(&first(
        "<xsd:restriction base='b'><xsd:pattern value='p'/><xsd:length/></xsd:restriction>",
    ))
    .unwrap_err();
    assert_eq!(missing(error), ("length".to_owned(), "value".to_owned()));
}

#[test]
fn restriction_does_not_handle_other_children() {
    let error = Restriction::try_from(&first(
        "<xsd:restriction base='b'><xsd:whiteSpace value='collapse'/></xsd:restriction>",
    ))
    .unwrap_err();
    assert_eq!(unhandled(error), ("restriction".to_owned(), "whiteSpace".to_owned()));
    let error = Restriction::try_from(&first(
        "<xsd:restriction base='b'><xsd:foo/><xsd:length/></xsd:restriction>",
    ))
    .unwrap_err();
    assert_eq!(unhandled(error), ("restriction".to_owned(), "foo".to_owned()));
}

#[test]
fn facet_is_built_from_tag_and_value() {
    let built =
        Restrictions::try_from("restriction", &node("maxLength", &[("value", "9")], vec![])).unwrap();
    assert_eq!(built, Restrictions::MaxLength("9".to_owned()));
    let error = Restrictions::try_from("outer", &node("foo", &[("value", "9")], vec![])).unwrap_err();
    assert_eq!(unhandled(error), ("outer".to_owned(), "foo".to_owned()));
}

// extension and content

#[test]
fn extension_reads_base_and_children() {
    let built = Extension::try_from(&first(
        "<xsd:extension base='mns:Base'>\
           <xsd:sequence><xsd:element name='a'/></xsd:sequence>\
           <xsd:choice><xsd:element name='b'/></xsd:choice>\
           <xsd:attribute name='first'/>\
           <xsd:attribute name='last' use='prohibited'/>\
         </xsd:extension>",
    ))
    .unwrap();
    let expected = Extension {
        base: "mns:Base".to_owned(),
        attribute: Some(Attribute { name: Some("last".to_owned()), usage: Usage::Prohibited }),
        sequence: Some(Sequence { elements: vec![named("a")], ..Default::default() }),
        choice: Some(Choice { elements: vec![named("b")], ..Default::default() }),
    };
    assert_eq!(built, expected);
}

#[test]
fn extension_must_have_a_base() {
    let error = Extension::try_from(&first("<xsd:extension><xsd:foo/></xsd:extension>")).unwrap_err();
    assert_eq!(missing(error), ("extension".to_owned(), "base".to_owned()));
}

#[test]
fn extension_does_not_handle_other_children() {
    let error = Extension::try_from(&first(
        "<xsd:extension base='b'><xsd:element name='a'/></xsd:extension>",
    ))
    .unwrap_err();
    assert_eq!(unhandled(error), ("extension".to_owned(), "element".to_owned()));
}

#[test]
fn content_is_decided_by_the_first_child_element() {
    let restricted = first(
        "<xsd:simpleContent> <!-- note --> <xsd:restriction base='b'/><xsd:foo/></xsd:simpleContent>",
    );
    assert!(content_admits(&restricted));
    let expected = Content::Restriction(Restriction { base: "b".to_owned(), restrictions: vec![] });
    assert_eq!(Content::try_from(&restricted).unwrap(), expected);
    assert_eq!(SimpleContent::try_from(&restricted).unwrap().content, expected);

    let extended = first("<xsd:complexContent><xsd:extension base='b'/></xsd:complexContent>");
    assert!(content_admits(&extended));
    let expected = Content::Extension(Extension {
        base: "b".to_owned(),
        attribute: None,
        sequence: None,
        choice: None,
    });
    assert_eq!(ComplexContent::try_from(&extended).unwrap().content, expected);
}

#[test]
fn content_does_not_handle_another_first_child() {
    let other = first("<xsd:simpleContent><xsd:foo/><xsd:restriction base='b'/></xsd:simpleContent>");
    assert!(content_admits(&other));
    let error = SimpleContent::try_from(&other).unwrap_err();
    assert_eq!(unhandled(error), ("simpleContent".to_owned(), "foo".to_owned()));
    let other = first("<xsd:complexContent><xsd:sequence/></xsd:complexContent>");
    let error = ComplexContent::try_from(&other).unwrap_err();
    assert_eq!(unhandled(error), ("complexContent".to_owned(), "sequence".to_owned()));
}

#[test]
fn content_passes_on_the_failure_of_its_child() {
    let broken = first("<xsd:simpleContent><xsd:restriction/></xsd:simpleContent>");
    let error = SimpleContent::try_from(&broken).unwrap_err();
    assert_eq!(missing(error), ("restriction".to_owned(), "base".to_owned()));
}

#[test]
fn content_without_a_child_element_is_not_admitted() {
    assert!(!content_admits(&first("<xsd:simpleContent/>")));
    assert!(!content_admits(&first("<xsd:complexContent> text <!-- note --></xsd:complexContent>")));
}

// complex type

#[test]
fn complex_type_with_sequence_and_attribute() {
    let built = ComplexType::try_from(&first(
        "<xsd:complexType name='OrderType'>\
           <xsd:sequence>\
             <xsd:element name='ShippingAddress' type='mns:Address' maxOccurs='2'/>\
             <xsd:element name='BillingAddress' type='mns:Address'/>\
           </xsd:sequence>\
           <xsd:attribute name='Date' type='xsd:date'/>\
         </xsd:complexType>",
    ))
    .unwrap();
    let sequence = built.sequence.unwrap();
    assert_eq!(sequence.elements.len(), 2);
    assert_eq!(
        sequence.elements[0],
        Element {
            name: Some("ShippingAddress".to_owned()),
            type_: Some("mns:Address".to_owned()),
            max_occurrences: Some(Occurrence::Limit(2)),
            ..Default::default()
        }
    );
    assert_eq!(
        sequence.elements[1],
        Element {
            name: Some("BillingAddress".to_owned()),
            type_: Some("mns:Address".to_owned()),
            ..Default::default()
        }
    );
    assert!(sequence.anys.is_empty());
    assert!(sequence.sequences.is_empty());
    assert_eq!(sequence.choice, None);
    assert_eq!(
        built.attribute,
        Some(Attribute { name: Some("Date".to_owned()), usage: Usage::Optional })
    );
    assert_eq!(built.name, Some("OrderType".to_owned()));
    assert_eq!(built.simple_content, None);
    assert_eq!(built.complex_content, None);
    assert_eq!(built.choice, None);
}

#[test]
fn complex_type_fills_each_slot_on_its_own() {
    let source = first(
        "<xsd:complexType>\
           <xsd:simpleContent><xsd:restriction base='r'/></xsd:simpleContent>\
           <xsd:complexContent><xsd:extension base='e'/></xsd:complexContent>\
           <xsd:sequence/>\
           <xsd:choice/>\
           <xsd:attribute name='first'/>\
           <xsd:attribute name='last'/>\
         </xsd:complexType>",
    );
    assert!(complex_type_admits(&source));
    let built = ComplexType::try_from(&source).unwrap();
    let expected = ComplexType {
        name: None,
        sequence: Some(Sequence::default()),
        attribute: Some(Attribute { name: Some("last".to_owned()), usage: Usage::Optional }),
        simple_content: Some(SimpleContent {
            content: Content::Restriction(Restriction { base: "r".to_owned(), restrictions: vec![] }),
        }),
        choice: Some(Choice::default()),
        complex_content: Some(ComplexContent {
            content: Content::Extension(Extension {
                base: "e".to_owned(),
                attribute: None,
                sequence: None,
                choice: None,
            }),
        }),
    };
    assert_eq!(built, expected);
}

#[test]
fn complex_type_of_nothing_is_the_default() {
    assert_eq!(ComplexType::try_from(&first("<xsd:complexType/>")).unwrap(), ComplexType::default());
}

#[test]
fn complex_type_does_not_handle_other_children() {
    let error = ComplexType::try_from(&first(
        "<xsd:complexType><xsd:sequence/><xsd:element name='a'/></xsd:complexType>",
    ))
    .unwrap_err();
    assert_eq!(unhandled(error), ("complexType".to_owned(), "element".to_owned()));
}

#[test]
fn complex_type_passes_on_failures_from_below() {
    let error = ComplexType::try_from(&first(
        "<xsd:complexType><xsd:attribute name='a'><xsd:foo/></xsd:attribute></xsd:complexType>",
    ))
    .unwrap_err();
    assert_eq!(unhandled(error), ("attribute".to_owned(), "foo".to_owned()));
    let error = ComplexType::try_from(&first(
        "<xsd:complexType><xsd:attribute use='x'/></xsd:complexType>",
    ))
    .unwrap_err();
    assert!(matches!(error, Error::InvalidUse));
}

#[test]
fn complex_type_with_an_empty_content_node_is_not_admitted() {
    assert!(!complex_type_admits(&first(
        "<xsd:complexType><xsd:sequence/><xsd:simpleContent/></xsd:complexType>"
    )));
    assert!(!complex_type_admits(&first(
        "<xsd:complexType><xsd:complexContent/></xsd:complexType>"
    )));
    assert!(complex_type_admits(&first("<xsd:complexType><xsd:foo/></xsd:complexType>")));
}

// simple type and annotation

#[test]
fn annotation_keeps_texts_in_document_order() {
    let source = first(
        "<xsd:annotation>\
           <xsd:documentation>one</xsd:documentation>\
           <xsd:appinfo>tool</xsd:appinfo>\
           <xsd:documentation>two</xsd:documentation>\
           <xsd:documentation>one</xsd:documentation>\
         </xsd:annotation>",
    );
    assert!(annotation_admits(&source));
    let expected = Annotation {
        documentation: vec!["one".to_owned(), "two".to_owned(), "one".to_owned()],
        app_info: vec!["tool".to_owned()],
    };
    assert_eq!(Annotation::try_from(&source).unwrap(), expected);
}

#[test]
fn annotation_of_nothing_is_the_default() {
    let source = first("<xsd:annotation/>");
    assert!(annotation_admits(&source));
    assert_eq!(Annotation::try_from(&source).unwrap(), Annotation::default());
}

#[test]
fn annotation_does_not_handle_other_children() {
    let source = first(
        "<xsd:annotation><xsd:documentation>d</xsd:documentation><xsd:foo/></xsd:annotation>",
    );
    assert!(annotation_admits(&source));
    let error = Annotation::try_from(&source).unwrap_err();
    assert_eq!(unhandled(error), ("annotation".to_owned(), "foo".to_owned()));
}

#[test]
fn annotation_without_text_is_not_admitted() {
    assert!(!annotation_admits(&first("<xsd:annotation><xsd:documentation/></xsd:annotation>")));
    assert!(!annotation_admits(&first(
        "<xsd:annotation><xsd:appinfo><xsd:tool/>late text</xsd:appinfo></xsd:annotation>"
    )));
    assert!(annotation_admits(&first("<xsd:annotation><xsd:other/></xsd:annotation>")));
}

#[test]
fn annotation_of_a_hand_made_node() {
    let mut documentation = node("documentation", &[], vec![text("by hand")]);
    documentation.text = Some("by hand".to_owned());
    let source = node("annotation", &[], vec![text(" "), documentation]);
    assert!(annotation_admits(&source));
    let built = Annotation::try_from(&source).unwrap();
    assert_eq!(built.documentation, vec!["by hand".to_owned()]);
    assert!(built.app_info.is_empty());
}

#[test]
fn simple_type_reads_name_restriction_and_annotation() {
    let source = first(
        "<xsd:simpleType name='Size'>\
           <xsd:annotation><xsd:documentation>sizes</xsd:documentation></xsd:annotation>\
           <xsd:restriction base='xsd:string'>\
             <xsd:enumeration value='S'/>\
             <xsd:enumeration value='L'/>\
           </xsd:restriction>\
         </xsd:simpleType>",
    );
    assert!(simple_type_admits(&source));
    let expected = SimpleType {
        name: Some("Size".to_owned()),
        restriction: Some(Restriction {
            base: "xsd:string".to_owned(),
            restrictions: vec![
                Restrictions::Enumeration("S".to_owned()),
                Restrictions::Enumeration("L".to_owned()),
            ],
        }),
        annotation: Some(Annotation { documentation: vec!["sizes".to_owned()], app_info: vec![] }),
    };
    assert_eq!(SimpleType::try_from(&source).unwrap(), expected);
}

#[test]
fn simple_type_of_nothing_is_the_default() {
    let source = first("<xsd:simpleType/>");
    assert!(simple_type_admits(&source));
    assert_eq!(SimpleType::try_from(&source).unwrap(), SimpleType::default());
}

#[test]
fn simple_type_does_not_handle_other_children() {
    let source = first("<xsd:simpleType><xsd:list itemType='xsd:int'/></xsd:simpleType>");
    assert!(simple_type_admits(&source));
    let error = SimpleType::try_from(&source).unwrap_err();
    assert_eq!(unhandled(error), ("simpleType".to_owned(), "list".to_owned()));
}

#[test]
fn simple_type_with_a_textless_documentation_is_not_admitted() {
    assert!(!simple_type_admits(&first(
        "<xsd:simpleType><xsd:annotation><xsd:documentation/></xsd:annotation></xsd:simpleType>"
    )));
}

// schema, import, and the other directive

#[test]
fn schema_reads_metadata_and_namespaces() {
    let text = "<xsd:schema xmlns:xsd='http://www.w3.org/2001/XMLSchema' xmlns='urn:none' \
                id='s' version='1.2' targetNamespace='urn:t' attributeFormDefault='unqualified' \
                elementFormDefault='qualified' blockDefault='#all' finalDefault='list' \
                xml:lang='en'/>";
    let mut root = document::parse(text).unwrap();
    let built = Schema::try_from(&root.children.remove(0)).unwrap();
    let expected = Schema {
        attribute_form_default: Some(FormDefault::Unqualified),
        block_default: Some(BlockDefault::All),
        element_form_default: Some(FormDefault::Qualified),
        final_default: Some(FinalDefault::List),
        id: Some("s".to_owned()),
        namespaces: vec![
            ("xsd".to_owned(), "http://www.w3.org/2001/XMLSchema".to_owned()),
            ("default".to_owned(), "urn:none".to_owned()),
        ],
        target_namespace: Some("urn:t".to_owned()),
        version: Some("1.2".to_owned()),
        xml_lang: Some("en".to_owned()),
    };
    assert_eq!(built, expected);
    assert_eq!(built.namespace("xsd"), Some("http://www.w3.org/2001/XMLSchema"));
    assert_eq!(built.namespace("default"), Some("urn:none"));
    assert_eq!(built.namespace("mns"), None);
}

#[test]
fn schema_without_attributes_is_the_default() {
    assert_eq!(Schema::try_from(&node("schema", &[], vec![])).unwrap(), Schema::default());
}

#[test]
fn schema_binds_each_prefix_once_and_to_the_last_uri() {
    let mut source = node("schema", &[], vec![]);
    source.namespaces = vec![
        Namespace { prefix: Some("a".to_owned()), uri: "urn:1".to_owned() },
        Namespace { prefix: None, uri: "urn:2".to_owned() },
        Namespace { prefix: Some("b".to_owned()), uri: "urn:3".to_owned() },
        Namespace { prefix: Some("default".to_owned()), uri: "urn:4".to_owned() },
        Namespace { prefix: Some("a".to_owned()), uri: "urn:5".to_owned() },
    ];
    let built = Schema::try_from(&source).unwrap();
    assert_eq!(
        built.namespaces,
        vec![
            ("a".to_owned(), "urn:5".to_owned()),
            ("default".to_owned(), "urn:4".to_owned()),
            ("b".to_owned(), "urn:3".to_owned()),
        ]
    );
    assert_eq!(built.namespace("a"), Some("urn:5"));
    assert_eq!(built.namespace("default"), Some("urn:4"));
}

#[test]
fn schema_reads_the_language_from_the_xml_namespace() {
    let mut root = document::parse("<schema xml:lang='en' id='i'/>").unwrap();
    let built = Schema::try_from(&root.children.remove(0)).unwrap();
    assert_eq!(built.xml_lang, Some("en".to_owned()));
    assert_eq!(built.id, Some("i".to_owned()));

    // an attribute `lang` of no namespace or of another one is not the language
    let mut root =
        document::parse("<schema xmlns:p='urn:p' lang='de' p:lang='fr' id='i'/>").unwrap();
    let built = Schema::try_from(&root.children.remove(0)).unwrap();
    assert_eq!(built.xml_lang, None);
    let mut root =
        document::parse("<schema xmlns:p='urn:p' lang='de' p:lang='fr' xml:lang='en'/>").unwrap();
    let built = Schema::try_from(&root.children.remove(0)).unwrap();
    assert_eq!(built.xml_lang, Some("en".to_owned()));

    // nor is an attribute whose local name is `xml:lang`
    let built = Schema::try_from(&node("schema", &[("xml:lang", "en")], vec![])).unwrap();
    assert_eq!(built.xml_lang, None);

    // a node written by hand
    let mut source = node("schema", &[("lang", "de")], vec![]);
    source.attributes.push(NodeAttribute {
        namespace: Some("http://www.w3.org/XML/1998/namespace".to_owned()),
        name: "lang".to_owned(),
        value: "nl".to_owned(),
    });
    assert_eq!(Schema::try_from(&source).unwrap().xml_lang, Some("nl".to_owned()));
}

#[test]
fn schema_reports_the_first_wrong_attribute() {
    let all_wrong = [
        ("finalDefault", "x"),
        ("elementFormDefault", "x"),
        ("blockDefault", "x"),
        ("attributeFormDefault", "x"),
    ];
    assert!(matches!(
        Schema::try_from(&node("schema", &all_wrong, vec![])),
        Err(Error::InvalidFormDefault)
    ));
    assert!(matches!(
        Schema::try_from(&node("schema", &all_wrong[..3], vec![])),
        Err(Error::InvalidBlockDefault)
    ));
    assert!(matches!(
        Schema::try_from(&node("schema", &all_wrong[..2], vec![])),
        Err(Error::InvalidFormDefault)
    ));
    assert!(matches!(
        Schema::try_from(&node("schema", &all_wrong[..1], vec![])),
        Err(Error::InvalidFinalDefault)
    ));
}

#[test]
fn import_reads_its_three_attributes() {
    let built = Import::try_from(&first(
        "<xsd:import id='i' namespace='urn:n' schemaLocation='other.xsd'><xsd:foo/></xsd:import>",
    ))
    .unwrap();
    let expected = Import {
        id: Some("i".to_owned()),
        namespace: Some("urn:n".to_owned()),
        schema_location: Some("other.xsd".to_owned()),
    };
    assert_eq!(built, expected);
    let built = Import::try_from(&first("<xsd:import/>")).unwrap();
    assert_eq!(built, Import { id: None, namespace: None, schema_location: None });
}

#[test]
fn inclusion_reads_its_two_attributes() {
    let built = Include::try_from(&first(
        "<xsd:include id='i' namespace='urn:n' schemaLocation='other.xsd'/>",
    ))
    .unwrap();
    assert_eq!(
        built,
        Include { id: Some("i".to_owned()), schema_location: Some("other.xsd".to_owned()) }
    );
    let built = Include::try_from(&node("include", &[], vec![])).unwrap();
    assert_eq!(built, Include { id: None, schema_location: None });
}

#[test]
fn build_agrees_with_try_from_where_the_node_is_admitted() {
    let source = first(
        "<xsd:simpleType name='n'><xsd:annotation><xsd:documentation>d</xsd:documentation>\
         </xsd:annotation></xsd:simpleType>",
    );
    assert_eq!(SimpleType::build(&source).unwrap().unwrap(), SimpleType::try_from(&source).unwrap());
    let source = first(
        "<xsd:complexType name='n'><xsd:simpleContent><xsd:extension base='b'/>\
         </xsd:simpleContent></xsd:complexType>",
    );
    assert_eq!(ComplexType::build(&source).unwrap().unwrap(), ComplexType::try_from(&source).unwrap());
    let source = first("<xsd:annotation><xsd:foo/></xsd:annotation>");
    assert!(matches!(Annotation::build(&source), Some(Err(Error::UnhandledTag { .. }))));
    assert!(matches!(Annotation::try_from(&source), Err(Error::UnhandledTag { .. })));
}

#[test]
fn what_comes_after_a_failure_is_not_asked_for_anything() {
    // the children behind the one that is not handled are never looked at
    assert!(annotation_admits(&first("<xsd:annotation><xsd:foo/><xsd:documentation/></xsd:annotation>")));
    assert!(simple_type_admits(&first(
        "<xsd:simpleType><xsd:restriction/><xsd:annotation><xsd:appinfo/></xsd:annotation>\
         </xsd:simpleType>"
    )));
    assert!(complex_type_admits(&first(
        "<xsd:complexType><xsd:attribute use='x'/><xsd:simpleContent/></xsd:complexType>"
    )));
    // but the ones before it are
    assert!(!annotation_admits(&first("<xsd:annotation><xsd:documentation/><xsd:foo/></xsd:annotation>")));
    assert!(!complex_type_admits(&first(
        "<xsd:complexType><xsd:simpleContent/><xsd:attribute use='x'/></xsd:complexType>"
    )));
}

#[test]
fn attributes_are_found_by_their_local_name() {
    let built = Element::try_from(&first("<xsd:element xsd:name='qualified' type='t'/>")).unwrap();
    assert_eq!(built.name, Some("qualified".to_owned()));
    assert_eq!(built.type_, Some("t".to_owned()));
    // the first of two attributes with one local name is the one that is read
    let built =
        Element::try_from(&first("<xsd:element xsd:name='first' name='second'/>")).unwrap();
    assert_eq!(built.name, Some("first".to_owned()));
}
