use xsd::complex_type::{Attribute, ComplexType, Sequence};
use xsd::document;
use xsd::element::Element;
use xsd::parser::Request;
use xsd::{Elements, Parser};
use xsd::schema::Schema;
use xsd::shared::{FormDefault, Occurrence};

const XSD1: &str = r#"<?xml version="1.0"?>
<xsd:schema xmlns:xsd="http://www.w3.org/2001/XMLSchema"
            xmlns:mns="http://example.org/order.xsd"
            targetNamespace="http://example.org/order.xsd"
            elementFormDefault="qualified">
  <xsd:element name="Order" type="mns:OrderType"/>
  <xsd:complexType name="OrderType">
    <xsd:sequence>
      <xsd:element name="ShippingAddress" type="mns:Address" maxOccurs="2"/>
      <xsd:element name="BillingAddress" type="mns:Address"/>
    </xsd:sequence>
    <xsd:attribute name="Date" type="xsd:date"/>
  </xsd:complexType>
  <xsd:complexType name="Address">
    <xsd:sequence>
      <xsd:element name="name" type="xsd:string"/>
      <xsd:element name="street" type="xsd:string"/>
      <xsd:element name="city" type="xsd:string"/>
      <xsd:element name="county" type="xsd:string"/>
      <xsd:element name="postcode" type="xsd:string"/>
    </xsd:sequence>
    <xsd:attribute name="country" type="xsd:NMTOKEN"/>
  </xsd:complexType>
</xsd:schema>
"#;

fn named(name: &str, type_: &str) -> Element {
    Element { name: Some(name.to_owned()), type_: Some(type_.to_owned()), ..Default::default() }
}

#[test]
fn it_works() {
    assert_eq!(2 + 2, 4);
}

#[test]
fn parse_xsd1() {
    let root = document::parse(XSD1).unwrap();
    let mut parser = Parser::new(Some(".".to_owned())).unwrap();
    parser.load(&root);
    assert!(!parser.breaks());
    assert_eq!(parser.advance().unwrap(), Request::Finished);

    let expected = vec![
        Elements::Schema(Schema {
            element_form_default: Some(FormDefault::Qualified),
            namespaces: vec![
                ("xsd".to_owned(), "http://www.w3.org/2001/XMLSchema".to_owned()),
                ("mns".to_owned(), "http://example.org/order.xsd".to_owned()),
            ],
            target_namespace: Some("http://example.org/order.xsd".to_owned()),
            ..Default::default()
        }),
        Elements::Element(named("Order", "mns:OrderType")),
        Elements::ComplexType(Box::new(ComplexType {
            name: Some("OrderType".to_owned()),
            sequence: Some(Sequence {
                elements: vec![
                    Element {
                        max_occurrences: Some(Occurrence::Limit(2)),
                        ..named("ShippingAddress", "mns:Address")
                    },
                    named("BillingAddress", "mns:Address"),
                ],
                ..Default::default()
            }),
            attribute: Some(Attribute { name: Some("Date".to_owned()), ..Default::default() }),
            ..Default::default()
        })),
        Elements::ComplexType(Box::new(ComplexType {
            name: Some("Address".to_owned()),
            sequence: Some(Sequence {
                elements: vec![
                    named("name", "xsd:string"),
                    named("street", "xsd:string"),
                    named("city", "xsd:string"),
                    named("county", "xsd:string"),
                    named("postcode", "xsd:string"),
                ],
                ..Default::default()
            }),
            attribute: Some(Attribute { name: Some("country".to_owned()), ..Default::default() }),
            ..Default::default()
        })),
    ];

    assert_eq!(parser.elements, expected);
}

const XSD: &str = "xmlns:xsd='http://www.w3.org/2001/XMLSchema'";

fn document(body: &str) -> xsd::node::Node {
    let text = format!("<xsd:schema {}>{}</xsd:schema>", XSD, body);
    document::parse(&text).unwrap()
}

fn started() -> Parser {
    Parser::new(Some("schemas".to_owned())).unwrap()
}

fn label(declaration: &Elements) -> String {
    match declaration {
        Elements::Schema(_) => "schema".to_owned(),
        Elements::Import(i) => format!("import {}", i.schema_location.clone().unwrap_or_default()),
        Elements::Include(i) => format!("include {}", i.schema_location.clone().unwrap_or_default()),
        Elements::Element(e) => format!("element {}", e.name.clone().unwrap_or_default()),
        Elements::SimpleType(s) => format!("simpleType {}", s.name.clone().unwrap_or_default()),
        Elements::ComplexType(c) => format!("complexType {}", c.name.clone().unwrap_or_default()),
    }
}

fn labels(parser: &Parser) -> Vec<String> {
    parser.elements.iter().map(label).collect()
}

/// Resolves `entry`, taking each document that is asked for from `sources`,
/// and returns the labels of the output with the locations asked for.
fn resolve(entry: &str, sources: &[(&str, &str)]) -> Result<(Vec<String>, Vec<String>), xsd::errors::Error> {
    let mut parser = started();
    let mut asked = vec![];
    parser.load(&document(entry));
    loop {
        match parser.advance()? {
            Request::Finished => return Ok((labels(&parser), asked)),
            Request::Document(location) => {
                let body = sources.iter().find(|(name, _)| *name == location).unwrap().1;
                asked.push(location);
                parser.load(&document(body));
            }
        }
    }
}

#[test]
fn new_parser_needs_a_root_folder() {
    assert!(matches!(Parser::new(None), Err(xsd::errors::Error::InvalidRootFolder)));
    assert!(matches!(Parser::new(Some(String::new())), Err(xsd::errors::Error::InvalidRootFolder)));
    assert_eq!(Parser::new(Some("/".to_owned())).unwrap().root_folder(), "/");
    let parser = Parser::new(Some("some/folder".to_owned())).unwrap();
    assert_eq!(parser.root_folder(), "some/folder");
    assert!(parser.elements.is_empty());
    assert!(parser.elements().is_empty());
}

#[test]
fn new_parser_has_nothing_to_do() {
    let mut parser = started();
    assert_eq!(parser.advance().unwrap(), Request::Finished);
    assert!(parser.elements.is_empty());
    assert_eq!(parser.root_folder(), "schemas");
}

#[test]
fn imported_declarations_come_before_the_import() {
    let entry = "<xsd:import namespace='urn:b' schemaLocation='b.xsd'/>";
    let imported = "<xsd:complexType name='Imported'/>";

    let mut parser = started();
    parser.load(&document(entry));
    assert_eq!(parser.advance().unwrap(), Request::Document("b.xsd".to_owned()));
    assert_eq!(labels(&parser), ["schema"]);
    parser.load(&document(imported));
    assert_eq!(parser.advance().unwrap(), Request::Finished);

    assert_eq!(labels(&parser), ["schema", "schema", "complexType Imported", "import b.xsd"]);
    let declared = parser
        .elements
        .iter()
        .position(|e| matches!(e, Elements::ComplexType(c) if c.name.as_deref() == Some("Imported")))
        .unwrap();
    let import = parser.elements.iter().position(|e| matches!(e, Elements::Import(_))).unwrap();
    assert!(declared < import);
    match &parser.elements[import] {
        Elements::Import(i) => {
            assert_eq!(i.namespace.as_deref(), Some("urn:b"));
            assert_eq!(i.schema_location.as_deref(), Some("b.xsd"));
        }
        other => panic!("{:?}", other),
    }
}

#[test]
fn resolved_documents_are_interleaved_in_document_order() {
    let entry = "<xsd:element name='before'/>\
                 <xsd:include schemaLocation='one.xsd'/>\
                 <xsd:element name='between'/>\
                 <xsd:import schemaLocation='two.xsd'/>\
                 <xsd:element name='after'/>";
    let one = "<xsd:simpleType name='One'/><xsd:include schemaLocation='three.xsd'/>";
    let two = "<xsd:complexType name='Two'/>";
    let three = "<xsd:element name='Three'/>";
    let (output, asked) =
        resolve(entry, &[("one.xsd", one), ("two.xsd", two), ("three.xsd", three)]).unwrap();
    assert_eq!(asked, ["one.xsd", "three.xsd", "two.xsd"]);
    assert_eq!(
        output,
        [
            "schema",
            "element before",
            "schema",
            "simpleType One",
            "schema",
            "element Three",
            "include three.xsd",
            "include one.xsd",
            "element between",
            "schema",
            "complexType Two",
            "import two.xsd",
            "element after",
        ]
    );
}

#[test]
fn a_document_named_twice_is_walked_twice() {
    let entry = "<xsd:include schemaLocation='same.xsd'/><xsd:include schemaLocation='same.xsd'/>";
    let same = "<xsd:element name='again'/>";
    let (output, asked) = resolve(entry, &[("same.xsd", same)]).unwrap();
    assert_eq!(asked, ["same.xsd", "same.xsd"]);
    assert_eq!(
        output,
        [
            "schema",
            "schema",
            "element again",
            "include same.xsd",
            "schema",
            "element again",
            "include same.xsd",
        ]
    );
}

#[test]
fn directives_without_a_location_ask_for_nothing() {
    let (output, asked) = resolve("<xsd:import namespace='urn:x'/><xsd:include/>", &[]).unwrap();
    assert!(asked.is_empty());
    assert_eq!(output, ["schema", "import ", "include "]);
}

#[test]
fn declarations_below_a_nested_schema_stay_in_the_flat_list() {
    let entry = "<xsd:element name='a'/>\
                 <xsd:schema id='inner'><xsd:element name='b'/></xsd:schema>\
                 <xsd:element name='c'/>";
    let (output, _) = resolve(entry, &[]).unwrap();
    assert_eq!(output, ["schema", "element a", "schema", "element b", "element c"]);
}

#[test]
fn unknown_top_level_tag_names_its_parent() {
    let error = resolve("<xsd:element name='a'/><xsd:group name='g'/>", &[]).unwrap_err();
    match error {
        xsd::errors::Error::UnhandledTag { parent, tag } => {
            assert_eq!(parent, "schema");
            assert_eq!(tag, "group");
        }
        other => panic!("{:?}", other),
    }
}

#[test]
fn unknown_outermost_tag_has_the_root_as_parent() {
    let root = document::parse("<schemata/>").unwrap();
    let mut parser = started();
    parser.load(&root);
    assert!(!parser.breaks());
    match parser.advance().unwrap_err() {
        xsd::errors::Error::UnhandledTag { parent, tag } => {
            assert_eq!(parent, "");
            assert_eq!(tag, "schemata");
        }
        other => panic!("{:?}", other),
    }
}

#[test]
fn the_first_failure_in_walking_order_is_reported() {
    // the document asked for fails before the later failure of the entry document is reached
    let entry = "<xsd:include schemaLocation='bad.xsd'/><xsd:foo/>";
    let bad = "<xsd:element final='never'/>";
    let mut parser = started();
    parser.load(&document(entry));
    assert_eq!(parser.advance().unwrap(), Request::Document("bad.xsd".to_owned()));
    parser.load(&document(bad));
    assert!(matches!(parser.advance(), Err(xsd::errors::Error::InvalidFinal)));

    // a failure of the entry document comes only after the documents before it are walked
    let entry = "<xsd:include schemaLocation='good.xsd'/><xsd:foo/>";
    let good = "<xsd:element name='fine'/>";
    let mut parser = started();
    parser.load(&document(entry));
    assert_eq!(parser.advance().unwrap(), Request::Document("good.xsd".to_owned()));
    parser.load(&document(good));
    match parser.advance().unwrap_err() {
        xsd::errors::Error::UnhandledTag { parent, tag } => {
            assert_eq!(parent, "schema");
            assert_eq!(tag, "foo");
        }
        other => panic!("{:?}", other),
    }
    // nothing is kept of what was declared before the failure
    assert!(parser.elements.is_empty());
    assert_eq!(parser.advance().unwrap(), Request::Finished);
    assert!(parser.elements.is_empty());
}

#[test]
fn a_failure_before_a_directive_asks_for_nothing() {
    let entry = "<xsd:element block='x'/><xsd:include schemaLocation='never.xsd'/>";
    let mut parser = started();
    parser.load(&document(entry));
    assert!(matches!(parser.advance(), Err(xsd::errors::Error::InvalidBlockDefault)));
}

#[test]
fn every_builder_failure_surfaces_through_the_walk() {
    let cases: [(&str, fn(&xsd::errors::Error) -> bool); 8] = [
        ("<xsd:element final='x'/>", |e| matches!(e, xsd::errors::Error::InvalidFinal)),
        ("<xsd:element block='x'/>", |e| matches!(e, xsd::errors::Error::InvalidBlockDefault)),
        ("<xsd:element maxOccurs='x'/>", |e| matches!(e, xsd::errors::Error::ParseInt(_))),
        ("<xsd:schema finalDefault='x'/>", |e| matches!(e, xsd::errors::Error::InvalidFinalDefault)),
        ("<xsd:schema elementFormDefault='x'/>", |e| {
            matches!(e, xsd::errors::Error::InvalidFormDefault)
        }),
        ("<xsd:complexType><xsd:attribute use='x'/></xsd:complexType>", |e| {
            matches!(e, xsd::errors::Error::InvalidUse)
        }),
        ("<xsd:simpleType><xsd:restriction/></xsd:simpleType>", |e| {
            matches!(e, xsd::errors::Error::MissingAttribute { .. })
        }),
        ("<xsd:complexType><xsd:attribute><xsd:foo/></xsd:attribute></xsd:complexType>", |e| {
            matches!(e, xsd::errors::Error::UnhandledTag { .. })
        }),
    ];
    for (body, expected) in cases {
        let error = resolve(body, &[]).unwrap_err();
        assert!(expected(&error), "{}: {:?}", body, error);
    }
}

#[test]
fn the_walk_breaks_at_what_lacks_text_or_a_child_element() {
    for body in [
        "<xsd:simpleType><xsd:annotation><xsd:documentation/></xsd:annotation></xsd:simpleType>",
        "<xsd:simpleType><xsd:annotation><xsd:appinfo/></xsd:annotation></xsd:simpleType>",
        "<xsd:complexType><xsd:simpleContent/></xsd:complexType>",
        "<xsd:complexType><xsd:complexContent/></xsd:complexType>",
        "<xsd:schema><xsd:complexType><xsd:complexContent/></xsd:complexType></xsd:schema>",
        "<xsd:element name='fine'/><xsd:complexType><xsd:sequence/><xsd:simpleContent/></xsd:complexType>",
    ] {
        let mut parser = started();
        parser.load(&document(body));
        assert!(parser.breaks(), "{}", body);
        // no step is taken, not even those before the break
        assert!(parser.try_advance().is_none(), "{}", body);
        assert!(parser.elements.is_empty());
        assert!(parser.breaks());
    }
}

#[test]
fn a_break_is_met_only_when_the_walk_gets_to_it() {
    let entry = "<xsd:include schemaLocation='first.xsd'/>\
                 <xsd:complexType><xsd:simpleContent/></xsd:complexType>";

    // the document asked for fails: the break behind it is never met
    let mut parser = started();
    parser.load(&document(entry));
    assert!(!parser.breaks());
    assert_eq!(parser.try_advance().unwrap().unwrap(), Request::Document("first.xsd".to_owned()));
    parser.load(&document("<xsd:foo/>"));
    assert!(!parser.breaks());
    assert!(matches!(
        parser.try_advance(),
        Some(Err(xsd::errors::Error::UnhandledTag { .. }))
    ));

    // the document asked for is walked to its end: the break is next
    let mut parser = started();
    parser.load(&document(entry));
    assert_eq!(parser.advance().unwrap(), Request::Document("first.xsd".to_owned()));
    parser.load(&document("<xsd:element name='fine'/>"));
    assert!(parser.breaks());
    assert!(parser.try_advance().is_none());
    assert_eq!(labels(&parser), ["schema"]);
}

#[test]
fn what_the_walk_does_not_get_to_is_not_asked_for_anything() {
    let cases = [
        // not visited as what would have to have text or a child element
        ("<xsd:element><xsd:annotation><xsd:documentation/></xsd:annotation></xsd:element>", None),
        ("<xsd:annotation><xsd:documentation/></xsd:annotation>", Some(("schema", "annotation"))),
        ("<xsd:simpleContent/>", Some(("schema", "simpleContent"))),
        (
            "<xsd:foo><xsd:complexType><xsd:simpleContent/></xsd:complexType></xsd:foo>",
            Some(("schema", "foo")),
        ),
        // a failure before it
        ("<xsd:foo/><xsd:complexType><xsd:simpleContent/></xsd:complexType>", Some(("schema", "foo"))),
        (
            "<xsd:complexType><xsd:foo/><xsd:simpleContent/></xsd:complexType>",
            Some(("complexType", "foo")),
        ),
        (
            "<xsd:simpleType><xsd:annotation><xsd:foo/><xsd:documentation/></xsd:annotation>\
             </xsd:simpleType>",
            Some(("annotation", "foo")),
        ),
        (
            "<xsd:simpleType><xsd:list/><xsd:annotation><xsd:appinfo/></xsd:annotation>\
             </xsd:simpleType>",
            Some(("simpleType", "list")),
        ),
    ];
    for (body, expected) in cases {
        let mut parser = started();
        parser.load(&document(body));
        assert!(!parser.breaks(), "{}", body);
        match (parser.advance(), expected) {
            (Ok(Request::Finished), None) => {}
            (Err(xsd::errors::Error::UnhandledTag { parent, tag }), Some(expected)) => {
                assert_eq!((parent.as_str(), tag.as_str()), expected, "{}", body);
            }
            (other, _) => panic!("{}: {:?}", body, other),
        }
    }
}

#[test]
fn a_wrong_schema_is_not_walked() {
    let body = "<xsd:schema finalDefault='x'><xsd:complexType><xsd:simpleContent/>\
                </xsd:complexType></xsd:schema>";
    let mut parser = started();
    parser.load(&document(body));
    assert!(!parser.breaks());
    assert!(matches!(parser.advance(), Err(xsd::errors::Error::InvalidFinalDefault)));
}

#[test]
fn text_and_comments_between_declarations_are_passed_over() {
    let (output, _) =
        resolve(" text <!-- note --><xsd:element name='a'/><?pi data?> more text ", &[]).unwrap();
    assert_eq!(output, ["schema", "element a"]);
}

#[test]
fn a_document_that_names_itself_is_asked_for_each_time_it_is_walked() {
    let again = "<xsd:element name='a'/><xsd:include schemaLocation='again.xsd'/>";
    let mut parser = started();
    parser.load(&document(again));
    for round in 1..=5 {
        assert_eq!(parser.advance().unwrap(), Request::Document("again.xsd".to_owned()));
        assert_eq!(parser.elements.len(), 2 * round);
        parser.load(&document(again));
    }
    // the directives are declared only once nothing is asked for any more
    assert!(parser.elements.iter().all(|e| !matches!(e, Elements::Include(_))));
}

#[test]
fn schema_locations_are_handed_out_as_written() {
    let entry = "<xsd:import schemaLocation='../shared/types.xsd'/>";
    let mut parser = started();
    parser.load(&document(entry));
    assert_eq!(parser.advance().unwrap(), Request::Document("../shared/types.xsd".to_owned()));
    assert_eq!(parser.root_folder(), "schemas");
}

#[test]
fn a_document_of_declarations_gives_its_schema_and_one_entry_each() {
    let body = " <xsd:element name='a'/> <!-- note --> <xsd:simpleType name='b'/>\
                <xsd:complexType name='c'/><xsd:import namespace='urn:d'/>\
                <xsd:element name='a'/><xsd:include/> ";
    let (output, asked) = resolve(body, &[]).unwrap();
    assert!(asked.is_empty());
    assert_eq!(
        output,
        [
            "schema",
            "element a",
            "simpleType b",
            "complexType c",
            "import ",
            "element a",
            "include ",
        ]
    );
}
