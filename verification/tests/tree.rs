use collada::document::ColladaDocument;
use collada::element::{XmlElement, XmlNode};
use collada::loading::LoadError;
use collada::number::Number;
use collada::traversal::pre_order_with_depth;
use collada::xml_tree::is_within_limits;

fn parse(text: &str) -> ColladaDocument {
    assert!(is_within_limits(text));
    ColladaDocument::from_contents(Ok(text.to_string())).unwrap()
}

fn first_element(e: &XmlElement) -> &XmlElement {
    for node in &e.children {
        if let XmlNode::Element(inner) = node {
            return inner;
        }
    }
    panic!("no element")
}

#[test]
fn text_is_parsed_into_a_tree() {
    let document = parse("<a one=\"1\" two='2'><b>x &lt; y</b>tail<b/></a>");
    let root = &document.root_element;
    assert_eq!(root.name, "a");
    assert_eq!(root.ns, None);
    assert_eq!(root.get_attribute("one", None), Some("1"));
    assert_eq!(root.get_attribute("two", None), Some("2"));
    assert_eq!(root.get_attribute("three", None), None);
    assert_eq!(root.get_attribute("one", Some("1")), None);
    assert_eq!(root.attributes.len(), 2);
    assert_eq!(root.children.len(), 3);
    assert!(matches!(&root.children[1], XmlNode::Characters(s) if s == "tail"));
    let b = first_element(root);
    assert_eq!(b.children.len(), 1);
    assert!(matches!(&b.children[0], XmlNode::Characters(s) if s == "x < y"));
}

#[test]
fn every_sort_of_node_is_taken_over() {
    let document = parse("<a><![CDATA[c]d]]><!--note--><?do it?><e/>text</a>");
    let children = &document.root_element.children;
    assert_eq!(children.len(), 5);
    assert!(matches!(&children[0], XmlNode::CData(s) if s == "c]d"));
    assert!(matches!(&children[1], XmlNode::Comment(s) if s == "note"));
    assert!(matches!(&children[2], XmlNode::ProcessingInstruction(s) if s == "do it"));
    assert!(matches!(&children[3], XmlNode::Element(e) if e.name == "e"));
    assert!(matches!(&children[4], XmlNode::Characters(s) if s == "text"));
}

#[test]
fn namespaces_are_told_apart() {
    let document = parse("<a xmlns=\"urn:x\" xmlns:y=\"urn:y\"><b y:id=\"in\" id=\"out\"/><y:b/></a>");
    assert_eq!(document.get_ns(), Some("urn:x"));
    let root = &document.root_element;
    assert_eq!(root.get_children("b", Some("urn:x")).len(), 1);
    assert_eq!(root.get_children("b", Some("urn:y")).len(), 1);
    assert_eq!(root.get_children("b", None).len(), 0);
    assert!(root.get_child("c", Some("urn:x")).is_none());
    let b = root.get_child("b", Some("urn:x")).unwrap();
    assert_eq!(b.get_attribute("id", None), Some("out"));
    assert_eq!(b.get_attribute("id", Some("urn:y")), Some("in"));
    assert!(b.has_attribute_with_value("id", "out"));
    assert!(!b.has_attribute_with_value("id", "in"));
    assert!(!b.has_attribute_with_value("name", "out"));
}

#[test]
fn a_document_without_a_namespace_has_none() {
    assert_eq!(parse("<a/>").get_ns(), None);
}

#[test]
fn children_come_in_document_order() {
    let document = parse("<a><b id=\"1\"/><c/><b id=\"2\"/><b id=\"3\"/></a>");
    let root = &document.root_element;
    let ids: Vec<&str> =
        root.get_children("b", None).iter().map(|b| b.get_attribute("id", None).unwrap()).collect();
    assert_eq!(ids, ["1", "2", "3"]);
    let first = root.get_child("b", None).unwrap();
    assert_eq!(first.get_attribute("id", None), Some("1"));
}

#[test]
fn a_walk_visits_parents_first() {
    let document = parse("<a><b><c/>text<d><e/></d></b><f/></a>");
    let visits: Vec<(String, usize)> = pre_order_with_depth(&document.root_element)
        .iter()
        .map(|v| (v.element.name.clone(), v.depth))
        .collect();
    let expected: Vec<(String, usize)> =
        [("a", 0), ("b", 1), ("c", 2), ("d", 2), ("e", 3), ("f", 1)]
            .iter()
            .map(|&(name, depth)| (name.to_string(), depth))
            .collect();
    assert_eq!(visits, expected);
}

#[test]
fn all_words_come_in_document_order() {
    let document = parse("<a>one<b> two three </b><!--no-->four<c>1.5\n2</c></a>");
    assert_eq!(document.get_words(), ["one", "four", "two", "three", "1.5", "2"]);
}

#[test]
fn the_last_reading_of_a_numeral_counts() {
    let mut document = parse("<a>1</a>");
    assert!(document.get_number_content(&document.root_element).is_none());
    document.define_numeral("1".to_string(), Number::zero());
    document.define_numeral("1".to_string(), Number::one());
    assert_eq!(document.get_number_content(&document.root_element), Some(vec![Number::one()]));
}

#[test]
fn readings_of_other_words_do_not_matter() {
    let mut document = parse("<a><m>1 1</m></a>");
    document.define_numeral("1".to_string(), Number::one());
    let m = document.root_element.get_child("m", None).unwrap();
    let before = document.get_number_content(m);
    document.define_numeral("2".to_string(), Number::zero());
    let m = document.root_element.get_child("m", None).unwrap();
    assert_eq!(document.get_number_content(m), before);
}

#[test]
fn text_that_is_no_document_is_refused() {
    for text in ["", "no markup", "<a>", "<a></b>", "<a", "<a b=></a>"] {
        assert!(is_within_limits(text));
        let refused = ColladaDocument::from_contents(Ok(text.to_string()));
        assert!(matches!(refused, Err(LoadError::Parse)));
    }
}

#[test]
fn errors_of_the_file_are_passed_on() {
    let unopened = ColladaDocument::from_contents(Err(LoadError::Open));
    assert!(matches!(unopened, Err(LoadError::Open)));
    let unread = ColladaDocument::from_contents(Err(LoadError::Read));
    assert!(matches!(unread, Err(LoadError::Read)));
}

#[test]
fn errors_say_what_failed() {
    assert_eq!(LoadError::Open.message(), "Failed to open COLLADA file at path.");
    assert_eq!(LoadError::Read.message(), "Failed to read COLLADA file.");
    assert_eq!(LoadError::Parse.message(), "Error while parsing COLLADA document.");
}

#[test]
fn long_runs_of_brackets_are_beyond_the_limits_in_character_data() {
    let long = "]".repeat(256);
    let short = "]".repeat(255);
    assert!(!is_within_limits(&format!("<a><![CDATA[{long}]]></a>")));
    assert!(!is_within_limits(&format!("<a><![CDATA[x]]><![CDATA[x{long}")));
    assert!(is_within_limits(&format!("<a><![CDATA[{short}x{short}></a>")));
    assert!(is_within_limits(""));
}

#[test]
fn long_runs_of_brackets_elsewhere_are_within_the_limits() {
    let long = "]".repeat(300);
    let short = "]".repeat(255);
    let document = parse(&format!("<a b=\"{long}\">{long}<![CDATA[{short}>{long}</a>"));
    let root = &document.root_element;
    assert_eq!(root.get_attribute("b", None), Some(&long[..]));
    assert_eq!(root.children.len(), 3);
    assert!(matches!(&root.children[0], XmlNode::Characters(s) if *s == long));
    assert!(matches!(&root.children[1], XmlNode::CData(s) if *s == short[2..]));
    assert!(matches!(&root.children[2], XmlNode::Characters(s) if *s == long));
}

#[test]
fn many_lines_are_within_the_limits() {
    let document = parse(&format!("<a>{}x</a>", "\n".repeat(100_000)));
    assert_eq!(document.get_words(), ["x"]);
}
