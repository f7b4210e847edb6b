//! Reading XML text into a tree of elements.

use vstd::prelude::*;

use crate::element::{attribute_map, node_view, nodes_view, optional_text};
use crate::element::{Attribute, ElementView, NodeView, XmlElement, XmlNode};
use crate::text::chars_of;

verus! {

/// The element type of the `xml` crate. It is opaque here: `open_element` takes
/// one apart.
#[verifier::external_type_specification]
#[verifier::external_body]
pub struct ExXmlElement(xml::Element);

/// The node type of the `xml` crate. It is opaque here: `open_node` takes one
/// apart.
#[verifier::external_type_specification]
#[verifier::external_body]
pub struct ExXmlNode(xml::Xml);

/// The error that the `xml` crate gives for a text that is no document.
#[verifier::external_type_specification]
#[verifier::external_body]
pub struct ExBuilderError(xml::BuilderError);

/// The tree that an `xml::Element` holds.
pub uninterp spec fn xml_element_tree(element: xml::Element) -> ElementView;

/// The tree that an `xml::Xml` holds.
pub uninterp spec fn xml_node_tree(node: xml::Xml) -> NodeView;

/// The tree of the first element that a text is parsed into, or nothing where
/// the `xml` crate finds none in it.
pub uninterp spec fn xml_document(text: Seq<char>) -> Option<ElementView>;

/// What opens a section of character data.
pub open spec fn cdata_opening() -> Seq<char> {
    seq!['<', '!', '[', 'C', 'D', 'A', 'T', 'A', '[']
}

/// Whether the text ends in the opening of a section of character data.
pub open spec fn ends_in_opening(text: Seq<char>) -> bool {
    text.len() >= 9 && text.skip(text.len() - 9) == cdata_opening()
}

/// The number of the line that the text ends in, the first one being line one.
pub open spec fn line(text: Seq<char>) -> nat
    decreases text.len(),
{
    if text.len() == 0 {
        1
    } else if text.last() == '\n' {
        line(text.drop_last()) + 1
    } else {
        line(text.drop_last())
    }
}

/// How many characters the line that the text ends in has.
pub open spec fn column(text: Seq<char>) -> nat
    decreases text.len(),
{
    if text.len() == 0 || text.last() == '\n' {
        0
    } else {
        column(text.drop_last()) + 1
    }
}

/// How many closing brackets in a row the text ends in, where its end is inside
/// a section of character data: one that was opened, and not closed by two
/// brackets or more and a `>`.
pub open spec fn open_brackets(text: Seq<char>) -> Option<nat>
    decreases text.len(),
{
    if text.len() == 0 {
        None
    } else {
        match open_brackets(text.drop_last()) {
            Some(run) => if text.last() == ']' {
                Some(run + 1)
            } else if text.last() == '>' && run >= 2 {
                None
            } else {
                Some(0)
            },
            None => if ends_in_opening(text) {
                Some(0)
            } else {
                None
            },
        }
    }
}

/// Whether the counters of the `xml` crate can hold their values at the end of
/// the text: it counts lines and columns in 32 bits, and the closing brackets in
/// a row within character data in 8.
pub open spec fn counters_hold(text: Seq<char>) -> bool {
    &&& line(text) <= u32::MAX
    &&& column(text) <= u32::MAX
    &&& open_brackets(text) matches Some(run) ==> run <= u8::MAX
}

/// Whether the `xml` crate can count its way through the text. An opening counts
/// as one wherever it stands, also within a comment.
pub open spec fn within_limits(text: Seq<char>) -> bool {
    forall|k: int| 0 <= k <= text.len() ==> counters_hold(#[trigger] text.take(k))
}

/// Tells whether the first `end` characters end in the opening of a section of
/// character data.
fn is_opened_at(chars: &Vec<char>, end: usize) -> (r: bool)
    requires
        end <= chars@.len(),
    ensures
        r == ends_in_opening(chars@.take(end as int)),
{
    if end < 9 {
        return false;
    }
    let i: usize = end - 9;
    let ghost there = chars@.take(end as int).skip(end - 9);
    let opened = chars[i] == '<' && chars[i + 1] == '!' && chars[i + 2] == '[' && chars[i + 3] == 'C'
        && chars[i + 4] == 'D' && chars[i + 5] == 'A' && chars[i + 6] == 'T' && chars[i + 7] == 'A'
        && chars[i + 8] == '[';
    proof {
        let opening = cdata_opening();
        assert(there.len() == 9);
        if opened {
            assert(there =~= opening);
        } else if there == opening {
            assert(there[0] == opening[0] && there[1] == opening[1] && there[2] == opening[2]
                && there[3] == opening[3] && there[4] == opening[4] && there[5] == opening[5]
                && there[6] == opening[6] && there[7] == opening[7] && there[8] == opening[8]);
        }
    }
    opened
}

/// Tells whether a text is within the limits of the `xml` crate.
pub fn is_within_limits(text: &str) -> (r: bool)
    ensures
        r == within_limits(text@),
{
    let chars = chars_of(text);
    let mut at_line: u32 = 1;
    let mut at_column: u32 = 0;
    let mut brackets: Option<u8> = None;
    let mut i: usize = 0;
    assert(counters_hold(chars@.take(0)));
    while i < chars.len()
        invariant
            i <= chars@.len(),
            chars@ == text@,
            at_line == line(chars@.take(i as int)),
            at_column == column(chars@.take(i as int)),
            open_brackets(chars@.take(i as int)) == (match brackets {
                Some(run) => Some(run as nat),
                None => None,
            }),
            forall|k: int| 0 <= k <= i ==> counters_hold(#[trigger] chars@.take(k)),
        decreases chars.len() - i,
    {
        let c = chars[i];
        let ghost next = chars@.take(i + 1);
        assert(next.drop_last() =~= chars@.take(i as int));
        assert(next.last() == c);
        if c == '\n' {
            if at_line == u32::MAX {
                assert(!counters_hold(next));
                return false;
            }
            at_line = at_line + 1;
            at_column = 0;
        } else {
            if at_column == u32::MAX {
                assert(!counters_hold(next));
                return false;
            }
            at_column = at_column + 1;
        }
        brackets = match brackets {
            Some(run) => if c == ']' {
                if run == u8::MAX {
                    assert(!counters_hold(next));
                    return false;
                }
                Some(run + 1)
            } else if c == '>' && run >= 2 {
                None
            } else {
                Some(0)
            },
            None => if is_opened_at(&chars, i + 1) {
                Some(0)
            } else {
                None
            },
        };
        assert(counters_hold(next));
        i = i + 1;
    }
    true
}

/// What an `xml::Element` is made of.
struct ElementParts {
    name: String,
    ns: Option<String>,
    attributes: Vec<Attribute>,
    children: Vec<xml::Xml>,
}

/// What an `xml::Xml` is.
enum NodeParts {
    Element(xml::Element),
    Characters(String),
    CData(String),
    Comment(String),
    ProcessingInstruction(String),
}

/// `str::parse` into an `xml::Element`, the parser and builder of the `xml`
/// crate. What tree comes out, and whether one does, depends on the text alone
/// and has the name `xml_document`. The limits leave out the texts on which its
/// counters overflow.
#[verifier::external_body]
fn parse_xml(text: &str) -> (r: Result<xml::Element, xml::BuilderError>)
    requires
        within_limits(text@),
    ensures
        match r {
            Ok(element) => xml_document(text@) == Some(xml_element_tree(element)),
            Err(_) => xml_document(text@) is None,
        },
{
    text.parse::<xml::Element>()
}

/// The public fields of an `xml::Element`, which are all that its tree
/// consists of. The attributes, a hash map there, come in no particular order,
/// each name and namespace once.
#[verifier::external_body]
fn open_element(element: xml::Element) -> (r: ElementParts)
    ensures
        xml_element_tree(element).name == r.name@,
        xml_element_tree(element).ns == optional_text(r.ns),
        xml_element_tree(element).attributes == attribute_map(r.attributes@),
        xml_element_tree(element).children.len() == r.children@.len(),
        forall|i: int|
            0 <= i < r.children@.len() ==> xml_element_tree(element).children[i] == xml_node_tree(
                #[trigger] r.children@[i],
            ),
{
    ElementParts {
        name: element.name,
        ns: element.ns,
        attributes: element
            .attributes
            .into_iter()
            .map(|((name, ns), value)| Attribute { name, ns, value })
            .collect(),
        children: element.children,
    }
}

/// The variants of `xml::Xml`, one for one.
#[verifier::external_body]
fn open_node(node: xml::Xml) -> (r: NodeParts)
    ensures
        xml_node_tree(node) == (match r {
            NodeParts::Element(e) => NodeView::Element(xml_element_tree(e)),
            NodeParts::Characters(s) => NodeView::Characters(s@),
            NodeParts::CData(s) => NodeView::CData(s@),
            NodeParts::Comment(s) => NodeView::Comment(s@),
            NodeParts::ProcessingInstruction(s) => NodeView::ProcessingInstruction(s@),
        }),
{
    match node {
        xml::Xml::ElementNode(e) => NodeParts::Element(e),
        xml::Xml::CharacterNode(s) => NodeParts::Characters(s),
        xml::Xml::CDATANode(s) => NodeParts::CData(s),
        xml::Xml::CommentNode(s) => NodeParts::Comment(s),
        xml::Xml::PINode(s) => NodeParts::ProcessingInstruction(s),
    }
}

/// Takes over the tree of an `xml::Element`.
fn take_element(element: xml::Element) -> (r: XmlElement)
    ensures
        r@ == xml_element_tree(element),
    decreases xml_element_tree(element),
{
    let parts = open_element(element);
    let ghost all = parts.children@;
    let ghost tree = xml_element_tree(element);
    let mut children: Vec<XmlNode> = Vec::new();
    for child in it: parts.children
        invariant
            it.seq() == all,
            tree == xml_element_tree(element),
            tree.children.len() == all.len(),
            forall|i: int|
                0 <= i < all.len() ==> tree.children[i] == xml_node_tree(#[trigger] all[i]),
            children@.len() == it.index(),
            forall|i: int|
                0 <= i < children@.len() ==> node_view(#[trigger] children@[i])
                    == tree.children[i],
    {
        let ghost subtree = tree.children[it.index() as int];
        assert(decreases_to!(tree => tree.children));
        assert(decreases_to!(tree.children => subtree));
        let node = match open_node(child) {
            NodeParts::Element(e) => {
                assert(decreases_to!(subtree => subtree->Element_0));
                XmlNode::Element(take_element(e))
            },
            NodeParts::Characters(s) => XmlNode::Characters(s),
            NodeParts::CData(s) => XmlNode::CData(s),
            NodeParts::Comment(s) => XmlNode::Comment(s),
            NodeParts::ProcessingInstruction(s) => XmlNode::ProcessingInstruction(s),
        };
        children.push(node);
    }
    assert(nodes_view(children@) =~= tree.children);
    XmlElement { name: parts.name, ns: parts.ns, attributes: parts.attributes, children }
}

/// Parses an XML document. There is nothing where the text holds no well-formed
/// element.
pub fn parse_document(text: &str) -> (r: Option<XmlElement>)
    requires
        within_limits(text@),
    ensures
        match r {
            Some(root) => xml_document(text@) == Some(root@),
            None => xml_document(text@) is None,
        },
{
    match parse_xml(text) {
        Ok(element) => Some(take_element(element)),
        Err(_) => None,
    }
}

} // verus!
