//! The XML tree that a document is read from.

use vstd::prelude::*;

verus! {

/// What an element is, as plain values: its name, its namespace, its
/// attributes by name and namespace, and its child nodes in document order.
#[verifier::ext_equal]
pub ghost struct ElementView {
    pub name: Seq<char>,
    pub ns: Option<Seq<char>>,
    pub attributes: Map<(Seq<char>, Option<Seq<char>>), Seq<char>>,
    pub children: Seq<NodeView>,
}

/// What a node of the tree is, as plain values.
#[verifier::ext_equal]
pub ghost enum NodeView {
    Element(ElementView),
    Characters(Seq<char>),
    CData(Seq<char>),
    Comment(Seq<char>),
    ProcessingInstruction(Seq<char>),
}

/// One attribute of an element.
pub struct Attribute {
    pub name: String,
    pub ns: Option<String>,
    pub value: String,
}

/// An XML element.
///
/// Where two attributes have the same name and namespace the later one counts.
pub struct XmlElement {
    pub name: String,
    pub ns: Option<String>,
    pub attributes: Vec<Attribute>,
    pub children: Vec<XmlNode>,
}

/// A node of the XML tree.
pub enum XmlNode {
    Element(XmlElement),
    Characters(String),
    CData(String),
    Comment(String),
    ProcessingInstruction(String),
}

/// The characters of an optional text.
pub open spec fn optional_text(s: Option<String>) -> Option<Seq<char>> {
    match s {
        Some(t) => Some(t@),
        None => None,
    }
}

/// The map from name and namespace to value that a list of attributes stands for.
pub open spec fn attribute_map(list: Seq<Attribute>) -> Map<(Seq<char>, Option<Seq<char>>), Seq<char>>
    decreases list.len(),
{
    if list.len() == 0 {
        Map::empty()
    } else {
        let last = list.last();
        attribute_map(list.drop_last()).insert((last.name@, optional_text(last.ns)), last.value@)
    }
}

/// The tree of plain values that an element stands for.
pub open spec fn element_view(e: XmlElement) -> ElementView
    decreases e,
{
    ElementView {
        name: e.name@,
        ns: optional_text(e.ns),
        attributes: attribute_map(e.attributes@),
        children: nodes_view(e.children@),
    }
}

/// The trees of plain values that a list of nodes stands for.
pub open spec fn nodes_view(nodes: Seq<XmlNode>) -> Seq<NodeView>
    decreases nodes,
{
    Seq::new(nodes.len(), |i: int| if 0 <= i < nodes.len() { node_view(nodes[i]) } else { arbitrary() })
}

/// The tree of plain values that a node stands for.
pub open spec fn node_view(n: XmlNode) -> NodeView
    decreases n,
{
    match n {
        XmlNode::Element(e) => NodeView::Element(element_view(e)),
        XmlNode::Characters(s) => NodeView::Characters(s@),
        XmlNode::CData(s) => NodeView::CData(s@),
        XmlNode::Comment(s) => NodeView::Comment(s@),
        XmlNode::ProcessingInstruction(s) => NodeView::ProcessingInstruction(s@),
    }
}

/// The characters of an optional text.
pub open spec fn optional_str(s: Option<&str>) -> Option<Seq<char>> {
    match s {
        Some(t) => Some(t@),
        None => None,
    }
}

/// The elements among `nodes` that have the given name and namespace, in order.
pub open spec fn elements_named(nodes: Seq<NodeView>, name: Seq<char>, ns: Option<Seq<char>>) -> Seq<
    ElementView,
>
    decreases nodes.len(),
{
    if nodes.len() == 0 {
        Seq::empty()
    } else {
        let before = elements_named(nodes.drop_last(), name, ns);
        match nodes.last() {
            NodeView::Element(e) => if e.name == name && e.ns == ns {
                before.push(e)
            } else {
                before
            },
            _ => before,
        }
    }
}

impl ElementView {
    /// The value of the attribute with the given name and no namespace.
    pub open spec fn attribute(self, name: Seq<char>) -> Option<Seq<char>> {
        self.attribute_in(name, None)
    }

    /// The value of the attribute with the given name and namespace.
    pub open spec fn attribute_in(self, name: Seq<char>, ns: Option<Seq<char>>) -> Option<Seq<char>> {
        if self.attributes.contains_key((name, ns)) {
            Some(self.attributes[(name, ns)])
        } else {
            None
        }
    }

    /// The child elements with the given name and namespace, in document order.
    pub open spec fn elements(self, name: Seq<char>, ns: Option<Seq<char>>) -> Seq<ElementView> {
        elements_named(self.children, name, ns)
    }

    /// The first child element with the given name and namespace.
    pub open spec fn element(self, name: Seq<char>, ns: Option<Seq<char>>) -> Option<ElementView> {
        if self.elements(name, ns).len() > 0 {
            Some(self.elements(name, ns)[0])
        } else {
            None
        }
    }

    /// Whether the attribute of that name is there and has that value.
    pub open spec fn has_attribute(self, name: Seq<char>, value: Seq<char>) -> bool {
        self.attribute(name) == Some(value)
    }
}

/// The trees that a list of elements stands for.
pub open spec fn element_views(list: Seq<&XmlElement>) -> Seq<ElementView> {
    Seq::new(list.len(), |i: int| list[i]@)
}

/// What an optional element stands for.
pub open spec fn optional_element(e: Option<&XmlElement>) -> Option<ElementView> {
    match e {
        Some(x) => Some(x@),
        None => None,
    }
}

/// Whether two namespaces are the same.
fn same_namespace(a: &Option<String>, b: Option<&str>) -> (r: bool)
    ensures
        r == (optional_text(*a) == optional_str(b)),
{
    match (a, b) {
        (Some(x), Some(y)) => *x.as_str() == *y,
        (None, None) => true,
        _ => false,
    }
}

impl XmlElement {
    /// Gets the attribute with the given name and namespace.
    pub fn get_attribute<'a>(&'a self, name: &str, ns: Option<&str>) -> (r: Option<&'a str>)
        ensures
            optional_str(r) == self@.attribute_in(name@, optional_str(ns)),
    {
        let ghost key = (name@, optional_str(ns));
        let mut i: usize = self.attributes.len();
        assert(self.attributes@.take(i as int) =~= self.attributes@);
        while i > 0
            invariant
                i <= self.attributes@.len(),
                key == (name@, optional_str(ns)),
                self@.attributes.contains_key(key) == attribute_map(
                    self.attributes@.take(i as int),
                ).contains_key(key),
                self@.attributes.contains_key(key) ==> self@.attributes[key] == attribute_map(
                    self.attributes@.take(i as int),
                )[key],
            decreases i,
        {
            let ghost upto = self.attributes@.take(i as int);
            i = i - 1;
            assert(upto.drop_last() =~= self.attributes@.take(i as int));
            let attribute = &self.attributes[i];
            assert(upto.last() == *attribute);
            if *attribute.name.as_str() == *name && same_namespace(&attribute.ns, ns) {
                return Some(attribute.value.as_str());
            }
        }
        None
    }

    /// Gets all the child elements with the given name and namespace.
    pub fn get_children<'a>(&'a self, name: &str, ns: Option<&str>) -> (r: Vec<&'a XmlElement>)
        ensures
            element_views(r@) == self@.elements(name@, optional_str(ns)),
    {
        let mut out: Vec<&XmlElement> = Vec::new();
        let ghost nodes = self@.children;
        assert(element_views(out@) =~= elements_named(nodes.take(0), name@, optional_str(ns)));
        let mut i: usize = 0;
        while i < self.children.len()
            invariant
                i <= self.children@.len(),
                nodes == nodes_view(self.children@),
                element_views(out@) == elements_named(
                    nodes.take(i as int),
                    name@,
                    optional_str(ns),
                ),
            decreases self.children.len() - i,
        {
            let ghost before = out@;
            assert(nodes.take(i + 1).drop_last() =~= nodes.take(i as int));
            assert(nodes.take(i + 1).last() == node_view(self.children@[i as int]));
            match &self.children[i] {
                XmlNode::Element(e) => {
                    if *e.name.as_str() == *name && same_namespace(&e.ns, ns) {
                        out.push(e);
                        assert(element_views(out@) =~= element_views(before).push(e@));
                    }
                },
                _ => {},
            }
            i = i + 1;
        }
        assert(nodes.take(nodes.len() as int) =~= nodes);
        out
    }

    /// Gets the first child element with the given name and namespace.
    pub fn get_child<'a>(&'a self, name: &str, ns: Option<&str>) -> (r: Option<&'a XmlElement>)
        ensures
            optional_element(r) == self@.element(name@, optional_str(ns)),
    {
        let all = self.get_children(name, ns);
        let ghost views = element_views(all@);
        if all.len() > 0 {
            assert(views[0] == all@[0]@);
            Some(all[0])
        } else {
            None
        }
    }

    /// Whether the attribute of that name is there and has that value.
    pub fn has_attribute_with_value(&self, name: &str, value: &str) -> (r: bool)
        ensures
            r == self@.has_attribute(name@, value@),
    {
        match self.get_attribute(name, None) {
            Some(v) => *v == *value,
            None => false,
        }
    }
}

impl View for XmlElement {
    type V = ElementView;

    open spec fn view(&self) -> ElementView {
        element_view(*self)
    }
}

} // verus!
