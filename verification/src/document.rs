//! A COLLADA document, its inputs and the arrays behind them.

use vstd::prelude::*;

use crate::element::{element_views, node_view, nodes_view, optional_element, optional_str};
use crate::element::{ElementView, NodeView, XmlElement, XmlNode};
use crate::number::{number_list, Number, Numerals};
use crate::text::{parse_unsigned, parse_unsigned_list, texts, unsigned, unsigned_list};
use crate::traversal::{content_words, get_content_words};

verus! {

/// That a document is broken in a way that leaves no sensible answer, not even
/// that what was asked for is missing.
#[derive(Clone, Copy, PartialEq, Eq, Structural, Debug)]
pub struct Malformed {}

/// What looking something up gives: the thing, or that it is not there, or that
/// the document is malformed.
pub type Outcome<T> = Result<Option<T>, Malformed>;

/// A COLLADA document, with the readings of its numerals.
pub struct ColladaDocument {
    pub root_element: XmlElement,
    pub numerals: Numerals,
}

/// What a document is, as plain values.
pub ghost struct DocumentView {
    pub root: ElementView,
    pub numerals: Map<Seq<char>, Number>,
}

impl View for ColladaDocument {
    type V = DocumentView;

    open spec fn view(&self) -> DocumentView {
        DocumentView { root: self.root_element@, numerals: self.numerals@ }
    }
}

/// The first of a list of elements whose semantic is the given one.
pub open spec fn first_with_semantic(list: Seq<ElementView>, semantic: Seq<char>) -> Option<ElementView>
    decreases list.len(),
{
    if list.len() == 0 {
        None
    } else if list[0].has_attribute("semantic"@, semantic) {
        Some(list[0])
    } else {
        first_with_semantic(list.drop_first(), semantic)
    }
}

/// Whether `reference` is a `#` followed by the id of the node, an element.
pub open spec fn is_referenced(node: NodeView, reference: Seq<char>) -> bool {
    match node {
        NodeView::Element(e) => match e.attribute("id"@) {
            Some(id) => seq!['#'] + id == reference,
            None => false,
        },
        _ => false,
    }
}

/// The first element among the given nodes that the reference is to.
pub open spec fn first_referenced(nodes: Seq<NodeView>, reference: Seq<char>) -> Option<ElementView>
    decreases nodes.len(),
{
    if nodes.len() == 0 {
        None
    } else if is_referenced(nodes[0], reference) {
        Some(nodes[0]->Element_0)
    } else {
        first_referenced(nodes.drop_first(), reference)
    }
}

/// Where an input leads.
pub ghost enum SourceStep {
    /// To nothing.
    Missing,
    /// To a source.
    Source(ElementView),
    /// To an element that has an input of its own.
    Input(ElementView),
}

/// Where an input leads, within the element that it is resolved in.
pub open spec fn source_step(parent: ElementView, ns: Option<Seq<char>>, input: ElementView) -> SourceStep {
    match input.attribute("source"@) {
        None => SourceStep::Missing,
        Some(reference) => match first_referenced(parent.children, reference) {
            None => SourceStep::Missing,
            Some(e) => if e.name == "source"@ {
                SourceStep::Source(e)
            } else {
                match e.element("input"@, ns) {
                    None => SourceStep::Missing,
                    Some(next) => SourceStep::Input(next),
                }
            },
        },
    }
}

/// What an input leads to after it has passed through at most `limit` inputs
/// more.
pub open spec fn source_within(
    parent: ElementView,
    ns: Option<Seq<char>>,
    input: ElementView,
    limit: nat,
) -> Outcome<ElementView>
    decreases limit,
{
    match source_step(parent, ns, input) {
        SourceStep::Missing => Ok(None),
        SourceStep::Source(e) => Ok(Some(e)),
        SourceStep::Input(next) => if limit == 0 {
            Err(Malformed {  })
        } else {
            source_within(parent, ns, next, (limit - 1) as nat)
        },
    }
}

impl DocumentView {
    /// The first input of an element that has the given semantic.
    pub open spec fn input(self, parent: ElementView, semantic: Seq<char>) -> Option<ElementView> {
        first_with_semantic(parent.elements("input"@, self.root.ns), semantic)
    }

    /// The offset of the first input of an element that has the given semantic.
    pub open spec fn input_offset(self, parent: ElementView, semantic: Seq<char>) -> Option<usize> {
        match self.input(parent, semantic) {
            Some(input) => match input.attribute("offset"@) {
                Some(text) => unsigned(text),
                None => None,
            },
            None => None,
        }
    }

    /// The source that an input leads to, directly or through the inputs of
    /// other elements. One that passes through more inputs than its parent has
    /// children goes in a circle.
    pub open spec fn input_source(self, parent: ElementView, input: ElementView) -> Outcome<ElementView> {
        source_within(parent, self.root.ns, input, parent.children.len())
    }

    /// The element that holds the array of a source: an array of floats, or
    /// else one of names.
    pub open spec fn array_element(self, source: ElementView) -> Option<ElementView> {
        match source.element("float_array"@, self.root.ns) {
            Some(array) => Some(array),
            None => source.element("Name_array"@, self.root.ns),
        }
    }

    /// The words of the array that an input leads to.
    pub open spec fn array_for_input(self, parent: ElementView, input: ElementView) -> Outcome<
        Seq<Seq<char>>,
    > {
        match self.input_source(parent, input) {
            Err(e) => Err(e),
            Ok(None) => Ok(None),
            Ok(Some(source)) => match self.array_element(source) {
                Some(array) => Ok(content_words(array)),
                None => Ok(None),
            },
        }
    }

    /// The numbers of the array that an input leads to.
    pub open spec fn numbers_for_input(self, parent: ElementView, input: ElementView) -> Outcome<
        Seq<Number>,
    > {
        match self.array_for_input(parent, input) {
            Err(e) => Err(e),
            Ok(None) => Ok(None),
            Ok(Some(list)) => Ok(number_list(self.numerals, list)),
        }
    }

    /// The words behind the first input of `holder` that has the given semantic,
    /// resolved within `parent`.
    pub open spec fn words_behind(self, parent: ElementView, holder: ElementView, semantic: Seq<char>) -> Outcome<
        Seq<Seq<char>>,
    > {
        match self.input(holder, semantic) {
            Some(input) => self.array_for_input(parent, input),
            None => Ok(None),
        }
    }

    /// The numbers behind the first input of `holder` that has the given
    /// semantic, resolved within `parent`.
    pub open spec fn numbers_behind(
        self,
        parent: ElementView,
        holder: ElementView,
        semantic: Seq<char>,
    ) -> Outcome<Seq<Number>> {
        match self.input(holder, semantic) {
            Some(input) => self.numbers_for_input(parent, input),
            None => Ok(None),
        }
    }

    /// The numbers that an element holds.
    pub open spec fn numbers_in(self, e: ElementView) -> Option<Seq<Number>> {
        match content_words(e) {
            Some(list) => number_list(self.numerals, list),
            None => None,
        }
    }
}

/// The unsigned numbers that an element holds.
pub open spec fn unsigned_in(e: ElementView) -> Option<Seq<usize>> {
    match content_words(e) {
        Some(list) => unsigned_list(list),
        None => None,
    }
}

/// What looking up an element gives.
pub open spec fn element_outcome(r: Outcome<&XmlElement>) -> Outcome<ElementView> {
    match r {
        Ok(e) => Ok(optional_element(e)),
        Err(e) => Err(e),
    }
}

/// What looking up a list gives.
pub open spec fn list_outcome<T>(r: Outcome<Vec<T>>) -> Outcome<Seq<T>> {
    match r {
        Ok(Some(v)) => Ok(Some(v@)),
        Ok(None) => Ok(None),
        Err(e) => Err(e),
    }
}

/// What looking up a list of texts gives.
pub open spec fn texts_outcome(r: Outcome<Vec<String>>) -> Outcome<Seq<Seq<char>>> {
    match r {
        Ok(Some(v)) => Ok(Some(texts(v@))),
        Ok(None) => Ok(None),
        Err(e) => Err(e),
    }
}

/// Reads the unsigned numbers that an element holds.
pub fn get_unsigned_content(e: &XmlElement) -> (r: Option<Vec<usize>>)
    ensures
        match r {
            Some(v) => unsigned_in(e@) == Some(v@),
            None => unsigned_in(e@) is None,
        },
{
    match get_content_words(e) {
        Some(list) => parse_unsigned_list(&list),
        None => None,
    }
}

/// Whether `reference` is a `#` followed by the given id.
fn is_reference_to(reference: &str, id: &str) -> (r: bool)
    ensures
        r == (seq!['#'] + id@ == reference@),
{
    let mut hashed = String::new();
    hashed.push('#');
    hashed.append(id);
    assert(hashed@ =~= seq!['#'] + id@);
    *hashed.as_str() == *reference
}

/// The first element child that the reference is to.
fn find_referenced<'a>(parent: &'a XmlElement, reference: &str) -> (r: Option<&'a XmlElement>)
    ensures
        optional_element(r) == first_referenced(parent@.children, reference@),
{
    let ghost nodes = parent@.children;
    assert(nodes.skip(0) =~= nodes);
    let mut i: usize = 0;
    while i < parent.children.len()
        invariant
            i <= parent.children@.len(),
            nodes == nodes_view(parent.children@),
            first_referenced(nodes, reference@) == first_referenced(
                nodes.skip(i as int),
                reference@,
            ),
        decreases parent.children.len() - i,
    {
        let ghost rest = nodes.skip(i as int);
        assert(rest[0] == node_view(parent.children@[i as int]));
        assert(rest.drop_first() =~= nodes.skip(i + 1));
        match &parent.children[i] {
            XmlNode::Element(e) => {
                match e.get_attribute("id", None) {
                    Some(id) => {
                        if is_reference_to(reference, id) {
                            return Some(e);
                        }
                    },
                    None => {},
                }
            },
            _ => {},
        }
        i = i + 1;
    }
    None
}

impl ColladaDocument {
    /// The namespace of the document.
    pub fn get_ns(&self) -> (r: Option<&str>)
        ensures
            optional_str(r) == self@.root.ns,
    {
        match &self.root_element.ns {
            Some(ns) => Some(ns.as_str()),
            None => None,
        }
    }

    /// The first input of an element that has the given semantic.
    pub fn get_input<'a>(&self, parent: &'a XmlElement, semantic: &str) -> (r: Option<&'a XmlElement>)
        ensures
            optional_element(r) == self@.input(parent@, semantic@),
    {
        let inputs = parent.get_children("input", self.get_ns());
        let ghost all = element_views(inputs@);
        assert(all.skip(0) =~= all);
        let mut i: usize = 0;
        while i < inputs.len()
            invariant
                i <= inputs@.len(),
                all == element_views(inputs@),
                all == parent@.elements("input"@, self@.root.ns),
                first_with_semantic(all, semantic@) == first_with_semantic(
                    all.skip(i as int),
                    semantic@,
                ),
            decreases inputs.len() - i,
        {
            let ghost rest = all.skip(i as int);
            assert(rest[0] == inputs@[i as int]@);
            assert(rest.drop_first() =~= all.skip(i + 1));
            if inputs[i].has_attribute_with_value("semantic", semantic) {
                return Some(inputs[i]);
            }
            i = i + 1;
        }
        None
    }

    /// The offset of the first input of an element that has the given semantic.
    pub fn get_input_offset(&self, parent_element: &XmlElement, semantic: &str) -> (r: Option<usize>)
        ensures
            r == self@.input_offset(parent_element@, semantic@),
    {
        match self.get_input(parent_element, semantic) {
            Some(input) => match input.get_attribute("offset", None) {
                Some(text) => parse_unsigned(text),
                None => None,
            },
            None => None,
        }
    }

    /// Follows an input through at most `limit` inputs more.
    fn follow_input<'a>(
        &self,
        parent_element: &'a XmlElement,
        input_element: &'a XmlElement,
        limit: usize,
    ) -> (r: Outcome<&'a XmlElement>)
        ensures
            element_outcome(r) == source_within(
                parent_element@,
                self@.root.ns,
                input_element@,
                limit as nat,
            ),
        decreases limit,
    {
        let reference = match input_element.get_attribute("source", None) {
            Some(reference) => reference,
            None => {
                return Ok(None);
            },
        };
        match find_referenced(parent_element, reference) {
            None => Ok(None),
            Some(element) => {
                if *element.name.as_str() == *"source" {
                    return Ok(Some(element));
                }
                match element.get_child("input", self.get_ns()) {
                    None => Ok(None),
                    Some(next) => if limit == 0 {
                        Err(Malformed {  })
                    } else {
                        self.follow_input(parent_element, next, limit - 1)
                    },
                }
            },
        }
    }

    /// The source that an input leads to, directly or through the inputs of
    /// other elements.
    pub fn get_input_source<'a>(
        &self,
        parent_element: &'a XmlElement,
        input_element: &'a XmlElement,
    ) -> (r: Outcome<&'a XmlElement>)
        ensures
            element_outcome(r) == self@.input_source(parent_element@, input_element@),
    {
        self.follow_input(parent_element, input_element, parent_element.children.len())
    }

    /// The words of the array that an input leads to.
    pub fn get_array_for_input(&self, parent: &XmlElement, input: &XmlElement) -> (r: Outcome<
        Vec<String>,
    >)
        ensures
            texts_outcome(r) == self@.array_for_input(parent@, input@),
    {
        let source = match self.get_input_source(parent, input) {
            Err(e) => {
                return Err(e);
            },
            Ok(None) => {
                return Ok(None);
            },
            Ok(Some(source)) => source,
        };
        let array = match source.get_child("float_array", self.get_ns()) {
            Some(array) => array,
            None => match source.get_child("Name_array", self.get_ns()) {
                Some(array) => array,
                None => {
                    return Ok(None);
                },
            },
        };
        Ok(get_content_words(array))
    }

    /// The numbers of the array that an input leads to.
    pub fn get_numbers_for_input(&self, parent: &XmlElement, input: &XmlElement) -> (r: Outcome<
        Vec<Number>,
    >)
        ensures
            list_outcome(r) == self@.numbers_for_input(parent@, input@),
    {
        match self.get_array_for_input(parent, input) {
            Err(e) => Err(e),
            Ok(None) => Ok(None),
            Ok(Some(list)) => Ok(self.numerals.read_list(&list)),
        }
    }

    /// The words behind the first input of `holder` that has the given semantic,
    /// resolved within `parent`.
    pub fn get_words_behind(&self, parent: &XmlElement, holder: &XmlElement, semantic: &str) -> (r:
        Outcome<Vec<String>>)
        ensures
            texts_outcome(r) == self@.words_behind(parent@, holder@, semantic@),
    {
        match self.get_input(holder, semantic) {
            Some(input) => self.get_array_for_input(parent, input),
            None => Ok(None),
        }
    }

    /// The numbers behind the first input of `holder` that has the given
    /// semantic, resolved within `parent`.
    pub fn get_numbers_behind(&self, parent: &XmlElement, holder: &XmlElement, semantic: &str) -> (r:
        Outcome<Vec<Number>>)
        ensures
            list_outcome(r) == self@.numbers_behind(parent@, holder@, semantic@),
    {
        match self.get_input(holder, semantic) {
            Some(input) => self.get_numbers_for_input(parent, input),
            None => Ok(None),
        }
    }

    /// The numbers that an element holds.
    pub fn get_number_content(&self, e: &XmlElement) -> (r: Option<Vec<Number>>)
        ensures
            match r {
                Some(v) => self@.numbers_in(e@) == Some(v@),
                None => self@.numbers_in(e@) is None,
            },
    {
        match get_content_words(e) {
            Some(list) => self.numerals.read_list(&list),
            None => None,
        }
    }
}

} // verus!
