//! Making documents out of text.

use vstd::prelude::*;

use crate::document::{ColladaDocument, DocumentView};
use crate::element::XmlElement;
use crate::number::{Number, Numerals};
use crate::text::texts;
use crate::traversal::{all_words, pre_order, words_within};
use crate::xml_tree::{parse_document, within_limits, xml_document};

verus! {

/// Why a document cannot be had.
#[derive(Clone, Copy, PartialEq, Eq, Structural, Debug)]
pub enum LoadError {
    /// The file cannot be opened.
    Open,
    /// The file cannot be read.
    Read,
    /// The text is no XML document.
    Parse,
}

impl LoadError {
    /// What to say of the error.
    pub open spec fn text(self) -> Seq<char> {
        match self {
            LoadError::Open => "Failed to open COLLADA file at path."@,
            LoadError::Read => "Failed to read COLLADA file."@,
            LoadError::Parse => "Error while parsing COLLADA document."@,
        }
    }

    /// What to say of the error.
    pub fn message(&self) -> (r: &'static str)
        ensures
            r@ == self.text(),
    {
        match self {
            LoadError::Open => "Failed to open COLLADA file at path.",
            LoadError::Read => "Failed to read COLLADA file.",
            LoadError::Parse => "Error while parsing COLLADA document.",
        }
    }
}

impl DocumentView {
    /// All the words of the texts of the document, in document order.
    pub open spec fn words(self) -> Seq<Seq<char>> {
        words_within(pre_order(self.root, 0))
    }
}

impl ColladaDocument {
    /// A document with the given root, none of whose numerals are read yet.
    pub fn new(root_element: XmlElement) -> (r: ColladaDocument)
        ensures
            r@.root == root_element@,
            r@.numerals == Map::<Seq<char>, Number>::empty(),
    {
        ColladaDocument { root_element, numerals: Numerals::new() }
    }

    /// Makes a document of what was read from a file, none of whose numerals are
    /// read yet.
    pub fn from_contents(contents: Result<String, LoadError>) -> (r: Result<ColladaDocument, LoadError>)
        requires
            contents matches Ok(text) ==> within_limits(text@),
        ensures
            match (contents, r) {
                (Ok(text), Ok(document)) => xml_document(text@) == Some(document@.root)
                    && document@.numerals == Map::<Seq<char>, Number>::empty(),
                (Ok(text), Err(e)) => xml_document(text@) is None && e == LoadError::Parse,
                (Err(cause), Ok(_)) => false,
                (Err(cause), Err(e)) => e == cause,
            },
    {
        match contents {
            Ok(text) => match parse_document(text.as_str()) {
                Some(root) => Ok(ColladaDocument::new(root)),
                None => Err(LoadError::Parse),
            },
            Err(e) => Err(e),
        }
    }

    /// The words of the texts of the document. Those of them that are numerals
    /// are all the numerals that reading the document can ask for.
    pub fn get_words(&self) -> (r: Vec<String>)
        ensures
            texts(r@) == self@.words(),
    {
        all_words(&self.root_element)
    }

    /// Enters the reading of a numeral.
    pub fn define_numeral(&mut self, numeral: String, number: Number)
        ensures
            final(self)@.root == old(self)@.root,
            final(self)@.numerals == old(self)@.numerals.insert(numeral@, number),
    {
        self.numerals.define(numeral, number);
    }
}

} // verus!
