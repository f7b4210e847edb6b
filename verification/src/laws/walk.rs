//! Walking trees, and the words in them.

use vstd::prelude::*;

use crate::document::{unsigned_in, DocumentView};
use crate::element::{ElementView, NodeView};
use crate::number::number_list;
use crate::text::{unsigned_list, words};
use crate::traversal::{capped, content_words, pre_order, pre_order_nodes, text_words, visits_are};
use crate::traversal::{words_within, Visit};

verus! {

/// A walk from an element comes to the element itself, at the depth it starts
/// from, and then walks its children, one level deeper.
pub proof fn law_walk_from_an_element(e: ElementView, depth: nat)
    ensures
        pre_order(e, depth).len() > 0,
        pre_order(e, depth)[0] == (e, depth),
        pre_order(e, depth).skip(1) == pre_order_nodes(e.children, depth + 1),
{
    assert(pre_order(e, depth).skip(1) =~= pre_order_nodes(e.children, depth + 1));
}

/// A walk over nodes walks the first of them and then the others. Over one node
/// it is the walk from it if it is an element, and comes to nothing otherwise.
pub proof fn law_walk_in_parts(a: Seq<NodeView>, b: Seq<NodeView>, node: NodeView, depth: nat)
    ensures
        pre_order_nodes(a + b, depth) == pre_order_nodes(a, depth) + pre_order_nodes(b, depth),
        node matches NodeView::Element(e) ==> pre_order_nodes(seq![node], depth) == pre_order(e, depth),
        !(node is Element) ==> pre_order_nodes(seq![node], depth).len() == 0,
    decreases b.len(),
{
    reveal_with_fuel(pre_order_nodes, 2);
    assert(seq![node].drop_last() =~= Seq::empty());
    if node is Element {
        assert(pre_order_nodes(seq![node], depth) =~= pre_order(node->Element_0, depth));
    }
    if b.len() == 0 {
        assert(a + b =~= a);
    } else {
        law_walk_in_parts(a, b.drop_last(), node, depth);
        assert((a + b).drop_last() =~= a + b.drop_last());
        assert((a + b).last() == b.last());
    }
    assert(pre_order_nodes(a + b, depth) =~= pre_order_nodes(a, depth) + pre_order_nodes(b, depth));
}

/// The visits of a walk are its elements, one by one, each with its depth, or
/// with the largest `usize` where the depth is beyond that.
pub proof fn law_visits_one_by_one(visits: Seq<Visit>, all: Seq<(ElementView, nat)>, i: int)
    requires
        visits_are(visits, all),
        0 <= i < all.len(),
    ensures
        visits.len() == all.len(),
        visits[i].element@ == all[i].0,
        all[i].1 <= usize::MAX ==> visits[i].depth == all[i].1,
        all[i].1 > usize::MAX ==> visits[i].depth == usize::MAX,
{
    assert(visits[i].depth == capped(all[i].1));
}

/// An element holds words exactly when its first child is text, and then those
/// of that text, whatever other children it has. It holds numbers exactly when
/// each of its words writes one.
pub proof fn law_content_is_that_of_the_first_text(doc: DocumentView, e: ElementView)
    ensures
        content_words(e) is Some <==> e.children.len() > 0 && e.children[0] is Characters,
        content_words(e) matches Some(list) ==> list == words(e.children[0]->Characters_0),
        unsigned_in(e) == (match content_words(e) {
            Some(list) => unsigned_list(list),
            None => None,
        }),
        doc.numbers_in(e) == (match content_words(e) {
            Some(list) => number_list(doc.numerals, list),
            None => None,
        }),
{
}

/// The words of the texts among nodes are those of the first nodes and then those
/// of the others. One text has its words, and no other node has any.
pub proof fn law_text_words_in_parts(a: Seq<NodeView>, b: Seq<NodeView>, node: NodeView)
    ensures
        text_words(a + b) == text_words(a) + text_words(b),
        node matches NodeView::Characters(text) ==> text_words(seq![node]) == words(text),
        !(node is Characters) ==> text_words(seq![node]).len() == 0,
    decreases b.len(),
{
    reveal_with_fuel(text_words, 2);
    assert(seq![node].drop_last() =~= Seq::empty());
    if node is Characters {
        assert(text_words(seq![node]) =~= words(node->Characters_0));
    }
    if b.len() == 0 {
        assert(a + b =~= a);
    } else {
        law_text_words_in_parts(a, b.drop_last(), node);
        assert((a + b).drop_last() =~= a + b.drop_last());
        assert((a + b).last() == b.last());
    }
    assert(text_words(a + b) =~= text_words(a) + text_words(b));
}

/// The words of a walk are those of its first elements and then those of the
/// others, each element giving those of the texts that are its children.
pub proof fn law_words_of_walks_in_parts(
    a: Seq<(ElementView, nat)>,
    b: Seq<(ElementView, nat)>,
    one: (ElementView, nat),
)
    ensures
        words_within(a + b) == words_within(a) + words_within(b),
        words_within(seq![one]) == text_words(one.0.children),
    decreases b.len(),
{
    reveal_with_fuel(words_within, 2);
    assert(seq![one].drop_last() =~= Seq::empty());
    assert(words_within(seq![one]) =~= text_words(one.0.children));
    if b.len() == 0 {
        assert(a + b =~= a);
    } else {
        law_words_of_walks_in_parts(a, b.drop_last(), one);
        assert((a + b).drop_last() =~= a + b.drop_last());
        assert((a + b).last() == b.last());
    }
    assert(words_within(a + b) =~= words_within(a) + words_within(b));
}

/// The words of a document are those of the walk over all of it.
pub proof fn law_words_of_a_document(doc: DocumentView)
    ensures
        doc.words() == words_within(pre_order(doc.root, 0)),
{
}

} // verus!
