//! Walking the elements of a tree.

use vstd::prelude::*;

use crate::element::{node_view, nodes_view};
use crate::element::{ElementView, NodeView, XmlElement, XmlNode};
use crate::text::{texts, words, words_of};

verus! {

/// An element and all the elements below it, each before those that it
/// encloses. With each comes its depth, which grows by one from an element to
/// those directly inside it.
pub open spec fn pre_order(e: ElementView, depth: nat) -> Seq<(ElementView, nat)>
    decreases e,
{
    seq![(e, depth)] + pre_order_nodes(e.children, depth + 1)
}

/// The elements among the given nodes and below them.
pub open spec fn pre_order_nodes(nodes: Seq<NodeView>, depth: nat) -> Seq<(ElementView, nat)>
    decreases nodes,
{
    if nodes.len() == 0 {
        Seq::empty()
    } else {
        pre_order_nodes(nodes.drop_last(), depth) + (match nodes.last() {
            NodeView::Element(e) => pre_order(e, depth),
            _ => Seq::empty(),
        })
    }
}

/// An element that a walk comes to, and its depth.
pub struct Visit<'a> {
    pub element: &'a XmlElement,
    pub depth: usize,
}

/// A depth, or the largest `usize` where it is larger than that.
pub open spec fn capped(depth: nat) -> nat {
    if depth <= usize::MAX {
        depth
    } else {
        usize::MAX as nat
    }
}

/// Whether `visits` are the given elements with their depths, capped.
pub open spec fn visits_are(visits: Seq<Visit>, all: Seq<(ElementView, nat)>) -> bool {
    &&& visits.len() == all.len()
    &&& forall|i: int|
        0 <= i < all.len() ==> (#[trigger] visits[i]).element@ == all[i].0 && visits[i].depth
            == capped(all[i].1)
}

proof fn lemma_visits_join(a: Seq<Visit>, x: Seq<(ElementView, nat)>, b: Seq<Visit>, y: Seq<(ElementView, nat)>)
    requires
        visits_are(a, x),
        visits_are(b, y),
    ensures
        visits_are(a + b, x + y),
{
}

fn walk<'a>(element: &'a XmlElement, depth: usize, Ghost(true_depth): Ghost<nat>, out: &mut Vec<Visit<'a>>)
    requires
        depth == capped(true_depth),
    ensures
        exists|tail: Seq<Visit>| #[trigger]
            visits_are(tail, pre_order(element@, true_depth)) && final(out)@ == old(out)@ + tail,
    decreases *element,
{
    let ghost start = out@;
    out.push(Visit { element, depth });
    let below: usize = if depth < usize::MAX {
        depth + 1
    } else {
        depth
    };
    let ghost head = seq![Visit { element, depth }];
    let ghost mut tail: Seq<Visit> = Seq::empty();
    let ghost nodes = element@.children;
    assert(out@ =~= start + head + tail);
    let mut i: usize = 0;
    while i < element.children.len()
        invariant
            i <= element.children@.len(),
            below == capped(true_depth + 1),
            nodes == nodes_view(element.children@),
            out@ == start + head + tail,
            visits_are(tail, pre_order_nodes(nodes.take(i as int), true_depth + 1)),
        decreases element.children.len() - i,
    {
        let ghost next = nodes.take(i + 1);
        assert(next.drop_last() =~= nodes.take(i as int));
        assert(next.last() == node_view(element.children@[i as int]));
        match &element.children[i] {
            XmlNode::Element(e) => {
                let ghost before = out@;
                assert(decreases_to!(*element => element.children));
                assert(decreases_to!(element.children => element.children@));
                assert(decreases_to!(element.children@ => element.children@[i as int]));
                assert(decreases_to!(element.children@[i as int] => element.children@[i as int]->Element_0));
                walk(e, below, Ghost(true_depth + 1), out);
                proof {
                    let added = choose|t: Seq<Visit>| #[trigger]
                        visits_are(t, pre_order(e@, true_depth + 1)) && out@ == before + t;
                    lemma_visits_join(
                        tail,
                        pre_order_nodes(nodes.take(i as int), true_depth + 1),
                        added,
                        pre_order(e@, true_depth + 1),
                    );
                    assert(start + head + tail + added =~= start + head + (tail + added));
                    tail = tail + added;
                }
            },
            _ => {
                assert(pre_order_nodes(next, true_depth + 1) =~= pre_order_nodes(
                    nodes.take(i as int),
                    true_depth + 1,
                ));
            },
        }
        i = i + 1;
    }
    proof {
        assert(nodes.take(nodes.len() as int) =~= nodes);
        lemma_visits_join(head, seq![(element@, true_depth)], tail, pre_order_nodes(nodes, true_depth + 1));
        assert(start + head + tail =~= start + (head + tail));
        assert(visits_are(head + tail, pre_order(element@, true_depth)));
    }
}

/// The element itself and all the elements below it, each before those that it
/// encloses, with their depths.
pub fn pre_order_with_depth<'a>(root: &'a XmlElement) -> (r: Vec<Visit<'a>>)
    ensures
        visits_are(r@, pre_order(root@, 0)),
{
    let mut out: Vec<Visit<'a>> = Vec::new();
    walk(root, 0, Ghost(0nat), &mut out);
    assert(forall|t: Seq<Visit>| #[trigger] (Seq::<Visit>::empty() + t) =~= t);
    out
}

/// The words of an element whose first child is text, which are what an array
/// holds.
pub open spec fn content_words(e: ElementView) -> Option<Seq<Seq<char>>> {
    if e.children.len() > 0 {
        match e.children[0] {
            NodeView::Characters(text) => Some(words(text)),
            _ => None,
        }
    } else {
        None
    }
}

/// The words of the texts among the given nodes.
pub open spec fn text_words(nodes: Seq<NodeView>) -> Seq<Seq<char>>
    decreases nodes.len(),
{
    if nodes.len() == 0 {
        Seq::empty()
    } else {
        text_words(nodes.drop_last()) + (match nodes.last() {
            NodeView::Characters(text) => words(text),
            _ => Seq::empty(),
        })
    }
}

/// The words of the texts that the given elements hold as children.
pub open spec fn words_within(all: Seq<(ElementView, nat)>) -> Seq<Seq<char>>
    decreases all.len(),
{
    if all.len() == 0 {
        Seq::empty()
    } else {
        words_within(all.drop_last()) + text_words(all.last().0.children)
    }
}

/// The words of an element whose first child is text.
pub fn get_content_words(e: &XmlElement) -> (r: Option<Vec<String>>)
    ensures
        match r {
            Some(v) => content_words(e@) == Some(texts(v@)),
            None => content_words(e@) is None,
        },
{
    if e.children.len() == 0 {
        return None;
    }
    assert(e@.children[0] == node_view(e.children@[0]));
    match &e.children[0] {
        XmlNode::Characters(text) => Some(words_of(text.as_str())),
        _ => None,
    }
}

/// All the words of all the texts in a tree.
pub fn all_words(root: &XmlElement) -> (r: Vec<String>)
    ensures
        texts(r@) == words_within(pre_order(root@, 0)),
{
    let visits = pre_order_with_depth(root);
    let ghost all = pre_order(root@, 0);
    let mut out: Vec<String> = Vec::new();
    assert(texts(out@) =~= words_within(all.take(0)));
    let mut i: usize = 0;
    while i < visits.len()
        invariant
            i <= visits@.len(),
            visits_are(visits@, all),
            texts(out@) == words_within(all.take(i as int)),
        decreases visits.len() - i,
    {
        let element = visits[i].element;
        let ghost nodes = element@.children;
        let ghost before = texts(out@);
        assert(text_words(nodes.take(0)) =~= Seq::empty());
        assert(before + Seq::<Seq<char>>::empty() =~= before);
        let mut j: usize = 0;
        while j < element.children.len()
            invariant
                j <= element.children@.len(),
                nodes == nodes_view(element.children@),
                texts(out@) == before + text_words(nodes.take(j as int)),
            decreases element.children.len() - j,
        {
            let ghost next = nodes.take(j + 1);
            assert(next.drop_last() =~= nodes.take(j as int));
            assert(next.last() == node_view(element.children@[j as int]));
            let ghost held = out@;
            match &element.children[j] {
                XmlNode::Characters(text) => {
                    let mut more = words_of(text.as_str());
                    let ghost added = more@;
                    out.append(&mut more);
                    assert(texts(out@) =~= texts(held) + texts(added));
                    assert(before + text_words(nodes.take(j as int)) + texts(added) =~= before + text_words(
                        next,
                    ));
                },
                _ => {
                    assert(text_words(next) =~= text_words(nodes.take(j as int)));
                },
            }
            j = j + 1;
        }
        assert(nodes.take(nodes.len() as int) =~= nodes);
        assert(all.take(i + 1).drop_last() =~= all.take(i as int));
        assert(all.take(i + 1).last() == all[i as int]);
        i = i + 1;
    }
    assert(all.take(all.len() as int) =~= all);
    out
}

} // verus!
