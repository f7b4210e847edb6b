//! Looking things up: attributes, child elements, inputs, references, names.

use vstd::prelude::*;

use crate::document::{first_referenced, first_with_semantic, is_referenced, DocumentView};
use crate::element::{attribute_map, elements_named, optional_text};
use crate::element::{Attribute, ElementView, NodeView};
use crate::mesh::bind_data_for;
use crate::skin::BindDataView;
use crate::text::{first_place, unsigned};

verus! {

/// Whether an attribute has the given name and namespace.
pub open spec fn is_attribute(a: Attribute, name: Seq<char>, ns: Option<Seq<char>>) -> bool {
    a.name@ == name && optional_text(a.ns) == ns
}

/// Whether entry `i` is the last of a list with the given name and namespace.
pub open spec fn is_last_attribute(list: Seq<Attribute>, name: Seq<char>, ns: Option<Seq<char>>, i: int) -> bool {
    &&& 0 <= i < list.len()
    &&& is_attribute(list[i], name, ns)
    &&& forall|j: int| i < j < list.len() ==> !is_attribute(#[trigger] list[j], name, ns)
}

/// A list of attributes has one of some name and namespace exactly when an entry
/// does, and its value is that of the last such entry.
pub proof fn law_last_attribute_counts(list: Seq<Attribute>, name: Seq<char>, ns: Option<Seq<char>>)
    ensures
        (forall|i: int| 0 <= i < list.len() ==> !is_attribute(#[trigger] list[i], name, ns))
            ==> !attribute_map(list).contains_key((name, ns)),
        forall|i: int| #[trigger]
            is_last_attribute(list, name, ns, i) ==> attribute_map(list).contains_key((name, ns))
                && attribute_map(list)[(name, ns)] == list[i].value@,
    decreases list.len(),
{
    if list.len() > 0 {
        let shorter = list.drop_last();
        let n = shorter.len() as int;
        law_last_attribute_counts(shorter, name, ns);
        if forall|i: int| 0 <= i < list.len() ==> !is_attribute(#[trigger] list[i], name, ns) {
            assert(!is_attribute(list[n], name, ns));
            assert forall|i: int| 0 <= i < shorter.len() implies !is_attribute(
                #[trigger] shorter[i],
                name,
                ns,
            ) by {
                assert(!is_attribute(list[i], name, ns));
            }
        }
        assert forall|i: int| #[trigger] is_last_attribute(list, name, ns, i) implies attribute_map(
            list,
        ).contains_key((name, ns)) && attribute_map(list)[(name, ns)] == list[i].value@ by {
            if i < n {
                assert(!is_attribute(list[n], name, ns));
                assert(shorter[i] == list[i]);
                assert forall|j: int| i < j < shorter.len() implies !is_attribute(
                    #[trigger] shorter[j],
                    name,
                    ns,
                ) by {
                    assert(!is_attribute(list[j], name, ns));
                }
                assert(is_last_attribute(shorter, name, ns, i));
            }
        }
    }
}

/// An attribute without a namespace is there exactly when the element has an
/// entry for its name and no namespace, and has the value of that entry.
pub proof fn law_attributes_are_their_entries(e: ElementView, name: Seq<char>, value: Seq<char>)
    ensures
        e.attribute(name) == Some(value) <==> e.attributes.contains_key((name, None)) && e.attributes[(
            name,
            None,
        )] == value,
        e.attribute(name) is None <==> !e.attributes.contains_key((name, None)),
        e.has_attribute(name, value) <==> e.attributes.contains_key((name, None))
            && e.attributes[(name, None)] == value,
        forall|ns: Option<Seq<char>>| #[trigger]
            e.attribute_in(name, ns) == Some(value) <==> e.attributes.contains_key((name, ns))
                && e.attributes[(name, ns)] == value,
{
}

/// Whether a node is an element of the given name and namespace.
pub open spec fn is_element_named(node: NodeView, name: Seq<char>, ns: Option<Seq<char>>) -> bool {
    node is Element && node->Element_0.name == name && node->Element_0.ns == ns
}

/// The elements that two lists of nodes hold together are those of the first and
/// then those of the second. One node holds itself if it is an element of the
/// name and namespace, and nothing otherwise.
pub proof fn law_elements_in_parts(
    a: Seq<NodeView>,
    b: Seq<NodeView>,
    node: NodeView,
    name: Seq<char>,
    ns: Option<Seq<char>>,
)
    ensures
        elements_named(a + b, name, ns) == elements_named(a, name, ns) + elements_named(b, name, ns),
        is_element_named(node, name, ns) ==> elements_named(seq![node], name, ns) == seq![
            node->Element_0,
        ],
        !is_element_named(node, name, ns) ==> elements_named(seq![node], name, ns).len() == 0,
    decreases b.len(),
{
    reveal_with_fuel(elements_named, 2);
    assert(seq![node].drop_last() =~= Seq::empty());
    if is_element_named(node, name, ns) {
        assert(elements_named(seq![node], name, ns) =~= seq![node->Element_0]);
    }
    if b.len() == 0 {
        assert(a + b =~= a);
    } else {
        law_elements_in_parts(a, b.drop_last(), node, name, ns);
        assert((a + b).drop_last() =~= a + b.drop_last());
        assert((a + b).last() == b.last());
    }
    assert(elements_named(a + b, name, ns) =~= elements_named(a, name, ns) + elements_named(
        b,
        name,
        ns,
    ));
}

proof fn lemma_elements_split(nodes: Seq<NodeView>, name: Seq<char>, ns: Option<Seq<char>>, j: int)
    requires
        0 <= j < nodes.len(),
    ensures
        elements_named(nodes, name, ns) == elements_named(nodes.take(j), name, ns) + elements_named(
            seq![nodes[j]],
            name,
            ns,
        ) + elements_named(nodes.skip(j + 1), name, ns),
{
    assert(nodes =~= nodes.take(j) + seq![nodes[j]] + nodes.skip(j + 1));
    law_elements_in_parts(nodes.take(j) + seq![nodes[j]], nodes.skip(j + 1), nodes[j], name, ns);
    law_elements_in_parts(nodes.take(j), seq![nodes[j]], nodes[j], name, ns);
}

proof fn lemma_no_elements(nodes: Seq<NodeView>, name: Seq<char>, ns: Option<Seq<char>>)
    requires
        forall|i: int| 0 <= i < nodes.len() ==> !is_element_named(#[trigger] nodes[i], name, ns),
    ensures
        elements_named(nodes, name, ns).len() == 0,
    decreases nodes.len(),
{
    if nodes.len() > 0 {
        let shorter = nodes.drop_last();
        assert forall|i: int| 0 <= i < shorter.len() implies !is_element_named(
            #[trigger] shorter[i],
            name,
            ns,
        ) by {
            assert(!is_element_named(nodes[i], name, ns));
        }
        lemma_no_elements(shorter, name, ns);
        assert(!is_element_named(nodes[nodes.len() - 1], name, ns));
    }
}

/// Whether the child `j` of an element is its first child element of the given
/// name and namespace.
pub open spec fn is_first_child(e: ElementView, name: Seq<char>, ns: Option<Seq<char>>, j: int) -> bool {
    &&& 0 <= j < e.children.len()
    &&& is_element_named(e.children[j], name, ns)
    &&& forall|i: int| 0 <= i < j ==> !is_element_named(#[trigger] e.children[i], name, ns)
}

/// A child element is found exactly when some child is an element of the name and
/// namespace; the one that is found is the first of them, whatever other nodes
/// stand among the children.
pub proof fn law_first_child_is_found(e: ElementView, name: Seq<char>, ns: Option<Seq<char>>)
    ensures
        e.element(name, ns) is None <==> forall|i: int|
            0 <= i < e.children.len() ==> !is_element_named(#[trigger] e.children[i], name, ns),
        e.element(name, ns) is Some ==> exists|j: int| #[trigger] is_first_child(e, name, ns, j),
        forall|j: int| #[trigger]
            is_first_child(e, name, ns, j) ==> e.element(name, ns) == Some(e.children[j]->Element_0),
{
    let nodes = e.children;
    assert forall|j: int| #[trigger] is_first_child(e, name, ns, j) implies e.element(name, ns) == Some(
        e.children[j]->Element_0,
    ) by {
        lemma_elements_split(nodes, name, ns, j);
        let before = nodes.take(j);
        assert forall|i: int| 0 <= i < before.len() implies !is_element_named(
            #[trigger] before[i],
            name,
            ns,
        ) by {
            assert(!is_element_named(nodes[i], name, ns));
        }
        lemma_no_elements(before, name, ns);
        law_elements_in_parts(Seq::empty(), Seq::empty(), nodes[j], name, ns);
    }
    if forall|i: int| 0 <= i < nodes.len() ==> !is_element_named(#[trigger] nodes[i], name, ns) {
        lemma_no_elements(nodes, name, ns);
    } else {
        let i = choose|i: int| 0 <= i < nodes.len() && is_element_named(#[trigger] nodes[i], name, ns);
        let j = lemma_first_child(e, name, ns, i);
        assert(is_first_child(e, name, ns, j));
    }
}

proof fn lemma_first_child(e: ElementView, name: Seq<char>, ns: Option<Seq<char>>, i: int) -> (j: int)
    requires
        0 <= i < e.children.len(),
        is_element_named(e.children[i], name, ns),
    ensures
        is_first_child(e, name, ns, j),
    decreases i,
{
    if forall|k: int| 0 <= k < i ==> !is_element_named(#[trigger] e.children[k], name, ns) {
        i
    } else {
        let k = choose|k: int| 0 <= k < i && is_element_named(#[trigger] e.children[k], name, ns);
        lemma_first_child(e, name, ns, k)
    }
}

/// The child elements of a name and namespace are exactly those children, and
/// two of them come in the order of the children.
pub proof fn law_child_elements_are_all_there(e: ElementView, name: Seq<char>, ns: Option<Seq<char>>)
    ensures
        forall|i: int|
            0 <= i < e.elements(name, ns).len() ==> exists|j: int|
                0 <= j < e.children.len() && is_element_named(#[trigger] e.children[j], name, ns)
                    && e.children[j]->Element_0 == #[trigger] e.elements(name, ns)[i],
        forall|j: int|
            0 <= j < e.children.len() && is_element_named(#[trigger] e.children[j], name, ns)
                ==> e.elements(name, ns).contains(e.children[j]->Element_0),
        forall|j: int|
            0 <= j < e.children.len() && is_element_named(#[trigger] e.children[j], name, ns)
                ==> e.elements(name, ns)[elements_named(e.children.take(j), name, ns).len() as int]
                == e.children[j]->Element_0,
{
    let nodes = e.children;
    let all = e.elements(name, ns);
    assert forall|j: int| 0 <= j < nodes.len() && is_element_named(#[trigger] nodes[j], name, ns) implies
        all[elements_named(nodes.take(j), name, ns).len() as int] == nodes[j]->Element_0
        && all.contains(nodes[j]->Element_0) by {
        lemma_elements_split(nodes, name, ns, j);
        law_elements_in_parts(Seq::empty(), Seq::empty(), nodes[j], name, ns);
        let at = elements_named(nodes.take(j), name, ns).len() as int;
        assert(all[at] == nodes[j]->Element_0);
    }
    assert forall|i: int| 0 <= i < all.len() implies exists|j: int|
        0 <= j < nodes.len() && is_element_named(#[trigger] nodes[j], name, ns)
            && nodes[j]->Element_0 == #[trigger] all[i] by {
        let j = lemma_element_is_child(nodes, name, ns, i);
        assert(is_element_named(nodes[j], name, ns));
    }
}

proof fn lemma_element_is_child(nodes: Seq<NodeView>, name: Seq<char>, ns: Option<Seq<char>>, i: int) -> (j: int)
    requires
        0 <= i < elements_named(nodes, name, ns).len(),
    ensures
        0 <= j < nodes.len(),
        is_element_named(nodes[j], name, ns),
        nodes[j]->Element_0 == elements_named(nodes, name, ns)[i],
    decreases nodes.len(),
{
    let before = elements_named(nodes.drop_last(), name, ns);
    if i < before.len() {
        lemma_element_is_child(nodes.drop_last(), name, ns, i)
    } else {
        nodes.len() - 1
    }
}

/// Whether entry `i` of a list is its first element with the given semantic.
pub open spec fn is_first_with(list: Seq<ElementView>, semantic: Seq<char>, i: int) -> bool {
    &&& 0 <= i < list.len()
    &&& list[i].attribute("semantic"@) == Some(semantic)
    &&& forall|j: int| 0 <= j < i ==> (#[trigger] list[j]).attribute("semantic"@) != Some(semantic)
}

/// An input of some semantic is found exactly when one of the `input` elements
/// has it, and it is the first of them that has.
pub proof fn law_first_input_is_found(doc: DocumentView, parent: ElementView, semantic: Seq<char>)
    ensures
        ({
            let list = parent.elements("input"@, doc.root.ns);
            &&& doc.input(parent, semantic) is None <==> forall|i: int|
                0 <= i < list.len() ==> (#[trigger] list[i]).attribute("semantic"@) != Some(semantic)
            &&& doc.input(parent, semantic) is Some ==> exists|i: int| #[trigger]
                is_first_with(list, semantic, i)
            &&& forall|i: int| #[trigger]
                is_first_with(list, semantic, i) ==> doc.input(parent, semantic) == Some(list[i])
        }),
{
    lemma_first_with_semantic(parent.elements("input"@, doc.root.ns), semantic);
}

proof fn lemma_first_with_semantic(list: Seq<ElementView>, semantic: Seq<char>)
    ensures
        first_with_semantic(list, semantic) is None <==> forall|i: int|
            0 <= i < list.len() ==> (#[trigger] list[i]).attribute("semantic"@) != Some(semantic),
        first_with_semantic(list, semantic) is Some ==> exists|i: int| #[trigger]
            is_first_with(list, semantic, i),
        forall|i: int| #[trigger]
            is_first_with(list, semantic, i) ==> first_with_semantic(list, semantic) == Some(list[i]),
    decreases list.len(),
{
    if list.len() > 0 {
        let rest = list.drop_first();
        lemma_first_with_semantic(rest, semantic);
        if list[0].attribute("semantic"@) == Some(semantic) {
            assert(is_first_with(list, semantic, 0));
            assert forall|i: int| #[trigger] is_first_with(list, semantic, i) implies i == 0 by {
                if i > 0 {
                    assert(list[0].attribute("semantic"@) != Some(semantic));
                }
            }
        } else {
            assert forall|i: int| 0 <= i < rest.len() implies #[trigger] rest[i] == list[i + 1] by {}
            if first_with_semantic(rest, semantic) is Some {
                let i = choose|i: int| #[trigger] is_first_with(rest, semantic, i);
                assert forall|j: int| 0 <= j < i + 1 implies (#[trigger] list[j]).attribute(
                    "semantic"@,
                ) != Some(semantic) by {
                    if j > 0 {
                        assert(rest[j - 1].attribute("semantic"@) != Some(semantic));
                    }
                }
                assert(rest[i] == list[i + 1]);
                assert(is_first_with(list, semantic, i + 1));
            } else {
                assert forall|i: int| 0 <= i < list.len() implies (#[trigger] list[i]).attribute(
                    "semantic"@,
                ) != Some(semantic) by {
                    if i > 0 {
                        assert(rest[i - 1].attribute("semantic"@) != Some(semantic));
                    }
                }
            }
            assert forall|i: int| #[trigger] is_first_with(list, semantic, i) implies first_with_semantic(
                list,
                semantic,
            ) == Some(list[i]) by {
                assert(rest[i - 1] == list[i]);
                assert forall|j: int| 0 <= j < i - 1 implies (#[trigger] rest[j]).attribute(
                    "semantic"@,
                ) != Some(semantic) by {
                    assert(list[j + 1].attribute("semantic"@) != Some(semantic));
                }
                assert(is_first_with(rest, semantic, i - 1));
            }
        }
    }
}

/// The offset of an input is the unsigned number that its `offset` attribute
/// writes; there is none where there is no input, no such attribute or no number
/// in it.
pub proof fn law_offset_is_that_of_the_input(doc: DocumentView, parent: ElementView, semantic: Seq<char>)
    ensures
        doc.input(parent, semantic) is None ==> doc.input_offset(parent, semantic) is None,
        doc.input(parent, semantic) matches Some(input) ==> {
            &&& input.attribute("offset"@) is None ==> doc.input_offset(parent, semantic) is None
            &&& input.attribute("offset"@) matches Some(text) ==> doc.input_offset(parent, semantic)
                == unsigned(text)
        },
{
}

/// Whether a node is an element with an id that the reference is to: the
/// reference is a `#` and then the id.
pub open spec fn is_target(node: NodeView, reference: Seq<char>) -> bool {
    &&& node is Element
    &&& node->Element_0.attribute("id"@) is Some
    &&& reference.len() == node->Element_0.attribute("id"@)->0.len() + 1
    &&& reference[0] == '#'
    &&& reference.skip(1) == node->Element_0.attribute("id"@)->0
}

/// Whether node `i` is the first that a reference is to.
pub open spec fn is_first_target(nodes: Seq<NodeView>, reference: Seq<char>, i: int) -> bool {
    &&& 0 <= i < nodes.len()
    &&& is_target(nodes[i], reference)
    &&& forall|j: int| 0 <= j < i ==> !is_target(#[trigger] nodes[j], reference)
}

proof fn lemma_target(node: NodeView, reference: Seq<char>)
    ensures
        is_target(node, reference) <==> first_referenced(seq![node], reference) == Some(
            node->Element_0,
        ),
        is_target(node, reference) == is_referenced(node, reference),
{
    reveal_with_fuel(first_referenced, 2);
    assert(seq![node].drop_first() =~= Seq::<NodeView>::empty());
    match node {
        NodeView::Element(e) => {
            match e.attribute("id"@) {
                Some(id) => {
                    let hashed = seq!['#'] + id;
                    assert(hashed.skip(1) =~= id);
                    if is_target(node, reference) {
                        assert(reference =~= seq!['#'] + reference.skip(1));
                    }
                },
                None => {},
            }
        },
        _ => {},
    }
}

/// A reference finds something exactly when one of the nodes is an element whose
/// id it is a `#` before, and finds the first such element, whatever other nodes
/// stand before it.
pub proof fn law_first_target_is_found(nodes: Seq<NodeView>, reference: Seq<char>)
    ensures
        first_referenced(nodes, reference) is None <==> forall|i: int|
            0 <= i < nodes.len() ==> !is_target(#[trigger] nodes[i], reference),
        first_referenced(nodes, reference) is Some ==> exists|i: int| #[trigger]
            is_first_target(nodes, reference, i),
        forall|i: int| #[trigger]
            is_first_target(nodes, reference, i) ==> first_referenced(nodes, reference) == Some(
                nodes[i]->Element_0,
            ),
    decreases nodes.len(),
{
    if nodes.len() > 0 {
        let rest = nodes.drop_first();
        law_first_target_is_found(rest, reference);
        lemma_target(nodes[0], reference);
        if is_target(nodes[0], reference) {
            assert(is_first_target(nodes, reference, 0));
            assert forall|i: int| #[trigger] is_first_target(nodes, reference, i) implies i == 0 by {
                if i > 0 {
                    assert(!is_target(nodes[0], reference));
                }
            }
        } else {
            assert forall|i: int| 0 <= i < rest.len() implies #[trigger] rest[i] == nodes[i + 1] by {}
            if first_referenced(rest, reference) is Some {
                let i = choose|i: int| #[trigger] is_first_target(rest, reference, i);
                assert forall|j: int| 0 <= j < i + 1 implies !is_target(#[trigger] nodes[j], reference) by {
                    if j > 0 {
                        assert(!is_target(rest[j - 1], reference));
                    }
                }
                assert(rest[i] == nodes[i + 1]);
                assert(is_first_target(nodes, reference, i + 1));
            } else {
                assert forall|i: int| 0 <= i < nodes.len() implies !is_target(
                    #[trigger] nodes[i],
                    reference,
                ) by {
                    if i > 0 {
                        assert(!is_target(rest[i - 1], reference));
                    }
                }
            }
            assert forall|i: int| #[trigger] is_first_target(nodes, reference, i) implies first_referenced(
                nodes,
                reference,
            ) == Some(nodes[i]->Element_0) by {
                assert(rest[i - 1] == nodes[i]);
                assert forall|j: int| 0 <= j < i - 1 implies !is_target(#[trigger] rest[j], reference) by {
                    assert(!is_target(nodes[j + 1], reference));
                }
                assert(is_first_target(rest, reference, i - 1));
            }
        }
    }
}

/// The place of a text in a list is the first entry that is the text, and the
/// length of the list exactly when no entry is.
pub proof fn law_first_place_is_found(list: Seq<Seq<char>>, text: Seq<char>)
    ensures
        first_place(list, text) <= list.len(),
        first_place(list, text) < list.len() ==> list[first_place(list, text) as int] == text,
        forall|i: int| 0 <= i < first_place(list, text) ==> #[trigger] list[i] != text,
    decreases list.len(),
{
    if list.len() > 0 && list[0] != text {
        let rest = list.drop_first();
        law_first_place_is_found(rest, text);
        assert forall|i: int| 0 <= i < first_place(list, text) implies #[trigger] list[i] != text by {
            if i > 0 {
                assert(rest[i - 1] != text);
            }
        }
    }
}

/// Whether entry `i` is the first of a list of bind data for the mesh of a name.
pub open spec fn is_first_for(list: Seq<BindDataView>, name: Seq<char>, i: int) -> bool {
    &&& 0 <= i < list.len()
    &&& list[i].object_name == name
    &&& forall|j: int| 0 <= j < i ==> (#[trigger] list[j]).object_name != name
}

/// Bind data for a mesh is found exactly when some entry of the list is for it,
/// and is the first such entry.
pub proof fn law_first_bind_data_is_found(list: Seq<BindDataView>, name: Seq<char>)
    ensures
        bind_data_for(list, name) is None <==> forall|i: int|
            0 <= i < list.len() ==> (#[trigger] list[i]).object_name != name,
        bind_data_for(list, name) is Some ==> exists|i: int| #[trigger] is_first_for(list, name, i),
        forall|i: int| #[trigger]
            is_first_for(list, name, i) ==> bind_data_for(list, name) == Some(list[i]),
    decreases list.len(),
{
    if list.len() > 0 {
        let rest = list.drop_first();
        law_first_bind_data_is_found(rest, name);
        if list[0].object_name == name {
            assert(is_first_for(list, name, 0));
            assert forall|i: int| #[trigger] is_first_for(list, name, i) implies i == 0 by {
                if i > 0 {
                    assert(list[0].object_name != name);
                }
            }
        } else {
            assert forall|i: int| 0 <= i < rest.len() implies #[trigger] rest[i] == list[i + 1] by {}
            if bind_data_for(rest, name) is Some {
                let i = choose|i: int| #[trigger] is_first_for(rest, name, i);
                assert forall|j: int| 0 <= j < i + 1 implies (#[trigger] list[j]).object_name != name by {
                    if j > 0 {
                        assert(rest[j - 1].object_name != name);
                    }
                }
                assert(rest[i] == list[i + 1]);
                assert(is_first_for(list, name, i + 1));
            } else {
                assert forall|i: int| 0 <= i < list.len() implies (#[trigger] list[i]).object_name
                    != name by {
                    if i > 0 {
                        assert(rest[i - 1].object_name != name);
                    }
                }
            }
            assert forall|i: int| #[trigger] is_first_for(list, name, i) implies bind_data_for(list, name)
                == Some(list[i]) by {
                assert(rest[i - 1] == list[i]);
                assert forall|j: int| 0 <= j < i - 1 implies (#[trigger] rest[j]).object_name != name by {
                    assert(list[j + 1].object_name != name);
                }
                assert(is_first_for(rest, name, i - 1));
            }
        }
    }
}

} // verus!
