//! Which numerals reading a document asks for.

use vstd::prelude::*;

use crate::document::{first_referenced, is_referenced, source_step, source_within};
use crate::document::{DocumentView, SourceStep};
use crate::element::{elements_named, ElementView, NodeView};
use crate::number::number_list;
use crate::skeleton::{joints_among, nodes_with_id, skeleton_ids};
use crate::skin::BindDataView;
use crate::text::words;
use crate::traversal::{content_words, pre_order, pre_order_nodes, text_words, words_within};

verus! {

/// Whether a walk comes to an element.
spec fn meets(all: Seq<(ElementView, nat)>, e: ElementView) -> bool {
    exists|k: int| 0 <= k < all.len() && (#[trigger] all[k]).0 == e
}

/// Whether an element is a child of another.
spec fn is_child(e: ElementView, parent: ElementView) -> bool {
    exists|j: int| 0 <= j < parent.children.len() && #[trigger] parent.children[j] == NodeView::Element(e)
}

/// A walk over nodes comes to what a walk over one of them comes to.
proof fn lemma_nodes_meet(nodes: Seq<NodeView>, depth: nat, j: int, e: ElementView)
    requires
        0 <= j < nodes.len(),
        nodes[j] is Element,
        meets(pre_order(nodes[j]->Element_0, depth), e),
    ensures
        meets(pre_order_nodes(nodes, depth), e),
    decreases nodes.len(),
{
    let before = pre_order_nodes(nodes.drop_last(), depth);
    let all = pre_order_nodes(nodes, depth);
    if j == nodes.len() - 1 {
        let last = pre_order(nodes[j]->Element_0, depth);
        let k = choose|k: int| 0 <= k < last.len() && (#[trigger] last[k]).0 == e;
        assert(all[before.len() + k] == last[k]);
    } else {
        lemma_nodes_meet(nodes.drop_last(), depth, j, e);
        let k = choose|k: int| 0 <= k < before.len() && (#[trigger] before[k]).0 == e;
        assert(all[k] == before[k]);
    }
}

/// What a walk over nodes comes to, the walk over one of them comes to.
proof fn lemma_met_in_node(nodes: Seq<NodeView>, depth: nat, e: ElementView) -> (j: int)
    requires
        meets(pre_order_nodes(nodes, depth), e),
    ensures
        0 <= j < nodes.len(),
        nodes[j] is Element,
        meets(pre_order(nodes[j]->Element_0, depth), e),
    decreases nodes.len(),
{
    let all = pre_order_nodes(nodes, depth);
    let k = choose|k: int| 0 <= k < all.len() && (#[trigger] all[k]).0 == e;
    let before = pre_order_nodes(nodes.drop_last(), depth);
    if k < before.len() {
        assert(before[k] == all[k]);
        lemma_met_in_node(nodes.drop_last(), depth, e)
    } else {
        let last = pre_order(nodes.last()->Element_0, depth);
        assert(last[k - before.len()] == all[k]);
        nodes.len() - 1
    }
}

/// A walk comes to the children of what it comes to.
proof fn lemma_meets_children(root: ElementView, depth: nat, e: ElementView, child: ElementView)
    requires
        meets(pre_order(root, depth), e),
        is_child(child, e),
    ensures
        meets(pre_order(root, depth), child),
    decreases root,
{
    let all = pre_order(root, depth);
    let below = pre_order_nodes(root.children, depth + 1);
    let k = choose|k: int| 0 <= k < all.len() && (#[trigger] all[k]).0 == e;
    if k == 0 {
        let j = choose|j: int| 0 <= j < e.children.len() && #[trigger] e.children[j] == NodeView::Element(child);
        assert(pre_order(child, depth + 1)[0].0 == child);
        lemma_nodes_meet(root.children, depth + 1, j, child);
    } else {
        assert(below[k - 1] == all[k]);
        let j = lemma_met_in_node(root.children, depth + 1, e);
        let next = root.children[j]->Element_0;
        assert(decreases_to!(root => root.children));
        assert(decreases_to!(root.children => root.children[j]));
        assert(decreases_to!(root.children[j] => root.children[j]->Element_0));
        lemma_meets_children(next, depth + 1, e, child);
        lemma_nodes_meet(root.children, depth + 1, j, child);
    }
    let m = choose|m: int| 0 <= m < below.len() && (#[trigger] below[m]).0 == child;
    assert(all[m + 1] == below[m]);
}

/// A walk comes to all that a walk from an element which it comes to does.
proof fn lemma_meets_below(root: ElementView, top: ElementView, depth: nat, e: ElementView)
    requires
        meets(pre_order(root, 0), top),
        meets(pre_order(top, depth), e),
    ensures
        meets(pre_order(root, 0), e),
    decreases top,
{
    let all = pre_order(top, depth);
    let k = choose|k: int| 0 <= k < all.len() && (#[trigger] all[k]).0 == e;
    if k > 0 {
        assert(pre_order_nodes(top.children, depth + 1)[k - 1] == all[k]);
        let j = lemma_met_in_node(top.children, depth + 1, e);
        let next = top.children[j]->Element_0;
        assert(top.children[j] == NodeView::Element(next));
        lemma_meets_children(root, 0, top, next);
        assert(decreases_to!(top => top.children));
        assert(decreases_to!(top.children => top.children[j]));
        assert(decreases_to!(top.children[j] => top.children[j]->Element_0));
        lemma_meets_below(root, next, depth + 1, e);
    }
}

/// The elements among nodes are some of the nodes.
proof fn lemma_named_are_nodes(nodes: Seq<NodeView>, name: Seq<char>, ns: Option<Seq<char>>, i: int) -> (j: int)
    requires
        0 <= i < elements_named(nodes, name, ns).len(),
    ensures
        0 <= j < nodes.len(),
        nodes[j] == NodeView::Element(elements_named(nodes, name, ns)[i]),
    decreases nodes.len(),
{
    let before = elements_named(nodes.drop_last(), name, ns);
    if i < before.len() {
        lemma_named_are_nodes(nodes.drop_last(), name, ns, i)
    } else {
        nodes.len() - 1
    }
}

proof fn lemma_named_are_children(e: ElementView, name: Seq<char>, ns: Option<Seq<char>>)
    ensures
        forall|i: int|
            0 <= i < e.elements(name, ns).len() ==> is_child(#[trigger] e.elements(name, ns)[i], e),
        e.element(name, ns) is Some ==> is_child(e.element(name, ns)->0, e),
{
    assert forall|i: int| 0 <= i < e.elements(name, ns).len() implies is_child(
        #[trigger] e.elements(name, ns)[i],
        e,
    ) by {
        let j = lemma_named_are_nodes(e.children, name, ns, i);
        assert(e.children[j] == NodeView::Element(e.elements(name, ns)[i]));
    }
}

proof fn lemma_referenced_is_node(nodes: Seq<NodeView>, reference: Seq<char>) -> (j: int)
    requires
        first_referenced(nodes, reference) is Some,
    ensures
        0 <= j < nodes.len(),
        nodes[j] == NodeView::Element(first_referenced(nodes, reference)->0),
    decreases nodes.len(),
{
    if is_referenced(nodes[0], reference) {
        0
    } else {
        lemma_referenced_is_node(nodes.drop_first(), reference) + 1
    }
}

/// The source that an input leads to is a child of the element that it is
/// resolved in.
proof fn lemma_source_is_child(parent: ElementView, ns: Option<Seq<char>>, input: ElementView, limit: nat)
    requires
        source_within(parent, ns, input, limit) matches Ok(Some(_)),
    ensures
        is_child(source_within(parent, ns, input, limit)->Ok_0->0, parent),
    decreases limit,
{
    match source_step(parent, ns, input) {
        SourceStep::Missing => {},
        SourceStep::Source(e) => {
            let j = lemma_referenced_is_node(parent.children, input.attribute("source"@)->0);
            assert(parent.children[j] == NodeView::Element(e));
        },
        SourceStep::Input(next) => {
            lemma_source_is_child(parent, ns, next, (limit - 1) as nat);
        },
    }
}

/// The words that an element holds are among those of a walk that comes to it.
proof fn lemma_content_is_within(all: Seq<(ElementView, nat)>, e: ElementView, i: int)
    requires
        meets(all, e),
        content_words(e) is Some,
        0 <= i < content_words(e)->0.len(),
    ensures
        words_within(all).contains(content_words(e)->0[i]),
    decreases all.len(),
{
    let word = content_words(e)->0[i];
    let before = words_within(all.drop_last());
    let last = text_words(all.last().0.children);
    let k = choose|k: int| 0 <= k < all.len() && (#[trigger] all[k]).0 == e;
    if k == all.len() - 1 {
        lemma_content_is_text(e.children, i);
        let m = choose|m: int| 0 <= m < last.len() && last[m] == word;
        assert(words_within(all)[before.len() + m] == word);
    } else {
        assert(all.drop_last()[k].0 == e);
        lemma_content_is_within(all.drop_last(), e, i);
        let m = choose|m: int| 0 <= m < before.len() && before[m] == word;
        assert(words_within(all)[m] == word);
    }
}

proof fn lemma_content_is_text(nodes: Seq<NodeView>, i: int)
    requires
        nodes.len() > 0,
        nodes[0] is Characters,
        0 <= i < words(nodes[0]->Characters_0).len(),
    ensures
        text_words(nodes).contains(words(nodes[0]->Characters_0)[i]),
    decreases nodes.len(),
{
    let word = words(nodes[0]->Characters_0)[i];
    let before = text_words(nodes.drop_last());
    if nodes.len() == 1 {
        assert(text_words(nodes)[before.len() + i] == word);
    } else {
        lemma_content_is_text(nodes.drop_last(), i);
        let m = choose|m: int| 0 <= m < before.len() && before[m] == word;
        assert(text_words(nodes)[m] == word);
    }
}

/// Whether two documents are the same tree, and read the words in it alike.
pub open spec fn read_alike(a: DocumentView, b: DocumentView) -> bool {
    &&& a.root == b.root
    &&& forall|i: int|
        0 <= i < a.words().len() ==> {
            let word = #[trigger] a.words()[i];
            &&& a.numerals.contains_key(word) == b.numerals.contains_key(word)
            &&& a.numerals.contains_key(word) ==> a.numerals[word] == b.numerals[word]
        }
}

/// Whether an element is part of a document.
spec fn holds(doc: DocumentView, e: ElementView) -> bool {
    meets(pre_order(doc.root, 0), e)
}

proof fn lemma_content_alike(a: DocumentView, b: DocumentView, e: ElementView)
    requires
        read_alike(a, b),
        holds(a, e),
        content_words(e) is Some,
    ensures
        number_list(a.numerals, content_words(e)->0) == number_list(b.numerals, content_words(e)->0),
{
    let list = content_words(e)->0;
    assert forall|i: int| 0 <= i < list.len() implies {
        &&& a.numerals.contains_key(#[trigger] list[i]) == b.numerals.contains_key(list[i])
        &&& a.numerals.contains_key(list[i]) ==> a.numerals[list[i]] == b.numerals[list[i]]
    } by {
        lemma_content_is_within(pre_order(a.root, 0), e, i);
        let m = choose|m: int| 0 <= m < a.words().len() && a.words()[m] == list[i];
        assert(a.words()[m] == list[i]);
    }
    if number_list(a.numerals, list) is Some {
        assert(number_list(a.numerals, list)->0 =~= number_list(b.numerals, list)->0);
    }
}

proof fn lemma_input_alike(a: DocumentView, b: DocumentView, parent: ElementView, input: ElementView)
    requires
        read_alike(a, b),
        holds(a, parent),
    ensures
        a.numbers_for_input(parent, input) == b.numbers_for_input(parent, input),
{
    match a.input_source(parent, input) {
        Ok(Some(source)) => {
            lemma_source_is_child(parent, a.root.ns, input, parent.children.len());
            lemma_meets_children(a.root, 0, parent, source);
            match a.array_element(source) {
                Some(array) => {
                    lemma_named_are_children(source, "float_array"@, a.root.ns);
                    lemma_named_are_children(source, "Name_array"@, a.root.ns);
                    lemma_meets_children(a.root, 0, source, array);
                    if content_words(array) is Some {
                        lemma_content_alike(a, b, array);
                    }
                },
                None => {},
            }
        },
        _ => {},
    }
}

proof fn lemma_behind_alike(
    a: DocumentView,
    b: DocumentView,
    parent: ElementView,
    holder: ElementView,
    semantic: Seq<char>,
)
    requires
        read_alike(a, b),
        holds(a, parent),
    ensures
        a.numbers_behind(parent, holder, semantic) == b.numbers_behind(parent, holder, semantic),
        a.numbers_or_none(parent, holder, semantic) == b.numbers_or_none(parent, holder, semantic),
{
    match a.input(holder, semantic) {
        Some(input) => {
            lemma_input_alike(a, b, parent, input);
        },
        None => {},
    }
}

proof fn lemma_animations_alike(a: DocumentView, b: DocumentView, list: Seq<ElementView>)
    requires
        read_alike(a, b),
        forall|i: int| 0 <= i < list.len() ==> holds(a, #[trigger] list[i]),
    ensures
        a.animations_among(list) == b.animations_among(list),
    decreases list.len(),
{
    if list.len() > 0 {
        lemma_animations_alike(a, b, list.drop_last());
        let e = list[list.len() - 1];
        match e.element("sampler"@, a.root.ns) {
            Some(sampler) => {
                lemma_behind_alike(a, b, e, sampler, "INPUT"@);
                lemma_behind_alike(a, b, e, sampler, "OUTPUT"@);
            },
            None => {},
        }
        assert(a.animation(e) == b.animation(e));
    }
}

proof fn lemma_bind_data_alike(a: DocumentView, b: DocumentView, list: Seq<ElementView>)
    requires
        read_alike(a, b),
        forall|i: int| 0 <= i < list.len() ==> holds(a, #[trigger] list[i]),
    ensures
        a.bind_data_among(list) == b.bind_data_among(list),
    decreases list.len(),
{
    if list.len() > 0 {
        lemma_bind_data_alike(a, b, list.drop_last());
        let e = list[list.len() - 1];
        let ns = a.root.ns;
        match e.element("skin"@, ns) {
            Some(skin) => {
                lemma_named_are_children(e, "skin"@, ns);
                lemma_meets_children(a.root, 0, e, skin);
                match (skin.element("vertex_weights"@, ns), skin.element("joints"@, ns)) {
                    (Some(weights), Some(joints)) => {
                        lemma_behind_alike(a, b, skin, weights, "WEIGHT"@);
                        lemma_behind_alike(a, b, skin, joints, "INV_BIND_MATRIX"@);
                        assert(a.words_behind(skin, joints, "JOINT"@) == b.words_behind(
                            skin,
                            joints,
                            "JOINT"@,
                        ));
                    },
                    _ => {},
                }
            },
            None => {},
        }
        assert(a.bind_data(e) == b.bind_data(e));
    }
}

/// The children of an element of a document are part of it.
proof fn lemma_children_held(doc: DocumentView, e: ElementView, name: Seq<char>)
    requires
        holds(doc, e),
    ensures
        forall|i: int|
            0 <= i < e.elements(name, doc.root.ns).len() ==> holds(
                doc,
                #[trigger] e.elements(name, doc.root.ns)[i],
            ),
        e.element(name, doc.root.ns) is Some ==> holds(doc, e.element(name, doc.root.ns)->0),
{
    lemma_named_are_children(e, name, doc.root.ns);
    assert forall|i: int| 0 <= i < e.elements(name, doc.root.ns).len() implies holds(
        doc,
        #[trigger] e.elements(name, doc.root.ns)[i],
    ) by {
        lemma_meets_children(doc.root, 0, e, e.elements(name, doc.root.ns)[i]);
    }
}

proof fn lemma_root_held(doc: DocumentView)
    ensures
        holds(doc, doc.root),
{
    assert(pre_order(doc.root, 0)[0].0 == doc.root);
}

proof fn lemma_bind_data_set_alike(a: DocumentView, b: DocumentView)
    requires
        read_alike(a, b),
    ensures
        a.bind_data_set() == b.bind_data_set(),
{
    lemma_root_held(a);
    lemma_children_held(a, a.root, "library_controllers"@);
    match a.root.element("library_controllers"@, a.root.ns) {
        Some(library) => {
            lemma_children_held(a, library, "controller"@);
            lemma_bind_data_alike(a, b, library.elements("controller"@, a.root.ns));
        },
        None => {},
    }
}

proof fn lemma_joints_are_met(all: Seq<(ElementView, nat)>, i: int)
    requires
        0 <= i < joints_among(all).len(),
    ensures
        meets(all, joints_among(all)[i].0),
    decreases all.len(),
{
    let before = joints_among(all.drop_last());
    if i < before.len() {
        lemma_joints_are_met(all.drop_last(), i);
        let shorter = all.drop_last();
        let k = choose|k: int| 0 <= k < shorter.len() && (#[trigger] shorter[k]).0 == before[i].0;
        assert(all[k].0 == before[i].0);
    } else {
        assert(all[all.len() - 1].0 == joints_among(all)[i].0);
    }
}

proof fn lemma_skeleton_alike(
    a: DocumentView,
    b: DocumentView,
    joints: Seq<(ElementView, nat)>,
    data: BindDataView,
)
    requires
        read_alike(a, b),
        forall|i: int| 0 <= i < joints.len() ==> holds(a, (#[trigger] joints[i]).0),
    ensures
        a.skeleton_of(joints, data) == b.skeleton_of(joints, data),
    decreases joints.len(),
{
    if joints.len() > 0 {
        lemma_skeleton_alike(a, b, joints.drop_last(), data);
        let e = joints[joints.len() - 1].0;
        lemma_children_held(a, e, "matrix"@);
        match e.element("matrix"@, a.root.ns) {
            Some(matrix) => {
                if content_words(matrix) is Some {
                    lemma_content_alike(a, b, matrix);
                }
            },
            None => {},
        }
    }
}

proof fn lemma_nodes_are_met(all: Seq<(ElementView, nat)>, id: Seq<char>, i: int)
    requires
        0 <= i < nodes_with_id(all, id).len(),
    ensures
        meets(all, nodes_with_id(all, id)[i]),
    decreases all.len(),
{
    let shorter = all.drop_last();
    let before = nodes_with_id(shorter, id);
    if i < before.len() {
        lemma_nodes_are_met(shorter, id, i);
        let k = choose|k: int| 0 <= k < shorter.len() && (#[trigger] shorter[k]).0 == before[i];
        assert(all[k].0 == before[i]);
    } else {
        assert(all[all.len() - 1].0 == nodes_with_id(all, id)[i]);
    }
}

proof fn lemma_skeletons_among_alike(
    a: DocumentView,
    b: DocumentView,
    roots: Seq<ElementView>,
    data: Seq<BindDataView>,
)
    requires
        read_alike(a, b),
        forall|i: int| 0 <= i < roots.len() ==> holds(a, #[trigger] roots[i]),
    ensures
        a.skeletons_among(roots, data) == b.skeletons_among(roots, data),
    decreases roots.len(),
{
    if roots.len() > 0 {
        lemma_skeletons_among_alike(a, b, roots.drop_last(), data);
        let e = roots[roots.len() - 1];
        let all = pre_order(e, 0);
        let joints = joints_among(all);
        assert forall|i: int| 0 <= i < joints.len() implies holds(a, (#[trigger] joints[i]).0) by {
            lemma_joints_are_met(all, i);
            lemma_meets_below(a.root, e, 0, joints[i].0);
        }
        lemma_skeleton_alike(a, b, joints, data[0]);
    }
}

/// The nodes of a visual scene that have some id give the same skeletons.
pub(crate) proof fn lemma_named_skeletons_alike(
    a: DocumentView,
    b: DocumentView,
    library: ElementView,
    scene: ElementView,
    id: Seq<char>,
    data: Seq<BindDataView>,
)
    requires
        read_alike(a, b),
        a.root.element("library_visual_scenes"@, a.root.ns) == Some(library),
        library.element("visual_scene"@, a.root.ns) == Some(scene),
    ensures
        a.skeletons_among(nodes_with_id(pre_order(scene, 0), id), data) == b.skeletons_among(
            nodes_with_id(pre_order(scene, 0), id),
            data,
        ),
{
    let all = pre_order(scene, 0);
    let roots = nodes_with_id(all, id);
    lemma_root_held(a);
    lemma_children_held(a, a.root, "library_visual_scenes"@);
    lemma_children_held(a, library, "visual_scene"@);
    assert forall|i: int| 0 <= i < roots.len() implies holds(a, #[trigger] roots[i]) by {
        lemma_nodes_are_met(all, id, i);
        lemma_meets_below(a.root, scene, 0, roots[i]);
    }
    lemma_skeletons_among_alike(a, b, roots, data);
}

proof fn lemma_skeletons_alike(a: DocumentView, b: DocumentView)
    requires
        read_alike(a, b),
    ensures
        a.skeletons() == b.skeletons(),
{
    lemma_bind_data_set_alike(a, b);
    match a.root.element("library_visual_scenes"@, a.root.ns) {
        Some(library) => {
            match (library.element("visual_scene"@, a.root.ns), a.bind_data_set()) {
                (Some(scene), Ok(Some(data))) => {
                    match skeleton_ids(pre_order(scene, 0)) {
                        Ok(ids) => {
                            if ids.len() > 0 {
                                lemma_named_skeletons_alike(a, b, library, scene, ids[0], data);
                            }
                        },
                        Err(_) => {},
                    }
                },
                _ => {},
            }
        },
        None => {},
    }
}

proof fn lemma_objects_among_alike(
    a: DocumentView,
    b: DocumentView,
    mesh: ElementView,
    list: Seq<ElementView>,
    id: Seq<char>,
)
    requires
        read_alike(a, b),
        holds(a, mesh),
    ensures
        a.objects_among(mesh, list, id) == b.objects_among(mesh, list, id),
    decreases list.len(),
{
    if list.len() > 0 {
        lemma_objects_among_alike(a, b, mesh, list.drop_last(), id);
        let e = list.last();
        lemma_bind_data_set_alike(a, b);
        lemma_skeletons_alike(a, b);
        lemma_behind_alike(a, b, mesh, e, "VERTEX"@);
        lemma_behind_alike(a, b, mesh, e, "NORMAL"@);
        lemma_behind_alike(a, b, mesh, e, "TEXCOORD"@);
        assert(a.shapes(e, "triangles"@) == b.shapes(e, "triangles"@));
        assert(a.triangles_object(mesh, e, id) == b.triangles_object(mesh, e, id));
    }
}

proof fn lemma_all_objects_alike(a: DocumentView, b: DocumentView, list: Seq<ElementView>)
    requires
        read_alike(a, b),
        forall|i: int| 0 <= i < list.len() ==> holds(a, #[trigger] list[i]),
    ensures
        a.all_objects(list) == b.all_objects(list),
    decreases list.len(),
{
    if list.len() > 0 {
        lemma_all_objects_alike(a, b, list.drop_last());
        let e = list[list.len() - 1];
        lemma_children_held(a, e, "mesh"@);
        match (e.attribute("id"@), e.element("mesh"@, a.root.ns)) {
            (Some(id), Some(mesh)) => {
                lemma_objects_among_alike(a, b, mesh, mesh.elements("triangles"@, a.root.ns), id);
            },
            _ => {},
        }
    }
}

/// What is read from a document depends on the readings of its own words alone:
/// two documents of the same tree that read those alike give the same
/// animations, bind data, skeletons and meshes.
pub proof fn law_only_words_are_read(a: DocumentView, b: DocumentView)
    requires
        read_alike(a, b),
    ensures
        a.animations() == b.animations(),
        a.bind_data_set() == b.bind_data_set(),
        a.skeletons() == b.skeletons(),
        a.obj_set() == b.obj_set(),
{
    lemma_bind_data_set_alike(a, b);
    lemma_skeletons_alike(a, b);
    lemma_root_held(a);
    lemma_children_held(a, a.root, "library_animations"@);
    match a.root.element("library_animations"@, a.root.ns) {
        Some(library) => {
            lemma_children_held(a, library, "animation"@);
            lemma_animations_alike(a, b, library.elements("animation"@, a.root.ns));
        },
        None => {},
    }
    lemma_children_held(a, a.root, "library_geometries"@);
    match a.root.element("library_geometries"@, a.root.ns) {
        Some(library) => {
            lemma_children_held(a, library, "geometry"@);
            lemma_all_objects_alike(a, b, library.elements("geometry"@, a.root.ns));
        },
        None => {},
    }
}

} // verus!
