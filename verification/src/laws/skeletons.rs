//! Which texts the skeletons of a document depend on.

use vstd::prelude::*;

use crate::document::{first_referenced, first_with_semantic, is_referenced, source_step};
use crate::document::{source_within, unsigned_in, DocumentView, Malformed, Outcome, SourceStep};
use crate::element::{elements_named, ElementView, NodeView};
use crate::laws::numerals::{law_only_words_are_read, lemma_named_skeletons_alike, read_alike};
use crate::skeleton::{depths, joints_among, nodes_with_id, skeleton_ids};
use crate::skin::{BindDataView, SkeletonView};
use crate::text::without_hashes;
use crate::traversal::{content_words, pre_order, pre_order_nodes};

verus! {

/// An element without the texts of the `skeleton` elements in it, itself among
/// them.
pub open spec fn textless(e: ElementView) -> ElementView
    decreases e,
{
    ElementView {
        name: e.name,
        ns: e.ns,
        attributes: e.attributes,
        children: textless_nodes(e.children, e.name == "skeleton"@),
    }
}

/// Nodes without the texts of the `skeleton` elements in them, and without their
/// own texts where they are the children of one.
pub open spec fn textless_nodes(nodes: Seq<NodeView>, of_skeleton: bool) -> Seq<NodeView>
    decreases nodes,
{
    if nodes.len() == 0 {
        Seq::empty()
    } else {
        let before = textless_nodes(nodes.drop_last(), of_skeleton);
        match nodes.last() {
            NodeView::Element(e) => before.push(NodeView::Element(textless(e))),
            NodeView::Characters(text) => if of_skeleton {
                before
            } else {
                before.push(nodes.last())
            },
            _ => before.push(nodes.last()),
        }
    }
}

/// The id that the first `skeleton` element of a walk names that names one.
pub open spec fn first_named(all: Seq<(ElementView, nat)>) -> Option<Seq<char>>
    decreases all.len(),
{
    if all.len() == 0 {
        None
    } else {
        match named_by(all[0].0) {
            Some(id) => Some(id),
            None => first_named(all.drop_first()),
        }
    }
}

/// The id that an element names, if it is a `skeleton` element whose content
/// begins with text.
pub open spec fn named_by(e: ElementView) -> Option<Seq<char>> {
    if e.name == "skeleton"@ && e.children.len() > 0 {
        match e.children[0] {
            NodeView::Characters(text) => Some(without_hashes(text)),
            _ => None,
        }
    } else {
        None
    }
}

impl DocumentView {
    /// The first visual scene of the document.
    pub open spec fn first_scene(self) -> Option<ElementView> {
        match self.root.element("library_visual_scenes"@, self.root.ns) {
            Some(library) => library.element("visual_scene"@, self.root.ns),
            None => None,
        }
    }

    /// The id that the first visual scene names first.
    pub open spec fn skeleton_id(self) -> Option<Seq<char>> {
        match self.first_scene() {
            Some(scene) => first_named(pre_order(scene, 0)),
            None => None,
        }
    }
}

/// Each of a list of elements without the texts.
spec fn textless_list(list: Seq<ElementView>) -> Seq<ElementView> {
    Seq::new(list.len(), |i: int| textless(list[i]))
}

/// An element without the texts, if there is one.
spec fn textless_option(e: Option<ElementView>) -> Option<ElementView> {
    match e {
        Some(e) => Some(textless(e)),
        None => None,
    }
}

/// The elements of a walk without the texts.
spec fn textless_walk(all: Seq<(ElementView, nat)>) -> Seq<(ElementView, nat)> {
    Seq::new(all.len(), |i: int| (textless(all[i].0), all[i].1))
}

/// The element that an input leads to without the texts.
spec fn textless_outcome(r: Outcome<ElementView>) -> Outcome<ElementView> {
    match r {
        Ok(e) => Ok(textless_option(e)),
        Err(e) => Err(e),
    }
}

/// Elements have the name that they are looked up by.
proof fn lemma_names(nodes: Seq<NodeView>, name: Seq<char>, ns: Option<Seq<char>>)
    ensures
        forall|i: int|
            0 <= i < elements_named(nodes, name, ns).len() ==> (#[trigger] elements_named(
                nodes,
                name,
                ns,
            )[i]).name == name,
    decreases nodes.len(),
{
    if nodes.len() > 0 {
        lemma_names(nodes.drop_last(), name, ns);
        let before = elements_named(nodes.drop_last(), name, ns);
        let all = elements_named(nodes, name, ns);
        assert forall|i: int| 0 <= i < all.len() implies (#[trigger] all[i]).name == name by {
            if i < before.len() {
                assert(all[i] == before[i]);
            }
        }
    }
}

/// The same elements are found, without the texts.
proof fn lemma_elements_textless(nodes: Seq<NodeView>, of_skeleton: bool, name: Seq<char>, ns: Option<Seq<char>>)
    ensures
        elements_named(textless_nodes(nodes, of_skeleton), name, ns) == textless_list(
            elements_named(nodes, name, ns),
        ),
    decreases nodes.len(),
{
    let left = textless_nodes(nodes, of_skeleton);
    let found = textless_list(elements_named(nodes, name, ns));
    if nodes.len() == 0 {
        assert(elements_named(left, name, ns) =~= found);
    } else {
        let before = textless_nodes(nodes.drop_last(), of_skeleton);
        lemma_elements_textless(nodes.drop_last(), of_skeleton, name, ns);
        if left.len() > before.len() {
            assert(left.drop_last() =~= before);
        }
        match nodes.last() {
            NodeView::Element(e) => {
                let found_before = elements_named(nodes.drop_last(), name, ns);
                assert(left.last() == NodeView::Element(textless(e)));
                assert(textless_list(found_before.push(e)) =~= textless_list(found_before).push(
                    textless(e),
                ));
            },
            _ => {},
        }
    }
}

proof fn lemma_element_textless(e: ElementView, name: Seq<char>, ns: Option<Seq<char>>)
    ensures
        textless(e).elements(name, ns) == textless_list(e.elements(name, ns)),
        textless(e).element(name, ns) == textless_option(e.element(name, ns)),
        e.element(name, ns) is Some ==> e.element(name, ns)->0.name == name,
        forall|i: int|
            0 <= i < e.elements(name, ns).len() ==> (#[trigger] e.elements(name, ns)[i]).name == name,
{
    lemma_elements_textless(e.children, e.name == "skeleton"@, name, ns);
    lemma_names(e.children, name, ns);
}

/// Outside `skeleton` elements each node keeps its place.
proof fn lemma_nodes_textless(nodes: Seq<NodeView>)
    ensures
        textless_nodes(nodes, false).len() == nodes.len(),
        forall|i: int|
            0 <= i < nodes.len() ==> #[trigger] textless_nodes(nodes, false)[i] == (match nodes[i] {
                NodeView::Element(e) => NodeView::Element(textless(e)),
                other => other,
            }),
    decreases nodes.len(),
{
    if nodes.len() > 0 {
        lemma_nodes_textless(nodes.drop_last());
        let before = textless_nodes(nodes.drop_last(), false);
        let all = textless_nodes(nodes, false);
        assert forall|i: int| 0 <= i < nodes.len() implies #[trigger] all[i] == (match nodes[i] {
            NodeView::Element(e) => NodeView::Element(textless(e)),
            other => other,
        }) by {
            if i < before.len() {
                assert(all[i] == before[i]);
            }
        }
    }
}

/// The content of an element that is no `skeleton` stays as it is.
proof fn lemma_content_textless(e: ElementView)
    requires
        e.name != "skeleton"@,
    ensures
        textless(e).children.len() == e.children.len(),
        content_words(textless(e)) == content_words(e),
        unsigned_in(textless(e)) == unsigned_in(e),
{
    lemma_nodes_textless(e.children);
    if e.children.len() > 0 {
        assert(textless(e).children[0] == textless_nodes(e.children, false)[0]);
    }
}

proof fn lemma_semantic_textless(list: Seq<ElementView>, semantic: Seq<char>)
    ensures
        first_with_semantic(textless_list(list), semantic) == textless_option(
            first_with_semantic(list, semantic),
        ),
    decreases list.len(),
{
    if list.len() > 0 {
        assert(textless_list(list).drop_first() =~= textless_list(list.drop_first()));
        lemma_semantic_textless(list.drop_first(), semantic);
    }
}

/// The same element is referred to.
proof fn lemma_referenced_textless(nodes: Seq<NodeView>, reference: Seq<char>)
    ensures
        first_referenced(textless_nodes(nodes, false), reference) == textless_option(
            first_referenced(nodes, reference),
        ),
    decreases nodes.len(),
{
    lemma_nodes_textless(nodes);
    if nodes.len() > 0 {
        let left = textless_nodes(nodes, false);
        let rest = textless_nodes(nodes.drop_first(), false);
        lemma_nodes_textless(nodes.drop_first());
        assert(left[0] == textless_nodes(nodes, false)[0]);
        assert(is_referenced(left[0], reference) == is_referenced(nodes[0], reference));
        assert(left.drop_first() =~= rest) by {
            assert forall|i: int| 0 <= i < rest.len() implies left.drop_first()[i] == rest[i] by {
                assert(left[i + 1] == textless_nodes(nodes, false)[i + 1]);
                assert(nodes.drop_first()[i] == nodes[i + 1]);
            }
        }
        lemma_referenced_textless(nodes.drop_first(), reference);
    }
}

/// The same source is found.
proof fn lemma_source_textless(parent: ElementView, ns: Option<Seq<char>>, input: ElementView, limit: nat)
    requires
        parent.name != "skeleton"@,
    ensures
        source_within(textless(parent), ns, textless(input), limit) == textless_outcome(
            source_within(parent, ns, input, limit),
        ),
    decreases limit,
{
    match input.attribute("source"@) {
        Some(reference) => {
            lemma_referenced_textless(parent.children, reference);
            match first_referenced(parent.children, reference) {
                Some(e) => {
                    lemma_element_textless(e, "input"@, ns);
                },
                None => {},
            }
        },
        None => {},
    }
    match source_step(parent, ns, input) {
        SourceStep::Input(next) => {
            if limit > 0 {
                lemma_source_textless(parent, ns, next, (limit - 1) as nat);
            }
        },
        _ => {},
    }
}

/// A document without the texts of its `skeleton` elements.
pub open spec fn textless_document(doc: DocumentView) -> DocumentView {
    DocumentView { root: textless(doc.root), numerals: doc.numerals }
}

/// The same words and numbers are behind an input.
proof fn lemma_input_textless(doc: DocumentView, parent: ElementView, input: ElementView)
    requires
        parent.name != "skeleton"@,
    ensures
        textless_document(doc).array_for_input(textless(parent), textless(input))
            == doc.array_for_input(parent, input),
        textless_document(doc).numbers_for_input(textless(parent), textless(input))
            == doc.numbers_for_input(parent, input),
{
    let ns = doc.root.ns;
    lemma_content_textless(parent);
    lemma_source_textless(parent, ns, input, parent.children.len());
    match doc.input_source(parent, input) {
        Ok(Some(source)) => {
            lemma_element_textless(source, "float_array"@, ns);
            lemma_element_textless(source, "Name_array"@, ns);
            match doc.array_element(source) {
                Some(array) => {
                    reveal_strlit("skeleton");
                    reveal_strlit("float_array");
                    reveal_strlit("Name_array");
                    assert("skeleton"@.len() == 8);
                    lemma_content_textless(array);
                },
                None => {},
            }
        },
        _ => {},
    }
}

proof fn lemma_behind_textless(
    doc: DocumentView,
    parent: ElementView,
    holder: ElementView,
    semantic: Seq<char>,
)
    requires
        parent.name != "skeleton"@,
    ensures
        textless_document(doc).input(textless(holder), semantic) == textless_option(
            doc.input(holder, semantic),
        ),
        textless_document(doc).input_offset(textless(holder), semantic) == doc.input_offset(
            holder,
            semantic,
        ),
        textless_document(doc).words_behind(textless(parent), textless(holder), semantic)
            == doc.words_behind(parent, holder, semantic),
        textless_document(doc).numbers_behind(textless(parent), textless(holder), semantic)
            == doc.numbers_behind(parent, holder, semantic),
{
    lemma_element_textless(holder, "input"@, doc.root.ns);
    lemma_semantic_textless(holder.elements("input"@, doc.root.ns), semantic);
    match doc.input(holder, semantic) {
        Some(input) => {
            lemma_input_textless(doc, parent, input);
        },
        None => {},
    }
}

proof fn lemma_vertex_weights_textless(doc: DocumentView, parent: ElementView, e: ElementView)
    requires
        parent.name != "skeleton"@,
    ensures
        textless_document(doc).vertex_weights(textless(e)) == doc.vertex_weights(e),
{
    let ns = doc.root.ns;
    lemma_behind_textless(doc, parent, e, "JOINT"@);
    lemma_behind_textless(doc, parent, e, "WEIGHT"@);
    lemma_element_textless(e, "vcount"@, ns);
    lemma_element_textless(e, "v"@, ns);
    lemma_element_textless(e, "input"@, ns);
    reveal_strlit("skeleton");
    reveal_strlit("vcount");
    reveal_strlit("v");
    if let Some(vcount) = e.element("vcount"@, ns) {
        assert(vcount.name.len() == 6);
        lemma_content_textless(vcount);
    }
    if let Some(v) = e.element("v"@, ns) {
        assert(v.name.len() == 1);
        lemma_content_textless(v);
    }
}

proof fn lemma_controller_textless(doc: DocumentView, controller: ElementView)
    ensures
        textless_document(doc).bind_data(textless(controller)) == doc.bind_data(controller),
{
    let ns = doc.root.ns;
    lemma_element_textless(controller, "skin"@, ns);
    reveal_strlit("skeleton");
    reveal_strlit("skin");
    match controller.element("skin"@, ns) {
        Some(skin) => {
            assert(skin.name.len() == 4);
            lemma_element_textless(skin, "vertex_weights"@, ns);
            lemma_element_textless(skin, "joints"@, ns);
            match skin.element("vertex_weights"@, ns) {
                Some(weights) => {
                    lemma_vertex_weights_textless(doc, skin, weights);
                    lemma_behind_textless(doc, skin, weights, "WEIGHT"@);
                },
                None => {},
            }
            match skin.element("joints"@, ns) {
                Some(joints) => {
                    lemma_behind_textless(doc, skin, joints, "JOINT"@);
                    lemma_behind_textless(doc, skin, joints, "INV_BIND_MATRIX"@);
                },
                None => {},
            }
        },
        None => {},
    }
}

proof fn lemma_controllers_textless(doc: DocumentView, list: Seq<ElementView>)
    ensures
        textless_document(doc).bind_data_among(textless_list(list)) == doc.bind_data_among(list),
    decreases list.len(),
{
    if list.len() > 0 {
        assert(textless_list(list).drop_last() =~= textless_list(list.drop_last()));
        lemma_controllers_textless(doc, list.drop_last());
        lemma_controller_textless(doc, list.last());
    }
}

/// The bind data does not depend on the texts of `skeleton` elements.
proof fn lemma_bind_data_textless(doc: DocumentView)
    ensures
        textless_document(doc).bind_data_set() == doc.bind_data_set(),
{
    let ns = doc.root.ns;
    lemma_element_textless(doc.root, "library_controllers"@, ns);
    match doc.root.element("library_controllers"@, ns) {
        Some(library) => {
            lemma_element_textless(library, "controller"@, ns);
            lemma_controllers_textless(doc, library.elements("controller"@, ns));
        },
        None => {},
    }
}

/// A walk comes to the same elements, without the texts.
proof fn lemma_walk_textless(e: ElementView, depth: nat)
    ensures
        pre_order(textless(e), depth) == textless_walk(pre_order(e, depth)),
    decreases e,
{
    lemma_walk_nodes_textless(e.children, e.name == "skeleton"@, depth + 1);
    assert(pre_order(textless(e), depth) =~= textless_walk(pre_order(e, depth)));
}

proof fn lemma_walk_nodes_textless(nodes: Seq<NodeView>, of_skeleton: bool, depth: nat)
    ensures
        pre_order_nodes(textless_nodes(nodes, of_skeleton), depth) == textless_walk(
            pre_order_nodes(nodes, depth),
        ),
    decreases nodes,
{
    let left = textless_nodes(nodes, of_skeleton);
    if nodes.len() == 0 {
        assert(pre_order_nodes(left, depth) =~= textless_walk(pre_order_nodes(nodes, depth)));
    } else {
        let before = textless_nodes(nodes.drop_last(), of_skeleton);
        lemma_walk_nodes_textless(nodes.drop_last(), of_skeleton, depth);
        match nodes.last() {
            NodeView::Element(e) => {
                lemma_walk_textless(e, depth);
            },
            _ => {},
        }
        if left.len() > before.len() {
            assert(left.drop_last() =~= before);
        }
        assert(pre_order_nodes(left, depth) =~= textless_walk(pre_order_nodes(nodes, depth)));
    }
}

proof fn lemma_joints_textless(all: Seq<(ElementView, nat)>)
    ensures
        joints_among(textless_walk(all)) == textless_walk(joints_among(all)),
    decreases all.len(),
{
    if all.len() > 0 {
        assert(textless_walk(all).drop_last() =~= textless_walk(all.drop_last()));
        lemma_joints_textless(all.drop_last());
    }
    assert(joints_among(textless_walk(all)) =~= textless_walk(joints_among(all)));
}

proof fn lemma_ids_textless(all: Seq<(ElementView, nat)>, id: Seq<char>)
    ensures
        nodes_with_id(textless_walk(all), id) == textless_list(nodes_with_id(all, id)),
    decreases all.len(),
{
    if all.len() > 0 {
        assert(textless_walk(all).drop_last() =~= textless_walk(all.drop_last()));
        lemma_ids_textless(all.drop_last(), id);
    }
    assert(nodes_with_id(textless_walk(all), id) =~= textless_list(nodes_with_id(all, id)));
}

proof fn lemma_joint_list_textless(doc: DocumentView, joints: Seq<(ElementView, nat)>, data: BindDataView)
    ensures
        textless_document(doc).skeleton_of(textless_walk(joints), data) == doc.skeleton_of(joints, data),
    decreases joints.len(),
{
    if joints.len() > 0 {
        let e = joints.last().0;
        assert(textless_walk(joints).drop_last() =~= textless_walk(joints.drop_last()));
        assert(depths(textless_walk(joints)) =~= depths(joints));
        lemma_joint_list_textless(doc, joints.drop_last(), data);
        lemma_element_textless(e, "matrix"@, doc.root.ns);
        match e.element("matrix"@, doc.root.ns) {
            Some(matrix) => {
                reveal_strlit("skeleton");
                reveal_strlit("matrix");
                assert(matrix.name.len() == 6);
                lemma_content_textless(matrix);
            },
            None => {},
        }
    }
}

proof fn lemma_roots_textless(doc: DocumentView, roots: Seq<ElementView>, data: Seq<BindDataView>)
    ensures
        textless_document(doc).skeletons_among(textless_list(roots), data) == doc.skeletons_among(
            roots,
            data,
        ),
    decreases roots.len(),
{
    if roots.len() > 0 {
        let e = roots.last();
        assert(textless_list(roots).drop_last() =~= textless_list(roots.drop_last()));
        lemma_roots_textless(doc, roots.drop_last(), data);
        lemma_walk_textless(e, 0);
        lemma_joints_textless(pre_order(e, 0));
        if data.len() > 0 {
            lemma_joint_list_textless(doc, joints_among(pre_order(e, 0)), data[0]);
        }
    }
}

/// What one element more names counts only where none before it names anything.
proof fn lemma_first_named_goes_on(all: Seq<(ElementView, nat)>)
    requires
        all.len() > 0,
    ensures
        first_named(all) == (match first_named(all.drop_last()) {
            Some(id) => Some(id),
            None => named_by(all.last().0),
        }),
    decreases all.len(),
{
    if all.len() == 1 {
        assert(all.drop_first() =~= Seq::empty());
        assert(all.drop_last() =~= Seq::empty());
        reveal_with_fuel(first_named, 2);
    } else {
        lemma_first_named_goes_on(all.drop_first());
        assert(all.drop_first().drop_last() =~= all.drop_last().drop_first());
    }
}

/// Of the ids that a walk names, the first is the one that is named first.
pub(crate) proof fn lemma_first_of_ids(all: Seq<(ElementView, nat)>)
    requires
        skeleton_ids(all) is Ok,
    ensures
        first_named(all) == (if skeleton_ids(all)->Ok_0.len() == 0 {
            None
        } else {
            Some(skeleton_ids(all)->Ok_0[0])
        }),
    decreases all.len(),
{
    if all.len() > 0 {
        lemma_first_of_ids(all.drop_last());
        lemma_first_named_goes_on(all);
    }
}

/// The skeletons once it is known which id is named first.
spec fn skeletons_named(
    doc: DocumentView,
    scene: ElementView,
    data: Seq<BindDataView>,
    id: Option<Seq<char>>,
) -> Outcome<Seq<SkeletonView>> {
    match id {
        Some(id) => match doc.skeletons_among(nodes_with_id(pre_order(scene, 0), id), data) {
            Ok(list) => Ok(Some(list)),
            Err(e) => Err(e),
        },
        None => Ok(None),
    }
}

/// Where there are skeletons, they are those of the document without the texts,
/// for the id that is named first.
proof fn lemma_skeletons_textless(doc: DocumentView)
    requires
        doc.skeletons() is Ok,
    ensures
        textless_document(doc).first_scene() == textless_option(doc.first_scene()),
        doc.skeletons() == (match (
            textless_document(doc).first_scene(),
            textless_document(doc).bind_data_set(),
        ) {
            (Some(scene), Ok(Some(data))) => skeletons_named(
                textless_document(doc),
                scene,
                data,
                doc.skeleton_id(),
            ),
            _ => Ok::<Option<Seq<SkeletonView>>, Malformed>(None),
        }),
{
    let ns = doc.root.ns;
    lemma_bind_data_textless(doc);
    lemma_element_textless(doc.root, "library_visual_scenes"@, ns);
    match doc.root.element("library_visual_scenes"@, ns) {
        Some(library) => {
            lemma_element_textless(library, "visual_scene"@, ns);
            match (library.element("visual_scene"@, ns), doc.bind_data_set()) {
                (Some(scene), Ok(Some(data))) => {
                    let all = pre_order(scene, 0);
                    lemma_first_of_ids(all);
                    match first_named(all) {
                        Some(id) => {
                            lemma_walk_textless(scene, 0);
                            lemma_ids_textless(all, id);
                            lemma_roots_textless(doc, nodes_with_id(all, id), data);
                        },
                        None => {},
                    }
                },
                _ => {},
            }
        },
        None => {},
    }
}

/// Of the texts of `skeleton` elements, the skeletons depend on the first one
/// alone: two documents that differ in nothing but such texts, that read all
/// their other words alike, and whose first visual scenes name the same id first
/// have the same skeletons, unless one of them is malformed. So the texts of the
/// `skeleton` elements after the first that names an id may be changed, added or
/// taken away.
pub proof fn law_later_skeleton_texts_change_nothing(a: DocumentView, b: DocumentView)
    requires
        read_alike(textless_document(a), textless_document(b)),
        a.skeleton_id() == b.skeleton_id(),
        a.skeletons() is Ok,
        b.skeletons() is Ok,
    ensures
        a.skeletons() == b.skeletons(),
{
    let x = textless_document(a);
    let y = textless_document(b);
    lemma_skeletons_textless(a);
    lemma_skeletons_textless(b);
    law_only_words_are_read(x, y);
    match (x.first_scene(), x.bind_data_set(), a.skeleton_id()) {
        (Some(scene), Ok(Some(data)), Some(id)) => {
            let library = x.root.element("library_visual_scenes"@, x.root.ns)->0;
            lemma_named_skeletons_alike(x, y, library, scene, id, data);
        },
        _ => {},
    }
}

} // verus!
