//! The bind data of a document.

use vstd::prelude::*;

use crate::chunks::{both_in_chunk, chunk_count, lemma_chunk_count, lemma_next_chunk};
use crate::document::{get_unsigned_content, list_outcome, unsigned_in};
use crate::document::{ColladaDocument, DocumentView, Malformed, Outcome};
use crate::element::{element_views, ElementView, XmlElement};
use crate::number::{matrices, to_matrix_array};
use crate::skin::{bind_data_views, BindData, BindDataSet, BindDataView, JointIndex, VertexWeight};
use crate::text::{strip_hashes, without_hashes};

verus! {

/// Each place in `counts`, as many times over as the count there says.
pub open spec fn repeated(counts: Seq<usize>) -> Seq<usize>
    decreases counts.len(),
{
    if counts.len() == 0 {
        Seq::empty()
    } else {
        repeated(counts.drop_last()) + Seq::new(
            counts.last() as nat,
            |i: int| (counts.len() - 1) as usize,
        )
    }
}

/// The joint index that a number is cut down to.
pub open spec fn joint_index(n: int) -> JointIndex {
    (n % 256) as JointIndex
}

/// How many influences are listed: one to each chunk, as long as there are
/// vertices to go with them.
pub open spec fn influence_count(counts: Seq<usize>, indices: Seq<usize>, size: nat) -> nat {
    if repeated(counts).len() < chunk_count(indices.len(), size) {
        repeated(counts).len()
    } else {
        chunk_count(indices.len(), size)
    }
}

/// The influence that chunk `k` of the list describes.
pub open spec fn influence(
    counts: Seq<usize>,
    indices: Seq<usize>,
    size: nat,
    joint_offset: int,
    weight_offset: int,
    k: int,
) -> VertexWeight {
    VertexWeight {
        vertex: repeated(counts)[k],
        joint: joint_index(indices[k * size + joint_offset] as int),
        weight: indices[k * size + weight_offset],
    }
}

/// The influences that a list of indices describes, in chunks of `size`, of
/// which the first `counts[0]` go to the vertex 0, and so on. A chunk without an
/// entry at one of the offsets is malformed.
pub open spec fn influences(
    counts: Seq<usize>,
    indices: Seq<usize>,
    size: nat,
    joint_offset: int,
    weight_offset: int,
) -> Result<Seq<VertexWeight>, Malformed> {
    let count = influence_count(counts, indices, size);
    if forall|k: int|
        0 <= k < count ==> #[trigger] both_in_chunk(
            indices.len(),
            size,
            k,
            joint_offset,
            weight_offset,
        ) {
        Ok(
            Seq::new(
                count,
                |k: int| influence(counts, indices, size, joint_offset, weight_offset, k),
            ),
        )
    } else {
        Err(Malformed {  })
    }
}

/// Whether the first influences of the list are the ones in `out`, and no
/// chunk up to there is malformed.
spec fn are_first_influences(
    out: Seq<VertexWeight>,
    counts: Seq<usize>,
    indices: Seq<usize>,
    size: nat,
    joint_offset: int,
    weight_offset: int,
) -> bool {
    forall|k: int|
        0 <= k < out.len() ==> (#[trigger] out[k]) == influence(
            counts,
            indices,
            size,
            joint_offset,
            weight_offset,
            k,
        ) && both_in_chunk(indices.len(), size, k, joint_offset, weight_offset)
}

/// Once the list is read to its end, what was read is what it holds.
proof fn lemma_all_influences(
    out: Seq<VertexWeight>,
    counts: Seq<usize>,
    indices: Seq<usize>,
    size: nat,
    joint_offset: int,
    weight_offset: int,
)
    requires
        are_first_influences(out, counts, indices, size, joint_offset, weight_offset),
        out.len() == influence_count(counts, indices, size),
    ensures
        influences(counts, indices, size, joint_offset, weight_offset) == Ok::<_, Malformed>(out),
{
    assert forall|k: int| 0 <= k < out.len() implies #[trigger] both_in_chunk(
        indices.len(),
        size,
        k,
        joint_offset,
        weight_offset,
    ) by {
        assert(out[k] == influence(counts, indices, size, joint_offset, weight_offset, k));
    }
    let read = influences(counts, indices, size, joint_offset, weight_offset);
    assert(read->Ok_0 =~= out);
}

proof fn lemma_repeated_prefix(counts: Seq<usize>, v: int)
    requires
        0 <= v <= counts.len(),
    ensures
        repeated(counts.take(v)).is_prefix_of(repeated(counts)),
    decreases counts.len() - v,
{
    if v == counts.len() {
        assert(counts.take(v) =~= counts);
    } else {
        lemma_repeated_prefix(counts, v + 1);
        assert(counts.take(v + 1).drop_last() =~= counts.take(v));
    }
}

/// Reads influences out of a list of indices.
pub fn read_influences(
    counts: &Vec<usize>,
    indices: &Vec<usize>,
    size: usize,
    joint_offset: usize,
    weight_offset: usize,
) -> (r: Result<Vec<VertexWeight>, Malformed>)
    requires
        size > 0,
    ensures
        match r {
            Ok(v) => influences(
                counts@,
                indices@,
                size as nat,
                joint_offset as int,
                weight_offset as int,
            ) == Ok::<_, Malformed>(v@),
            Err(_) => influences(
                counts@,
                indices@,
                size as nat,
                joint_offset as int,
                weight_offset as int,
            ) is Err,
        },
{
    let ghost all = repeated(counts@);
    let ghost count = influence_count(counts@, indices@, size as nat);
    let ghost jo = joint_offset as int;
    let ghost wo = weight_offset as int;
    let len = indices.len();
    let mut out: Vec<VertexWeight> = Vec::new();
    if len == 0 {
        proof {
            lemma_chunk_count(0, size as nat, 0);
            lemma_all_influences(out@, counts@, indices@, size as nat, jo, wo);
        }
        return Ok(out);
    }
    let mut start: usize = 0;
    let mut v: usize = 0;
    assert(counts@.take(0) =~= Seq::empty());
    while v < counts.len()
        invariant
            size > 0,
            jo == joint_offset,
            wo == weight_offset,
            v <= counts@.len(),
            len == indices@.len(),
            start < len,
            start == out@.len() * size,
            out@.len() == repeated(counts@.take(v as int)).len(),
            all == repeated(counts@),
            count == influence_count(counts@, indices@, size as nat),
            are_first_influences(out@, counts@, indices@, size as nat, jo, wo),
        decreases counts.len() - v,
    {
        let n = counts[v];
        let mut c: usize = 0;
        proof {
            assert(counts@.take(v + 1).drop_last() =~= counts@.take(v as int));
            lemma_repeated_prefix(counts@, v + 1);
        }
        let ghost base = repeated(counts@.take(v as int)).len();
        while c < n
            invariant
                size > 0,
                jo == joint_offset,
                wo == weight_offset,
                v < counts@.len(),
                n == counts@[v as int],
                c <= n,
                len == indices@.len(),
                start < len,
                start == out@.len() * size,
                out@.len() == base + c,
                repeated(counts@.take(v + 1)).len() == base + n,
                repeated(counts@.take(v + 1)).is_prefix_of(repeated(counts@)),
                forall|j: int|
                    base <= j < base + n ==> #[trigger] repeated(counts@.take(v + 1))[j] == v,
                count == influence_count(counts@, indices@, size as nat),
                are_first_influences(out@, counts@, indices@, size as nat, jo, wo),
            decreases n - c,
        {
            let ghost at = out@.len() as int;
            proof {
                lemma_chunk_count(len as nat, size as nat, at);
                lemma_chunk_count(len as nat, size as nat, at + 1);
                lemma_next_chunk(size as nat, at);
                assert(at < count);
                assert(repeated(counts@.take(v + 1))[at] == v);
                assert(repeated(counts@)[at] == v);
            }
            if joint_offset >= size || weight_offset >= size || joint_offset >= len - start
                || weight_offset >= len - start {
                assert(!both_in_chunk(len as nat, size as nat, at, jo, wo));
                return Err(Malformed {  });
            }
            assert(both_in_chunk(len as nat, size as nat, at, jo, wo));
            out.push(
                VertexWeight {
                    vertex: v,
                    joint: (indices[start + joint_offset] % 256) as JointIndex,
                    weight: indices[start + weight_offset],
                },
            );
            if size >= len - start {
                assert(count == at + 1);
                proof {
                    lemma_all_influences(out@, counts@, indices@, size as nat, jo, wo);
                }
                return Ok(out);
            }
            start = start + size;
            c = c + 1;
        }
        v = v + 1;
    }
    proof {
        assert(counts@.take(v as int) =~= counts@);
        lemma_chunk_count(len as nat, size as nat, out@.len() as int);
        assert(count == out@.len());
        lemma_all_influences(out@, counts@, indices@, size as nat, jo, wo);
    }
    Ok(out)
}

impl DocumentView {
    /// What a `vertex_weights` element lists: the offsets of its joint and
    /// weight inputs tell where in each chunk of `v` to look, `vcount` how many
    /// chunks go to each vertex.
    pub open spec fn vertex_weights(self, e: ElementView) -> Outcome<Seq<VertexWeight>> {
        match (
            self.input_offset(e, "JOINT"@),
            self.input_offset(e, "WEIGHT"@),
            e.element("vcount"@, self.root.ns),
            e.element("v"@, self.root.ns),
        ) {
            (Some(joint_offset), Some(weight_offset), Some(vcount), Some(v)) => match (
                unsigned_in(vcount),
                unsigned_in(v),
            ) {
                (Some(counts), Some(indices)) => match influences(
                    counts,
                    indices,
                    e.elements("input"@, self.root.ns).len(),
                    joint_offset as int,
                    weight_offset as int,
                ) {
                    Ok(list) => Ok(Some(list)),
                    Err(e) => Err(e),
                },
                _ => Ok(None),
            },
            _ => Ok(None),
        }
    }

    /// What the skin of a controller says, once its vertex weights are known:
    /// the names of its joints, its weights and its inverse bind poses, in this
    /// order. Poses that are no whole number of matrices are malformed.
    pub open spec fn bind_data_with(
        self,
        object_name: Seq<char>,
        skeleton_name: Seq<char>,
        skin: ElementView,
        joints: ElementView,
        weights: ElementView,
        vertex_weights: Seq<VertexWeight>,
    ) -> Outcome<BindDataView> {
        match self.words_behind(skin, joints, "JOINT"@) {
            Ok(Some(joint_names)) => match self.numbers_behind(skin, weights, "WEIGHT"@) {
                Ok(Some(weights)) => match self.numbers_behind(skin, joints, "INV_BIND_MATRIX"@) {
                    Ok(Some(poses)) => if poses.len() % 16 == 0 {
                        Ok(
                            Some(
                                BindDataView {
                                    object_name,
                                    skeleton_name,
                                    joint_names,
                                    inverse_bind_poses: matrices(poses),
                                    weights,
                                    vertex_weights,
                                },
                            ),
                        )
                    } else {
                        Err(Malformed {  })
                    },
                    Ok(None) => Ok(None),
                    Err(e) => Err(e),
                },
                Ok(None) => Ok(None),
                Err(e) => Err(e),
            },
            Ok(None) => Ok(None),
            Err(e) => Err(e),
        }
    }

    /// What a `controller` element describes: its name is that of the skeleton,
    /// the source of its skin that of the mesh.
    pub open spec fn bind_data(self, controller: ElementView) -> Outcome<BindDataView> {
        match (controller.attribute("name"@), controller.element("skin"@, self.root.ns)) {
            (Some(skeleton_name), Some(skin)) => match (
                skin.attribute("source"@),
                skin.element("vertex_weights"@, self.root.ns),
            ) {
                (Some(source), Some(weights)) => match self.vertex_weights(weights) {
                    Ok(Some(vertex_weights)) => match skin.element("joints"@, self.root.ns) {
                        Some(joints) => self.bind_data_with(
                            without_hashes(source),
                            skeleton_name,
                            skin,
                            joints,
                            weights,
                            vertex_weights,
                        ),
                        None => Ok(None),
                    },
                    Ok(None) => Ok(None),
                    Err(e) => Err(e),
                },
                _ => Ok(None),
            },
            _ => Ok(None),
        }
    }

    /// The bind data that the given elements describe, those that describe none
    /// left out.
    pub open spec fn bind_data_among(self, list: Seq<ElementView>) -> Result<Seq<BindDataView>, Malformed>
        decreases list.len(),
    {
        if list.len() == 0 {
            Ok(Seq::empty())
        } else {
            match (self.bind_data_among(list.drop_last()), self.bind_data(list.last())) {
                (Ok(before), Ok(Some(data))) => Ok(before.push(data)),
                (Ok(before), Ok(None)) => Ok(before),
                _ => Err(Malformed {  }),
            }
        }
    }

    /// All the bind data of the document, or nothing where it has no library of
    /// controllers.
    pub open spec fn bind_data_set(self) -> Outcome<Seq<BindDataView>> {
        match self.root.element("library_controllers"@, self.root.ns) {
            Some(library) => match self.bind_data_among(library.elements("controller"@, self.root.ns)) {
                Ok(list) => Ok(Some(list)),
                Err(e) => Err(e),
            },
            None => Ok(None),
        }
    }
}

/// What reading bind data gives.
pub open spec fn bind_data_outcome(r: Outcome<BindData>) -> Outcome<BindDataView> {
    match r {
        Ok(Some(data)) => Ok(Some(data@)),
        Ok(None) => Ok(None),
        Err(e) => Err(e),
    }
}

/// What reading all the bind data gives.
pub open spec fn bind_data_set_outcome(r: Outcome<BindDataSet>) -> Outcome<Seq<BindDataView>> {
    match r {
        Ok(Some(set)) => Ok(Some(set@)),
        Ok(None) => Ok(None),
        Err(e) => Err(e),
    }
}

/// A malformed element makes the list that it stands in malformed.
proof fn lemma_bind_data_malformed(doc: DocumentView, list: Seq<ElementView>, k: int)
    requires
        0 <= k <= list.len(),
        doc.bind_data_among(list.take(k)) is Err,
    ensures
        doc.bind_data_among(list) is Err,
    decreases list.len() - k,
{
    if k == list.len() {
        assert(list.take(k) =~= list);
    } else {
        assert(list.take(k + 1).drop_last() =~= list.take(k));
        lemma_bind_data_malformed(doc, list, k + 1);
    }
}

impl ColladaDocument {
    /// Reads a `vertex_weights` element.
    pub fn get_vertex_weights(&self, vertex_weights_element: &XmlElement) -> (r: Outcome<
        Vec<VertexWeight>,
    >)
        ensures
            list_outcome(r) == self@.vertex_weights(vertex_weights_element@),
    {
        let joint_index_offset = match self.get_input_offset(vertex_weights_element, "JOINT") {
            Some(offset) => offset,
            None => {
                return Ok(None);
            },
        };
        let weight_index_offset = match self.get_input_offset(vertex_weights_element, "WEIGHT") {
            Some(offset) => offset,
            None => {
                return Ok(None);
            },
        };
        let vcount_element = match vertex_weights_element.get_child("vcount", self.get_ns()) {
            Some(element) => element,
            None => {
                return Ok(None);
            },
        };
        let weights_per_vertex = match get_unsigned_content(vcount_element) {
            Some(counts) => counts,
            None => {
                return Ok(None);
            },
        };
        let inputs = vertex_weights_element.get_children("input", self.get_ns());
        assert(element_views(inputs@).len() == inputs@.len());
        let v_element = match vertex_weights_element.get_child("v", self.get_ns()) {
            Some(element) => element,
            None => {
                return Ok(None);
            },
        };
        let joint_weight_indices = match get_unsigned_content(v_element) {
            Some(indices) => indices,
            None => {
                return Ok(None);
            },
        };
        match read_influences(
            &weights_per_vertex,
            &joint_weight_indices,
            inputs.len(),
            joint_index_offset,
            weight_index_offset,
        ) {
            Ok(list) => Ok(Some(list)),
            Err(e) => Err(e),
        }
    }

    /// Reads a `controller` element.
    pub fn get_bind_data(&self, controller_element: &XmlElement) -> (r: Outcome<BindData>)
        ensures
            bind_data_outcome(r) == self@.bind_data(controller_element@),
    {
        let skeleton_name = match controller_element.get_attribute("name", None) {
            Some(name) => name,
            None => {
                return Ok(None);
            },
        };
        let skin_element = match controller_element.get_child("skin", self.get_ns()) {
            Some(element) => element,
            None => {
                return Ok(None);
            },
        };
        let object_name = match skin_element.get_attribute("source", None) {
            Some(source) => strip_hashes(source),
            None => {
                return Ok(None);
            },
        };
        let vertex_weights_element = match skin_element.get_child("vertex_weights", self.get_ns()) {
            Some(element) => element,
            None => {
                return Ok(None);
            },
        };
        let vertex_weights = match self.get_vertex_weights(vertex_weights_element) {
            Ok(Some(list)) => list,
            Ok(None) => {
                return Ok(None);
            },
            Err(e) => {
                return Err(e);
            },
        };
        let joints_element = match skin_element.get_child("joints", self.get_ns()) {
            Some(element) => element,
            None => {
                return Ok(None);
            },
        };
        let joint_names = match self.get_words_behind(skin_element, joints_element, "JOINT") {
            Ok(Some(names)) => names,
            Ok(None) => {
                return Ok(None);
            },
            Err(e) => {
                return Err(e);
            },
        };
        let weights = match self.get_numbers_behind(skin_element, vertex_weights_element, "WEIGHT") {
            Ok(Some(weights)) => weights,
            Ok(None) => {
                return Ok(None);
            },
            Err(e) => {
                return Err(e);
            },
        };
        let poses = match self.get_numbers_behind(skin_element, joints_element, "INV_BIND_MATRIX") {
            Ok(Some(poses)) => poses,
            Ok(None) => {
                return Ok(None);
            },
            Err(e) => {
                return Err(e);
            },
        };
        if poses.len() % 16 != 0 {
            return Err(Malformed {  });
        }
        Ok(
            Some(
                BindData {
                    object_name,
                    skeleton_name: skeleton_name.to_owned(),
                    joint_names,
                    inverse_bind_poses: to_matrix_array(&poses),
                    weights,
                    vertex_weights,
                },
            ),
        )
    }

    /// Reads all the bind data of the document.
    pub fn read_bind_data_set(&self) -> (r: Outcome<BindDataSet>)
        ensures
            bind_data_set_outcome(r) == self@.bind_data_set(),
    {
        let library = match self.root_element.get_child("library_controllers", self.get_ns()) {
            Some(library) => library,
            None => {
                return Ok(None);
            },
        };
        let elements = library.get_children("controller", self.get_ns());
        let ghost all = element_views(elements@);
        let mut out: Vec<BindData> = Vec::new();
        assert(bind_data_views(out@) =~= Seq::empty());
        let mut i: usize = 0;
        while i < elements.len()
            invariant
                i <= elements@.len(),
                all == element_views(elements@),
                self@.bind_data_set() == (match self@.bind_data_among(all) {
                    Ok(list) => Ok::<Option<Seq<BindDataView>>, Malformed>(Some(list)),
                    Err(e) => Err(e),
                }),
                self@.bind_data_among(all.take(i as int)) == Ok::<_, Malformed>(
                    bind_data_views(out@),
                ),
            decreases elements.len() - i,
        {
            let ghost before = bind_data_views(out@);
            let ghost next = all.take(i + 1);
            assert(next.drop_last() =~= all.take(i as int));
            assert(next.last() == elements@[i as int]@);
            match self.get_bind_data(elements[i]) {
                Ok(Some(data)) => {
                    out.push(data);
                    assert(bind_data_views(out@) =~= before.push(data@));
                },
                Ok(None) => {},
                Err(e) => {
                    proof {
                        lemma_bind_data_malformed(self@, all, i + 1);
                    }
                    return Err(e);
                },
            }
            i = i + 1;
        }
        assert(all.take(all.len() as int) =~= all);
        Ok(Some(BindDataSet { bind_data: out }))
    }

    /// Populates and returns the bind data of the document.
    pub fn get_bind_data_set(&self) -> (r: Option<BindDataSet>)
        requires
            self@.bind_data_set() is Ok,
        ensures
            match r {
                Some(set) => self@.bind_data_set() == Ok::<_, Malformed>(Some(set@)),
                None => self@.bind_data_set() == Ok::<Option<Seq<BindDataView>>, Malformed>(None),
            },
    {
        match self.read_bind_data_set() {
            Ok(r) => r,
            Err(_) => None,
        }
    }
}

} // verus!
