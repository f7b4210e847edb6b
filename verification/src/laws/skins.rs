//! What bind data is read from.

use vstd::prelude::*;

use crate::binding::{influence_count, influences, joint_index};
use crate::chunks::{both_in_chunk, chunk_count, lemma_chunk_count, total};
use crate::document::{unsigned_in, DocumentView, Malformed};
use crate::element::ElementView;
use crate::laws::influences::lemma_repeated;
use crate::laws::libraries::{gathered, is_found, is_missing, law_bind_data_is_gathered};
use crate::number::Number;
use crate::skin::VertexWeight;
use crate::text::without_hashes;

verus! {

/// A list has as many chunks as it takes to hold all of it: the chunk with the
/// number `k` is there exactly when the list reaches beyond its beginning.
pub proof fn law_chunks_hold_the_list(len: nat, size: nat, k: int)
    requires
        size > 0,
        k >= 0,
    ensures
        k < chunk_count(len, size) <==> k * size < len,
{
    lemma_chunk_count(len, size, k);
}

/// The counts of two lists together add up.
pub proof fn law_totals_add_up(a: Seq<usize>, b: Seq<usize>, n: usize)
    ensures
        total(a + b) == total(a) + total(b),
        total(seq![n]) == n,
    decreases b.len(),
{
    reveal_with_fuel(total, 2);
    assert(seq![n].drop_last() =~= Seq::empty());
    if b.len() == 0 {
        assert(a + b =~= a);
    } else {
        law_totals_add_up(a, b.drop_last(), n);
        assert((a + b).drop_last() =~= a + b.drop_last());
        assert((a + b).last() == b.last());
    }
}

/// A joint index is a number less all its multiples of 256.
pub proof fn law_joint_indices(n: int)
    requires
        n >= 0,
    ensures
        joint_index(n) as int == n % 256,
        n < 256 ==> joint_index(n) == n,
{
}

/// Whether chunk `k` lacks the entry at an offset.
pub open spec fn lacks_entry(len: nat, size: nat, k: int, offset: int) -> bool {
    offset >= size || k * size + offset >= len
}

/// A list of influences is malformed exactly when one of the chunks that go to a
/// vertex lacks the entry at one of the offsets.
pub proof fn law_malformed_influences(
    counts: Seq<usize>,
    indices: Seq<usize>,
    size: nat,
    joint_offset: int,
    weight_offset: int,
)
    requires
        counts.len() <= usize::MAX,
    ensures
        influences(counts, indices, size, joint_offset, weight_offset) is Err <==> exists|k: int|
            0 <= k < total(counts) && k < chunk_count(indices.len(), size) && (#[trigger] lacks_entry(
                indices.len(),
                size,
                k,
                joint_offset,
            ) || lacks_entry(indices.len(), size, k, weight_offset)),
{
    lemma_repeated(counts, counts.len() as int);
    let len = indices.len();
    let count = influence_count(counts, indices, size);
    if influences(counts, indices, size, joint_offset, weight_offset) is Err {
        let k = choose|k: int|
            0 <= k < count && !#[trigger] both_in_chunk(len, size, k, joint_offset, weight_offset);
        assert(lacks_entry(len, size, k, joint_offset) || lacks_entry(len, size, k, weight_offset));
    }
    if exists|k: int|
        0 <= k < total(counts) && k < chunk_count(len, size) && (#[trigger] lacks_entry(
            len,
            size,
            k,
            joint_offset,
        ) || lacks_entry(len, size, k, weight_offset)) {
        let k = choose|k: int|
            0 <= k < total(counts) && k < chunk_count(len, size) && (#[trigger] lacks_entry(
                len,
                size,
                k,
                joint_offset,
            ) || lacks_entry(len, size, k, weight_offset));
        assert(!both_in_chunk(len, size, k, joint_offset, weight_offset));
    }
}

/// Vertex weights are read where the `JOINT` and `WEIGHT` inputs have offsets and
/// `vcount` and `v` hold unsigned numbers: they are the influences that these
/// describe, in chunks as large as there are inputs. Where one of these is
/// missing there are none.
pub proof fn law_vertex_weights_from_their_parts(doc: DocumentView, e: ElementView)
    ensures
        ({
            let ns = doc.root.ns;
            let joint = doc.input_offset(e, "JOINT"@);
            let weight = doc.input_offset(e, "WEIGHT"@);
            let vcount = e.element("vcount"@, ns);
            let v = e.element("v"@, ns);
            &&& joint is None || weight is None || vcount is None || v is None || unsigned_in(
                vcount->0,
            ) is None || unsigned_in(v->0) is None ==> is_missing(doc.vertex_weights(e))
            &&& joint is Some && weight is Some && vcount is Some && v is Some && unsigned_in(
                vcount->0,
            ) is Some && unsigned_in(v->0) is Some ==> {
                let read = influences(
                    unsigned_in(vcount->0)->0,
                    unsigned_in(v->0)->0,
                    e.elements("input"@, ns).len(),
                    joint->0 as int,
                    weight->0 as int,
                );
                &&& read is Err ==> doc.vertex_weights(e) is Err
                &&& read matches Ok(list) ==> doc.vertex_weights(e) == Ok::<_, Malformed>(Some(list))
            }
        }),
{
}

/// A controller with a name, and with a skin that has a source, vertex weights
/// and joints, whose inputs lead to names, weights and poses, is read where the
/// poses are a whole number of matrices, and is malformed otherwise. What is read
/// are these, the source without the `#` before it, and number `k` of the poses
/// is cell `k % 16` of pose `k / 16`.
pub proof fn law_bind_data_from_its_parts(
    doc: DocumentView,
    controller: ElementView,
    skin: ElementView,
    skeleton_name: Seq<char>,
    source: Seq<char>,
    list: Seq<VertexWeight>,
    names: Seq<Seq<char>>,
    weights: Seq<Number>,
    poses: Seq<Number>,
)
    requires
        controller.attribute("name"@) == Some(skeleton_name),
        controller.element("skin"@, doc.root.ns) == Some(skin),
        skin.attribute("source"@) == Some(source),
        skin.element("vertex_weights"@, doc.root.ns) matches Some(e) && doc.vertex_weights(e) == Ok::<
            _,
            Malformed,
        >(Some(list)) && doc.numbers_behind(skin, e, "WEIGHT"@) == Ok::<_, Malformed>(Some(weights)),
        skin.element("joints"@, doc.root.ns) matches Some(e) && doc.words_behind(skin, e, "JOINT"@)
            == Ok::<_, Malformed>(Some(names)) && doc.numbers_behind(skin, e, "INV_BIND_MATRIX"@)
            == Ok::<_, Malformed>(Some(poses)),
    ensures
        poses.len() % 16 != 0 ==> doc.bind_data(controller) is Err,
        poses.len() % 16 == 0 ==> {
            &&& is_found(doc.bind_data(controller))
            &&& doc.bind_data(controller)->Ok_0->0.object_name == without_hashes(source)
            &&& doc.bind_data(controller)->Ok_0->0.skeleton_name == skeleton_name
            &&& doc.bind_data(controller)->Ok_0->0.joint_names == names
            &&& doc.bind_data(controller)->Ok_0->0.weights == weights
            &&& doc.bind_data(controller)->Ok_0->0.vertex_weights == list
            &&& doc.bind_data(controller)->Ok_0->0.inverse_bind_poses.len() == poses.len() / 16
            &&& forall|k: int|
                0 <= k < poses.len() ==> {
                    let pose = doc.bind_data(controller)->Ok_0->0.inverse_bind_poses[k / 16];
                    pose.len() == 16 && pose[k % 16] == #[trigger] poses[k]
                }
        },
{
}

/// A controller describes nothing without a name, a skin, a source of it, vertex
/// weights or joints. Of what it leads to, the first that is missing or malformed
/// decides: the vertex weights, the names, the weights, the poses.
pub proof fn law_bind_data_without_its_parts(doc: DocumentView, controller: ElementView)
    ensures
        controller.attribute("name"@) is None || controller.element("skin"@, doc.root.ns) is None
            ==> is_missing(doc.bind_data(controller)),
        controller.attribute("name"@) is Some ==> (controller.element(
            "skin"@,
            doc.root.ns,
        ) matches Some(skin) ==> {
            let e = skin.element("vertex_weights"@, doc.root.ns);
            let joints = skin.element("joints"@, doc.root.ns);
            let found = doc.bind_data(controller);
            &&& skin.attribute("source"@) is None || e is None ==> is_missing(found)
            &&& skin.attribute("source"@) is Some && e is Some ==> {
                let read = doc.vertex_weights(e->0);
                &&& read is Err ==> found is Err
                &&& is_missing(read) ==> is_missing(found)
                &&& is_found(read) && joints is None ==> is_missing(found)
                &&& is_found(read) && joints is Some ==> {
                    let names = doc.words_behind(skin, joints->0, "JOINT"@);
                    let weights = doc.numbers_behind(skin, e->0, "WEIGHT"@);
                    let poses = doc.numbers_behind(skin, joints->0, "INV_BIND_MATRIX"@);
                    &&& names is Err ==> found is Err
                    &&& is_missing(names) ==> is_missing(found)
                    &&& is_found(names) ==> {
                        &&& weights is Err ==> found is Err
                        &&& is_missing(weights) ==> is_missing(found)
                        &&& is_found(weights) && poses is Err ==> found is Err
                        &&& is_found(weights) && is_missing(poses)
                            ==> is_missing(found)
                    }
                }
            }
        }),
{
}

/// The bind data of a document is what reading each `controller` element of its
/// library comes to.
pub proof fn law_bind_data_of_a_document(doc: DocumentView, library: ElementView)
    requires
        doc.root.element("library_controllers"@, doc.root.ns) == Some(library),
    ensures
        ({
            let list = library.elements("controller"@, doc.root.ns);
            let found = gathered(Seq::new(list.len(), |i: int| doc.bind_data(list[i])));
            &&& doc.bind_data_set() is Err <==> found is Err
            &&& found matches Ok(all) ==> doc.bind_data_set() == Ok::<_, Malformed>(Some(all))
        }),
{
    law_bind_data_is_gathered(doc, library.elements("controller"@, doc.root.ns));
}

} // verus!
