//! The influences that skins list, and the joint weights made of them.

use vstd::prelude::*;

use crate::binding::{influence_count, influences, joint_index, repeated};
use crate::chunks::{both_in_chunk, chunk_count, total};
use crate::document::Malformed;
use crate::mesh::{free_slot, joint_names, joint_weights, no_joint_weights, with_influence};
use crate::number::Number;
use crate::obj::JointWeightsView;
use crate::skin::{BindDataView, JointView, VertexWeight};
use crate::text::first_place;

verus! {

/// Each vertex is repeated as often as its count says, one vertex after the
/// other.
pub(crate) proof fn lemma_repeated(counts: Seq<usize>, v: int)
    requires
        0 <= v <= counts.len() <= usize::MAX,
    ensures
        repeated(counts).len() == total(counts),
        v < counts.len() ==> total(counts.take(v)) <= total(counts.take(v + 1)) <= total(counts),
        forall|k: int|
            v < counts.len() && total(counts.take(v)) <= k < total(counts.take(v + 1))
                ==> #[trigger] repeated(counts)[k] == v,
    decreases counts.len(),
{
    if counts.len() > 0 {
        let before = counts.drop_last();
        if v < before.len() {
            lemma_repeated(before, v);
            assert(before.take(v) =~= counts.take(v));
            assert(before.take(v + 1) =~= counts.take(v + 1));
            assert forall|k: int| total(counts.take(v)) <= k < total(counts.take(v + 1)) implies
                #[trigger] repeated(counts)[k] == v by {
                assert(repeated(counts)[k] == repeated(before)[k]);
            }
        } else {
            lemma_repeated(before, before.len() as int);
            if v < counts.len() {
                assert(counts.take(v) =~= before);
                assert(counts.take(v + 1) =~= counts);
            }
        }
    }
}

/// A list of influences is as long as the counts add up to, or as there are
/// chunks where they are fewer.
pub proof fn law_influence_count(
    counts: Seq<usize>,
    indices: Seq<usize>,
    size: nat,
    joint_offset: int,
    weight_offset: int,
)
    requires
        counts.len() <= usize::MAX,
        influences(counts, indices, size, joint_offset, weight_offset) is Ok,
    ensures
        ({
            let list = influences(counts, indices, size, joint_offset, weight_offset)->Ok_0;
            let chunks = chunk_count(indices.len(), size);
            list.len() == (if total(counts) < chunks {
                total(counts)
            } else {
                chunks
            })
        }),
{
    lemma_repeated(counts, counts.len() as int);
}

/// The influences of a vertex come after those of the vertices before it, as
/// many as its count says. Influence `k` is read from chunk `k`: the joint at the
/// joint offset, cut down to a joint index, and the weight at the weight offset.
pub proof fn law_influences_go_vertex_by_vertex(
    counts: Seq<usize>,
    indices: Seq<usize>,
    size: nat,
    joint_offset: int,
    weight_offset: int,
    v: int,
    k: int,
)
    requires
        counts.len() <= usize::MAX,
        influences(counts, indices, size, joint_offset, weight_offset) is Ok,
        0 <= v < counts.len(),
        total(counts.take(v)) <= k < total(counts.take(v + 1)),
        k < chunk_count(indices.len(), size),
    ensures
        ({
            let list = influences(counts, indices, size, joint_offset, weight_offset)->Ok_0;
            &&& k < list.len()
            &&& list[k].vertex == v
            &&& k * size + joint_offset < indices.len()
            &&& k * size + weight_offset < indices.len()
            &&& list[k].joint == joint_index(indices[k * size + joint_offset] as int)
            &&& list[k].weight == indices[k * size + weight_offset]
        }),
{
    lemma_repeated(counts, v);
    assert(k < influence_count(counts, indices, size));
    assert(repeated(counts)[k] == v);
    assert(both_in_chunk(indices.len(), size, k, joint_offset, weight_offset));
}

/// Whether an influence is on the given vertex, of a joint that the skeleton has,
/// with a weight other than zero.
pub open spec fn counts_for(
    influence: VertexWeight,
    data: BindDataView,
    joints: Seq<JointView>,
    vertex: int,
) -> bool {
    &&& influence.vertex == vertex
    &&& first_place(joint_names(joints), data.joint_names[influence.joint as int]) < joints.len()
    &&& influence.weight < data.weights.len()
    &&& !data.weights[influence.weight as int].vanishes()
}

/// The influences that count for a vertex, in order.
pub open spec fn counting(
    list: Seq<VertexWeight>,
    data: BindDataView,
    joints: Seq<JointView>,
    vertex: int,
) -> Seq<VertexWeight>
    decreases list.len(),
{
    if list.len() == 0 {
        Seq::empty()
    } else {
        let before = counting(list.drop_last(), data, joints, vertex);
        if counts_for(list.last(), data, joints, vertex) {
            before.push(list.last())
        } else {
            before
        }
    }
}

/// Whether slot `s` holds what the influences that count say: the joint and the
/// weight of influence `s`; a weight of zero where there is none; and behind the
/// first such slot nothing that was ever written.
pub open spec fn slot_holds(
    held: JointWeightsView,
    counting: Seq<VertexWeight>,
    data: BindDataView,
    joints: Seq<JointView>,
    s: int,
) -> bool {
    &&& s < counting.len() ==> {
        &&& held.joints[s] == first_place(
            joint_names(joints),
            data.joint_names[counting[s].joint as int],
        )
        &&& held.weights[s] == data.weights[counting[s].weight as int]
    }
    &&& s == counting.len() ==> held.weights[s].vanishes()
    &&& s > counting.len() ==> held.joints[s] == 0 && held.weights[s] == Number::zero_number()
}

proof fn lemma_free_slot(weights: Seq<Number>, n: int)
    requires
        0 <= n <= weights.len(),
        forall|i: int| 0 <= i < n ==> !(#[trigger] weights[i]).vanishes(),
        n < weights.len() ==> weights[n].vanishes(),
    ensures
        free_slot(weights) == n,
    decreases n,
{
    if n > 0 {
        assert(!weights[0].vanishes());
        let rest = weights.drop_first();
        assert forall|i: int| 0 <= i < n - 1 implies !(#[trigger] rest[i]).vanishes() by {
            assert(rest[i] == weights[i + 1]);
        }
        lemma_free_slot(rest, n - 1);
    }
}

proof fn lemma_counting(list: Seq<VertexWeight>, data: BindDataView, joints: Seq<JointView>, vertex: int)
    ensures
        forall|i: int|
            0 <= i < counting(list, data, joints, vertex).len() ==> counts_for(
                #[trigger] counting(list, data, joints, vertex)[i],
                data,
                joints,
                vertex,
            ),
    decreases list.len(),
{
    if list.len() > 0 {
        let before = counting(list.drop_last(), data, joints, vertex);
        let all = counting(list, data, joints, vertex);
        lemma_counting(list.drop_last(), data, joints, vertex);
        assert forall|i: int| 0 <= i < all.len() implies counts_for(
            #[trigger] all[i],
            data,
            joints,
            vertex,
        ) by {
            if i < before.len() {
                assert(all[i] == before[i]);
            }
        }
    }
}

/// Each vertex gets joint weights, and its four slots hold the first four of the
/// influences that count for it, in order; the slots left over have a weight of
/// zero.
pub proof fn law_slots_hold_the_first_influences(
    count: nat,
    list: Seq<VertexWeight>,
    data: BindDataView,
    joints: Seq<JointView>,
    vertex: int,
)
    requires
        joint_weights(count, list, data, joints) is Ok,
        joints.len() <= usize::MAX,
        0 <= vertex < count,
    ensures
        ({
            let weights = joint_weights(count, list, data, joints)->Ok_0;
            let counting = counting(list, data, joints, vertex);
            &&& weights.len() == count
            &&& weights[vertex].joints.len() == 4
            &&& weights[vertex].weights.len() == 4
            &&& forall|s: int|
                0 <= s < 4 ==> #[trigger] slot_holds(weights[vertex], counting, data, joints, s)
        }),
    decreases list.len(),
{
    let all = joint_weights(count, list, data, joints)->Ok_0;
    if list.len() == 0 {
        assert(all[vertex] == no_joint_weights());
    } else {
        let shorter = list.drop_last();
        let last = list.last();
        law_slots_hold_the_first_influences(count, shorter, data, joints, vertex);
        lemma_counting(shorter, data, joints, vertex);
        let before = joint_weights(count, shorter, data, joints)->Ok_0;
        let met = counting(shorter, data, joints, vertex);
        let now = counting(list, data, joints, vertex);
        assert(with_influence(before, last, data, joints) == Ok::<_, Malformed>(all));
        if last.vertex == vertex {
            let held = before[vertex];
            let n: int = if met.len() < 4 {
                met.len() as int
            } else {
                4
            };
            assert forall|i: int| 0 <= i < n implies !(#[trigger] held.weights[i]).vanishes() by {
                assert(slot_holds(held, met, data, joints, i));
                assert(counts_for(met[i], data, joints, vertex));
            }
            if n < 4 {
                assert(slot_holds(held, met, data, joints, n));
            }
            lemma_free_slot(held.weights, n);
            assert forall|s: int| 0 <= s < 4 implies #[trigger] slot_holds(
                all[vertex],
                now,
                data,
                joints,
                s,
            ) by {
                assert(slot_holds(held, met, data, joints, s));
            }
        } else {
            assert(now == met);
            assert(all[vertex] == before[vertex]);
            assert forall|s: int| 0 <= s < 4 implies #[trigger] slot_holds(
                all[vertex],
                now,
                data,
                joints,
                s,
            ) by {
                assert(slot_holds(before[vertex], met, data, joints, s));
            }
        }
    }
}

proof fn lemma_first_place(list: Seq<Seq<char>>, text: Seq<char>)
    ensures
        first_place(list, text) <= list.len(),
        first_place(list, text) < list.len() ==> list[first_place(list, text) as int] == text,
    decreases list.len(),
{
    if list.len() > 0 && list[0] != text {
        lemma_first_place(list.drop_first(), text);
    }
}

/// A slot with a weight other than zero names a joint of the skeleton, one that
/// has the name of the joint of some influence on the vertex.
pub proof fn law_weighted_joints_are_there(
    count: nat,
    list: Seq<VertexWeight>,
    data: BindDataView,
    joints: Seq<JointView>,
    vertex: int,
    s: int,
)
    requires
        joint_weights(count, list, data, joints) is Ok,
        joints.len() <= usize::MAX,
        0 <= vertex < count,
        0 <= s < 4,
        !joint_weights(count, list, data, joints)->Ok_0[vertex].weights[s].vanishes(),
    ensures
        ({
            let joint = joint_weights(count, list, data, joints)->Ok_0[vertex].joints[s];
            let influence = counting(list, data, joints, vertex)[s];
            &&& joint < joints.len()
            &&& s < counting(list, data, joints, vertex).len()
            &&& influence.vertex == vertex
            &&& joints[joint as int].name == data.joint_names[influence.joint as int]
        }),
{
    law_slots_hold_the_first_influences(count, list, data, joints, vertex);
    lemma_counting(list, data, joints, vertex);
    let held = joint_weights(count, list, data, joints)->Ok_0[vertex];
    let counting = counting(list, data, joints, vertex);
    assert(slot_holds(held, counting, data, joints, s));
    assert(counts_for(counting[s], data, joints, vertex));
    lemma_first_place(joint_names(joints), data.joint_names[counting[s].joint as int]);
}

/// The first free slot of a vertex is the one after those of the influences that
/// count, or the end of the four.
pub(crate) proof fn lemma_free_slot_of(
    count: nat,
    list: Seq<VertexWeight>,
    data: BindDataView,
    joints: Seq<JointView>,
    vertex: int,
)
    requires
        joint_weights(count, list, data, joints) is Ok,
        joints.len() <= usize::MAX,
        0 <= vertex < count,
    ensures
        joint_weights(count, list, data, joints)->Ok_0[vertex].weights.len() == 4,
        free_slot(joint_weights(count, list, data, joints)->Ok_0[vertex].weights) == (if counting(
            list,
            data,
            joints,
            vertex,
        ).len() < 4 {
            counting(list, data, joints, vertex).len()
        } else {
            4
        }),
{
    law_slots_hold_the_first_influences(count, list, data, joints, vertex);
    lemma_counting(list, data, joints, vertex);
    let held = joint_weights(count, list, data, joints)->Ok_0[vertex];
    let met = counting(list, data, joints, vertex);
    let n: int = if met.len() < 4 {
        met.len() as int
    } else {
        4
    };
    assert forall|i: int| 0 <= i < n implies !(#[trigger] held.weights[i]).vanishes() by {
        assert(slot_holds(held, met, data, joints, i));
        assert(counts_for(met[i], data, joints, vertex));
    }
    if n < 4 {
        assert(slot_holds(held, met, data, joints, n));
    }
    lemma_free_slot(held.weights, n);
}

} // verus!
