//! What an animation is read from.

use vstd::prelude::*;

use crate::document::{DocumentView, Malformed};
use crate::element::ElementView;
use crate::laws::libraries::{gathered, is_found, is_missing, law_animations_are_gathered};
use crate::number::Number;

verus! {

/// An animation with a channel that has a target, and a sampler whose `INPUT` and
/// `OUTPUT` lead to numbers, is read where the latter are a whole number of
/// matrices, and is malformed otherwise. Its times are the numbers of the input,
/// and number `k` of the output is cell `k % 16` of pose `k / 16`.
pub proof fn law_animation_from_its_parts(
    doc: DocumentView,
    e: ElementView,
    target: Seq<char>,
    times: Seq<Number>,
    poses: Seq<Number>,
)
    requires
        e.element("channel"@, doc.root.ns) matches Some(channel) && channel.attribute("target"@)
            == Some(target),
        e.element("sampler"@, doc.root.ns) matches Some(sampler) && doc.numbers_behind(
            e,
            sampler,
            "INPUT"@,
        ) == Ok::<_, Malformed>(Some(times)) && doc.numbers_behind(e, sampler, "OUTPUT"@) == Ok::<
            _,
            Malformed,
        >(Some(poses)),
    ensures
        poses.len() % 16 != 0 ==> doc.animation(e) is Err,
        poses.len() % 16 == 0 ==> {
            &&& is_found(doc.animation(e))
            &&& doc.animation(e)->Ok_0->0.target == target
            &&& doc.animation(e)->Ok_0->0.sample_times == times
            &&& doc.animation(e)->Ok_0->0.sample_poses.len() == poses.len() / 16
            &&& forall|k: int|
                0 <= k < poses.len() ==> {
                    let pose = doc.animation(e)->Ok_0->0.sample_poses[k / 16];
                    pose.len() == 16 && pose[k % 16] == #[trigger] poses[k]
                }
        },
{
}

/// There is no animation without a channel, a target or a sampler, nor without
/// numbers behind `INPUT` or `OUTPUT`. One whose input leads in a circle is
/// malformed, and so is one whose output does while its input leads to numbers.
pub proof fn law_animation_without_its_parts(doc: DocumentView, e: ElementView)
    ensures
        e.element("channel"@, doc.root.ns) is None || e.element("sampler"@, doc.root.ns) is None
            ==> is_missing(doc.animation(e)),
        e.element("channel"@, doc.root.ns) matches Some(channel) ==> channel.attribute("target"@) is None
            ==> is_missing(doc.animation(e)),
        (e.element("channel"@, doc.root.ns) matches Some(channel) && channel.attribute(
            "target"@,
        ) is Some) ==> (e.element("sampler"@, doc.root.ns) matches Some(sampler) ==> {
            let input = doc.numbers_behind(e, sampler, "INPUT"@);
            let output = doc.numbers_behind(e, sampler, "OUTPUT"@);
            &&& input is Err ==> doc.animation(e) is Err
            &&& is_missing(input) ==> is_missing(doc.animation(e))
            &&& is_found(input) && output is Err ==> doc.animation(e) is Err
            &&& is_found(input) && is_missing(output) ==> is_missing(doc.animation(e))
        }),
{
}

/// The animations of a document are what reading each `animation` element of its
/// library comes to.
pub proof fn law_animations_of_a_document(doc: DocumentView, library: ElementView)
    requires
        doc.root.element("library_animations"@, doc.root.ns) == Some(library),
    ensures
        ({
            let list = library.elements("animation"@, doc.root.ns);
            let found = gathered(Seq::new(list.len(), |i: int| doc.animation(list[i])));
            &&& doc.animations() is Err <==> found is Err
            &&& found matches Ok(all) ==> doc.animations() == Ok::<_, Malformed>(Some(all))
        }),
{
    law_animations_are_gathered(doc, library.elements("animation"@, doc.root.ns));
}

} // verus!
