//! The animations of a document.

use vstd::prelude::*;

use crate::document::{ColladaDocument, DocumentView, Malformed, Outcome};
use crate::element::{element_views, ElementView, XmlElement};
use crate::number::{matrices, to_matrix_array};
use crate::skin::{animation_views, Animation, AnimationView};

verus! {

impl DocumentView {
    /// What an `animation` element describes: the target of its channel, the
    /// times that its sampler takes in and the poses that it puts out. There is
    /// no animation where one of these is missing; poses that are no whole
    /// number of matrices are malformed.
    pub open spec fn animation(self, animation: ElementView) -> Outcome<AnimationView> {
        match (animation.element("channel"@, self.root.ns), animation.element("sampler"@, self.root.ns)) {
            (Some(channel), Some(sampler)) => match channel.attribute("target"@) {
                Some(target) => match self.numbers_behind(animation, sampler, "INPUT"@) {
                    Ok(Some(times)) => match self.numbers_behind(animation, sampler, "OUTPUT"@) {
                        Ok(Some(poses)) => if poses.len() % 16 == 0 {
                            Ok(
                                Some(
                                    AnimationView {
                                        target,
                                        sample_times: times,
                                        sample_poses: matrices(poses),
                                    },
                                ),
                            )
                        } else {
                            Err(Malformed {  })
                        },
                        Ok(None) => Ok(None),
                        Err(e) => Err(e),
                    },
                    Ok(None) => Ok(None),
                    Err(e) => Err(e),
                },
                None => Ok(None),
            },
            _ => Ok(None),
        }
    }

    /// The animations that the given elements describe, those that describe
    /// none left out.
    pub open spec fn animations_among(self, list: Seq<ElementView>) -> Result<Seq<AnimationView>, Malformed>
        decreases list.len(),
    {
        if list.len() == 0 {
            Ok(Seq::empty())
        } else {
            match (self.animations_among(list.drop_last()), self.animation(list.last())) {
                (Ok(before), Ok(Some(animation))) => Ok(before.push(animation)),
                (Ok(before), Ok(None)) => Ok(before),
                _ => Err(Malformed {  }),
            }
        }
    }

    /// All the animations of the document, or nothing where it has no library
    /// of them.
    pub open spec fn animations(self) -> Outcome<Seq<AnimationView>> {
        match self.root.element("library_animations"@, self.root.ns) {
            Some(library) => match self.animations_among(library.elements("animation"@, self.root.ns)) {
                Ok(list) => Ok(Some(list)),
                Err(e) => Err(e),
            },
            None => Ok(None),
        }
    }
}

/// What reading one animation gives.
pub open spec fn animation_outcome(r: Outcome<Animation>) -> Outcome<AnimationView> {
    match r {
        Ok(Some(a)) => Ok(Some(a@)),
        Ok(None) => Ok(None),
        Err(e) => Err(e),
    }
}

/// What reading the animations gives.
pub open spec fn animations_outcome(r: Outcome<Vec<Animation>>) -> Outcome<Seq<AnimationView>> {
    match r {
        Ok(Some(list)) => Ok(Some(animation_views(list@))),
        Ok(None) => Ok(None),
        Err(e) => Err(e),
    }
}

/// A malformed element makes the list that it stands in malformed.
proof fn lemma_animations_malformed(doc: DocumentView, list: Seq<ElementView>, k: int)
    requires
        0 <= k <= list.len(),
        doc.animations_among(list.take(k)) is Err,
    ensures
        doc.animations_among(list) is Err,
    decreases list.len() - k,
{
    if k == list.len() {
        assert(list.take(k) =~= list);
    } else {
        assert(list.take(k + 1).drop_last() =~= list.take(k));
        lemma_animations_malformed(doc, list, k + 1);
    }
}

impl ColladaDocument {
    /// Reads an `animation` element.
    pub fn get_animation(&self, animation_element: &XmlElement) -> (r: Outcome<Animation>)
        ensures
            animation_outcome(r) == self@.animation(animation_element@),
    {
        let channel = match animation_element.get_child("channel", self.get_ns()) {
            Some(channel) => channel,
            None => {
                return Ok(None);
            },
        };
        let target = match channel.get_attribute("target", None) {
            Some(target) => target,
            None => {
                return Ok(None);
            },
        };
        let sampler = match animation_element.get_child("sampler", self.get_ns()) {
            Some(sampler) => sampler,
            None => {
                return Ok(None);
            },
        };
        // The input is taken to be time, the output a pose matrix.
        let sample_times = match self.get_numbers_behind(animation_element, sampler, "INPUT") {
            Ok(Some(times)) => times,
            Ok(None) => {
                return Ok(None);
            },
            Err(e) => {
                return Err(e);
            },
        };
        let sample_poses_flat = match self.get_numbers_behind(animation_element, sampler, "OUTPUT") {
            Ok(Some(poses)) => poses,
            Ok(None) => {
                return Ok(None);
            },
            Err(e) => {
                return Err(e);
            },
        };
        if sample_poses_flat.len() % 16 != 0 {
            return Err(Malformed {  });
        }
        Ok(
            Some(
                Animation {
                    target: target.to_owned(),
                    sample_times,
                    sample_poses: to_matrix_array(&sample_poses_flat),
                },
            ),
        )
    }

    /// Reads all the animations of the document.
    pub fn read_animations(&self) -> (r: Outcome<Vec<Animation>>)
        ensures
            animations_outcome(r) == self@.animations(),
    {
        let library = match self.root_element.get_child("library_animations", self.get_ns()) {
            Some(library) => library,
            None => {
                return Ok(None);
            },
        };
        let elements = library.get_children("animation", self.get_ns());
        let ghost all = element_views(elements@);
        let mut out: Vec<Animation> = Vec::new();
        assert(animation_views(out@) =~= Seq::empty());
        let mut i: usize = 0;
        while i < elements.len()
            invariant
                i <= elements@.len(),
                all == element_views(elements@),
                self@.animations() == (match self@.animations_among(all) {
                    Ok(list) => Ok::<Option<Seq<AnimationView>>, Malformed>(Some(list)),
                    Err(e) => Err(e),
                }),
                self@.animations_among(all.take(i as int)) == Ok::<_, Malformed>(
                    animation_views(out@),
                ),
            decreases elements.len() - i,
        {
            let ghost before = animation_views(out@);
            let ghost next = all.take(i + 1);
            assert(next.drop_last() =~= all.take(i as int));
            assert(next.last() == elements@[i as int]@);
            match self.get_animation(elements[i]) {
                Ok(Some(animation)) => {
                    out.push(animation);
                    assert(animation_views(out@) =~= before.push(animation@));
                },
                Ok(None) => {},
                Err(e) => {
                    proof {
                        lemma_animations_malformed(self@, all, i + 1);
                    }
                    return Err(e);
                },
            }
            i = i + 1;
        }
        assert(all.take(all.len() as int) =~= all);
        Ok(Some(out))
    }

    /// Returns all the animations of the document.
    pub fn get_animations(&self) -> (r: Option<Vec<Animation>>)
        requires
            self@.animations() is Ok,
        ensures
            match r {
                Some(list) => self@.animations() == Ok::<_, Malformed>(
                    Some(animation_views(list@)),
                ),
                None => self@.animations() == Ok::<Option<Seq<AnimationView>>, Malformed>(None),
            },
    {
        match self.read_animations() {
            Ok(r) => r,
            Err(_) => None,
        }
    }
}

} // verus!
