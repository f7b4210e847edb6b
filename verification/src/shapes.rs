//! The shapes of a mesh.

use vstd::prelude::*;

use crate::chunks::{chunk_count, in_chunk, lemma_chunk_count, lemma_next_chunk, total};
use crate::document::{get_unsigned_content, list_outcome, unsigned_in};
use crate::document::{ColladaDocument, DocumentView, Malformed, Outcome};
use crate::element::{element_views, ElementView, XmlElement};
use crate::obj::{Shape, VTNIndex};

verus! {

/// Where in a chunk of indices those of a vertex, of a texture vertex and of a
/// normal stand.
#[derive(Clone, Copy)]
pub struct Offsets {
    pub vertex: usize,
    pub texture: Option<usize>,
    pub normal: Option<usize>,
}

/// Whether the chunk with the number `k` has an entry at an offset, if there is
/// one.
pub open spec fn optional_in_chunk(len: nat, size: nat, k: int, offset: Option<usize>) -> bool {
    match offset {
        Some(offset) => in_chunk(len, size, k, offset as int),
        None => true,
    }
}

/// The entry of chunk `k` at an offset, if there is one.
pub open spec fn optional_entry(indices: Seq<usize>, size: nat, k: int, offset: Option<usize>) -> Option<usize> {
    match offset {
        Some(offset) => Some(indices[k * size + offset]),
        None => None,
    }
}

/// Whether chunk `k` has an entry at each of the offsets.
pub open spec fn has_corner(indices: Seq<usize>, size: nat, offsets: Offsets, k: int) -> bool {
    &&& in_chunk(indices.len(), size, k, offsets.vertex as int)
    &&& optional_in_chunk(indices.len(), size, k, offsets.texture)
    &&& optional_in_chunk(indices.len(), size, k, offsets.normal)
}

/// The corner that chunk `k` describes.
pub open spec fn corner(indices: Seq<usize>, size: nat, offsets: Offsets, k: int) -> VTNIndex {
    (
        indices[k * size + offsets.vertex],
        optional_entry(indices, size, k, offsets.texture),
        optional_entry(indices, size, k, offsets.normal),
    )
}

/// The corners that a list of indices describes, in chunks of `size`. A chunk
/// without an entry at one of the offsets is malformed.
pub open spec fn corners(indices: Seq<usize>, size: nat, offsets: Offsets) -> Result<
    Seq<VTNIndex>,
    Malformed,
> {
    let count = chunk_count(indices.len(), size);
    if forall|k: int| 0 <= k < count ==> #[trigger] has_corner(indices, size, offsets, k) {
        Ok(Seq::new(count, |k: int| corner(indices, size, offsets, k)))
    } else {
        Err(Malformed {  })
    }
}

/// The triangles that corners make, three by three; what is left over at the end
/// makes none.
pub open spec fn triangles(corners: Seq<VTNIndex>) -> Seq<Shape> {
    Seq::new(
        corners.len() / 3,
        |i: int| Shape::Triangle(corners[3 * i], corners[3 * i + 1], corners[3 * i + 2]),
    )
}

/// The polygon of `count` corners from `start` on: a point, a line or a
/// triangle. One with more corners, or with none, is not supported, and a point
/// stands in for it. Too few corners are malformed.
pub open spec fn polygon(corners: Seq<VTNIndex>, start: int, count: usize) -> Result<Shape, Malformed> {
    if count == 0 || count > 3 {
        Ok(Shape::Point((0, None, None)))
    } else if start + count > corners.len() {
        Err(Malformed {  })
    } else if count == 1 {
        Ok(Shape::Point(corners[start]))
    } else if count == 2 {
        Ok(Shape::Line(corners[start], corners[start + 1]))
    } else {
        Ok(Shape::Triangle(corners[start], corners[start + 1], corners[start + 2]))
    }
}

/// The polygons that corners make, each with as many corners as its count says.
pub open spec fn polygons(corners: Seq<VTNIndex>, counts: Seq<usize>) -> Result<Seq<Shape>, Malformed>
    decreases counts.len(),
{
    if counts.len() == 0 {
        Ok(Seq::empty())
    } else {
        match (
            polygons(corners, counts.drop_last()),
            polygon(corners, total(counts.drop_last()) as int, counts.last()),
        ) {
            (Ok(before), Ok(shape)) => Ok(before.push(shape)),
            _ => Err(Malformed {  }),
        }
    }
}

impl DocumentView {
    /// The corners that an element of a mesh lists.
    pub open spec fn vtn_indices(self, e: ElementView) -> Outcome<Seq<VTNIndex>> {
        match (e.element("p"@, self.root.ns), self.input_offset(e, "VERTEX"@)) {
            (Some(p), Some(vertex)) => match unsigned_in(p) {
                Some(indices) => match corners(
                    indices,
                    e.elements("input"@, self.root.ns).len(),
                    Offsets {
                        vertex,
                        texture: self.input_offset(e, "TEXCOORD"@),
                        normal: self.input_offset(e, "NORMAL"@),
                    },
                ) {
                    Ok(list) => Ok(Some(list)),
                    Err(e) => Err(e),
                },
                None => Ok(None),
            },
            _ => Ok(None),
        }
    }

    /// The shapes that an element of a mesh lists, as triangles or as polygons
    /// of the counts that it gives. There are none of any other type.
    pub open spec fn shapes(self, e: ElementView, vert_type: Seq<char>) -> Outcome<Seq<Shape>> {
        match self.vtn_indices(e) {
            Ok(Some(list)) => if vert_type == "triangles"@ {
                Ok(Some(triangles(list)))
            } else if vert_type == "polylists"@ {
                match e.element("vcount"@, self.root.ns) {
                    Some(vcount) => match unsigned_in(vcount) {
                        Some(counts) => match polygons(list, counts) {
                            Ok(shapes) => Ok(Some(shapes)),
                            Err(e) => Err(e),
                        },
                        None => Ok(None),
                    },
                    None => Ok(None),
                }
            } else {
                Ok(None)
            },
            Ok(None) => Ok(None),
            Err(e) => Err(e),
        }
    }
}

/// The entry of a chunk at an offset, if there is one, and whether it is there.
fn read_optional(indices: &Vec<usize>, size: usize, start: usize, offset: Option<usize>, Ghost(k): Ghost<int>) -> (r: Result<
    Option<usize>,
    Malformed,
>)
    requires
        size > 0,
        start == k * size,
        start < indices@.len(),
    ensures
        match r {
            Ok(entry) => optional_in_chunk(indices@.len(), size as nat, k, offset) && entry
                == optional_entry(indices@, size as nat, k, offset),
            Err(_) => !optional_in_chunk(indices@.len(), size as nat, k, offset),
        },
{
    match offset {
        Some(offset) => if offset < size && offset < indices.len() - start {
            Ok(Some(indices[start + offset]))
        } else {
            Err(Malformed {  })
        },
        None => Ok(None),
    }
}

/// Whether the first corners of the list are the ones in `out`, and no chunk up
/// to there is malformed.
spec fn are_first_corners(out: Seq<VTNIndex>, indices: Seq<usize>, size: nat, offsets: Offsets) -> bool {
    forall|k: int|
        0 <= k < out.len() ==> (#[trigger] out[k]) == corner(indices, size, offsets, k)
            && has_corner(indices, size, offsets, k)
}

/// One more corner is read.
proof fn lemma_next_corner(out: Seq<VTNIndex>, indices: Seq<usize>, size: nat, offsets: Offsets, next: VTNIndex)
    requires
        are_first_corners(out, indices, size, offsets),
        has_corner(indices, size, offsets, out.len() as int),
        next == corner(indices, size, offsets, out.len() as int),
    ensures
        are_first_corners(out.push(next), indices, size, offsets),
{
    let more = out.push(next);
    assert forall|k: int| 0 <= k < more.len() implies (#[trigger] more[k]) == corner(
        indices,
        size,
        offsets,
        k,
    ) && has_corner(indices, size, offsets, k) by {
        if k < out.len() {
            assert(more[k] == out[k]);
        }
    }
}

/// Once the list is read to its end, what was read is what it holds.
proof fn lemma_all_corners(out: Seq<VTNIndex>, indices: Seq<usize>, size: nat, offsets: Offsets)
    requires
        are_first_corners(out, indices, size, offsets),
        out.len() == chunk_count(indices.len(), size),
    ensures
        corners(indices, size, offsets) == Ok::<_, Malformed>(out),
{
    assert forall|k: int| 0 <= k < out.len() implies #[trigger] has_corner(indices, size, offsets, k) by {
        assert(out[k] == corner(indices, size, offsets, k));
    }
    assert(corners(indices, size, offsets)->Ok_0 =~= out);
}

/// Reads corners out of a list of indices.
pub fn read_corners(indices: &Vec<usize>, size: usize, offsets: Offsets) -> (r: Result<
    Vec<VTNIndex>,
    Malformed,
>)
    requires
        size > 0,
    ensures
        match r {
            Ok(v) => corners(indices@, size as nat, offsets) == Ok::<_, Malformed>(v@),
            Err(_) => corners(indices@, size as nat, offsets) is Err,
        },
{
    let len = indices.len();
    let mut out: Vec<VTNIndex> = Vec::new();
    let mut start: usize = 0;
    while start < len
        invariant_except_break
            start < len ==> start == out@.len() * size,
            start >= len ==> out@.len() * size >= len,
        invariant
            size > 0,
            len == indices@.len(),
            out@.len() > 0 ==> (out@.len() - 1) * size < len,
            are_first_corners(out@, indices@, size as nat, offsets),
        ensures
            out@.len() * size >= len,
        decreases len - start,
    {
        let ghost k = out@.len() as int;
        proof {
            lemma_chunk_count(len as nat, size as nat, k);
            lemma_next_chunk(size as nat, k);
        }
        if !(offsets.vertex < size && offsets.vertex < len - start) {
            assert(!has_corner(indices@, size as nat, offsets, k));
            return Err(Malformed {  });
        }
        let texture = match read_optional(indices, size, start, offsets.texture, Ghost(k)) {
            Ok(entry) => entry,
            Err(e) => {
                assert(!has_corner(indices@, size as nat, offsets, k));
                return Err(e);
            },
        };
        let normal = match read_optional(indices, size, start, offsets.normal, Ghost(k)) {
            Ok(entry) => entry,
            Err(e) => {
                assert(!has_corner(indices@, size as nat, offsets, k));
                return Err(e);
            },
        };
        assert(has_corner(indices@, size as nat, offsets, k));
        let found = (indices[start + offsets.vertex], texture, normal);
        proof {
            lemma_next_corner(out@, indices@, size as nat, offsets, found);
        }
        out.push(found);
        if size >= len - start {
            break;
        }
        start = start + size;
    }
    proof {
        lemma_chunk_count(len as nat, size as nat, out@.len() as int);
        if out@.len() > 0 {
            lemma_chunk_count(len as nat, size as nat, out@.len() - 1);
        }
        lemma_all_corners(out@, indices@, size as nat, offsets);
    }
    Ok(out)
}

/// Makes triangles of corners.
pub fn make_triangles(corners: &Vec<VTNIndex>) -> (r: Vec<Shape>)
    ensures
        r@ == triangles(corners@),
{
    let mut out: Vec<Shape> = Vec::new();
    let count: usize = corners.len() / 3;
    let mut i: usize = 0;
    while i < count
        invariant
            i <= count,
            count == corners@.len() / 3,
            corners@.len() <= usize::MAX,
            out@.len() == i,
            forall|j: int| 0 <= j < i ==> #[trigger] out@[j] == triangles(corners@)[j],
        decreases count - i,
    {
        out.push(Shape::Triangle(corners[3 * i], corners[3 * i + 1], corners[3 * i + 2]));
        i = i + 1;
    }
    assert(out@ =~= triangles(corners@));
    out
}

/// A malformed polygon makes the list that it stands in malformed.
proof fn lemma_polygons_malformed(corners: Seq<VTNIndex>, counts: Seq<usize>, k: int)
    requires
        0 <= k <= counts.len(),
        polygons(corners, counts.take(k)) is Err,
    ensures
        polygons(corners, counts) is Err,
    decreases counts.len() - k,
{
    if k == counts.len() {
        assert(counts.take(k) =~= counts);
    } else {
        assert(counts.take(k + 1).drop_last() =~= counts.take(k));
        lemma_polygons_malformed(corners, counts, k + 1);
    }
}

/// Makes polygons of corners.
pub fn make_polygons(corners: &Vec<VTNIndex>, counts: &Vec<usize>) -> (r: Result<Vec<Shape>, Malformed>)
    ensures
        match r {
            Ok(v) => polygons(corners@, counts@) == Ok::<_, Malformed>(v@),
            Err(_) => polygons(corners@, counts@) is Err,
        },
{
    let len = corners.len();
    let mut out: Vec<Shape> = Vec::new();
    // How many corners are used up: all of them, where more were asked for.
    let mut used: usize = 0;
    let mut i: usize = 0;
    while i < counts.len()
        invariant
            i <= counts@.len(),
            len == corners@.len(),
            used <= len,
            used == total(counts@.take(i as int)) || (used == len && total(counts@.take(i as int))
                > len),
            polygons(corners@, counts@.take(i as int)) == Ok::<_, Malformed>(out@),
        decreases counts.len() - i,
    {
        let count = counts[i];
        assert(counts@.take(i + 1).drop_last() =~= counts@.take(i as int));
        assert(counts@.take(i + 1).last() == count);
        if 1 <= count && count <= 3 && count > len - used {
            proof {
                lemma_polygons_malformed(corners@, counts@, i + 1);
            }
            return Err(Malformed {  });
        }
        let shape = match count {
            1 => Shape::Point(corners[used]),
            2 => Shape::Line(corners[used], corners[used + 1]),
            3 => Shape::Triangle(corners[used], corners[used + 1], corners[used + 2]),
            _ => Shape::Point((0, None, None)),
        };
        out.push(shape);
        used = if count > len - used {
            len
        } else {
            used + count
        };
        i = i + 1;
    }
    assert(counts@.take(counts@.len() as int) =~= counts@);
    Ok(out)
}

impl ColladaDocument {
    /// Reads the corners that an element of a mesh lists.
    pub fn get_vtn_indices(&self, polylist_element: &XmlElement) -> (r: Outcome<Vec<VTNIndex>>)
        ensures
            list_outcome(r) == self@.vtn_indices(polylist_element@),
    {
        let p_element = match polylist_element.get_child("p", self.get_ns()) {
            Some(element) => element,
            None => {
                return Ok(None);
            },
        };
        let indices = match get_unsigned_content(p_element) {
            Some(indices) => indices,
            None => {
                return Ok(None);
            },
        };
        let inputs = polylist_element.get_children("input", self.get_ns());
        assert(element_views(inputs@).len() == inputs@.len());
        let position_offset = match self.get_input_offset(polylist_element, "VERTEX") {
            Some(offset) => offset,
            None => {
                return Ok(None);
            },
        };
        let normal_offset = self.get_input_offset(polylist_element, "NORMAL");
        let texcoord_offset = self.get_input_offset(polylist_element, "TEXCOORD");
        match read_corners(
            &indices,
            inputs.len(),
            Offsets { vertex: position_offset, texture: texcoord_offset, normal: normal_offset },
        ) {
            Ok(list) => Ok(Some(list)),
            Err(e) => Err(e),
        }
    }

    /// Reads the shapes that an element of a mesh lists.
    pub fn get_shapes(&self, polylist_element: &XmlElement, vert_type: &str) -> (r: Outcome<Vec<Shape>>)
        ensures
            list_outcome(r) == self@.shapes(polylist_element@, vert_type@),
    {
        let corners = match self.get_vtn_indices(polylist_element) {
            Ok(Some(list)) => list,
            Ok(None) => {
                return Ok(None);
            },
            Err(e) => {
                return Err(e);
            },
        };
        if *vert_type == *"triangles" {
            return Ok(Some(make_triangles(&corners)));
        }
        if *vert_type != *"polylists" {
            return Ok(None);
        }
        let vcount_element = match polylist_element.get_child("vcount", self.get_ns()) {
            Some(element) => element,
            None => {
                return Ok(None);
            },
        };
        let vertex_counts = match get_unsigned_content(vcount_element) {
            Some(counts) => counts,
            None => {
                return Ok(None);
            },
        };
        match make_polygons(&corners, &vertex_counts) {
            Ok(shapes) => Ok(Some(shapes)),
            Err(e) => Err(e),
        }
    }
}

} // verus!
