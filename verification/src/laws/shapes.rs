//! Shapes and matrices that are read out of flat lists.

use vstd::prelude::*;

use crate::chunks::{chunk_count, total};
use crate::document::{unsigned_in, DocumentView, Malformed};
use crate::element::ElementView;
use crate::laws::libraries::is_missing;
use crate::laws::skins::lacks_entry;
use crate::number::{matrices, Number};
use crate::obj::{Shape, VTNIndex};
use crate::shapes::{corner, corners, has_corner, polygon, polygons, triangles, Offsets};

verus! {

/// There is one polygon for each count, and it begins where the corners of those
/// before it end. The list is malformed exactly when one of its polygons is.
pub proof fn law_polygons_one_by_one(corners: Seq<VTNIndex>, counts: Seq<usize>)
    ensures
        polygons(corners, counts) is Ok <==> forall|i: int|
            0 <= i < counts.len() ==> polygon(
                corners,
                total(#[trigger] counts.take(i)) as int,
                counts[i],
            ) is Ok,
        polygons(corners, counts) matches Ok(list) ==> {
            &&& list.len() == counts.len()
            &&& forall|i: int|
                0 <= i < counts.len() ==> polygon(
                    corners,
                    total(counts.take(i)) as int,
                    counts[i],
                ) == Ok::<_, Malformed>(#[trigger] list[i])
        },
    decreases counts.len(),
{
    if counts.len() > 0 {
        let shorter = counts.drop_last();
        let n = shorter.len() as int;
        law_polygons_one_by_one(corners, shorter);
        assert forall|i: int| 0 <= i < n implies #[trigger] counts.take(i) == shorter.take(i) by {
            assert(counts.take(i) =~= shorter.take(i));
        }
        assert(counts.take(n) =~= shorter);
        let all = forall|i: int|
            0 <= i < counts.len() ==> polygon(
                corners,
                total(#[trigger] counts.take(i)) as int,
                counts[i],
            ) is Ok;
        if all {
            assert forall|i: int| 0 <= i < n implies polygon(
                corners,
                total(#[trigger] shorter.take(i)) as int,
                shorter[i],
            ) is Ok by {
                assert(polygon(corners, total(counts.take(i)) as int, counts[i]) is Ok);
            }
            assert(polygon(corners, total(counts.take(n)) as int, counts[n]) is Ok);
        }
        if polygons(corners, counts) is Ok {
            let before = polygons(corners, shorter)->Ok_0;
            let list = polygons(corners, counts)->Ok_0;
            assert forall|i: int| 0 <= i < counts.len() implies polygon(
                corners,
                total(counts.take(i)) as int,
                counts[i],
            ) == Ok::<_, Malformed>(#[trigger] list[i]) by {
                if i < n {
                    assert(list[i] == before[i]);
                    assert(counts.take(i) == shorter.take(i));
                }
            }
            assert forall|i: int| 0 <= i < counts.len() implies polygon(
                corners,
                total(#[trigger] counts.take(i)) as int,
                counts[i],
            ) is Ok by {
                assert(polygon(corners, total(counts.take(i)) as int, counts[i]) == Ok::<
                    _,
                    Malformed,
                >(list[i]));
            }
        }
    }
}

/// Polygons of three corners each are the triangles that the corners make.
pub proof fn law_polygons_of_three_are_triangles(corners: Seq<VTNIndex>, counts: Seq<usize>)
    requires
        forall|i: int| 0 <= i < counts.len() ==> #[trigger] counts[i] == 3,
        corners.len() == 3 * counts.len(),
    ensures
        polygons(corners, counts) == Ok::<_, Malformed>(triangles(corners)),
{
    lemma_polygons_of_three(corners, counts);
    assert(polygons(corners, counts)->Ok_0 =~= triangles(corners));
}

proof fn lemma_polygons_of_three(corners: Seq<VTNIndex>, counts: Seq<usize>)
    requires
        forall|i: int| 0 <= i < counts.len() ==> #[trigger] counts[i] == 3,
        corners.len() >= 3 * counts.len(),
    ensures
        total(counts) == 3 * counts.len(),
        polygons(corners, counts) is Ok,
        polygons(corners, counts)->Ok_0.len() == counts.len(),
        forall|i: int|
            0 <= i < counts.len() ==> #[trigger] polygons(corners, counts)->Ok_0[i]
                == Shape::Triangle(corners[3 * i], corners[3 * i + 1], corners[3 * i + 2]),
    decreases counts.len(),
{
    if counts.len() > 0 {
        let shorter = counts.drop_last();
        assert forall|i: int| 0 <= i < shorter.len() implies #[trigger] shorter[i] == 3 by {
            assert(counts[i] == 3);
        }
        lemma_polygons_of_three(corners, shorter);
        let before = polygons(corners, shorter)->Ok_0;
        let all = polygons(corners, counts)->Ok_0;
        assert(counts[counts.len() - 1] == 3);
        assert forall|i: int| 0 <= i < counts.len() implies #[trigger] all[i] == Shape::Triangle(
            corners[3 * i],
            corners[3 * i + 1],
            corners[3 * i + 2],
        ) by {
            if i < before.len() {
                assert(all[i] == before[i]);
            }
        }
    }
}

/// Of a whole number of matrices, every number is a cell: number `k` is cell
/// `k % 16` of matrix `k / 16`.
pub proof fn law_every_number_is_a_cell(numbers: Seq<Number>, k: int)
    requires
        numbers.len() % 16 == 0,
        0 <= k < numbers.len(),
    ensures
        k / 16 < matrices(numbers).len(),
        matrices(numbers)[k / 16].len() == 16,
        matrices(numbers)[k / 16][k % 16] == numbers[k],
{
}

/// There is one corner for each chunk of a list of indices, and it has the vertex
/// that stands at the vertex offset of the chunk. It has a normal exactly when
/// there is an offset for normals, the one that stands there, whatever the other
/// offsets are; and likewise a texture vertex.
pub proof fn law_corners_entry_by_entry(indices: Seq<usize>, size: nat, offsets: Offsets, k: int)
    requires
        corners(indices, size, offsets) is Ok,
        0 <= k < chunk_count(indices.len(), size),
    ensures
        ({
            let list = corners(indices, size, offsets)->Ok_0;
            &&& list.len() == chunk_count(indices.len(), size)
            &&& k * size + offsets.vertex < indices.len()
            &&& list[k].0 == indices[k * size + offsets.vertex]
            &&& offsets.texture is None ==> list[k].1 is None
            &&& offsets.texture matches Some(o) ==> k * size + o < indices.len() && list[k].1 == Some(
                indices[k * size + o],
            )
            &&& offsets.normal is None ==> list[k].2 is None
            &&& offsets.normal matches Some(o) ==> k * size + o < indices.len() && list[k].2 == Some(
                indices[k * size + o],
            )
        }),
{
    assert(has_corner(indices, size, offsets, k));
    assert(corners(indices, size, offsets)->Ok_0[k] == corner(indices, size, offsets, k));
}

/// Whether chunk `k` lacks the entry at an offset that there is.
pub open spec fn lacks_optional(len: nat, size: nat, k: int, offset: Option<usize>) -> bool {
    offset matches Some(o) && lacks_entry(len, size, k, o as int)
}

/// Whether chunk `k` lacks one of the entries of a corner.
pub open spec fn lacks_corner(len: nat, size: nat, offsets: Offsets, k: int) -> bool {
    ||| lacks_entry(len, size, k, offsets.vertex as int)
    ||| lacks_optional(len, size, k, offsets.texture)
    ||| lacks_optional(len, size, k, offsets.normal)
}

/// A list of corners is malformed exactly when one of its chunks lacks an entry.
pub proof fn law_malformed_corners(indices: Seq<usize>, size: nat, offsets: Offsets)
    ensures
        corners(indices, size, offsets) is Err <==> exists|k: int|
            0 <= k < chunk_count(indices.len(), size) && #[trigger] lacks_corner(
                indices.len(),
                size,
                offsets,
                k,
            ),
{
    let len = indices.len();
    let count = chunk_count(len, size);
    assert forall|k: int| 0 <= k < count implies #[trigger] lacks_corner(len, size, offsets, k)
        == !has_corner(indices, size, offsets, k) by {}
    if corners(indices, size, offsets) is Err {
        let k = choose|k: int| 0 <= k < count && !#[trigger] has_corner(indices, size, offsets, k);
        assert(lacks_corner(len, size, offsets, k));
    }
    if exists|k: int| 0 <= k < count && #[trigger] lacks_corner(len, size, offsets, k) {
        let k = choose|k: int| 0 <= k < count && #[trigger] lacks_corner(len, size, offsets, k);
        assert(!has_corner(indices, size, offsets, k));
    }
}

/// Corners make as many triangles as they have threes; triangle `i` has the
/// corners `3 i`, `3 i + 1` and `3 i + 2`, in this order.
pub proof fn law_triangles_of_three_corners(corners: Seq<VTNIndex>, i: int)
    requires
        0 <= i < corners.len() / 3,
    ensures
        triangles(corners).len() == corners.len() / 3,
        triangles(corners)[i] == Shape::Triangle(corners[3 * i], corners[3 * i + 1], corners[3 * i + 2]),
{
}

/// Of fewer than three corners there is no triangle.
pub proof fn law_no_triangle_of_few_corners(corners: Seq<VTNIndex>)
    requires
        corners.len() < 3,
    ensures
        triangles(corners).len() == 0,
{
}

/// A polygon of one, two or three corners is the point, the line or the triangle
/// of the corners from its start on, and is malformed exactly when there are too
/// few of them. Any other is the point that stands in for it.
pub proof fn law_polygon_by_its_count(corners: Seq<VTNIndex>, start: int, count: usize)
    requires
        0 <= start,
    ensures
        polygon(corners, start, count) is Err <==> 1 <= count <= 3 && corners.len() < start + count,
        1 <= corners.len() - start && count == 1 ==> polygon(corners, start, count) == Ok::<_, Malformed>(
            Shape::Point(corners[start]),
        ),
        2 <= corners.len() - start && count == 2 ==> polygon(corners, start, count) == Ok::<_, Malformed>(
            Shape::Line(corners[start], corners[start + 1]),
        ),
        3 <= corners.len() - start && count == 3 ==> polygon(corners, start, count) == Ok::<_, Malformed>(
            Shape::Triangle(corners[start], corners[start + 1], corners[start + 2]),
        ),
        count == 0 || count > 3 ==> polygon(corners, start, count) == Ok::<_, Malformed>(
            Shape::Point((0, None, None)),
        ),
{
}

/// The corners of an element are read where it has a `p` of unsigned numbers and
/// the `VERTEX` input has an offset: in chunks as large as there are inputs, with
/// the offsets of the `TEXCOORD` and `NORMAL` inputs where they have any.
pub proof fn law_corners_from_their_parts(doc: DocumentView, e: ElementView)
    ensures
        ({
            let p = e.element("p"@, doc.root.ns);
            let vertex = doc.input_offset(e, "VERTEX"@);
            &&& p is None || vertex is None || unsigned_in(p->0) is None ==> is_missing(
                doc.vtn_indices(e),
            )
            &&& p is Some && vertex is Some && unsigned_in(p->0) is Some ==> {
                let read = corners(
                    unsigned_in(p->0)->0,
                    e.elements("input"@, doc.root.ns).len(),
                    Offsets {
                        vertex: vertex->0,
                        texture: doc.input_offset(e, "TEXCOORD"@),
                        normal: doc.input_offset(e, "NORMAL"@),
                    },
                );
                &&& read is Err ==> doc.vtn_indices(e) is Err
                &&& read matches Ok(list) ==> doc.vtn_indices(e) == Ok::<_, Malformed>(Some(list))
            }
        }),
{
}

/// The shapes of an element are the triangles that its corners make or, where
/// polygons are asked for, the polygons of the counts in its `vcount`. Nothing
/// else can be asked for.
pub proof fn law_shapes_from_their_parts(doc: DocumentView, e: ElementView, vert_type: Seq<char>)
    ensures
        doc.vtn_indices(e) is Err ==> doc.shapes(e, vert_type) is Err,
        is_missing(doc.vtn_indices(e)) ==> is_missing(doc.shapes(e, vert_type)),
        doc.vtn_indices(e) matches Ok(Some(list)) ==> {
            let vcount = e.element("vcount"@, doc.root.ns);
            &&& vert_type == "triangles"@ ==> doc.shapes(e, vert_type) == Ok::<_, Malformed>(
                Some(triangles(list)),
            )
            &&& vert_type != "triangles"@ && vert_type != "polylists"@ ==> is_missing(
                doc.shapes(e, vert_type),
            )
            &&& vert_type == "polylists"@ && (vcount is None || unsigned_in(vcount->0) is None)
                ==> is_missing(doc.shapes(e, vert_type))
            &&& vert_type == "polylists"@ && vcount is Some && unsigned_in(vcount->0) is Some ==> {
                let read = polygons(list, unsigned_in(vcount->0)->0);
                &&& read is Err ==> doc.shapes(e, vert_type) is Err
                &&& read matches Ok(shapes) ==> doc.shapes(e, vert_type) == Ok::<_, Malformed>(
                    Some(shapes),
                )
            }
        },
{
    reveal_strlit("triangles");
    reveal_strlit("polylists");
    assert("triangles"@[0] != "polylists"@[0]);
}

} // verus!
