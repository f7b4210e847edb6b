//! Lists that are read in chunks of equal size, the last of which may be short.

use vstd::prelude::*;

verus! {

/// How many chunks a list falls into.
pub open spec fn chunk_count(len: nat, size: nat) -> nat
    recommends
        size > 0,
{
    ((len + size - 1) / size as int) as nat
}

/// The sum of counts.
pub open spec fn total(counts: Seq<usize>) -> nat
    decreases counts.len(),
{
    if counts.len() == 0 {
        0
    } else {
        total(counts.drop_last()) + counts.last() as nat
    }
}

/// Whether the chunk with the number `k` has an entry at the given offset.
pub open spec fn in_chunk(len: nat, size: nat, k: int, offset: int) -> bool {
    offset < size && k * size + offset < len
}

/// Whether the chunk with the number `k` has an entry at both offsets.
pub open spec fn both_in_chunk(len: nat, size: nat, k: int, a: int, b: int) -> bool {
    in_chunk(len, size, k, a) && in_chunk(len, size, k, b)
}

/// The chunk with the number `k` is there exactly when the list reaches up to
/// its first entry.
pub proof fn lemma_chunk_count(len: nat, size: nat, k: int)
    requires
        size > 0,
        k >= 0,
    ensures
        k * size < len <==> k < chunk_count(len, size),
{
    let total = len + size - 1;
    let q = total / size as int;
    let r = total % size as int;
    assert(total == q * size + r && 0 <= r < size) by (nonlinear_arith)
        requires
            size > 0,
            q == total / size as int,
            r == total % size as int,
    ;
    assert(q >= 0) by (nonlinear_arith)
        requires
            total == q * size + r,
            0 <= r < size,
            total >= 0,
    ;
    if k < q {
        assert(k * size + size <= q * size) by (nonlinear_arith)
            requires
                k + 1 <= q,
                size > 0,
        ;
    } else {
        assert(k * size >= q * size) by (nonlinear_arith)
            requires
                k >= q,
                size > 0,
        ;
    }
}

/// The first entry of the chunk after `k` is one chunk further on.
pub proof fn lemma_next_chunk(size: nat, k: int)
    ensures
        (k + 1) * size == k * size + size,
{
    assert((k + 1) * size == k * size + size) by (nonlinear_arith);
}

} // verus!
