//! Numbers, and the matrices made of them.

use vstd::prelude::*;

use crate::number::{cells, cells_of_all, identity_cells, matrices, number_list, pose_cells};
use crate::number::{Matrix4, Number};

verus! {

/// Zero has no bits set; one has the bits of the exponent for one. A number
/// vanishes exactly when no bit of its single value but that of the sign is set.
pub proof fn law_bit_patterns(n: Number)
    ensures
        Number::zero_number().single == 0 && Number::zero_number().double == 0,
        Number::one_number().single == 127 * 0x80_0000,
        Number::one_number().double == 1023 * 0x10_0000_0000_0000,
        n.vanishes() <==> n.single % 0x8000_0000 == 0,
        Number::zero_number().vanishes(),
{
}

/// Words write numbers exactly when each of them is a numeral, and then one
/// number for each, in order.
pub proof fn law_numerals_one_by_one(numerals: Map<Seq<char>, Number>, list: Seq<Seq<char>>)
    ensures
        number_list(numerals, list) is Some <==> forall|i: int|
            0 <= i < list.len() ==> numerals.contains_key(#[trigger] list[i]),
        number_list(numerals, list) matches Some(numbers) ==> numbers.len() == list.len() && forall|
            i: int,
        |
            0 <= i < list.len() ==> numbers[i] == numerals[#[trigger] list[i]],
{
}

/// The cells of a matrix go row by row: the one in row `r` and column `c` is
/// number `4 r + c` of sixteen.
pub proof fn law_cells_go_row_by_row(m: Matrix4, r: int, c: int)
    requires
        0 <= r < 4,
        0 <= c < 4,
    ensures
        cells(m).len() == 16,
        cells(m)[4 * r + c] == m@[r]@[c],
{
}

/// Each of a list of matrices has its own cells.
pub proof fn law_cells_of_all(list: Seq<Matrix4>)
    ensures
        cells_of_all(list).len() == list.len(),
        forall|i: int| 0 <= i < list.len() ==> #[trigger] cells_of_all(list)[i] == cells(list[i]),
{
}

/// The identity matrix has one where row and column are the same, and zero
/// everywhere else.
pub proof fn law_identity(r: int, c: int)
    requires
        0 <= r < 4,
        0 <= c < 4,
    ensures
        identity_cells().len() == 16,
        r == c ==> identity_cells()[4 * r + c] == Number::one_number(),
        r != c ==> identity_cells()[4 * r + c] == Number::zero_number(),
{
}

/// A pose takes its cells from the numbers as far as there are numbers, and from
/// the identity matrix from there on.
pub proof fn law_pose(numbers: Seq<Number>, k: int)
    requires
        0 <= k < 16,
    ensures
        pose_cells(numbers).len() == 16,
        k < numbers.len() ==> pose_cells(numbers)[k] == numbers[k],
        k >= numbers.len() && k / 4 == k % 4 ==> pose_cells(numbers)[k] == Number::one_number(),
        k >= numbers.len() && k / 4 != k % 4 ==> pose_cells(numbers)[k] == Number::zero_number(),
{
}

/// A list of numbers holds as many matrices as it has sixteens; cell `c` of
/// matrix `i` is number `16 i + c`.
pub proof fn law_matrices_cell_by_cell(numbers: Seq<Number>, i: int, c: int)
    requires
        0 <= i < numbers.len() / 16,
        0 <= c < 16,
    ensures
        matrices(numbers).len() == numbers.len() / 16,
        matrices(numbers)[i].len() == 16,
        matrices(numbers)[i][c] == numbers[16 * i + c],
{
}

/// Of fewer than sixteen numbers there is no matrix.
pub proof fn law_no_matrix_of_few_numbers(numbers: Seq<Number>)
    requires
        numbers.len() < 16,
    ensures
        matrices(numbers).len() == 0,
{
}

} // verus!
