//! Numbers of a document, and matrices of them.

use vstd::hash_map::StringHashMap;
use vstd::prelude::*;

use crate::text::texts;

verus! {

/// A real number as a document writes it, read in single and in double
/// precision: the bit patterns of the two IEEE 754 values.
#[derive(Clone, Copy, PartialEq, Eq, Structural, Debug)]
pub struct Number {
    pub single: u32,
    pub double: u64,
}

/// The bit pattern of minus zero in single precision.
pub const SINGLE_MINUS_ZERO: u32 = 0x8000_0000;

/// The bit pattern of one in single precision.
pub const SINGLE_ONE: u32 = 0x3f80_0000;

/// The bit pattern of one in double precision.
pub const DOUBLE_ONE: u64 = 0x3ff0_0000_0000_0000;

impl Number {
    /// Zero.
    pub open spec fn zero_number() -> Number {
        Number { single: 0, double: 0 }
    }

    /// One.
    pub open spec fn one_number() -> Number {
        Number { single: SINGLE_ONE, double: DOUBLE_ONE }
    }

    /// Whether the number is zero, of either sign, in single precision.
    pub open spec fn vanishes(self) -> bool {
        self.single == 0 || self.single == SINGLE_MINUS_ZERO
    }

    /// Zero.
    pub fn zero() -> (r: Number)
        ensures
            r == Number::zero_number(),
    {
        Number { single: 0, double: 0 }
    }

    /// One.
    pub fn one() -> (r: Number)
        ensures
            r == Number::one_number(),
    {
        Number { single: SINGLE_ONE, double: DOUBLE_ONE }
    }

    /// Whether the number is zero, of either sign, in single precision.
    pub fn is_zero(&self) -> (r: bool)
        ensures
            r == self.vanishes(),
    {
        self.single == 0 || self.single == SINGLE_MINUS_ZERO
    }
}

/// The readings of the numerals that a document holds. A word without an entry
/// is no numeral.
pub struct Numerals {
    table: StringHashMap<Number>,
}

impl View for Numerals {
    type V = Map<Seq<char>, Number>;

    closed spec fn view(&self) -> Map<Seq<char>, Number> {
        self.table@
    }
}

/// The numbers that a list of words writes, or nothing where one of them is no
/// numeral.
pub open spec fn number_list(numerals: Map<Seq<char>, Number>, list: Seq<Seq<char>>) -> Option<
    Seq<Number>,
> {
    if forall|i: int| 0 <= i < list.len() ==> numerals.contains_key(#[trigger] list[i]) {
        Some(Seq::new(list.len(), |i: int| numerals[list[i]]))
    } else {
        None
    }
}

impl Numerals {
    /// No numerals.
    pub fn new() -> (r: Numerals)
        ensures
            r@ == Map::<Seq<char>, Number>::empty(),
    {
        Numerals { table: StringHashMap::new() }
    }

    /// Enters the reading of a numeral.
    pub fn define(&mut self, numeral: String, number: Number)
        ensures
            final(self)@ == old(self)@.insert(numeral@, number),
    {
        self.table.insert(numeral, number);
    }

    /// The reading of a word.
    pub fn read(&self, word: &str) -> (r: Option<Number>)
        ensures
            r == (if self@.contains_key(word@) {
                Some(self@[word@])
            } else {
                None
            }),
    {
        match self.table.get(word) {
            Some(n) => Some(*n),
            None => None,
        }
    }

    /// Reads a list of words.
    pub fn read_list(&self, list: &Vec<String>) -> (r: Option<Vec<Number>>)
        ensures
            match r {
                Some(v) => number_list(self@, texts(list@)) == Some(v@),
                None => number_list(self@, texts(list@)) is None,
            },
    {
        let mut out: Vec<Number> = Vec::new();
        let ghost all = texts(list@);
        let mut i: usize = 0;
        while i < list.len()
            invariant
                i <= list@.len(),
                out@.len() == i,
                all == texts(list@),
                forall|k: int|
                    0 <= k < i ==> self@.contains_key(#[trigger] all[k]) && self@[all[k]] == out@[k],
            decreases list.len() - i,
        {
            assert(all[i as int] == list@[i as int]@);
            match self.read(list[i].as_str()) {
                Some(v) => {
                    out.push(v);
                },
                None => {
                    return None;
                },
            }
            i = i + 1;
        }
        assert(number_list(self@, all)->0 =~= out@);
        Some(out)
    }
}

/// A matrix of four rows of four numbers.
pub type Matrix4 = [[Number; 4]; 4];

/// The cells of a matrix, row by row.
pub open spec fn cells(m: Matrix4) -> Seq<Number> {
    m@[0]@ + m@[1]@ + m@[2]@ + m@[3]@
}

/// The cells of each of a list of matrices.
pub open spec fn cells_of_all(list: Seq<Matrix4>) -> Seq<Seq<Number>> {
    Seq::new(list.len(), |i: int| cells(list[i]))
}

/// The cells of the identity matrix: one on the diagonal, zero elsewhere.
pub open spec fn identity_cells() -> Seq<Number> {
    Seq::new(
        16,
        |k: int|
            if k / 4 == k % 4 {
                Number::one_number()
            } else {
                Number::zero_number()
            },
    )
}

/// The identity matrix in which the first cells are replaced by the given
/// numbers, as far as they go.
pub open spec fn pose_cells(numbers: Seq<Number>) -> Seq<Number> {
    Seq::new(
        16,
        |k: int|
            if k < numbers.len() {
                numbers[k]
            } else {
                identity_cells()[k]
            },
    )
}

/// The matrices that a list of numbers holds, sixteen cells to a matrix.
pub open spec fn matrices(numbers: Seq<Number>) -> Seq<Seq<Number>> {
    Seq::new(numbers.len() / 16, |i: int| numbers.subrange(16 * i, 16 * i + 16))
}

/// The matrix of sixteen consecutive numbers.
pub fn matrix_at(numbers: &Vec<Number>, start: usize) -> (r: Matrix4)
    requires
        start + 16 <= numbers@.len(),
    ensures
        cells(r) == numbers@.subrange(start as int, start + 16),
{
    let s: usize = start;
    assert(numbers@.len() <= usize::MAX) by {
        assert(numbers.len() == numbers@.len());
    }
    let r = [
        [numbers[s], numbers[s + 1], numbers[s + 2], numbers[s + 3]],
        [numbers[s + 4], numbers[s + 5], numbers[s + 6], numbers[s + 7]],
        [numbers[s + 8], numbers[s + 9], numbers[s + 10], numbers[s + 11]],
        [numbers[s + 12], numbers[s + 13], numbers[s + 14], numbers[s + 15]],
    ];
    assert(cells(r) =~= numbers@.subrange(start as int, start + 16));
    r
}

/// The identity matrix.
pub fn mat4_id() -> (r: Matrix4)
    ensures
        cells(r) == identity_cells(),
{
    let one = Number::one();
    let zero = Number::zero();
    let r = [
        [one, zero, zero, zero],
        [zero, one, zero, zero],
        [zero, zero, one, zero],
        [zero, zero, zero, one],
    ];
    assert(cells(r) =~= identity_cells());
    r
}

/// The matrix of a pose: the identity matrix, its first cells replaced by the
/// given numbers, as far as they go.
pub fn pose_matrix(numbers: &Vec<Number>) -> (r: Matrix4)
    ensures
        cells(r) == pose_cells(numbers@),
{
    let mut all: Vec<Number> = Vec::new();
    let mut k: usize = 0;
    while k < 16
        invariant
            k <= 16,
            all@.len() == k,
            forall|j: int| 0 <= j < k ==> #[trigger] all@[j] == pose_cells(numbers@)[j],
        decreases 16 - k,
    {
        if k < numbers.len() {
            all.push(numbers[k]);
        } else if k / 4 == k % 4 {
            all.push(Number::one());
        } else {
            all.push(Number::zero());
        }
        k = k + 1;
    }
    assert(all@.subrange(0, 16) =~= pose_cells(numbers@));
    matrix_at(&all, 0)
}

/// The matrices that a list of numbers holds, sixteen cells to a matrix.
pub fn to_matrix_array(numbers: &Vec<Number>) -> (r: Vec<Matrix4>)
    ensures
        cells_of_all(r@) == matrices(numbers@),
{
    let mut out: Vec<Matrix4> = Vec::new();
    let count: usize = numbers.len() / 16;
    let mut i: usize = 0;
    while i < count
        invariant
            i <= count,
            count == numbers@.len() / 16,
            numbers@.len() <= usize::MAX,
            out@.len() == i,
            forall|j: int|
                0 <= j < i ==> cells(#[trigger] out@[j]) == numbers@.subrange(16 * j, 16 * j + 16),
        decreases count - i,
    {
        let m = matrix_at(numbers, 16 * i);
        out.push(m);
        i = i + 1;
    }
    assert(cells_of_all(out@) =~= matrices(numbers@));
    out
}

} // verus!
