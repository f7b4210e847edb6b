//! Words, numbers and references in text.

use vstd::prelude::*;

use crate::text::{all_digits, decimal, is_space, split_words, unsigned, unsigned_list, without_hashes};
use crate::text::words;

verus! {

/// Whether a text is one word: not empty, and without white space.
pub open spec fn is_word(text: Seq<char>) -> bool {
    text.len() > 0 && forall|i: int| 0 <= i < text.len() ==> !is_space(#[trigger] text[i])
}

/// A text without its white space.
pub open spec fn letters(text: Seq<char>) -> Seq<char>
    decreases text.len(),
{
    if text.len() == 0 {
        Seq::empty()
    } else if is_space(text.last()) {
        letters(text.drop_last())
    } else {
        letters(text.drop_last()).push(text.last())
    }
}

/// Texts one after the other.
pub open spec fn concatenated(list: Seq<Seq<char>>) -> Seq<char>
    decreases list.len(),
{
    if list.len() == 0 {
        Seq::empty()
    } else {
        concatenated(list.drop_last()) + list.last()
    }
}

/// Texts one after the other, with a space after each.
pub open spec fn spaced(list: Seq<Seq<char>>) -> Seq<char>
    decreases list.len(),
{
    if list.len() == 0 {
        Seq::empty()
    } else {
        spaced(list.drop_last()) + list.last().push(' ')
    }
}

proof fn lemma_split_words(text: Seq<char>)
    ensures
        forall|i: int| 0 <= i < split_words(text).0.len() ==> is_word(#[trigger] split_words(text).0[i]),
        split_words(text).1.len() > 0 ==> is_word(split_words(text).1),
        letters(text) == concatenated(split_words(text).0) + split_words(text).1,
    decreases text.len(),
{
    let (ended, open) = split_words(text);
    if text.len() > 0 {
        let (ended_before, open_before) = split_words(text.drop_last());
        lemma_split_words(text.drop_last());
        if !is_space(text.last()) {
            assert(open == open_before.push(text.last()));
            assert forall|i: int| 0 <= i < open.len() implies !is_space(#[trigger] open[i]) by {
                if i < open_before.len() {
                    assert(open[i] == open_before[i]);
                }
            }
            assert(letters(text) =~= concatenated(ended) + open);
        } else if open_before.len() > 0 {
            assert(ended == ended_before.push(open_before));
            assert(ended.drop_last() =~= ended_before);
            assert(letters(text) =~= concatenated(ended) + open);
            assert forall|i: int| 0 <= i < ended.len() implies is_word(#[trigger] ended[i]) by {
                if i < ended_before.len() {
                    assert(ended[i] == ended_before[i]);
                }
            }
        }
    } else {
        assert(letters(text) =~= concatenated(ended) + open);
    }
}

/// The words of a text are words, and together they are all of the text but its
/// white space, in order.
pub proof fn law_words_are_all_but_space(text: Seq<char>)
    ensures
        forall|i: int| 0 <= i < words(text).len() ==> is_word(#[trigger] words(text)[i]),
        concatenated(words(text)) == letters(text),
{
    let (ended, open) = split_words(text);
    lemma_split_words(text);
    if open.len() > 0 {
        assert(ended.push(open).drop_last() =~= ended);
    } else {
        assert(concatenated(ended) + open =~= concatenated(ended));
    }
}

/// Without white space in it, more text only makes the last word longer.
proof fn lemma_split_words_goes_on(text: Seq<char>, more: Seq<char>)
    requires
        forall|i: int| 0 <= i < more.len() ==> !is_space(#[trigger] more[i]),
    ensures
        split_words(text + more).0 == split_words(text).0,
        split_words(text + more).1 == split_words(text).1 + more,
    decreases more.len(),
{
    if more.len() == 0 {
        assert(text + more =~= text);
        assert(split_words(text).1 + more =~= split_words(text).1);
    } else {
        let shorter = more.drop_last();
        assert forall|i: int| 0 <= i < shorter.len() implies !is_space(#[trigger] shorter[i]) by {
            assert(shorter[i] == more[i]);
        }
        lemma_split_words_goes_on(text, shorter);
        assert((text + more).drop_last() =~= text + shorter);
        assert((text + more).last() == more.last());
        assert(!is_space(more[more.len() - 1]));
        assert(split_words(text + more).1 =~= split_words(text).1 + more);
    }
}

proof fn lemma_split_spaced(list: Seq<Seq<char>>)
    requires
        forall|i: int| 0 <= i < list.len() ==> is_word(#[trigger] list[i]),
    ensures
        split_words(spaced(list)).0 == list,
        split_words(spaced(list)).1.len() == 0,
    decreases list.len(),
{
    if list.len() == 0 {
        assert(split_words(spaced(list)).0 =~= list);
    } else {
        let shorter = list.drop_last();
        let last = list.last();
        assert forall|i: int| 0 <= i < shorter.len() implies is_word(#[trigger] shorter[i]) by {
            assert(shorter[i] == list[i]);
        }
        lemma_split_spaced(shorter);
        assert(is_word(list[list.len() - 1]));
        lemma_split_words_goes_on(spaced(shorter), last);
        assert(split_words(spaced(shorter)).1 + last =~= last);
        assert(spaced(list).drop_last() =~= spaced(shorter) + last);
        assert(spaced(list).last() == ' ');
        assert(split_words(spaced(list)).0 =~= list);
    }
}

/// Words that are written with a space after each are read back, and so they are
/// without the space after the last.
pub proof fn law_words_read_back(list: Seq<Seq<char>>)
    requires
        forall|i: int| 0 <= i < list.len() ==> is_word(#[trigger] list[i]),
    ensures
        words(spaced(list)) == list,
        list.len() > 0 ==> words(spaced(list).drop_last()) == list,
{
    lemma_split_spaced(list);
    if list.len() > 0 {
        let shorter = list.drop_last();
        let last = list.last();
        assert forall|i: int| 0 <= i < shorter.len() implies is_word(#[trigger] shorter[i]) by {
            assert(shorter[i] == list[i]);
        }
        lemma_split_spaced(shorter);
        assert(is_word(list[list.len() - 1]));
        lemma_split_words_goes_on(spaced(shorter), last);
        assert(spaced(list).drop_last() =~= spaced(shorter) + last);
        assert(split_words(spaced(shorter)).1 + last =~= last);
        assert(shorter.push(last) =~= list);
    }
}

/// A number in decimal digits, without zeros before it.
pub open spec fn written(n: nat) -> Seq<char>
    decreases n,
{
    let digit = ('0' as int + n % 10) as char;
    if n < 10 {
        seq![digit]
    } else {
        written(n / 10).push(digit)
    }
}

proof fn lemma_written(n: nat)
    ensures
        written(n).len() > 0,
        all_digits(written(n)),
        decimal(written(n)) == n,
    decreases n,
{
    let digit = ('0' as int + n % 10) as char;
    assert(digit as int == '0' as int + n % 10);
    if n < 10 {
        reveal_with_fuel(decimal, 2);
        assert(written(n).drop_last() =~= Seq::empty());
    } else {
        lemma_written(n / 10);
        let before = written(n / 10);
        assert(written(n).drop_last() =~= before);
        assert forall|i: int| 0 <= i < written(n).len() implies '0' <= #[trigger] written(n)[i]
            <= '9' by {
            if i < before.len() {
                assert(written(n)[i] == before[i]);
            }
        }
    }
}

/// A number is read back from its decimal digits, also with a `+` before them.
pub proof fn law_unsigned_reads_back(n: usize)
    ensures
        unsigned(written(n as nat)) == Some(n),
        unsigned(seq!['+'] + written(n as nat)) == Some(n),
{
    let digits = written(n as nat);
    lemma_written(n as nat);
    assert('0' <= digits[0] <= '9');
    assert((seq!['+'] + digits).drop_first() =~= digits);
}

/// What is left of a reference is its end, which does not begin with `#`; what
/// is taken off is nothing but `#`.
pub proof fn law_only_hashes_are_stripped(text: Seq<char>)
    ensures
        ({
            let left = without_hashes(text);
            let off = text.len() - left.len();
            &&& off >= 0
            &&& left == text.skip(off)
            &&& left.len() > 0 ==> left[0] != '#'
            &&& forall|i: int| 0 <= i < off ==> #[trigger] text[i] == '#'
        }),
    decreases text.len(),
{
    let left = without_hashes(text);
    if text.len() > 0 && text[0] == '#' {
        let rest = text.drop_first();
        law_only_hashes_are_stripped(rest);
        let off = text.len() - left.len();
        assert(left =~= text.skip(off));
        assert forall|i: int| 0 <= i < off implies #[trigger] text[i] == '#' by {
            if i > 0 {
                assert(rest[i - 1] == text[i]);
            }
        }
    } else {
        assert(text.skip(0) =~= text);
    }
}

/// White space is the space, the tabulator, the line feed and the carriage
/// return, and nothing else.
pub proof fn law_white_space(c: char)
    ensures
        is_space(c) <==> (c as u32 == 32 || c as u32 == 9 || c as u32 == 10 || c as u32 == 13),
{
}

proof fn lemma_split_after_space(a: Seq<char>, c: char, b: Seq<char>)
    requires
        is_space(c),
    ensures
        split_words(a.push(c) + b).0 == words(a) + split_words(b).0,
        split_words(a.push(c) + b).1 == split_words(b).1,
    decreases b.len(),
{
    let text = a.push(c) + b;
    if b.len() == 0 {
        assert(text =~= a.push(c));
        assert(text.drop_last() =~= a);
        assert(words(a) + split_words(b).0 =~= words(a));
        assert(split_words(text).1 =~= Seq::empty());
    } else {
        lemma_split_after_space(a, c, b.drop_last());
        assert(text.drop_last() =~= a.push(c) + b.drop_last());
        assert(text.last() == b.last());
        assert(split_words(text).0 =~= words(a) + split_words(b).0);
    }
}

/// At any white space a text falls into two whose words are its words. A text
/// without white space is one word, and an empty one has none.
pub proof fn law_words_split_at_white_space(a: Seq<char>, c: char, b: Seq<char>, word: Seq<char>)
    requires
        c as u32 == 32 || c as u32 == 9 || c as u32 == 10 || c as u32 == 13,
        is_word(word),
    ensures
        words(a.push(c) + b) == words(a) + words(b),
        words(word) == seq![word],
        words(Seq::empty()).len() == 0,
{
    lemma_split_after_space(a, c, b);
    assert(words(a.push(c) + b) =~= words(a) + words(b));
    lemma_split_words_goes_on(Seq::empty(), word);
    assert(Seq::<char>::empty() + word =~= word);
    assert(words(word) =~= seq![word]);
}

/// Zeros.
pub open spec fn zeros(n: nat) -> Seq<char> {
    Seq::new(n, |i: int| '0')
}

proof fn lemma_digits_are_written(s: Seq<char>) -> (z: nat)
    requires
        s.len() > 0,
        all_digits(s),
    ensures
        s == zeros(z) + written(decimal(s)),
    decreases s.len(),
{
    let d = (s.last() as int - '0' as int) as nat;
    let c = s.last();
    assert('0' <= s[s.len() - 1] <= '9');
    assert(0 <= d <= 9);
    assert(('0' as int + d) as char == c);
    let t = s.drop_last();
    let m = decimal(t);
    assert(decimal(s) == 10 * m + d);
    if t.len() == 0 {
        assert(m == 0);
        assert(written(d) =~= seq![c]);
        assert(s =~= zeros(0) + written(d));
        0
    } else {
        assert forall|i: int| 0 <= i < t.len() implies '0' <= #[trigger] t[i] <= '9' by {
            assert(t[i] == s[i]);
        }
        let z = lemma_digits_are_written(t);
        assert(s =~= t.push(c));
        if m == 0 {
            assert(written(0) =~= seq!['0']);
            assert(written(d) =~= seq![c]);
            assert(s =~= zeros(z + 1) + written(d));
            z + 1
        } else {
            assert((10 * m + d) / 10 == m && (10 * m + d) % 10 == d);
            assert(written(10 * m + d) =~= written(m).push(c));
            assert(s =~= zeros(z) + written(10 * m + d));
            z
        }
    }
}

proof fn lemma_zeros_before(z: nat, n: nat)
    ensures
        all_digits(zeros(z) + written(n)),
        decimal(zeros(z) + written(n)) == n,
        (zeros(z) + written(n)).len() > 0,
{
    let s = zeros(z) + written(n);
    lemma_written(n);
    assert forall|i: int| 0 <= i < s.len() implies '0' <= #[trigger] s[i] <= '9' by {
        if i >= z {
            assert(s[i] == written(n)[i - z]);
        }
    }
    lemma_decimal_after_zeros(z, written(n));
}

proof fn lemma_decimal_after_zeros(z: nat, digits: Seq<char>)
    ensures
        decimal(zeros(z) + digits) == decimal(digits),
    decreases z + digits.len(),
{
    let s = zeros(z) + digits;
    if digits.len() == 0 {
        assert(s =~= zeros(z));
        if z > 0 {
            lemma_decimal_after_zeros((z - 1) as nat, digits);
            assert(zeros((z - 1) as nat) + digits =~= zeros((z - 1) as nat));
            assert(zeros(z).drop_last() =~= zeros((z - 1) as nat));
        }
    } else {
        lemma_decimal_after_zeros(z, digits.drop_last());
        assert(s.drop_last() =~= zeros(z) + digits.drop_last());
        assert(s.last() == digits.last());
    }
}

/// A text writes an unsigned number exactly when it is the decimal digits of the
/// number, with any zeros before them and at most one `+` before those.
pub proof fn law_unsigned_texts(text: Seq<char>, n: usize)
    ensures
        unsigned(text) == Some(n) <==> exists|z: nat|
            text == #[trigger] zeros(z) + written(n as nat) || text == seq!['+'] + (zeros(z)
                + written(n as nat)),
{
    let m = n as nat;
    if unsigned(text) == Some(n) {
        let signed = text.len() > 0 && text[0] == '+';
        let digits = if signed {
            text.drop_first()
        } else {
            text
        };
        let z = lemma_digits_are_written(digits);
        assert(digits == zeros(z) + written(m));
        if signed {
            assert(text =~= seq!['+'] + digits);
        }
    }
    if exists|z: nat|
        text == #[trigger] zeros(z) + written(m) || text == seq!['+'] + (zeros(z) + written(m)) {
        let z = choose|z: nat|
            text == #[trigger] zeros(z) + written(m) || text == seq!['+'] + (zeros(z) + written(m));
        let digits = zeros(z) + written(m);
        lemma_zeros_before(z, m);
        assert('0' <= digits[0] <= '9');
        assert((seq!['+'] + digits).drop_first() =~= digits);
        assert((seq!['+'] + digits)[0] == '+');
    }
}

/// A list of words writes numbers exactly when each of them does, and then one
/// for each, in order.
pub proof fn law_unsigned_lists(list: Seq<Seq<char>>)
    ensures
        unsigned_list(list) is Some <==> forall|i: int|
            0 <= i < list.len() ==> unsigned(#[trigger] list[i]) is Some,
        unsigned_list(list) matches Some(numbers) ==> numbers.len() == list.len() && forall|i: int|
            0 <= i < list.len() ==> unsigned(#[trigger] list[i]) == Some(numbers[i]),
{
}

} // verus!
