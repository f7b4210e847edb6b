//! Text: lists of words, decimal numbers, and the `#` of references.

use vstd::prelude::*;

verus! {

/// `==` on `str` from std: it compares the two texts character by character,
/// so it holds exactly when they hold the same characters.
pub assume_specification[ <str as PartialEq>::eq ](a: &str, b: &str) -> (r: bool)
    ensures
        r == (a@ == b@),
;

/// `String::push` from std: it appends the character to the end of the text
/// and leaves the rest as it was.
pub assume_specification[ String::push ](s: &mut String, c: char)
    ensures
        final(s)@ == old(s)@.push(c),
;

/// The texts that a list of strings holds.
pub open spec fn texts(list: Seq<String>) -> Seq<Seq<char>> {
    Seq::new(list.len(), |i: int| list[i]@)
}

/// The white space of XML.
pub open spec fn is_space(c: char) -> bool {
    c == ' ' || c == '\t' || c == '\n' || c == '\r'
}

/// The words that have ended in `text`, and the one that its end is part of.
pub open spec fn split_words(text: Seq<char>) -> (Seq<Seq<char>>, Seq<char>)
    decreases text.len(),
{
    if text.len() == 0 {
        (Seq::empty(), Seq::empty())
    } else {
        let (ended, open) = split_words(text.drop_last());
        if !is_space(text.last()) {
            (ended, open.push(text.last()))
        } else if open.len() == 0 {
            (ended, open)
        } else {
            (ended.push(open), Seq::empty())
        }
    }
}

/// The words of a text: its longest runs without white space, in order.
pub open spec fn words(text: Seq<char>) -> Seq<Seq<char>> {
    let (ended, open) = split_words(text);
    if open.len() == 0 {
        ended
    } else {
        ended.push(open)
    }
}

/// Whether every character is a decimal digit.
pub open spec fn all_digits(s: Seq<char>) -> bool {
    forall|i: int| 0 <= i < s.len() ==> '0' <= #[trigger] s[i] <= '9'
}

/// The number that a sequence of decimal digits writes.
pub open spec fn decimal(s: Seq<char>) -> nat
    decreases s.len(),
{
    if s.len() == 0 {
        0
    } else {
        (10 * decimal(s.drop_last()) + (s.last() as int - '0' as int)) as nat
    }
}

/// The unsigned number that a text writes: digits with at most a `+` before
/// them, and no value that `usize` cannot hold.
pub open spec fn unsigned(s: Seq<char>) -> Option<usize> {
    let digits = if s.len() > 0 && s[0] == '+' {
        s.drop_first()
    } else {
        s
    };
    if digits.len() > 0 && all_digits(digits) && decimal(digits) <= usize::MAX {
        Some(decimal(digits) as usize)
    } else {
        None
    }
}

/// The text without the `#` characters that it begins with.
pub open spec fn without_hashes(s: Seq<char>) -> Seq<char>
    decreases s.len(),
{
    if s.len() > 0 && s[0] == '#' {
        without_hashes(s.drop_first())
    } else {
        s
    }
}

/// The place of the first text in a list that is the given one, or the length of
/// the list where none is.
pub open spec fn first_place(list: Seq<Seq<char>>, text: Seq<char>) -> nat
    decreases list.len(),
{
    if list.len() == 0 || list[0] == text {
        0
    } else {
        1 + first_place(list.drop_first(), text)
    }
}

/// The numbers that a list of words writes, or nothing where one of them
/// writes none.
pub open spec fn unsigned_list(list: Seq<Seq<char>>) -> Option<Seq<usize>> {
    if forall|i: int| 0 <= i < list.len() ==> unsigned(#[trigger] list[i]) is Some {
        Some(Seq::new(list.len(), |i: int| unsigned(list[i])->0))
    } else {
        None
    }
}

/// The characters of a text, one by one.
pub fn chars_of(s: &str) -> (r: Vec<char>)
    ensures
        r@ == s@,
{
    let mut out: Vec<char> = Vec::new();
    for c in it: s.chars()
        invariant
            it.seq() == s@,
            out@ == s@.take(it.index() as int),
    {
        out.push(c);
    }
    out
}

/// The words of a text.
pub fn words_of(s: &str) -> (r: Vec<String>)
    ensures
        texts(r@) == words(s@),
{
    let mut ended: Vec<String> = Vec::new();
    let mut open = String::new();
    let mut open_len: usize = 0;
    assert(texts(ended@) =~= Seq::empty());
    for c in it: s.chars()
        invariant
            it.seq() == s@,
            texts(ended@) == split_words(s@.take(it.index() as int)).0,
            open@ == split_words(s@.take(it.index() as int)).1,
            (open_len == 0) == (open@.len() == 0),
    {
        let ghost next = s@.take(it.index() + 1);
        assert(next.drop_last() =~= s@.take(it.index() as int));
        assert(next.last() == c);
        if c == ' ' || c == '\t' || c == '\n' || c == '\r' {
            if open_len != 0 {
                let ghost before = ended@;
                ended.push(open);
                assert(texts(ended@) =~= texts(before).push(open@));
                open = String::new();
                open_len = 0;
            }
        } else {
            open.push(c);
            open_len = 1;
        }
    }
    assert(s@.take(s@.len() as int) =~= s@);
    if open_len != 0 {
        let ghost before = ended@;
        ended.push(open);
        assert(texts(ended@) =~= texts(before).push(open@));
    }
    ended
}

/// A decimal number only grows as digits are appended to it.
proof fn lemma_decimal_grows(s: Seq<char>, k: int)
    requires
        0 <= k <= s.len(),
        all_digits(s),
    ensures
        decimal(s.take(k)) <= decimal(s),
    decreases s.len() - k,
{
    if k == s.len() {
        assert(s.take(k) =~= s);
    } else {
        let longer = s.take(k + 1);
        assert(longer.drop_last() =~= s.take(k));
        lemma_decimal_grows(s, k + 1);
    }
}

/// Reads an unsigned number.
pub fn parse_unsigned(s: &str) -> (r: Option<usize>)
    ensures
        r == unsigned(s@),
{
    let chars = chars_of(s);
    let start: usize = if chars.len() > 0 && chars[0] == '+' {
        1
    } else {
        0
    };
    let ghost digits = if s@.len() > 0 && s@[0] == '+' {
        s@.drop_first()
    } else {
        s@
    };
    assert(digits =~= s@.skip(start as int));
    if start == chars.len() {
        return None;
    }
    let mut value: usize = 0;
    let mut i: usize = start;
    while i < chars.len()
        invariant
            start <= i <= chars@.len(),
            chars@ == s@,
            digits == s@.skip(start as int),
            digits.len() == chars@.len() - start,
            unsigned(s@) == (if digits.len() > 0 && all_digits(digits) && decimal(digits)
                <= usize::MAX {
                Some(decimal(digits) as usize)
            } else {
                None
            }),
            all_digits(digits.take(i - start)),
            value == decimal(digits.take(i - start)),
        decreases chars.len() - i,
    {
        let c = chars[i];
        let ghost at = i - start;
        let ghost next = digits.take(at + 1);
        assert(digits[at] == c);
        assert(next.drop_last() =~= digits.take(at));
        if !('0' <= c && c <= '9') {
            return None;
        }
        let digit: usize = (c as u32 - '0' as u32) as usize;
        assert(decimal(next) == 10 * value + digit);
        assert(all_digits(next)) by {
            assert forall|k: int| 0 <= k < next.len() implies '0' <= #[trigger] next[k] <= '9' by {
                if k < at {
                    assert(digits.take(at)[k] == next[k]);
                }
            }
        }
        proof {
            if all_digits(digits) {
                lemma_decimal_grows(digits, at + 1);
            }
        }
        if value > (usize::MAX - digit) / 10 {
            return None;
        }
        value = 10 * value + digit;
        i = i + 1;
    }
    assert(digits.take(i - start) =~= digits);
    Some(value)
}

/// Reads a list of unsigned numbers.
pub fn parse_unsigned_list(list: &Vec<String>) -> (r: Option<Vec<usize>>)
    ensures
        match r {
            Some(v) => unsigned_list(texts(list@)) == Some(v@),
            None => unsigned_list(texts(list@)) is None,
        },
{
    let mut out: Vec<usize> = Vec::new();
    let ghost all = texts(list@);
    let mut i: usize = 0;
    while i < list.len()
        invariant
            i <= list@.len(),
            out@.len() == i,
            all == texts(list@),
            forall|k: int| 0 <= k < i ==> unsigned(#[trigger] all[k]) == Some(out@[k]),
        decreases list.len() - i,
    {
        assert(all[i as int] == list@[i as int]@);
        match parse_unsigned(list[i].as_str()) {
            Some(v) => {
                out.push(v);
            },
            None => {
                return None;
            },
        }
        i = i + 1;
    }
    assert(unsigned_list(all)->0 =~= out@);
    Some(out)
}

proof fn lemma_without_hashes_skips(s: Seq<char>, k: int)
    requires
        0 <= k <= s.len(),
        forall|i: int| 0 <= i < k ==> s[i] == '#',
    ensures
        without_hashes(s) == without_hashes(s.skip(k)),
    decreases k,
{
    if k == 0 {
        assert(s.skip(0) =~= s);
    } else {
        lemma_without_hashes_skips(s.drop_first(), k - 1);
        assert(s.drop_first().skip(k - 1) =~= s.skip(k));
    }
}

/// Strips the `#` characters that a text begins with.
pub fn strip_hashes(s: &str) -> (r: String)
    ensures
        r@ == without_hashes(s@),
{
    let chars = chars_of(s);
    let mut start: usize = 0;
    while start < chars.len() && chars[start] == '#'
        invariant
            start <= chars@.len(),
            chars@ == s@,
            forall|i: int| 0 <= i < start ==> s@[i] == '#',
        decreases chars.len() - start,
    {
        start = start + 1;
    }
    proof {
        lemma_without_hashes_skips(s@, start as int);
    }
    let mut out = String::new();
    let mut i: usize = start;
    while i < chars.len()
        invariant
            start <= i <= chars@.len(),
            out@ == chars@.subrange(start as int, i as int),
        decreases chars.len() - i,
    {
        out.push(chars[i]);
        assert(chars@.subrange(start as int, i + 1) =~= chars@.subrange(start as int, i as int).push(
            chars@[i as int],
        ));
        i = i + 1;
    }
    assert(out@ =~= s@.skip(start as int));
    out
}

} // verus!
