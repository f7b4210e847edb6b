//! Which texts are within the limits of the XML parser.

use vstd::prelude::*;

use crate::xml_tree::{cdata_opening, column, counters_hold, ends_in_opening, line, open_brackets};
use crate::xml_tree::within_limits;

verus! {

/// The lines of two texts together are those of the first and those of the
/// second, the line in which they meet counted once. Only a line feed begins a
/// line.
pub proof fn law_lines_add_up(a: Seq<char>, b: Seq<char>, c: char)
    ensures
        line(a + b) + 1 == line(a) + line(b),
        line(Seq::empty()) == 1,
        line(seq![c]) == (if c as u32 == 10 {
            2nat
        } else {
            1nat
        }),
    decreases b.len(),
{
    reveal_with_fuel(line, 2);
    assert(seq![c].drop_last() =~= Seq::empty());
    if b.len() == 0 {
        assert(a + b =~= a);
    } else {
        law_lines_add_up(a, b.drop_last(), c);
        assert((a + b).drop_last() =~= a + b.drop_last());
        assert((a + b).last() == b.last());
    }
}

/// A text that begins a line ends in as many characters of it as follow, and
/// each character that is no line feed counts for one.
pub proof fn law_columns_count_from_the_line_feed(a: Seq<char>, b: Seq<char>)
    requires
        forall|i: int| 0 <= i < b.len() ==> #[trigger] b[i] as u32 != 10,
    ensures
        column(a + b) == column(a) + b.len(),
        column(a.push('\n') + b) == b.len(),
        column(b) == b.len(),
    decreases b.len(),
{
    if b.len() == 0 {
        assert(a + b =~= a);
        assert(a.push('\n') + b =~= a.push('\n'));
    } else {
        let shorter = b.drop_last();
        assert forall|i: int| 0 <= i < shorter.len() implies #[trigger] shorter[i] as u32 != 10 by {
            assert(b[i] as u32 != 10);
        }
        law_columns_count_from_the_line_feed(a, shorter);
        assert(b[b.len() - 1] as u32 != 10);
        assert((a + b).drop_last() =~= a + shorter);
        assert((a + b).last() == b.last());
        assert((a.push('\n') + b).drop_last() =~= a.push('\n') + shorter);
        assert((a.push('\n') + b).last() == b.last());
    }
}

proof fn lemma_counts_are_small(text: Seq<char>)
    ensures
        line(text) <= text.len() + 1,
        column(text) <= text.len(),
    decreases text.len(),
{
    if text.len() > 0 {
        lemma_counts_are_small(text.drop_last());
    }
}

/// Whether a text nowhere opens a section of character data.
pub open spec fn opens_nothing(text: Seq<char>) -> bool {
    forall|i: int| 0 <= i && i + 9 <= text.len() ==> #[trigger] text.subrange(i, i + 9) != "<![CDATA["@
}

proof fn lemma_opening()
    ensures
        cdata_opening() == "<![CDATA["@,
{
    reveal_strlit("<![CDATA[");
    assert(cdata_opening() =~= "<![CDATA["@);
}

proof fn lemma_nothing_is_open(text: Seq<char>, k: int)
    requires
        opens_nothing(text),
        0 <= k <= text.len(),
    ensures
        open_brackets(text.take(k)) is None,
    decreases k,
{
    let upto = text.take(k);
    if k > 0 {
        lemma_nothing_is_open(text, k - 1);
        assert(upto.drop_last() =~= text.take(k - 1));
        if ends_in_opening(upto) {
            lemma_opening();
            assert(upto.skip(k - 9) =~= text.subrange(k - 9, k - 9 + 9));
        }
    }
}

/// A text that opens no section of character data and has fewer characters than
/// 32 bits can count is within the limits.
pub proof fn law_plain_texts_are_within_limits(text: Seq<char>)
    requires
        text.len() < u32::MAX,
        opens_nothing(text),
    ensures
        within_limits(text),
{
    assert forall|k: int| 0 <= k <= text.len() implies counters_hold(#[trigger] text.take(k)) by {
        lemma_counts_are_small(text.take(k));
        lemma_nothing_is_open(text, k);
    }
}

/// Whether one of 256 characters from `i` on is no closing bracket.
pub open spec fn run_ends(text: Seq<char>, i: int) -> bool {
    exists|j: int| i <= j < i + 256 && #[trigger] text[j] != ']'
}

proof fn lemma_run_is_there(text: Seq<char>, k: int)
    requires
        0 <= k <= text.len(),
        open_brackets(text.take(k)) is Some,
    ensures
        open_brackets(text.take(k))->0 <= k,
        forall|j: int| k - open_brackets(text.take(k))->0 <= j < k ==> #[trigger] text[j] == ']',
    decreases k,
{
    let upto = text.take(k);
    if k > 0 {
        assert(upto.drop_last() =~= text.take(k - 1));
        assert(upto.last() == text[k - 1]);
        if open_brackets(text.take(k - 1)) is Some {
            lemma_run_is_there(text, k - 1);
        }
    }
}

/// A text with short runs of closing brackets and fewer characters than 32 bits
/// can count is within the limits, whatever it opens.
pub proof fn law_texts_with_short_runs_are_within_limits(text: Seq<char>)
    requires
        text.len() < u32::MAX,
        forall|i: int| 0 <= i && i + 256 <= text.len() ==> #[trigger] run_ends(text, i),
    ensures
        within_limits(text),
{
    assert forall|k: int| 0 <= k <= text.len() implies counters_hold(#[trigger] text.take(k)) by {
        lemma_counts_are_small(text.take(k));
        if open_brackets(text.take(k)) is Some {
            lemma_run_is_there(text, k);
            let run = open_brackets(text.take(k))->0;
            if run >= 256 {
                assert(run_ends(text, k - 256));
                let j = choose|j: int| k - 256 <= j < k - 256 + 256 && #[trigger] text[j] != ']';
                assert(text[j] == ']');
            }
        }
    }
}

/// Closing brackets.
pub open spec fn brackets(n: nat) -> Seq<char> {
    Seq::new(n, |i: int| ']')
}

proof fn lemma_run_grows(text: Seq<char>, n: nat)
    requires
        open_brackets(text) == Some(0nat),
    ensures
        open_brackets(text + brackets(n)) == Some(n),
    decreases n,
{
    if n == 0 {
        assert(text + brackets(n) =~= text);
    } else {
        let m = (n - 1) as nat;
        lemma_run_grows(text, m);
        assert((text + brackets(n)).drop_last() =~= text + brackets(m));
        assert((text + brackets(n)).last() == ']');
    }
}

/// A text that opens a section of character data which 256 closing brackets stand
/// at the beginning of is beyond the limits, whatever stands before and after.
pub proof fn law_long_runs_are_beyond_limits(before: Seq<char>, after: Seq<char>)
    ensures
        !within_limits(before + "<![CDATA["@ + brackets(256) + after),
{
    lemma_opening();
    let opening = cdata_opening();
    let head = before + opening;
    let text = head + brackets(256) + after;
    assert(head.skip(head.len() - 9) =~= opening);
    assert(head.last() == '[');
    assert(open_brackets(head) == Some(0nat));
    lemma_run_grows(head, 256);
    let upto = text.take(head.len() as int + 256);
    assert(upto =~= head + brackets(256));
    assert(!counters_hold(upto));
}

/// A text with a line beyond what 32 bits can count, or with more lines than
/// that, is beyond the limits.
pub proof fn law_many_lines_are_beyond_limits(text: Seq<char>, k: int)
    requires
        0 <= k <= text.len(),
        line(text.take(k)) > u32::MAX || column(text.take(k)) > u32::MAX,
    ensures
        !within_limits(text),
{
    assert(!counters_hold(text.take(k)));
}

/// Whether a text nowhere closes a section of character data.
pub open spec fn closes_nothing(text: Seq<char>) -> bool {
    forall|i: int| 0 <= i && i + 3 <= text.len() ==> #[trigger] text.subrange(i, i + 3) != "]]>"@
}

/// Whether a text ends in `run` closing brackets and not in more.
pub open spec fn ends_in_brackets(text: Seq<char>, run: nat) -> bool {
    &&& run <= text.len()
    &&& forall|j: int| text.len() - run <= j < text.len() ==> #[trigger] text[j] == ']'
    &&& run < text.len() ==> text[text.len() - run - 1] != ']'
}

proof fn lemma_inside_section(before: Seq<char>, content: Seq<char>)
    requires
        closes_nothing(content),
    ensures
        open_brackets(before + cdata_opening() + content) is Some,
        ends_in_brackets(content, open_brackets(before + cdata_opening() + content)->0),
    decreases content.len(),
{
    let head = before + cdata_opening();
    let text = head + content;
    if content.len() == 0 {
        assert(text =~= head);
        assert(head.skip(head.len() - 9) =~= cdata_opening());
        assert(head.last() == '[');
    } else {
        let shorter = content.drop_last();
        let n = shorter.len() as int;
        assert forall|i: int| 0 <= i && i + 3 <= shorter.len() implies #[trigger] shorter.subrange(
            i,
            i + 3,
        ) != "]]>"@ by {
            assert(shorter.subrange(i, i + 3) =~= content.subrange(i, i + 3));
        }
        lemma_inside_section(before, shorter);
        assert(text.drop_last() =~= head + shorter);
        assert(text.last() == content.last());
        let run = open_brackets(head + shorter)->0;
        if content.last() == '>' && run >= 2 {
            reveal_strlit("]]>");
            assert(shorter[n - 1] == ']' && shorter[n - 2] == ']');
            assert(content.subrange(n - 2, n - 2 + 3) =~= "]]>"@);
        }
        if content.last() == ']' {
            assert forall|j: int| content.len() - (run + 1) <= j < content.len() implies
                #[trigger] content[j] == ']' by {
                if j < n {
                    assert(shorter[j] == ']');
                }
            }
            if run < shorter.len() {
                assert(shorter[n - run - 1] != ']');
            }
        }
    }
}

/// After an opening a section of character data goes on up to the first `]]>`,
/// and the brackets that are counted in it are those that the text ends in. The
/// `]]>` ends it.
pub proof fn law_sections_end_where_they_are_closed(before: Seq<char>, content: Seq<char>, run: nat)
    requires
        closes_nothing(content),
        ends_in_brackets(content, run),
    ensures
        open_brackets(before + "<![CDATA["@ + content) == Some(run),
        open_brackets(before + "<![CDATA["@ + content + "]]>"@) is None,
{
    lemma_opening();
    lemma_inside_section(before, content);
    let text = before + cdata_opening() + content;
    let found = open_brackets(text)->0;
    let n = content.len() as int;
    if found < run {
        assert(content[n - found - 1] != ']');
    } else if run < found {
        assert(content[n - run - 1] != ']');
    }
    reveal_strlit("]]>");
    let one = text.push(']');
    let two = one.push(']');
    let three = two.push('>');
    assert(one.drop_last() =~= text);
    assert(two.drop_last() =~= one);
    assert(three.drop_last() =~= two);
    assert(open_brackets(one) == Some(run + 1));
    assert(open_brackets(two) == Some(run + 2));
    assert(open_brackets(three) is None);
    assert(text + "]]>"@ =~= three);
}

} // verus!
