//! Following inputs to their sources.

use vstd::prelude::*;
use vstd::set_lib::{lemma_int_range, lemma_len_subset, set_int_range};

use crate::document::{first_referenced, is_referenced, source_step, source_within};
use crate::document::{DocumentView, SourceStep};
use crate::element::{ElementView, NodeView};

verus! {

/// The input that following another for `steps` inputs comes to.
spec fn input_after(parent: ElementView, ns: Option<Seq<char>>, input: ElementView, steps: nat) -> ElementView
    decreases steps,
{
    if steps == 0 {
        input
    } else {
        source_step(parent, ns, input_after(parent, ns, input, (steps - 1) as nat))->Input_0
    }
}

/// Whether following an input for `steps` inputs meets nothing but inputs.
spec fn only_inputs(parent: ElementView, ns: Option<Seq<char>>, input: ElementView, steps: nat) -> bool {
    forall|k: nat|
        k < steps ==> source_step(parent, ns, #[trigger] input_after(parent, ns, input, k)) is Input
}

proof fn lemma_input_after_adds(
    parent: ElementView,
    ns: Option<Seq<char>>,
    input: ElementView,
    a: nat,
    b: nat,
)
    ensures
        input_after(parent, ns, input_after(parent, ns, input, a), b) == input_after(
            parent,
            ns,
            input,
            a + b,
        ),
    decreases b,
{
    if b > 0 {
        lemma_input_after_adds(parent, ns, input, a, (b - 1) as nat);
    }
}

/// A limit is exceeded exactly when more inputs than that come one after the
/// other.
proof fn lemma_exceeded(parent: ElementView, ns: Option<Seq<char>>, input: ElementView, limit: nat)
    ensures
        source_within(parent, ns, input, limit) is Err <==> only_inputs(parent, ns, input, limit + 1),
    decreases limit,
{
    assert(input_after(parent, ns, input, 0) == input);
    match source_step(parent, ns, input) {
        SourceStep::Input(next) => {
            assert(input_after(parent, ns, input, 1) == next) by {
                reveal_with_fuel(input_after, 2);
            }
            if limit == 0 {
                assert(only_inputs(parent, ns, input, 1));
            } else {
                lemma_exceeded(parent, ns, next, (limit - 1) as nat);
                if only_inputs(parent, ns, next, limit) {
                    assert forall|k: nat| k < limit + 1 implies source_step(
                        parent,
                        ns,
                        #[trigger] input_after(parent, ns, input, k),
                    ) is Input by {
                        if k > 0 {
                            lemma_input_after_adds(parent, ns, input, 1, (k - 1) as nat);
                            assert(source_step(
                                parent,
                                ns,
                                input_after(parent, ns, next, (k - 1) as nat),
                            ) is Input);
                        }
                    }
                }
                if only_inputs(parent, ns, input, limit + 1) {
                    assert forall|k: nat| k < limit implies source_step(
                        parent,
                        ns,
                        #[trigger] input_after(parent, ns, next, k),
                    ) is Input by {
                        lemma_input_after_adds(parent, ns, input, 1, k);
                        assert(source_step(parent, ns, input_after(parent, ns, input, 1 + k)) is Input);
                    }
                }
            }
        },
        _ => {
            assert(!(source_step(parent, ns, input_after(parent, ns, input, 0)) is Input));
        },
    }
}

/// Within a limit that is not exceeded, a larger one changes nothing.
proof fn lemma_larger_limit(
    parent: ElementView,
    ns: Option<Seq<char>>,
    input: ElementView,
    limit: nat,
    larger: nat,
)
    requires
        limit <= larger,
        source_within(parent, ns, input, limit) is Ok,
    ensures
        source_within(parent, ns, input, larger) == source_within(parent, ns, input, limit),
    decreases limit,
{
    match source_step(parent, ns, input) {
        SourceStep::Input(next) => {
            lemma_larger_limit(parent, ns, next, (limit - 1) as nat, (larger - 1) as nat);
        },
        _ => {},
    }
}

/// The place of the element that a reference is to.
spec fn place_of(nodes: Seq<NodeView>, reference: Seq<char>) -> int
    decreases nodes.len(),
{
    if nodes.len() == 0 || is_referenced(nodes[0], reference) {
        0
    } else {
        1 + place_of(nodes.drop_first(), reference)
    }
}

proof fn lemma_place_of(nodes: Seq<NodeView>, reference: Seq<char>)
    requires
        first_referenced(nodes, reference) is Some,
    ensures
        0 <= place_of(nodes, reference) < nodes.len(),
        nodes[place_of(nodes, reference)] == NodeView::Element(
            first_referenced(nodes, reference)->0,
        ),
    decreases nodes.len(),
{
    if !is_referenced(nodes[0], reference) {
        lemma_place_of(nodes.drop_first(), reference);
    }
}

/// The place of the child that an input leads to.
spec fn step_place(parent: ElementView, input: ElementView) -> int {
    place_of(parent.children, input.attribute("source"@)->0)
}

/// Two inputs that lead to the same child lead on to the same input.
proof fn lemma_same_place(parent: ElementView, ns: Option<Seq<char>>, a: ElementView, b: ElementView)
    requires
        source_step(parent, ns, a) is Input,
        source_step(parent, ns, b) is Input,
        step_place(parent, a) == step_place(parent, b),
    ensures
        source_step(parent, ns, a) == source_step(parent, ns, b),
        0 <= step_place(parent, a) < parent.children.len(),
{
    lemma_place_of(parent.children, a.attribute("source"@)->0);
    lemma_place_of(parent.children, b.attribute("source"@)->0);
}

/// More numbers below `n` than there are must repeat one.
proof fn lemma_repeats(s: Seq<int>, n: nat) -> (pair: (int, int))
    requires
        s.len() > n,
        forall|i: int| 0 <= i < s.len() ==> 0 <= #[trigger] s[i] < n,
    ensures
        0 <= pair.0 < pair.1 < s.len(),
        s[pair.0] == s[pair.1],
{
    if s.no_duplicates() {
        s.unique_seq_to_set();
        lemma_int_range(0, n as int);
        assert(s.to_set().subset_of(set_int_range(0, n as int))) by {
            assert forall|x: int| s.to_set().contains(x) implies set_int_range(
                0,
                n as int,
            ).contains(x) by {
                let i = choose|i: int| 0 <= i < s.len() && s[i] == x;
                assert(0 <= s[i] < n);
            }
        }
        lemma_len_subset(s.to_set(), set_int_range(0, n as int));
    }
    let (i, j) = choose|i: int, j: int|
        0 <= i < s.len() && 0 <= j < s.len() && i != j && s[i] == s[j];
    if i < j {
        (i, j)
    } else {
        (j, i)
    }
}

/// Where following an input comes back to an input that it has met, it never
/// ends.
proof fn lemma_circle(
    parent: ElementView,
    ns: Option<Seq<char>>,
    input: ElementView,
    a: nat,
    b: nat,
    steps: nat,
)
    requires
        a < b,
        input_after(parent, ns, input, a) == input_after(parent, ns, input, b),
        only_inputs(parent, ns, input, b),
    ensures
        only_inputs(parent, ns, input, steps),
    decreases steps,
{
    assert forall|k: nat| k < steps implies source_step(
        parent,
        ns,
        #[trigger] input_after(parent, ns, input, k),
    ) is Input by {
        if k >= b {
            let earlier = (k - (b - a)) as nat;
            lemma_circle(parent, ns, input, a, b, k);
            lemma_input_after_adds(parent, ns, input, a, (k - b) as nat);
            lemma_input_after_adds(parent, ns, input, b, (k - b) as nat);
            assert(input_after(parent, ns, input, k) == input_after(parent, ns, input, earlier));
            assert(source_step(parent, ns, input_after(parent, ns, input, earlier)) is Input);
        }
    }
}

/// Following an input is given up only where it would go on for ever: as soon as
/// it is not over after as many inputs as the parent has children, no limit is
/// large enough; otherwise every larger limit leads to the same source.
pub proof fn law_only_circles_are_malformed(
    doc: DocumentView,
    parent: ElementView,
    input: ElementView,
    limit: nat,
)
    ensures
        doc.input_source(parent, input) is Err ==> source_within(
            parent,
            doc.root.ns,
            input,
            limit,
        ) is Err,
        doc.input_source(parent, input) is Ok && limit >= parent.children.len() ==> source_within(
            parent,
            doc.root.ns,
            input,
            limit,
        ) == doc.input_source(parent, input),
{
    let ns = doc.root.ns;
    let n = parent.children.len();
    if doc.input_source(parent, input) is Err {
        lemma_exceeded(parent, ns, input, n);
        let places = Seq::new(
            n + 1,
            |k: int| step_place(parent, input_after(parent, ns, input, k as nat)),
        );
        assert forall|k: int| 0 <= k < places.len() implies 0 <= #[trigger] places[k] < n by {
            let at = input_after(parent, ns, input, k as nat);
            assert(source_step(parent, ns, at) is Input);
            lemma_same_place(parent, ns, at, at);
        }
        let (i, j) = lemma_repeats(places, n);
        let at_i = input_after(parent, ns, input, i as nat);
        let at_j = input_after(parent, ns, input, j as nat);
        assert(source_step(parent, ns, at_i) is Input);
        assert(source_step(parent, ns, at_j) is Input);
        assert(places[i] == step_place(parent, at_i) && places[j] == step_place(parent, at_j));
        lemma_same_place(parent, ns, at_i, at_j);
        assert(input_after(parent, ns, input, (i + 1) as nat) == input_after(
            parent,
            ns,
            input,
            (j + 1) as nat,
        ));
        assert(only_inputs(parent, ns, input, (j + 1) as nat));
        lemma_circle(parent, ns, input, (i + 1) as nat, (j + 1) as nat, limit + 1);
        lemma_exceeded(parent, ns, input, limit);
    } else if limit >= n {
        lemma_larger_limit(parent, ns, input, n, limit);
    }
}

} // verus!
