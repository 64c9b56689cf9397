//! The Fisher–Yates shuffle, driven by an explicit entropy source.

use vstd::prelude::*;
use vstd::seq_lib::{to_multiset_contains, to_multiset_update};
use crate::entropy::{bounds_of, drawn_since, in_bounds, Draw, RandomSource};

verus! {

/// `s` with the elements at `i` and `j` exchanged.
pub open spec fn swapped<A>(s: Seq<A>, i: int, j: int) -> Seq<A> {
    s.update(i, s[j]).update(j, s[i])
}

/// How many exchanges a shuffle of `len` elements makes.
pub open spec fn shuffle_steps(len: nat) -> nat {
    if len == 0 {
        0
    } else {
        (len - 1) as nat
    }
}

/// `s` after the first `steps` exchanges of a shuffle. Exchange number `t`
/// (counted from 0) moves the element at position `s.len() - 1 - t` to the
/// position that draw number `t` names.
pub open spec fn shuffled_after<A>(s: Seq<A>, draws: Seq<Draw>, steps: nat) -> Seq<A>
    decreases steps,
{
    if steps == 0 {
        s
    } else {
        swapped(
            shuffled_after(s, draws, (steps - 1) as nat),
            s.len() - steps,
            draws[steps - 1].value as int,
        )
    }
}

/// `s` after a complete shuffle with the given draws.
pub open spec fn shuffled<A>(s: Seq<A>, draws: Seq<Draw>) -> Seq<A> {
    shuffled_after(s, draws, shuffle_steps(s.len()))
}

/// The bounds that a shuffle of `len` elements asks for, in order: the
/// element at position `i` may go to any of the positions `0..=i`.
pub open spec fn shuffle_bounds(len: nat) -> Seq<int> {
    Seq::new(shuffle_steps(len), |t: int| len - t)
}

/// An exchange of two positions keeps every element, as often as it was
/// there.
pub proof fn lemma_swapped_permutes<A>(s: Seq<A>, i: int, j: int)
    requires
        0 <= i < s.len(),
        0 <= j < s.len(),
    ensures
        swapped(s, i, j).len() == s.len(),
        swapped(s, i, j).to_multiset() == s.to_multiset(),
{
    broadcast use vstd::seq_lib::group_to_multiset_ensures;

    let mid = s.update(i, s[j]);
    assert(mid.len() == s.len());
    assert(mid[j] == s[j]);
    assert(s.contains(s[i]));
    assert(s.contains(s[j]));
    to_multiset_update(s, i, s[j]);
    to_multiset_update(mid, j, s[i]);
    assert(swapped(s, i, j).to_multiset() =~= s.to_multiset());
}

/// Two sequences with the same elements, counted, have the same members.
pub proof fn lemma_same_members<A>(a: Seq<A>, b: Seq<A>, x: A)
    requires
        a.to_multiset() == b.to_multiset(),
    ensures
        a.contains(x) == b.contains(x),
{
    to_multiset_contains(a, x);
    to_multiset_contains(b, x);
}

/// The first `steps` exchanges read only the first `steps` draws.
pub proof fn lemma_shuffled_after_reads_prefix<A>(
    s: Seq<A>,
    first: Seq<Draw>,
    second: Seq<Draw>,
    steps: nat,
)
    requires
        forall|t: int| 0 <= t < steps ==> first[t] == second[t],
    ensures
        shuffled_after(s, first, steps) == shuffled_after(s, second, steps),
    decreases steps,
{
    if steps > 0 {
        lemma_shuffled_after_reads_prefix(s, first, second, (steps - 1) as nat);
    }
}

/// A shuffle with draws inside their bounds is a permutation.
pub proof fn lemma_shuffled_after_permutes<A>(s: Seq<A>, draws: Seq<Draw>, steps: nat)
    requires
        steps <= shuffle_steps(s.len()),
        steps <= draws.len(),
        forall|t: int| 0 <= t < steps ==> (#[trigger] draws[t]).value < s.len() - t,
    ensures
        shuffled_after(s, draws, steps).len() == s.len(),
        shuffled_after(s, draws, steps).to_multiset() == s.to_multiset(),
    decreases steps,
{
    if steps > 0 {
        let before = shuffled_after(s, draws, (steps - 1) as nat);
        lemma_shuffled_after_permutes(s, draws, (steps - 1) as nat);
        assert(draws[steps - 1].value < s.len() - (steps - 1));
        lemma_swapped_permutes(before, s.len() - steps, draws[steps - 1].value as int);
    }
}

/// Shuffles `items` in place. For each position from the last down to the
/// second, one index at or below it is drawn and the two elements are
/// exchanged.
pub fn shuffle<T: Copy, R: RandomSource>(items: &mut Vec<T>, rng: &mut R)
    ensures
        old(rng).log().is_prefix_of(final(rng).log()),
        bounds_of(drawn_since(old(rng).log(), final(rng).log())) == shuffle_bounds(
            old(items)@.len(),
        ),
        in_bounds(drawn_since(old(rng).log(), final(rng).log())),
        final(items)@ == shuffled(old(items)@, drawn_since(old(rng).log(), final(rng).log())),
        final(items)@.len() == old(items)@.len(),
        final(items)@.to_multiset() == old(items)@.to_multiset(),
{
    let ghost base = rng.log();
    let ghost start = items@;
    let ghost mut drawn: Seq<Draw> = Seq::empty();
    let len = items.len();
    let mut i: usize = if len == 0 {
        0
    } else {
        len - 1
    };
    assert(base + drawn =~= base);
    while i >= 1
        invariant
            len == start.len(),
            items@.len() == len,
            i < len || len == 0,
            rng.log() == base + drawn,
            drawn.len() == shuffle_steps(start.len()) - i,
            forall|t: int| 0 <= t < drawn.len() ==> (#[trigger] drawn[t]).bound == len - t,
            forall|t: int| 0 <= t < drawn.len() ==> (#[trigger] drawn[t]).value < len - t,
            items@ == shuffled_after(start, drawn, drawn.len()),
        decreases i,
    {
        let j = rng.below(i + 1);
        let ghost earlier = drawn;
        proof {
            drawn = drawn.push(Draw { bound: (i + 1) as usize, value: j });
            assert(base + drawn =~= (base + earlier).push(Draw { bound: (i + 1) as usize, value: j }));
            lemma_shuffled_after_reads_prefix(start, earlier, drawn, earlier.len());
        }
        let upper = items[i];
        let lower = items[j];
        items[i] = lower;
        items[j] = upper;
        assert(items@ =~= swapped(shuffled_after(start, earlier, earlier.len()), i as int, j as int));
        i = i - 1;
    }
    proof {
        assert(drawn_since(base, rng.log()) =~= drawn);
        assert(bounds_of(drawn) =~= shuffle_bounds(start.len()));
        lemma_shuffled_after_permutes(start, drawn, drawn.len());
    }
}

} // verus!
