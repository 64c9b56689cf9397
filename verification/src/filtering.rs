//! Keeping what is not excluded, and what a filter does to a sequence.

use vstd::prelude::*;

verus! {

/// The test that a character passes when it is not in `excluded`.
pub open spec fn outside(excluded: Set<char>) -> spec_fn(char) -> bool {
    |c: char| !excluded.contains(c)
}

/// Whether `c` occurs in `excluded`.
pub fn is_excluded(excluded: &Vec<char>, c: char) -> (found: bool)
    ensures
        found == excluded@.to_set().contains(c),
{
    let mut i: usize = 0;
    while i < excluded.len()
        invariant
            i <= excluded.len(),
            forall|j: int| 0 <= j < i ==> excluded@[j] != c,
        decreases excluded.len() - i,
    {
        if excluded[i] == c {
            return true;
        }
        i = i + 1;
    }
    false
}

/// Filtering one more element either appends it or changes nothing.
pub proof fn lemma_filter_step<A>(s: Seq<A>, keep: spec_fn(A) -> bool, i: int)
    requires
        0 <= i < s.len(),
    ensures
        s.take(i + 1).filter(keep) == if keep(s[i]) {
            s.take(i).filter(keep).push(s[i])
        } else {
            s.take(i).filter(keep)
        },
{
    reveal(Seq::filter);
    assert(s.take(i + 1).drop_last() =~= s.take(i));
    assert(s.take(i + 1).last() == s[i]);
}

/// Whatever a filter keeps was there before.
pub proof fn lemma_filter_keeps_members<A>(s: Seq<A>, keep: spec_fn(A) -> bool, i: int)
    requires
        0 <= i < s.filter(keep).len(),
    ensures
        s.contains(s.filter(keep)[i]),
        keep(s.filter(keep)[i]),
    decreases s.len(),
{
    reveal(Seq::filter);
    if s.len() > 0 {
        let front = s.drop_last();
        if i < front.filter(keep).len() {
            lemma_filter_keeps_members(front, keep, i);
            let k = choose|k: int| 0 <= k < front.len() && front[k] == front.filter(keep)[i];
            assert(s[k] == s.filter(keep)[i]);
        } else {
            assert(s[s.len() - 1] == s.filter(keep)[i]);
        }
    }
}

/// The characters of `chars` that do not occur in `excluded`, in their
/// order.
pub fn retain_allowed(chars: &Vec<char>, excluded: &Vec<char>) -> (kept: Vec<char>)
    ensures
        kept@ == chars@.filter(outside(excluded@.to_set())),
{
    let ghost keep = outside(excluded@.to_set());
    let mut kept: Vec<char> = Vec::new();
    let mut i: usize = 0;
    proof {
        reveal(Seq::filter);
        assert(chars@.take(0) =~= Seq::<char>::empty());
    }
    while i < chars.len()
        invariant
            i <= chars.len(),
            keep == outside(excluded@.to_set()),
            kept@ == chars@.take(i as int).filter(keep),
        decreases chars.len() - i,
    {
        let c = chars[i];
        proof {
            lemma_filter_step(chars@, keep, i as int);
        }
        if !is_excluded(excluded, c) {
            kept.push(c);
        }
        i = i + 1;
    }
    assert(chars@.take(chars.len() as int) =~= chars@);
    kept
}

/// A filter that nothing fails keeps the whole sequence.
pub proof fn lemma_filter_keeps_all<A>(s: Seq<A>, keep: spec_fn(A) -> bool)
    requires
        forall|i: int| 0 <= i < s.len() ==> keep(#[trigger] s[i]),
    ensures
        s.filter(keep) == s,
    decreases s.len(),
{
    reveal(Seq::filter);
    if s.len() > 0 {
        lemma_filter_keeps_all(s.drop_last(), keep);
        assert(s.drop_last().push(s.last()) =~= s);
    }
}

/// A filter that an element fails keeps fewer elements than there were.
pub proof fn lemma_filter_drops_one<A>(s: Seq<A>, keep: spec_fn(A) -> bool, i: int)
    requires
        0 <= i < s.len(),
        !keep(s[i]),
    ensures
        s.filter(keep).len() < s.len(),
    decreases s.len(),
{
    reveal(Seq::filter);
    s.drop_last().lemma_filter_len(keep);
    if i < s.len() - 1 {
        lemma_filter_drops_one(s.drop_last(), keep, i);
    }
}

/// A filter keeps no element twice that was there once.
pub proof fn lemma_filter_no_duplicates<A>(s: Seq<A>, keep: spec_fn(A) -> bool)
    requires
        s.no_duplicates(),
    ensures
        s.filter(keep).no_duplicates(),
    decreases s.len(),
{
    reveal(Seq::filter);
    if s.len() > 0 {
        let front = s.drop_last();
        lemma_filter_no_duplicates(front, keep);
        if keep(s.last()) {
            assert forall|i: int| 0 <= i < front.filter(keep).len() implies front.filter(keep)[i]
                != s.last() by {
                lemma_filter_keeps_members(front, keep, i);
                let k = choose|k: int| 0 <= k < front.len() && front[k] == front.filter(keep)[i];
                assert(s[k] == front[k]);
            }
        }
    }
}

} // verus!
