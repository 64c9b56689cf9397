//! Entropy as an explicit dependency.
//!
//! A [`RandomSource`] hands out one index at a time and keeps a ghost log of
//! every request it served. Contracts elsewhere speak of that log: which
//! bounds were asked for and which values came back.

use vstd::prelude::*;

verus! {

/// One served request: a value below `bound`.
pub struct Draw {
    pub bound: usize,
    pub value: usize,
}

/// The entries of `after` that were appended to `before`.
pub open spec fn drawn_since(before: Seq<Draw>, after: Seq<Draw>) -> Seq<Draw> {
    after.skip(before.len() as int)
}

/// The bounds of `draws`, in order.
pub open spec fn bounds_of(draws: Seq<Draw>) -> Seq<int> {
    Seq::new(draws.len(), |i: int| draws[i].bound as int)
}

/// Every entry of `draws` holds a value below its bound.
pub open spec fn in_bounds(draws: Seq<Draw>) -> bool {
    forall|i: int| 0 <= i < draws.len() ==> (#[trigger] draws[i]).value < draws[i].bound
}

/// A log that grew from `before` to `after` is `before` followed by what
/// was drawn since.
pub proof fn lemma_log_grows(before: Seq<Draw>, after: Seq<Draw>)
    requires
        before.is_prefix_of(after),
    ensures
        after == before + drawn_since(before, after),
{
    assert(after =~= before + drawn_since(before, after));
}

/// What was drawn since `before` when the log is `before + fresh`.
pub proof fn lemma_drawn_since_appended(before: Seq<Draw>, fresh: Seq<Draw>)
    ensures
        before.is_prefix_of(before + fresh),
        drawn_since(before, before + fresh) == fresh,
{
    assert((before + fresh).subrange(0, before.len() as int) =~= before);
    assert(drawn_since(before, before + fresh) =~= fresh);
}

/// A source of indices. An implementation is meant to hand out every index
/// below the bound with the same chance. The contract cannot say so: it
/// holds for whatever comes back.
pub trait RandomSource {
    /// Every request served so far, oldest first.
    spec fn log(&self) -> Seq<Draw>;

    /// Draws an index in `0..bound`.
    fn below(&mut self, bound: usize) -> (value: usize)
        requires
            bound > 0,
        ensures
            value < bound,
            final(self).log() == old(self).log().push((Draw { bound, value })),
    ;
}

/// `rand::rngs::ThreadRng`, the handle to the generator of a thread. It is
/// carried through as it is; nothing inside it is read here.
#[verifier::external_type_specification]
#[verifier::external_body]
pub struct ExThreadRng(rand::rngs::ThreadRng);

/// Calls `rand::thread_rng`, which hands out a handle to the generator of
/// the current thread. Nothing is claimed of the handle.
#[verifier::external_body]
fn thread_generator() -> rand::rngs::ThreadRng {
    rand::thread_rng()
}

/// Calls `rand::Rng::gen_range` on the half-open range `0..bound`. The range
/// must not be empty, and the value that comes back lies inside it. Which
/// value comes back is left open.
#[verifier::external_body]
fn uniform_below(rng: &mut rand::rngs::ThreadRng, bound: usize) -> (value: usize)
    requires
        bound > 0,
    ensures
        value < bound,
{
    rand::Rng::gen_range(rng, 0..bound)
}

/// The generator of the current thread, seeded by the operating system.
pub struct ThreadSource {
    rng: rand::rngs::ThreadRng,
    served: Ghost<Seq<Draw>>,
}

impl ThreadSource {
    /// A source with an empty log.
    pub fn new() -> (source: ThreadSource)
        ensures
            source.log() == Seq::<Draw>::empty(),
    {
        ThreadSource { rng: thread_generator(), served: Ghost(Seq::empty()) }
    }
}

impl RandomSource for ThreadSource {
    closed spec fn log(&self) -> Seq<Draw> {
        self.served@
    }

    fn below(&mut self, bound: usize) -> (value: usize) {
        let value = uniform_below(&mut self.rng, bound);
        proof {
            self.served@ = self.served@.push(Draw { bound, value });
        }
        value
    }
}

/// A source that replays a fixed script, for runs that must be repeatable.
///
/// Each request takes the next number of the script, reduced modulo the
/// bound. Once the script is used up every request is answered with 0.
pub struct ReplaySource {
    script: Vec<usize>,
    cursor: usize,
    served: Ghost<Seq<Draw>>,
}

impl ReplaySource {
    #[verifier::type_invariant]
    spec fn cursor_in_script(&self) -> bool {
        self.cursor <= self.script@.len()
    }

    /// The numbers that have not been handed out yet.
    pub closed spec fn pending(&self) -> Seq<usize> {
        self.script@.skip(self.cursor as int)
    }

    /// What a source with `pending` numbers left answers to a request
    /// below `bound`.
    pub open spec fn answer(pending: Seq<usize>, bound: usize) -> usize {
        if pending.len() > 0 && bound > 0 {
            (pending[0] % bound) as usize
        } else {
            0
        }
    }

    /// What is left of `pending` after one request.
    pub open spec fn rest(pending: Seq<usize>) -> Seq<usize> {
        if pending.len() > 0 {
            pending.drop_first()
        } else {
            pending
        }
    }

    /// A source that will replay `script` from its start.
    pub fn new(script: Vec<usize>) -> (source: ReplaySource)
        ensures
            source.pending() == script@,
            source.log() == Seq::<Draw>::empty(),
    {
        ReplaySource { script, cursor: 0, served: Ghost(Seq::empty()) }
    }

    /// How many numbers of the script are left.
    pub fn remaining(&self) -> (count: usize)
        ensures
            count == self.pending().len(),
    {
        proof {
            use_type_invariant(self);
        }
        if self.cursor < self.script.len() {
            self.script.len() - self.cursor
        } else {
            0
        }
    }
}

impl RandomSource for ReplaySource {
    closed spec fn log(&self) -> Seq<Draw> {
        self.served@
    }

    fn below(&mut self, bound: usize) -> (value: usize)
        ensures
            value == ReplaySource::answer(old(self).pending(), bound),
            final(self).pending() == ReplaySource::rest(old(self).pending()),
    {
        proof {
            use_type_invariant(&*self);
        }
        let value = if self.cursor < self.script.len() {
            let raw = self.script[self.cursor];
            self.cursor = self.cursor + 1;
            raw % bound
        } else {
            0
        };
        proof {
            self.served@ = self.served@.push(Draw { bound, value });
        }
        value
    }
}

} // verus!
