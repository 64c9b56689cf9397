//! Assembling a password: one seed per class that can give one, filler
//! from the pool, then a shuffle.

use vstd::prelude::*;
use crate::classes::{CharacterClass, CLASS_COUNT};
use crate::config::{Constraints, GenerationConfig};
use crate::filtering::{lemma_filter_step, outside, retain_allowed};
use crate::entropy::{
    bounds_of, drawn_since, in_bounds, lemma_drawn_since_appended, lemma_log_grows, Draw, RandomSource,
};
use crate::shuffle::{
    lemma_same_members, lemma_shuffled_after_permutes, shuffle, shuffle_bounds,
    shuffle_steps, shuffled,
};
use crate::text::{chars_of, text_of};

verus! {

/// Why no password can be generated for a configuration.
#[derive(Clone, Copy, Debug, PartialEq, Eq, Structural)]
pub enum GenerationError {
    /// The exclusions leave no character of any enabled class.
    NoAvailableCharacters,
    /// The length cannot hold one character of each class that has one left.
    LengthTooShortForRequiredClasses { required: usize, requested: usize },
}

impl Constraints {
    /// Why generation fails, if it does. This depends on the configuration
    /// alone, never on what is drawn.
    pub open spec fn failure(self) -> Option<GenerationError> {
        if self.pool().len() == 0 {
            Some(GenerationError::NoAvailableCharacters)
        } else if self.seed_classes().len() > self.length {
            Some(
                GenerationError::LengthTooShortForRequiredClasses {
                    required: self.seed_classes().len() as usize,
                    requested: self.length as usize,
                },
            )
        } else {
            None
        }
    }

    /// The bounds of the draws that one generation makes, in order. With an
    /// empty pool nothing is drawn. Otherwise the seeds are drawn first, one
    /// from each seed class. If they fit, the filler is drawn from the pool
    /// and the shuffle draws its positions.
    pub open spec fn demand(self) -> Seq<int> {
        if self.pool().len() == 0 {
            Seq::empty()
        } else if self.seed_classes().len() > self.length {
            Seq::new(self.seed_classes().len(), |i: int| self.candidates(i).len() as int)
        } else {
            Seq::new(self.length, |i: int| self.candidates(i).len() as int) + shuffle_bounds(
                self.length,
            )
        }
    }

    /// The characters before the shuffle: draw number `i` picks the
    /// character of position `i` among its candidates.
    pub open spec fn assembled(self, draws: Seq<Draw>) -> Seq<char> {
        Seq::new(self.length, |i: int| self.candidates(i)[draws[i].value as int])
    }

    /// What is promised of every password: it has the requested length,
    /// holds no excluded character and none from outside the enabled
    /// classes, and holds a character of each class that is enabled and has
    /// one left.
    pub open spec fn met_by(self, password: Seq<char>) -> bool {
        &&& password.len() == self.length
        &&& forall|i: int| 0 <= i < password.len() ==> !self.excluded.contains(#[trigger] password[i])
        &&& forall|i: int| 0 <= i < password.len() ==> self.admits(#[trigger] password[i])
        &&& forall|class: CharacterClass| #[trigger]
            self.satisfiable(class) ==> exists|i: int|
                0 <= i < password.len() && class.alphabet().contains(#[trigger] password[i])
    }

    /// The password that the given draws lead to: the assembled characters,
    /// shuffled by the draws that follow the assembly.
    pub open spec fn password(self, draws: Seq<Draw>) -> Seq<char> {
        shuffled(self.assembled(draws), draws.skip(self.length as int))
    }
}

/// Whatever is drawn, a password that comes out has the requested length,
/// holds only characters that the configuration admits, and holds a
/// character of every class that is enabled and not excluded as a whole.
pub proof fn lemma_password_guarantees(c: Constraints, draws: Seq<Draw>)
    requires
        c.failure() is None,
        bounds_of(draws) == c.demand(),
        in_bounds(draws),
    ensures
        c.password(draws).len() == c.length,
        c.password(draws).to_multiset() == c.assembled(draws).to_multiset(),
        forall|i: int|
            0 <= i < c.length ==> !c.excluded.contains(#[trigger] c.password(draws)[i]),
        forall|i: int| 0 <= i < c.length ==> c.admits(#[trigger] c.password(draws)[i]),
        forall|class: CharacterClass| #[trigger]
            c.satisfiable(class) ==> exists|i: int|
                0 <= i < c.length && class.alphabet().contains(#[trigger] c.password(draws)[i]),
{
    let assembled = c.assembled(draws);
    let shuffling = draws.skip(c.length as int);
    let password = c.password(draws);
    assert(draws.len() == c.demand().len());
    assert forall|t: int| 0 <= t < shuffle_steps(c.length) implies (#[trigger] shuffling[t]).value
        < assembled.len() - t by {
        let i = c.length + t;
        assert(shuffling[t] == draws[i]);
        assert(bounds_of(draws)[i] == c.demand()[i]);
        assert(c.demand()[i] == shuffle_bounds(c.length)[t]);
    }
    lemma_shuffled_after_permutes(assembled, shuffling, shuffle_steps(c.length));
    assert forall|i: int| 0 <= i < c.length implies c.admits(#[trigger] assembled[i])
        && assembled[i] == c.candidates(i)[draws[i].value as int] && draws[i].value
        < c.candidates(i).len() by {
        let head = Seq::new(c.length, |i: int| c.candidates(i).len() as int);
        assert(c.demand() == head + shuffle_bounds(c.length));
        assert(c.demand()[i] == head[i]);
        assert(bounds_of(draws)[i] == draws[i].bound);
        assert(draws[i].value < draws[i].bound);
        c.lemma_candidates_admitted(i, draws[i].value as int);
    }
    assert forall|i: int| 0 <= i < c.length implies c.admits(#[trigger] password[i]) by {
        assert(password.contains(password[i]));
        lemma_same_members(password, assembled, password[i]);
        let k = choose|k: int| 0 <= k < assembled.len() && assembled[k] == password[i];
        assert(c.admits(assembled[k]));
    }
    assert forall|class: CharacterClass| #[trigger] c.satisfiable(class) implies exists|i: int|
        0 <= i < c.length && class.alphabet().contains(#[trigger] password[i]) by {
        c.lemma_satisfiable_is_seed_class(class);
        let k = choose|k: int| 0 <= k < c.seed_classes().len() && c.seed_classes()[k] == class;
        assert(c.admits(assembled[k]));
        c.lemma_eligible_admitted(class, draws[k].value as int);
        assert(assembled.contains(assembled[k]));
        lemma_same_members(password, assembled, assembled[k]);
        let i = choose|i: int| 0 <= i < password.len() && password[i] == assembled[k];
        assert(class.alphabet().contains(password[i]));
    }
}

/// Draws one character of `charset` that does not occur in `excluded`: the
/// source is asked for an index below the number of characters that are
/// left. Nothing is drawn when none is left.
pub fn random_char_from_set<R: RandomSource>(
    charset: &str,
    excluded: &Vec<char>,
    rng: &mut R,
) -> (picked: Option<char>)
    ensures
        old(rng).log().is_prefix_of(final(rng).log()),
        ({
            let available = charset@.filter(outside(excluded@.to_set()));
            let drawn = drawn_since(old(rng).log(), final(rng).log());
            if available.len() == 0 {
                picked is None && drawn.len() == 0
            } else {
                &&& drawn.len() == 1
                &&& drawn[0].bound == available.len()
                &&& drawn[0].value < available.len()
                &&& picked == Some(available[drawn[0].value as int])
            }
        }),
{
    let ghost base = rng.log();
    let letters = chars_of(charset);
    let available = retain_allowed(&letters, excluded);
    if available.len() == 0 {
        proof {
            lemma_drawn_since_appended(base, Seq::empty());
            assert(base + Seq::<Draw>::empty() =~= base);
        }
        None
    } else {
        let pick = rng.below(available.len());
        proof {
            let fresh = seq![Draw { bound: available.len(), value: pick }];
            assert(rng.log() =~= base + fresh);
            lemma_drawn_since_appended(base, fresh);
        }
        Some(available[pick])
    }
}

/// Draws the seeds: one character from each class that is enabled and has
/// a character left, in declaration order.
pub fn draw_seeds<R: RandomSource>(config: &GenerationConfig, rng: &mut R) -> (seeds: Vec<char>)
    ensures
        old(rng).log().is_prefix_of(final(rng).log()),
        seeds@.len() == config@.seed_classes().len(),
        drawn_since(old(rng).log(), final(rng).log()).len() == seeds@.len(),
        forall|i: int|
            0 <= i < seeds@.len() ==> {
                let draw = #[trigger] drawn_since(old(rng).log(), final(rng).log())[i];
                &&& draw.bound == config@.candidates(i).len()
                &&& draw.value < draw.bound
                &&& seeds@[i] == config@.candidates(i)[draw.value as int]
            },
{
    let ghost base = rng.log();
    let ghost mut drawn: Seq<Draw> = Seq::empty();
    let ghost all = CharacterClass::all();
    let ghost test = config@.seed_test();
    let mut seeds: Vec<char> = Vec::new();
    let mut rank: usize = 0;
    proof {
        reveal(Seq::filter);
        assert(all.take(0) =~= Seq::<CharacterClass>::empty());
        assert(base + drawn =~= base);
    }
    while rank < CLASS_COUNT
        invariant
            rank <= CLASS_COUNT,
            all == CharacterClass::all(),
            test == config@.seed_test(),
            rng.log() == base + drawn,
            seeds@.len() == all.take(rank as int).filter(test).len(),
            drawn.len() == seeds@.len(),
            forall|i: int|
                0 <= i < seeds@.len() ==> {
                    let class = all.take(rank as int).filter(test)[i];
                    &&& (#[trigger] drawn[i]).bound == config@.eligible(class).len()
                    &&& drawn[i].value < drawn[i].bound
                    &&& seeds@[i] == config@.eligible(class)[drawn[i].value as int]
                },
        decreases CLASS_COUNT - rank,
    {
        let ghost earlier = drawn;
        let ghost before = rng.log();
        proof {
            lemma_filter_step(all, test, rank as int);
        }
        if let Some(class) = CharacterClass::from_rank(rank) {
            assert(all[rank as int] == class);
            if config.enabled_classes.contains(class) {
                let picked = random_char_from_set(class.alphabet_str(), &config.excluded_chars, rng);
                proof {
                    lemma_log_grows(before, rng.log());
                }
                if let Some(c) = picked {
                    seeds.push(c);
                    proof {
                        let fresh = drawn_since(before, rng.log());
                        drawn = earlier.push(fresh[0]);
                        assert(fresh =~= seq![fresh[0]]);
                        assert(base + drawn =~= (base + earlier) + fresh);
                    }
                }
            }
        }
        rank = rank + 1;
    }
    proof {
        assert(all.take(CLASS_COUNT as int) =~= all);
        lemma_drawn_since_appended(base, drawn);
    }
    seeds
}

/// Generates one password for `config`, drawing from `rng`.
///
/// The pool is built first; an empty pool ends the call before anything is
/// drawn. Then one seed is drawn from each class that is enabled and has a
/// character left. If the seeds outnumber the length, the call fails.
/// Otherwise filler is drawn from the pool until the length is reached, and
/// the whole is shuffled.
///
/// Whether this succeeds depends on `config` alone. The password depends
/// on `config` and on the values that `rng` hands out, and on nothing else.
/// A class whose characters are all excluded is passed over in silence.
pub fn generate<R: RandomSource>(config: &GenerationConfig, rng: &mut R) -> (result: Result<
    String,
    GenerationError,
>)
    ensures
        old(rng).log().is_prefix_of(final(rng).log()),
        bounds_of(drawn_since(old(rng).log(), final(rng).log())) == config@.demand(),
        in_bounds(drawn_since(old(rng).log(), final(rng).log())),
        match result {
            Ok(password) => {
                &&& config@.failure() is None
                &&& password@ == config@.password(drawn_since(old(rng).log(), final(rng).log()))
            },
            Err(error) => config@.failure() == Some(error),
        },
        result matches Ok(password) ==> {
            &&& password@.len() == config.length
            &&& forall|i: int|
                0 <= i < password@.len() ==> !config@.excluded.contains(#[trigger] password@[i])
            &&& forall|i: int|
                0 <= i < password@.len() ==> config@.admits(#[trigger] password@[i])
            &&& forall|class: CharacterClass| #[trigger]
                config@.satisfiable(class) ==> exists|i: int|
                    0 <= i < password@.len() && class.alphabet().contains(#[trigger] password@[i])
        },
{
    let ghost base = rng.log();
    let pool = config.pool();
    if pool.len() == 0 {
        proof {
            lemma_drawn_since_appended(base, Seq::empty());
            assert(base + Seq::<Draw>::empty() =~= base);
            assert(bounds_of(Seq::<Draw>::empty()) =~= config@.demand());
        }
        return Err(GenerationError::NoAvailableCharacters);
    }
    let mut chars = draw_seeds(config, rng);
    let ghost seeded = drawn_since(base, rng.log());
    proof {
        lemma_log_grows(base, rng.log());
        CharacterClass::all().lemma_filter_len(config@.seed_test());
    }
    if chars.len() > config.length {
        proof {
            assert(bounds_of(seeded) =~= config@.demand());
        }
        return Err(
            GenerationError::LengthTooShortForRequiredClasses {
                required: chars.len(),
                requested: config.length,
            },
        );
    }
    let ghost mut drawn = seeded;
    while chars.len() < config.length
        invariant
            pool@ == config@.pool(),
            pool@.len() > 0,
            chars@.len() <= config.length,
            config@.seed_classes().len() <= chars@.len(),
            rng.log() == base + drawn,
            drawn.len() == chars@.len(),
            forall|i: int|
                0 <= i < chars@.len() ==> {
                    &&& (#[trigger] drawn[i]).bound == config@.candidates(i).len()
                    &&& drawn[i].value < drawn[i].bound
                    &&& chars@[i] == config@.candidates(i)[drawn[i].value as int]
                },
        decreases config.length - chars.len(),
    {
        let pick = rng.below(pool.len());
        let ghost earlier = drawn;
        proof {
            drawn = earlier.push(Draw { bound: pool.len(), value: pick });
            assert(base + drawn =~= (base + earlier).push(Draw { bound: pool.len(), value: pick }));
        }
        chars.push(pool[pick]);
    }
    let ghost assembly = drawn;
    let ghost before_shuffle = rng.log();
    let ghost assembled = chars@;
    shuffle(&mut chars, rng);
    let password = text_of(&chars);
    proof {
        let shuffling = drawn_since(before_shuffle, rng.log());
        lemma_log_grows(before_shuffle, rng.log());
        let total = assembly + shuffling;
        assert(rng.log() =~= base + total);
        lemma_drawn_since_appended(base, total);
        assert(total.skip(config.length as int) =~= shuffling);
        assert(assembled =~= config@.assembled(total));
        assert(bounds_of(total) =~= config@.demand()) by {
            assert(bounds_of(shuffling) == shuffle_bounds(config.length as nat));
            assert forall|i: int| 0 <= i < total.len() implies bounds_of(total)[i]
                == config@.demand()[i] by {
                if i >= config.length {
                    assert(total[i] == shuffling[i - config.length]);
                    assert(bounds_of(shuffling)[i - config.length] == shuffling[i
                        - config.length].bound);
                }
            }
        }
        assert(in_bounds(total)) by {
            assert forall|i: int| 0 <= i < total.len() implies (#[trigger] total[i]).value
                < total[i].bound by {
                if i >= config.length {
                    let t = i - config.length;
                    assert(total[i] == shuffling[t]);
                    assert(bounds_of(shuffling)[t] == shuffle_bounds(config.length as nat)[t]);
                    assert(shuffling[t].value < shuffling[t].bound);
                }
            }
        }
        lemma_password_guarantees(config@, total);
    }
    Ok(password)
}

} // verus!
