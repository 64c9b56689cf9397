//! The rules that a front end applies around the generator: what a
//! console session asks for, when a form is turned away, and how a batch
//! of passwords is produced.

use vstd::prelude::*;
use crate::classes::{CharacterClass, ClassSet};
use crate::config::GenerationConfig;
use crate::entropy::{
    bounds_of, drawn_since, in_bounds, lemma_drawn_since_appended, lemma_log_grows, Draw, RandomSource,
};
use crate::generator::{generate, GenerationError};

verus! {

/// The length of a password when none was given.
pub const DEFAULT_LENGTH: usize = 24;

/// Why a request is turned away before the generator is called.
#[derive(Clone, Copy, Debug, PartialEq, Eq, Structural)]
pub enum RequestError {
    /// The length is zero.
    InvalidLength,
    /// No character class is enabled.
    NoClassSelected,
}

/// The configuration of a console session: the length that was entered, or
/// the default when the entry was blank or no number, all four classes, and
/// the given exclusions.
pub fn console_config(entered_length: Option<usize>, excluded_chars: Vec<char>) -> (config:
    GenerationConfig)
    ensures
        config.length == match entered_length {
            Some(length) => length,
            None => DEFAULT_LENGTH,
        },
        forall|class: CharacterClass| config@.enabled.contains(class),
        config.excluded_chars == excluded_chars,
{
    let length = match entered_length {
        Some(length) => length,
        None => DEFAULT_LENGTH,
    };
    GenerationConfig { length, enabled_classes: ClassSet::all(), excluded_chars }
}

/// Checks a form before anything is generated. A length of zero is
/// reported first, then a form without any class.
pub fn validate(config: &GenerationConfig) -> (checked: Result<(), RequestError>)
    ensures
        match checked {
            Ok(()) => config.length > 0 && exists|class: CharacterClass|
                config@.enabled.contains(class),
            Err(RequestError::InvalidLength) => config.length == 0,
            Err(RequestError::NoClassSelected) => config.length > 0 && forall|
                class: CharacterClass,
            |
                !config@.enabled.contains(class),
        },
{
    if config.length == 0 {
        Err(RequestError::InvalidLength)
    } else if config.enabled_classes.is_empty() {
        Err(RequestError::NoClassSelected)
    } else {
        proof {
            let class = choose|class: CharacterClass| config.enabled_classes@.contains(class);
            assert(config@.enabled.contains(class));
        }
        Ok(())
    }
}

/// Part number `k` of `draws` when it is cut into parts of `size` entries.
pub open spec fn part(draws: Seq<Draw>, size: nat, k: int) -> Seq<Draw> {
    draws.subrange(k * size, (k + 1) * size)
}

/// Appending to a sequence leaves the parts that were complete as they
/// are, and the appended entries are the next part.
proof fn lemma_parts_after_append(earlier: Seq<Draw>, fresh: Seq<Draw>, size: nat, done: nat)
    requires
        earlier.len() == done * size,
        fresh.len() == size,
    ensures
        (earlier + fresh).len() == (done + 1) * size,
        part(earlier + fresh, size, done as int) == fresh,
        forall|k: int|
            0 <= k < done ==> #[trigger] part(earlier + fresh, size, k) == part(earlier, size, k),
{
    assert((done + 1) * size == done * size + size) by (nonlinear_arith);
    assert(part(earlier + fresh, size, done as int) =~= fresh);
    assert forall|k: int| 0 <= k < done implies #[trigger] part(earlier + fresh, size, k) == part(
        earlier,
        size,
        k,
    ) by {
        assert(0 <= k * size && (k + 1) * size <= done * size) by (nonlinear_arith)
            requires
                0 <= k < done,
        ;
        assert(k * size <= (k + 1) * size) by (nonlinear_arith)
            requires
                0 <= k,
        ;
        assert(part(earlier + fresh, size, k) =~= part(earlier, size, k));
    }
}

/// Generates `count` passwords for `config`, one call of
/// [`generate`](crate::generator::generate) after the other. A failure
/// ends the batch: no partial list is returned.
pub fn generate_batch<R: RandomSource>(config: &GenerationConfig, count: usize, rng: &mut R) -> (result:
    Result<Vec<String>, GenerationError>)
    ensures
        old(rng).log().is_prefix_of(final(rng).log()),
        in_bounds(drawn_since(old(rng).log(), final(rng).log())),
        match result {
            Ok(passwords) => {
                let drawn = drawn_since(old(rng).log(), final(rng).log());
                let size = config@.demand().len();
                &&& count == 0 || config@.failure() is None
                &&& passwords@.len() == count
                &&& drawn.len() == count * size
                &&& forall|k: int|
                    0 <= k < count ==> {
                        &&& bounds_of(#[trigger] part(drawn, size, k)) == config@.demand()
                        &&& passwords@[k]@ == config@.password(part(drawn, size, k))
                        &&& config@.met_by(passwords@[k]@)
                    }
            },
            Err(error) => {
                &&& count > 0
                &&& config@.failure() == Some(error)
                &&& bounds_of(drawn_since(old(rng).log(), final(rng).log())) == config@.demand()
            },
        },
{
    let ghost base = rng.log();
    let ghost size = config@.demand().len();
    let ghost mut drawn: Seq<Draw> = Seq::empty();
    let mut passwords: Vec<String> = Vec::new();
    let mut done: usize = 0;
    proof {
        assert(base + drawn =~= base);
    }
    while done < count
        invariant
            done <= count,
            base == old(rng).log(),
            size == config@.demand().len(),
            rng.log() == base + drawn,
            in_bounds(drawn),
            done > 0 ==> config@.failure() is None,
            passwords@.len() == done,
            drawn.len() == done * size,
            forall|k: int|
                0 <= k < done ==> {
                    &&& bounds_of(#[trigger] part(drawn, size, k)) == config@.demand()
                    &&& passwords@[k]@ == config@.password(part(drawn, size, k))
                    &&& config@.met_by(passwords@[k]@)
                },
        decreases count - done,
    {
        let ghost before = rng.log();
        let ghost earlier = drawn;
        let generated = generate(config, rng);
        proof {
            let fresh = drawn_since(before, rng.log());
            lemma_log_grows(before, rng.log());
            drawn = earlier + fresh;
            assert(rng.log() =~= base + drawn);
            assert(bounds_of(fresh).len() == fresh.len());
            assert(in_bounds(drawn)) by {
                assert forall|i: int| 0 <= i < drawn.len() implies (#[trigger] drawn[i]).value
                    < drawn[i].bound by {
                    if i >= earlier.len() {
                        assert(drawn[i] == fresh[i - earlier.len()]);
                    } else {
                        assert(drawn[i] == earlier[i]);
                    }
                }
            }
            lemma_drawn_since_appended(base, drawn);
            lemma_parts_after_append(earlier, fresh, size, done as nat);
        }
        match generated {
            Ok(password) => {
                passwords.push(password);
            },
            Err(error) => {
                proof {
                    assert(done == 0);
                    assert(drawn =~= drawn_since(before, rng.log()));
                }
                return Err(error);
            },
        }
        done = done + 1;
    }
    proof {
        lemma_drawn_since_appended(base, drawn);
    }
    Ok(passwords)
}

} // verus!
