//! Facts that hold of every configuration and every stream of draws.

use vstd::prelude::*;
use vstd::seq_lib::lemma_no_dup_in_concat;
use crate::classes::{CharacterClass, CLASS_COUNT};
use crate::config::{Constraints, GenerationConfig};
use crate::filtering::{
    lemma_filter_drops_one, lemma_filter_keeps_all, lemma_filter_keeps_members,
    lemma_filter_no_duplicates, outside,
};
use crate::entropy::{bounds_of, Draw};
use crate::generator::GenerationError;

verus! {

/// The alphabets have 26, 26, 10 and 27 characters.
pub proof fn lemma_alphabet_sizes()
    ensures
        CharacterClass::Lowercase.alphabet().len() == 26,
        CharacterClass::Uppercase.alphabet().len() == 26,
        CharacterClass::Digit.alphabet().len() == 10,
        CharacterClass::Symbol.alphabet().len() == 27,
{
    reveal_strlit("abcdefghijklmnopqrstuvwxyz");
    reveal_strlit("ABCDEFGHIJKLMNOPQRSTUVWXYZ");
    reveal_strlit("0123456789");
    reveal_strlit("!@#$%^&*()-_=+[]{}|;:,.<>?/");
}

/// No alphabet holds a character twice, and no character belongs to two
/// alphabets.
pub proof fn lemma_alphabets_distinct()
    ensures
        forall|class: CharacterClass| #[trigger] class.alphabet().no_duplicates(),
        forall|first: CharacterClass, second: CharacterClass|
            first != second ==> #[trigger] first.alphabet().disjoint(second.alphabet()),
{
    reveal_strlit("abcdefghijklmnopqrstuvwxyz");
    reveal_strlit("ABCDEFGHIJKLMNOPQRSTUVWXYZ");
    reveal_strlit("0123456789");
    reveal_strlit("!@#$%^&*()-_=+[]{}|;:,.<>?/");
    let lower = CharacterClass::Lowercase.alphabet();
    let upper = CharacterClass::Uppercase.alphabet();
    let digit = CharacterClass::Digit.alphabet();
    let symbol = CharacterClass::Symbol.alphabet();
    assert forall|i: int| 0 <= i < 26 implies (#[trigger] lower[i]) as int == 97 + i by {}
    assert forall|i: int| 0 <= i < 26 implies (#[trigger] upper[i]) as int == 65 + i by {}
    assert forall|i: int| 0 <= i < 10 implies (#[trigger] digit[i]) as int == 48 + i by {}
}

/// No character occurs twice among the candidates of a position: an index
/// drawn with equal chances picks every candidate with the same chance.
pub proof fn lemma_candidates_distinct(c: Constraints)
    ensures
        c.pool().no_duplicates(),
        forall|class: CharacterClass| #[trigger] c.eligible(class).no_duplicates(),
        forall|position: int| #[trigger] c.candidates(position).no_duplicates(),
{
    lemma_alphabets_distinct();
    let lower = c.share(CharacterClass::Lowercase);
    let upper = c.share(CharacterClass::Uppercase);
    let digit = c.share(CharacterClass::Digit);
    let symbol = c.share(CharacterClass::Symbol);
    assert(CharacterClass::Lowercase.alphabet().disjoint(CharacterClass::Uppercase.alphabet()));
    assert(CharacterClass::Lowercase.alphabet().disjoint(CharacterClass::Digit.alphabet()));
    assert(CharacterClass::Lowercase.alphabet().disjoint(CharacterClass::Symbol.alphabet()));
    assert(CharacterClass::Uppercase.alphabet().disjoint(CharacterClass::Digit.alphabet()));
    assert(CharacterClass::Uppercase.alphabet().disjoint(CharacterClass::Symbol.alphabet()));
    assert(CharacterClass::Digit.alphabet().disjoint(CharacterClass::Symbol.alphabet()));
    assert(CharacterClass::Lowercase.alphabet().no_duplicates());
    assert(CharacterClass::Uppercase.alphabet().no_duplicates());
    assert(CharacterClass::Digit.alphabet().no_duplicates());
    assert(CharacterClass::Symbol.alphabet().no_duplicates());
    lemma_no_dup_in_concat(lower, upper);
    lemma_no_dup_in_concat(lower + upper, digit);
    lemma_no_dup_in_concat(lower + upper + digit, symbol);
    lemma_filter_no_duplicates(c.enabled_alphabet(), outside(c.excluded));
    assert forall|class: CharacterClass| #[trigger] c.eligible(class).no_duplicates() by {
        lemma_filter_no_duplicates(class.alphabet(), outside(c.excluded));
    }
}

/// Without exclusions every alphabet is eligible as a whole, every enabled
/// class gives a seed, and the pool is the enabled alphabets.
pub proof fn lemma_without_exclusions(c: Constraints)
    requires
        c.excluded == Set::<char>::empty(),
    ensures
        forall|class: CharacterClass| #[trigger] c.eligible(class) == class.alphabet(),
        forall|class: CharacterClass| #[trigger] c.satisfiable(class) == c.enabled.contains(class),
        c.pool() == c.enabled_alphabet(),
{
    lemma_alphabet_sizes();
    assert forall|class: CharacterClass| #[trigger] c.eligible(class) == class.alphabet() by {
        lemma_filter_keeps_all(class.alphabet(), outside(c.excluded));
    }
    lemma_filter_keeps_all(c.enabled_alphabet(), outside(c.excluded));
}

/// When every character of every enabled class is excluded, nothing is
/// left to generate from.
pub proof fn lemma_everything_excluded(c: Constraints)
    requires
        forall|class: CharacterClass, i: int|
            c.enabled.contains(class) && 0 <= i < class.alphabet().len() ==> c.excluded.contains(
                #[trigger] class.alphabet()[i],
            ),
    ensures
        c.pool().len() == 0,
        c.failure() == Some(GenerationError::NoAvailableCharacters),
{
    if c.pool().len() > 0 {
        c.lemma_pool_admitted(0);
        let x = c.pool()[0];
        let class = choose|class: CharacterClass| #[trigger]
            c.enabled.contains(class) && class.alphabet().contains(x);
        let at = choose|at: int| 0 <= at < class.alphabet().len() && class.alphabet()[at] == x;
        assert(c.excluded.contains(class.alphabet()[at]));
    }
}

/// The seed classes are all four classes exactly when each of them is
/// enabled and has a character left.
pub proof fn lemma_four_seed_classes(c: Constraints)
    ensures
        c.seed_classes().len() <= CLASS_COUNT,
        c.seed_classes().len() == CLASS_COUNT <==> (forall|class: CharacterClass|
            c.satisfiable(class)),
{
    let all = CharacterClass::all();
    all.lemma_filter_len(c.seed_test());
    if forall|class: CharacterClass| c.satisfiable(class) {
        lemma_filter_keeps_all(all, c.seed_test());
    }
    if c.seed_classes().len() == CLASS_COUNT {
        assert forall|class: CharacterClass| c.satisfiable(class) by {
            if !c.satisfiable(class) {
                lemma_filter_drops_one(all, c.seed_test(), class.rank());
            }
        }
    }
}

/// The pool is empty exactly when no class can give a seed.
pub proof fn lemma_pool_empty_iff_no_seed_class(c: Constraints)
    ensures
        c.pool().len() == 0 <==> c.seed_classes().len() == 0,
{
    if c.pool().len() > 0 {
        c.lemma_pool_admitted(0);
        let x = c.pool()[0];
        let class = choose|class: CharacterClass| #[trigger]
            c.enabled.contains(class) && class.alphabet().contains(x);
        let at = choose|at: int| 0 <= at < class.alphabet().len() && class.alphabet()[at] == x;
        class.alphabet().lemma_filter_contains(outside(c.excluded), at);
        c.lemma_satisfiable_is_seed_class(class);
    }
    if c.seed_classes().len() > 0 {
        c.lemma_seed_classes_satisfiable(0);
        let class = c.seed_classes()[0];
        c.lemma_eligible_admitted(class, 0);
        let x = c.eligible(class)[0];
        lemma_filter_keeps_members(class.alphabet(), outside(c.excluded), 0);
        c.lemma_admitted_in_pool(class, x);
    }
}

/// No configuration with length 0 succeeds: either nothing is available,
/// or a seed asks for room.
pub proof fn lemma_success_needs_room(c: Constraints)
    requires
        c.failure() is None,
    ensures
        1 <= c.seed_classes().len() <= c.length,
        c.seed_classes().len() <= CLASS_COUNT,
{
    lemma_pool_empty_iff_no_seed_class(c);
    CharacterClass::all().lemma_filter_len(c.seed_test());
}

/// Fixed entropy, fixed result. Take two runs of
/// [`generate`](crate::generator::generate) on configurations that ask for
/// the same length, the same classes and the same set of excluded
/// characters. If their sources hand out the same values, they serve the
/// same draws, both runs fail with the same error or both succeed, and the
/// passwords are the same.
pub proof fn lemma_same_draws_same_result(
    a: GenerationConfig,
    b: GenerationConfig,
    first: Seq<Draw>,
    second: Seq<Draw>,
)
    requires
        a.length == b.length,
        a.enabled_classes@ == b.enabled_classes@,
        a.excluded_chars@.to_set() == b.excluded_chars@.to_set(),
        bounds_of(first) == a@.demand(),
        bounds_of(second) == b@.demand(),
        forall|i: int|
            0 <= i < first.len() && i < second.len() ==> first[i].value == second[i].value,
    ensures
        first == second,
        a@.failure() == b@.failure(),
        a@.password(first) == b@.password(second),
{
    assert(a@ == b@);
    assert(bounds_of(first).len() == first.len());
    assert(bounds_of(second).len() == second.len());
    assert forall|i: int| 0 <= i < first.len() implies first[i] == second[i] by {
        assert(bounds_of(first)[i] == first[i].bound);
        assert(bounds_of(second)[i] == second[i].bound);
    }
    assert(first =~= second);
}

} // verus!
