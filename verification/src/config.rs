//! What a caller asks for, and the character sets that follow from it.

use vstd::prelude::*;
use crate::classes::{CharacterClass, ClassSet, CLASS_COUNT};
use crate::filtering::{lemma_filter_keeps_members, outside, retain_allowed};
use crate::text::chars_of;

verus! {

/// The input of one generation.
#[derive(Clone, Debug)]
pub struct GenerationConfig {
    /// How many characters the password must have.
    pub length: usize,
    /// The classes to draw from.
    pub enabled_classes: ClassSet,
    /// Characters that must not appear. Order and repetition carry no
    /// meaning.
    pub excluded_chars: Vec<char>,
}

impl GenerationConfig {
    /// Appends the alphabet of `class` to `chars` if the class is enabled.
    fn push_share(&self, class: CharacterClass, chars: &mut Vec<char>)
        ensures
            final(chars)@ == old(chars)@ + self@.share(class),
    {
        if self.enabled_classes.contains(class) {
            let mut letters = chars_of(class.alphabet_str());
            chars.append(&mut letters);
        }
    }

    /// The alphabets of the enabled classes, one after the other.
    pub fn enabled_alphabet(&self) -> (chars: Vec<char>)
        ensures
            chars@ == self@.enabled_alphabet(),
    {
        let mut chars: Vec<char> = Vec::new();
        self.push_share(CharacterClass::Lowercase, &mut chars);
        self.push_share(CharacterClass::Uppercase, &mut chars);
        self.push_share(CharacterClass::Digit, &mut chars);
        self.push_share(CharacterClass::Symbol, &mut chars);
        chars
    }

    /// Every character that may fill a free position.
    pub fn pool(&self) -> (pool: Vec<char>)
        ensures
            pool@ == self@.pool(),
    {
        let all = self.enabled_alphabet();
        retain_allowed(&all, &self.excluded_chars)
    }

    /// The characters of `class` that are not excluded.
    pub fn eligible(&self, class: CharacterClass) -> (chars: Vec<char>)
        ensures
            chars@ == self@.eligible(class),
    {
        let letters = chars_of(class.alphabet_str());
        retain_allowed(&letters, &self.excluded_chars)
    }
}

impl View for GenerationConfig {
    type V = Constraints;

    open spec fn view(&self) -> Constraints {
        Constraints {
            length: self.length as nat,
            enabled: self.enabled_classes@,
            excluded: self.excluded_chars@.to_set(),
        }
    }
}

/// A configuration as mathematics sees it.
pub struct Constraints {
    pub length: nat,
    pub enabled: Set<CharacterClass>,
    pub excluded: Set<char>,
}

impl Constraints {
    /// The alphabet of `class` if the class is enabled, nothing otherwise.
    pub open spec fn share(self, class: CharacterClass) -> Seq<char> {
        if self.enabled.contains(class) {
            class.alphabet()
        } else {
            Seq::empty()
        }
    }

    /// The alphabets of the enabled classes, one after the other.
    pub open spec fn enabled_alphabet(self) -> Seq<char> {
        self.share(CharacterClass::Lowercase) + self.share(CharacterClass::Uppercase) + self.share(
            CharacterClass::Digit,
        ) + self.share(CharacterClass::Symbol)
    }

    /// Every character that may fill a free position: the enabled
    /// alphabets without the excluded characters.
    pub open spec fn pool(self) -> Seq<char> {
        self.enabled_alphabet().filter(outside(self.excluded))
    }

    /// The characters of `class` that are not excluded.
    pub open spec fn eligible(self, class: CharacterClass) -> Seq<char> {
        class.alphabet().filter(outside(self.excluded))
    }

    /// An enabled class of which at least one character is left.
    pub open spec fn satisfiable(self, class: CharacterClass) -> bool {
        self.enabled.contains(class) && self.eligible(class).len() > 0
    }

    /// The test that a class passes when it can give a seed.
    pub open spec fn seed_test(self) -> spec_fn(CharacterClass) -> bool {
        |class: CharacterClass| self.satisfiable(class)
    }

    /// The classes that give a seed character, in declaration order.
    pub open spec fn seed_classes(self) -> Seq<CharacterClass> {
        CharacterClass::all().filter(self.seed_test())
    }

    /// The characters that may stand at `position` before the shuffle:
    /// the first positions belong to the seed classes, one each, and every
    /// later one to the pool.
    pub open spec fn candidates(self, position: int) -> Seq<char> {
        if 0 <= position < self.seed_classes().len() {
            self.eligible(self.seed_classes()[position])
        } else {
            self.pool()
        }
    }

    /// A character of an enabled class that is not excluded is in the pool.
    pub proof fn lemma_admitted_in_pool(self, class: CharacterClass, c: char)
        requires
            self.enabled.contains(class),
            class.alphabet().contains(c),
            !self.excluded.contains(c),
        ensures
            self.pool().contains(c),
    {
        let lower = self.share(CharacterClass::Lowercase);
        let upper = self.share(CharacterClass::Uppercase);
        let digit = self.share(CharacterClass::Digit);
        let symbol = self.share(CharacterClass::Symbol);
        let all = self.enabled_alphabet();
        let at = choose|at: int| 0 <= at < class.alphabet().len() && class.alphabet()[at] == c;
        let offset: int = match class {
            CharacterClass::Lowercase => 0int,
            CharacterClass::Uppercase => lower.len() as int,
            CharacterClass::Digit => (lower.len() + upper.len()) as int,
            CharacterClass::Symbol => (lower.len() + upper.len() + digit.len()) as int,
        };
        assert(all[offset + at] == c);
        all.lemma_filter_contains(outside(self.excluded), offset + at);
    }

    /// Every character of the pool may appear in a password.
    pub proof fn lemma_pool_admitted(self, k: int)
        requires
            0 <= k < self.pool().len(),
        ensures
            self.admits(self.pool()[k]),
    {
        let c = self.pool()[k];
        lemma_filter_keeps_members(self.enabled_alphabet(), outside(self.excluded), k);
        let lower = self.share(CharacterClass::Lowercase);
        let upper = self.share(CharacterClass::Uppercase);
        let digit = self.share(CharacterClass::Digit);
        let symbol = self.share(CharacterClass::Symbol);
        let at = choose|at: int|
            0 <= at < self.enabled_alphabet().len() && self.enabled_alphabet()[at] == c;
        if at < lower.len() {
            assert(lower[at] == c);
            assert(self.enabled.contains(CharacterClass::Lowercase));
        } else if at < lower.len() + upper.len() {
            assert(upper[at - lower.len()] == c);
            assert(self.enabled.contains(CharacterClass::Uppercase));
        } else if at < lower.len() + upper.len() + digit.len() {
            assert(digit[at - lower.len() - upper.len()] == c);
            assert(self.enabled.contains(CharacterClass::Digit));
        } else {
            assert(symbol[at - lower.len() - upper.len() - digit.len()] == c);
            assert(self.enabled.contains(CharacterClass::Symbol));
        }
    }

    /// Every eligible character of an enabled class may appear in a
    /// password, and belongs to the alphabet of its class.
    pub proof fn lemma_eligible_admitted(self, class: CharacterClass, k: int)
        requires
            self.enabled.contains(class),
            0 <= k < self.eligible(class).len(),
        ensures
            self.admits(self.eligible(class)[k]),
            class.alphabet().contains(self.eligible(class)[k]),
    {
        lemma_filter_keeps_members(class.alphabet(), outside(self.excluded), k);
    }

    /// Every seed class is enabled and has a character left.
    pub proof fn lemma_seed_classes_satisfiable(self, i: int)
        requires
            0 <= i < self.seed_classes().len(),
        ensures
            self.satisfiable(self.seed_classes()[i]),
    {
        lemma_filter_keeps_members(CharacterClass::all(), self.seed_test(), i);
    }

    /// Every class that is enabled and has a character left is a seed
    /// class.
    pub proof fn lemma_satisfiable_is_seed_class(self, class: CharacterClass)
        requires
            self.satisfiable(class),
        ensures
            self.seed_classes().contains(class),
            self.seed_classes().len() <= CLASS_COUNT,
    {
        let all = CharacterClass::all();
        assert(all[class.rank()] == class);
        all.lemma_filter_contains(self.seed_test(), class.rank());
        all.lemma_filter_len(self.seed_test());
    }

    /// Whatever may stand at a position may appear in a password.
    pub proof fn lemma_candidates_admitted(self, position: int, k: int)
        requires
            0 <= k < self.candidates(position).len(),
        ensures
            self.admits(self.candidates(position)[k]),
    {
        if 0 <= position < self.seed_classes().len() {
            self.lemma_seed_classes_satisfiable(position);
            self.lemma_eligible_admitted(self.seed_classes()[position], k);
        } else {
            self.lemma_pool_admitted(k);
        }
    }

    /// Whether `c` may appear in a password: it belongs to an enabled class
    /// and is not excluded.
    pub open spec fn admits(self, c: char) -> bool {
        &&& !self.excluded.contains(c)
        &&& exists|class: CharacterClass| #[trigger]
            self.enabled.contains(class) && class.alphabet().contains(c)
    }
}

} // verus!
