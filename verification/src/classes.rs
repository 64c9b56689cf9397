//! The four character classes and their fixed alphabets.

use vstd::prelude::*;

verus! {

/// A closed family of character classes. Each one owns a fixed, ordered
/// alphabet.
#[derive(Clone, Copy, Debug, PartialEq, Eq, Structural, Hash)]
pub enum CharacterClass {
    Lowercase,
    Uppercase,
    Digit,
    Symbol,
}

/// How many classes there are.
pub const CLASS_COUNT: usize = 4;

impl CharacterClass {
    /// The characters of the class, in their fixed order.
    pub open spec fn alphabet(self) -> Seq<char> {
        match self {
            CharacterClass::Lowercase => "abcdefghijklmnopqrstuvwxyz"@,
            CharacterClass::Uppercase => "ABCDEFGHIJKLMNOPQRSTUVWXYZ"@,
            CharacterClass::Digit => "0123456789"@,
            CharacterClass::Symbol => "!@#$%^&*()-_=+[]{}|;:,.<>?/"@,
        }
    }

    /// The position of the class in declaration order.
    pub open spec fn rank(self) -> int {
        match self {
            CharacterClass::Lowercase => 0,
            CharacterClass::Uppercase => 1,
            CharacterClass::Digit => 2,
            CharacterClass::Symbol => 3,
        }
    }

    /// The class that stands at position `rank` of the declaration order.
    /// Ranks outside `0..4` are folded onto the last class.
    pub open spec fn at(rank: int) -> CharacterClass {
        if rank <= 0 {
            CharacterClass::Lowercase
        } else if rank == 1 {
            CharacterClass::Uppercase
        } else if rank == 2 {
            CharacterClass::Digit
        } else {
            CharacterClass::Symbol
        }
    }

    /// All classes in declaration order.
    pub open spec fn all() -> Seq<CharacterClass> {
        Seq::new(CLASS_COUNT as nat, |rank: int| CharacterClass::at(rank))
    }

    /// The alphabet as text.
    pub fn alphabet_str(self) -> (text: &'static str)
        ensures
            text@ == self.alphabet(),
    {
        match self {
            CharacterClass::Lowercase => "abcdefghijklmnopqrstuvwxyz",
            CharacterClass::Uppercase => "ABCDEFGHIJKLMNOPQRSTUVWXYZ",
            CharacterClass::Digit => "0123456789",
            CharacterClass::Symbol => "!@#$%^&*()-_=+[]{}|;:,.<>?/",
        }
    }

    /// The class of a given rank, if there is one.
    pub fn from_rank(rank: usize) -> (class: Option<CharacterClass>)
        ensures
            class is Some <==> rank < CLASS_COUNT,
            class is Some ==> class->0 == CharacterClass::at(rank as int),
            class is Some ==> class->0.rank() == rank,
    {
        if rank == 0 {
            Some(CharacterClass::Lowercase)
        } else if rank == 1 {
            Some(CharacterClass::Uppercase)
        } else if rank == 2 {
            Some(CharacterClass::Digit)
        } else if rank == 3 {
            Some(CharacterClass::Symbol)
        } else {
            None
        }
    }
}

/// A set of character classes.
#[derive(Clone, Copy, Debug, PartialEq, Eq, Structural)]
pub struct ClassSet {
    pub lowercase: bool,
    pub uppercase: bool,
    pub digit: bool,
    pub symbol: bool,
}

impl ClassSet {
    /// Whether `class` is a member.
    pub open spec fn has(self, class: CharacterClass) -> bool {
        match class {
            CharacterClass::Lowercase => self.lowercase,
            CharacterClass::Uppercase => self.uppercase,
            CharacterClass::Digit => self.digit,
            CharacterClass::Symbol => self.symbol,
        }
    }

    /// The set without members.
    pub fn none() -> (set: ClassSet)
        ensures
            forall|class: CharacterClass| !set@.contains(class),
    {
        ClassSet { lowercase: false, uppercase: false, digit: false, symbol: false }
    }

    /// The set of all four classes.
    pub fn all() -> (set: ClassSet)
        ensures
            forall|class: CharacterClass| set@.contains(class),
    {
        ClassSet { lowercase: true, uppercase: true, digit: true, symbol: true }
    }

    /// The set whose one member is `class`.
    pub fn only(class: CharacterClass) -> (set: ClassSet)
        ensures
            set@ == Set::<CharacterClass>::empty().insert(class),
    {
        let set = ClassSet::none().with(class);
        assert(set@ =~= Set::<CharacterClass>::empty().insert(class));
        set
    }

    /// This set and `class`.
    pub fn with(self, class: CharacterClass) -> (set: ClassSet)
        ensures
            set@ == self@.insert(class),
    {
        let set = match class {
            CharacterClass::Lowercase => ClassSet { lowercase: true, ..self },
            CharacterClass::Uppercase => ClassSet { uppercase: true, ..self },
            CharacterClass::Digit => ClassSet { digit: true, ..self },
            CharacterClass::Symbol => ClassSet { symbol: true, ..self },
        };
        assert(set@ =~= self@.insert(class));
        set
    }

    /// This set without `class`.
    pub fn without(self, class: CharacterClass) -> (set: ClassSet)
        ensures
            set@ == self@.remove(class),
    {
        let set = match class {
            CharacterClass::Lowercase => ClassSet { lowercase: false, ..self },
            CharacterClass::Uppercase => ClassSet { uppercase: false, ..self },
            CharacterClass::Digit => ClassSet { digit: false, ..self },
            CharacterClass::Symbol => ClassSet { symbol: false, ..self },
        };
        assert(set@ =~= self@.remove(class));
        set
    }

    /// Whether the set has no member.
    pub fn is_empty(&self) -> (empty: bool)
        ensures
            empty == (forall|class: CharacterClass| !self@.contains(class)),
    {
        let empty = !self.lowercase && !self.uppercase && !self.digit && !self.symbol;
        proof {
            if !empty {
                let witness = if self.lowercase {
                    CharacterClass::Lowercase
                } else if self.uppercase {
                    CharacterClass::Uppercase
                } else if self.digit {
                    CharacterClass::Digit
                } else {
                    CharacterClass::Symbol
                };
                assert(self@.contains(witness));
            }
        }
        empty
    }

    /// Whether `class` is a member.
    pub fn contains(&self, class: CharacterClass) -> (member: bool)
        ensures
            member == self@.contains(class),
    {
        match class {
            CharacterClass::Lowercase => self.lowercase,
            CharacterClass::Uppercase => self.uppercase,
            CharacterClass::Digit => self.digit,
            CharacterClass::Symbol => self.symbol,
        }
    }
}

impl View for ClassSet {
    type V = Set<CharacterClass>;

    open spec fn view(&self) -> Set<CharacterClass> {
        Set::new(|class: CharacterClass| self.has(class))
    }
}

} // verus!
