use password_generator::{
    generate, CharacterClass, ClassSet, GenerationConfig, GenerationError, ReplaySource,
    ThreadSource,
};

const LOWER: &str = "abcdefghijklmnopqrstuvwxyz";
const UPPER: &str = "ABCDEFGHIJKLMNOPQRSTUVWXYZ";
const DIGITS: &str = "0123456789";
const SYMBOLS: &str = "!@#$%^&*()-_=+[]{}|;:,.<>?/";

fn config(length: usize, classes: ClassSet, excluded: &str) -> GenerationConfig {
    GenerationConfig {
        length,
        enabled_classes: classes,
        excluded_chars: excluded.chars().collect(),
    }
}

fn count_in(password: &str, alphabet: &str) -> usize {
    password.chars().filter(|c| alphabet.contains(*c)).count()
}

#[test]
fn all_classes_length_24_has_one_of_each() {
    let mut rng = ThreadSource::new();
    for _ in 0..200 {
        let password = generate(&config(24, ClassSet::all(), ""), &mut rng).unwrap();
        assert_eq!(password.chars().count(), 24);
        assert!(count_in(&password, LOWER) >= 1);
        assert!(count_in(&password, UPPER) >= 1);
        assert!(count_in(&password, DIGITS) >= 1);
        assert!(count_in(&password, SYMBOLS) >= 1);
    }
}

#[test]
fn length_three_cannot_hold_four_classes() {
    let mut rng = ThreadSource::new();
    let result = generate(&config(3, ClassSet::all(), ""), &mut rng);
    assert_eq!(
        result,
        Err(GenerationError::LengthTooShortForRequiredClasses { required: 4, requested: 3 })
    );
}

#[test]
fn every_character_excluded_leaves_nothing() {
    let mut rng = ThreadSource::new();
    let everything = format!("{}{}{}{}", LOWER, UPPER, DIGITS, SYMBOLS);
    for length in [0usize, 1, 4, 24] {
        let result = generate(&config(length, ClassSet::all(), &everything), &mut rng);
        assert_eq!(result, Err(GenerationError::NoAvailableCharacters));
    }
}

#[test]
fn digits_only_uses_every_digit() {
    let mut rng = ThreadSource::new();
    let mut seen = [false; 10];
    for _ in 0..500 {
        let password =
            generate(&config(8, ClassSet::only(CharacterClass::Digit), ""), &mut rng).unwrap();
        assert_eq!(password.chars().count(), 8);
        for c in password.chars() {
            let digit = c.to_digit(10).expect("only digits");
            seen[digit as usize] = true;
        }
    }
    assert!(seen.iter().all(|s| *s));
}

#[test]
fn length_zero_cannot_hold_the_seeds() {
    let mut rng = ThreadSource::new();
    let result = generate(&config(0, ClassSet::all(), ""), &mut rng);
    assert_eq!(
        result,
        Err(GenerationError::LengthTooShortForRequiredClasses { required: 4, requested: 0 })
    );
}

#[test]
fn no_class_enabled_leaves_nothing_available() {
    let mut rng = ThreadSource::new();
    let result = generate(&config(8, ClassSet::none(), ""), &mut rng);
    assert_eq!(result, Err(GenerationError::NoAvailableCharacters));
}

#[test]
fn length_is_exactly_what_was_asked() {
    let mut rng = ThreadSource::new();
    for length in 4usize..60 {
        let password = generate(&config(length, ClassSet::all(), "aZ9!"), &mut rng).unwrap();
        assert_eq!(password.chars().count(), length);
        assert_eq!(password.len(), length);
    }
}

#[test]
fn shortest_length_that_fits_is_the_seed_count() {
    let mut rng = ThreadSource::new();
    let password = generate(&config(4, ClassSet::all(), ""), &mut rng).unwrap();
    assert_eq!(count_in(&password, LOWER), 1);
    assert_eq!(count_in(&password, UPPER), 1);
    assert_eq!(count_in(&password, DIGITS), 1);
    assert_eq!(count_in(&password, SYMBOLS), 1);
    let two = ClassSet::none().with(CharacterClass::Lowercase).with(CharacterClass::Digit);
    assert_eq!(
        generate(&config(1, two, ""), &mut rng),
        Err(GenerationError::LengthTooShortForRequiredClasses { required: 2, requested: 1 })
    );
    assert_eq!(generate(&config(2, two, ""), &mut rng).unwrap().chars().count(), 2);
}

#[test]
fn excluded_characters_never_appear() {
    let mut rng = ThreadSource::new();
    let excluded = "abcdefghijklmnopqrstuvwxy0123456789ABCDEFGHIJKLM!@#$%^&*()";
    for _ in 0..200 {
        let password = generate(&config(40, ClassSet::all(), excluded), &mut rng).unwrap();
        assert!(password.chars().all(|c| !excluded.contains(c)));
        assert!(password.contains('z'));
    }
}

#[test]
fn exclusions_outside_every_alphabet_change_nothing() {
    let script: Vec<usize> = (0..200).map(|i| i * 7 + 3).collect();
    let plain = generate(&config(30, ClassSet::all(), ""), &mut ReplaySource::new(script.clone()));
    let odd = generate(
        &config(30, ClassSet::all(), " \u{e9}\u{4e2d}~`"),
        &mut ReplaySource::new(script),
    );
    assert!(plain.is_ok());
    assert_eq!(plain, odd);
}

#[test]
fn every_satisfiable_class_is_represented() {
    let mut rng = ThreadSource::new();
    let excluded = "bcdefghijklmnopqrstuvwxyz12345678";
    for _ in 0..300 {
        let password = generate(&config(4, ClassSet::all(), excluded), &mut rng).unwrap();
        assert_eq!(count_in(&password, "a"), 1);
        assert_eq!(count_in(&password, UPPER), 1);
        assert_eq!(count_in(&password, "09"), 1);
        assert_eq!(count_in(&password, SYMBOLS), 1);
    }
}

#[test]
fn only_enabled_classes_contribute() {
    let mut rng = ThreadSource::new();
    let classes = ClassSet::all().without(CharacterClass::Symbol).without(CharacterClass::Uppercase);
    for _ in 0..200 {
        let password = generate(&config(32, classes, ""), &mut rng).unwrap();
        assert!(password.chars().all(|c| LOWER.contains(c) || DIGITS.contains(c)));
        assert!(count_in(&password, LOWER) >= 1);
        assert!(count_in(&password, DIGITS) >= 1);
    }
}

#[test]
fn fully_excluded_class_is_passed_over() {
    let mut rng = ThreadSource::new();
    for _ in 0..100 {
        let password = generate(&config(3, ClassSet::all(), DIGITS), &mut rng).unwrap();
        assert_eq!(password.chars().count(), 3);
        assert_eq!(count_in(&password, DIGITS), 0);
        assert_eq!(count_in(&password, LOWER), 1);
        assert_eq!(count_in(&password, UPPER), 1);
        assert_eq!(count_in(&password, SYMBOLS), 1);
    }
    assert_eq!(
        generate(&config(2, ClassSet::all(), DIGITS), &mut rng),
        Err(GenerationError::LengthTooShortForRequiredClasses { required: 3, requested: 2 })
    );
}

#[test]
fn same_script_gives_same_password() {
    let script: Vec<usize> = (0..100).map(|i| (i * i * 31 + 17) % 1009).collect();
    let setup = config(24, ClassSet::all(), "lI1O0");
    let first = generate(&setup, &mut ReplaySource::new(script.clone())).unwrap();
    let second = generate(&setup, &mut ReplaySource::new(script.clone())).unwrap();
    assert_eq!(first, second);
    let mut other = script;
    other[0] += 1;
    let third = generate(&setup, &mut ReplaySource::new(other)).unwrap();
    assert_ne!(first, third);
}

#[test]
fn order_and_repetition_of_exclusions_do_not_matter() {
    let script: Vec<usize> = (0..100).map(|i| i * 13 + 5).collect();
    let first = generate(&config(20, ClassSet::all(), "abc123"), &mut ReplaySource::new(script.clone()));
    let second =
        generate(&config(20, ClassSet::all(), "3c2b1a1a3c"), &mut ReplaySource::new(script));
    assert!(first.is_ok());
    assert_eq!(first, second);
}

#[test]
fn scripted_seeds_without_filler() {
    let mut rng = ReplaySource::new(vec![0, 1, 2, 3, 0, 0, 0]);
    let password = generate(&config(4, ClassSet::all(), ""), &mut rng).unwrap();
    assert_eq!(password, "B2$a");
    assert_eq!(rng.remaining(), 0);
}

#[test]
fn scripted_seeds_filler_and_identity_shuffle() {
    let mut rng = ReplaySource::new(vec![0, 1, 2, 3, 26, 61, 5, 4, 3, 2, 1, 99]);
    let password = generate(&config(6, ClassSet::all(), ""), &mut rng).unwrap();
    assert_eq!(password, "aB2$A9");
    assert_eq!(rng.remaining(), 1);
}

#[test]
fn scripted_run_with_exclusions() {
    // Lowercase is left with "xyz", digits with "89"; uppercase and symbols are off.
    let classes = ClassSet::none().with(CharacterClass::Lowercase).with(CharacterClass::Digit);
    let excluded = "abcdefghijklmnopqrstuvw01234567";
    // Seeds: "xyz"[1], "89"[0]. Filler from "xyz89": [4], [2], [0].
    // Shuffle of "y89zx": (4,0) (3,1) (2,2) (1,0).
    let mut rng = ReplaySource::new(vec![1, 0, 4, 2, 0, 0, 1, 2, 0]);
    let password = generate(&config(5, classes, excluded), &mut rng).unwrap();
    assert_eq!(password, "zx98y");
}

#[test]
fn failures_do_not_depend_on_the_draws() {
    for seed in 0..50usize {
        let script: Vec<usize> = (0..20).map(|i| i * seed + seed).collect();
        assert_eq!(
            generate(&config(3, ClassSet::all(), ""), &mut ReplaySource::new(script.clone())),
            Err(GenerationError::LengthTooShortForRequiredClasses { required: 4, requested: 3 })
        );
        assert_eq!(
            generate(&config(9, ClassSet::all(), &format!("{}{}{}{}", LOWER, UPPER, DIGITS, SYMBOLS)),
                &mut ReplaySource::new(script)),
            Err(GenerationError::NoAvailableCharacters)
        );
    }
}

#[test]
fn an_empty_pool_draws_nothing_and_seeds_are_drawn_before_the_length_check() {
    let mut rng = ReplaySource::new(vec![1, 2, 3, 4, 5, 6]);
    let result = generate(&config(5, ClassSet::only(CharacterClass::Digit), DIGITS), &mut rng);
    assert_eq!(result, Err(GenerationError::NoAvailableCharacters));
    assert_eq!(rng.remaining(), 6);
    let result = generate(&config(2, ClassSet::all(), ""), &mut rng);
    assert_eq!(
        result,
        Err(GenerationError::LengthTooShortForRequiredClasses { required: 4, requested: 2 })
    );
    assert_eq!(rng.remaining(), 2);
}

#[test]
fn single_characters_are_spread_evenly() {
    let mut rng = ThreadSource::new();
    let mut counts = [0usize; 10];
    let setup = config(1, ClassSet::only(CharacterClass::Digit), "");
    for _ in 0..20000 {
        let password = generate(&setup, &mut rng).unwrap();
        let digit = password.chars().next().unwrap().to_digit(10).unwrap();
        counts[digit as usize] += 1;
    }
    for count in counts {
        assert!(count > 1700 && count < 2300);
    }
}

#[test]
fn seeds_do_not_stay_in_class_order() {
    let mut rng = ThreadSource::new();
    let mut lower_first = 0usize;
    let setup = config(4, ClassSet::all(), "");
    for _ in 0..4000 {
        let password = generate(&setup, &mut rng).unwrap();
        if LOWER.contains(password.chars().next().unwrap()) {
            lower_first += 1;
        }
    }
    assert!(lower_first > 800 && lower_first < 1200);
}

#[test]
fn length_zero_never_succeeds() {
    let mut rng = ThreadSource::new();
    for rank in 0..4 {
        let class = CharacterClass::from_rank(rank).unwrap();
        assert_eq!(
            generate(&config(0, ClassSet::only(class), ""), &mut rng),
            Err(GenerationError::LengthTooShortForRequiredClasses { required: 1, requested: 0 })
        );
    }
    assert_eq!(
        generate(&config(0, ClassSet::none(), ""), &mut rng),
        Err(GenerationError::NoAvailableCharacters)
    );
}
