use secret::charset::{
    generate_character_secret, make_character_set, secret_from_indices, DIGITS, LOWERCASE,
    SYMBOLS, UPPERCASE,
};

#[test]
fn digits_only_character_set() {
    assert_eq!(make_character_set(true, false, false, false), "1234567890");
}

#[test]
fn character_set_order_and_lengths() {
    for mask in 0..16u32 {
        let (n, l, u, s) = (mask & 1 != 0, mask & 2 != 0, mask & 4 != 0, mask & 8 != 0);
        let set = make_character_set(n, l, u, s);
        let mut expected = String::new();
        if n {
            expected.push_str(DIGITS);
        }
        if l {
            expected.push_str(LOWERCASE);
        }
        if u {
            expected.push_str(UPPERCASE);
        }
        if s {
            expected.push_str(SYMBOLS);
        }
        assert_eq!(set, expected);
        let len = (if n { 10 } else { 0 }) + (if l { 26 } else { 0 }) + (if u { 26 } else { 0 })
            + (if s { 13 } else { 0 });
        assert_eq!(set.chars().count(), len);
        let mut seen: Vec<char> = Vec::new();
        for c in set.chars() {
            assert!(!seen.contains(&c));
            seen.push(c);
        }
    }
}

#[test]
fn full_character_set() {
    assert_eq!(
        make_character_set(true, true, true, true),
        "1234567890abcdefghijklmnopqrstuvwxyzABCDEFGHIJKLMNOPQRSTUVWXYZ!@#$%&*_+-=.?"
    );
}

#[test]
fn empty_character_set() {
    assert_eq!(make_character_set(false, false, false, false), "");
}

#[test]
fn symbols_character_set() {
    assert_eq!(make_character_set(false, false, false, true), "!@#$%&*_+-=.?");
}

#[test]
fn secret_from_indices_picks_in_order() {
    assert_eq!(secret_from_indices("abc", &vec![2, 0, 0, 1]), "caab");
    assert_eq!(secret_from_indices("abc", &vec![]), "");
}

#[test]
fn character_secret_has_length_and_alphabet() {
    let set = make_character_set(true, false, true, true);
    for length in [0usize, 1, 7, 20, 100] {
        let secret = generate_character_secret(&set, length);
        assert_eq!(secret.chars().count(), length);
        assert!(secret.chars().all(|c| set.contains(c)));
    }
}

#[test]
fn character_secret_of_empty_length_from_empty_set() {
    assert_eq!(generate_character_secret("", 0), "");
}

#[test]
fn character_secret_from_single_character() {
    assert_eq!(generate_character_secret("x", 5), "xxxxx");
}
