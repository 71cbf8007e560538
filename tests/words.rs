use secret::words::{
    apply_leetspeak, generate_word_secret, join_words, mangle, uppercase_at_positions,
    uppercase_positions,
};

fn list(words: &[&str]) -> Vec<String> {
    words.iter().map(|w| w.to_string()).collect()
}

#[test]
fn join_words_exact() {
    let words = list(&["Apfel", "birne", "kirsche"]);
    assert_eq!(join_words(&words, &vec![2, 0, 0]), "kirsche-Apfel-Apfel");
    assert_eq!(join_words(&words, &vec![1]), "birne");
    assert_eq!(join_words(&words, &vec![]), "");
}

#[test]
fn word_secret_has_count_words_and_separators() {
    let words = list(&["xyz", "qrst", "lmn"]);
    for count in 1..8usize {
        let secret = generate_word_secret(&words, count, false, true, false, false);
        let parts: Vec<&str> = secret.split('-').collect();
        assert_eq!(parts.len(), count);
        assert_eq!(secret.matches('-').count(), count - 1);
        assert!(parts.iter().all(|p| words.contains(&p.to_string())));
    }
}

#[test]
fn word_secret_is_lowercased() {
    let words = list(&["XYZ", "QrS"]);
    let secret = generate_word_secret(&words, 4, false, true, false, false);
    assert_eq!(secret, secret.to_lowercase());
    assert!(secret.split('-').all(|p| p == "xyz" || p == "qrs"));
}

#[test]
fn word_secret_single_word_list() {
    let words = list(&["Haus"]);
    assert_eq!(generate_word_secret(&words, 3, false, true, false, false), "haus-haus-haus");
    assert_eq!(generate_word_secret(&words, 2, true, true, false, false), "h4us-h4us");
}

#[test]
fn word_secret_of_no_words() {
    assert_eq!(generate_word_secret(&Vec::new(), 0, true, true, true, true), "");
}

#[test]
fn leetspeak_without_target_letters_is_identity() {
    let words = list(&["xyz", "qrst"]);
    let secret = generate_word_secret(&words, 5, true, true, false, false);
    assert!(secret.split('-').all(|p| p == "xyz" || p == "qrst"));
    assert!(!secret.chars().any(|c| c.is_ascii_digit()));
    assert_eq!(apply_leetspeak("bcd-fgh"), "bcd-fgh");
}

#[test]
fn leetspeak_replaces_each_letter() {
    assert_eq!(apply_leetspeak("aeoi-AEOI-xyz"), "4301-AEOI-xyz");
    assert_eq!(apply_leetspeak(""), "");
}

#[test]
fn uppercase_positions_probe_collisions() {
    assert_eq!(uppercase_positions(5, &vec![1, 1, 1]), vec![1, 2, 3]);
    assert_eq!(uppercase_positions(3, &vec![2, 2, 2]), vec![2, 0, 1]);
    assert_eq!(uppercase_positions(4, &vec![]), Vec::<usize>::new());
}

#[test]
fn uppercase_positions_are_distinct() {
    let draws = vec![0, 0, 0, 0, 0, 0, 0, 0, 0, 0];
    let positions = uppercase_positions(10, &draws);
    assert_eq!(positions, vec![0, 1, 2, 3, 4, 5, 6, 7, 8, 9]);
}

#[test]
fn uppercase_at_given_positions() {
    assert_eq!(uppercase_at_positions("abc-def", &vec![0, 3, 6]), "Abc-deF");
    assert_eq!(uppercase_at_positions("äbc", &vec![0, 1]), "äBc");
}

#[test]
fn mangle_uppercases_then_leetspeaks() {
    assert_eq!(mangle("banane-eis", false, true, &vec![0, 0]), "BAnane-eis");
    assert_eq!(mangle("banane-eis", true, true, &vec![1, 1]), "bAN4n3-31s");
    assert_eq!(mangle("banane-eis", true, false, &vec![]), "b4n4n3-31s");
    assert_eq!(mangle("banane-eis", false, false, &vec![]), "banane-eis");
}

#[test]
fn word_secret_uppercases_a_fifth() {
    let words = list(&["qwrtz", "plkjh"]);
    for count in 1..6usize {
        let secret = generate_word_secret(&words, count, false, true, true, false);
        let len = secret.chars().count();
        let upper = secret.chars().filter(|c| c.is_ascii_uppercase()).count();
        let dashes_hit = len / 5 - upper;
        assert!(upper <= len / 5);
        assert!(dashes_hit <= count - 1);
        assert_eq!(secret.to_lowercase().split('-').count(), count);
    }
}
