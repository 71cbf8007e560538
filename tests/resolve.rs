use secret::charset::{generate_character_secret, make_character_set};
use secret::config::{Config, Options};
use secret::resolve::{
    get_by_arg_or_config, resolve_language, resolve_selection, Flags, ResolveError, Selection,
};

fn stored(numbers: bool, words: bool) -> Config {
    Config {
        options: Options {
            language: "eng".to_owned(),
            length: Some(8),
            upper_letters: false,
            lower_letters: false,
            symbols: false,
            words,
            numbers,
        },
    }
}

fn no_flags() -> Flags {
    Flags { numbers: false, lower_letters: false, upper_letters: false, symbols: false, words: false }
}

#[test]
fn config_mode_with_nothing_enabled_fails() {
    let result = resolve_selection(&no_flags(), None, &stored(false, false));
    assert_eq!(result, Err(ResolveError::NoToggleInConfig));
    let message = ResolveError::NoToggleInConfig.message();
    assert!(message.contains("--set-default"));
}

#[test]
fn config_mode_takes_stored_options() {
    let result = resolve_selection(&no_flags(), Some(30), &stored(true, true));
    assert_eq!(
        result,
        Ok(Selection {
            words: true,
            numbers: true,
            lower_letters: false,
            upper_letters: false,
            symbols: false,
            length: Some(8),
        })
    );
}

#[test]
fn explicit_mode_ignores_config() {
    let flags = Flags { numbers: true, lower_letters: true, upper_letters: false, symbols: false, words: false };
    let selection = resolve_selection(&flags, Some(10), &stored(false, true)).unwrap();
    assert_eq!(
        selection,
        Selection {
            words: false,
            numbers: true,
            lower_letters: true,
            upper_letters: false,
            symbols: false,
            length: Some(10),
        }
    );
    let set = make_character_set(selection.numbers, selection.lower_letters, selection.upper_letters, selection.symbols);
    let secret = generate_character_secret(&set, selection.secret_length());
    assert_eq!(secret.chars().count(), 10);
    assert!(secret.chars().all(|c| c.is_ascii_digit() || c.is_ascii_lowercase()));
}

#[test]
fn explicit_mode_with_invalid_config_still_works() {
    let flags = Flags { numbers: false, lower_letters: false, upper_letters: false, symbols: true, words: false };
    let selection = resolve_selection(&flags, None, &stored(false, false)).unwrap();
    assert!(selection.symbols);
    assert_eq!(selection.length, None);
    assert_eq!(selection.secret_length(), 20);
}

#[test]
fn default_lengths() {
    let mut selection = Selection {
        words: true,
        numbers: false,
        lower_letters: false,
        upper_letters: false,
        symbols: false,
        length: None,
    };
    assert_eq!(selection.secret_length(), 5);
    selection.words = false;
    assert_eq!(selection.secret_length(), 20);
    selection.length = Some(3);
    assert_eq!(selection.secret_length(), 3);
}

#[test]
fn arg_or_config_choice() {
    assert_eq!(get_by_arg_or_config(true, 1, 2), 2);
    assert_eq!(get_by_arg_or_config(false, 1, 2), 1);
}

#[test]
fn language_given_or_stored() {
    let mut config = stored(true, false);
    assert_eq!(resolve_language(Some("ger".to_owned()), &mut config), "ger");
    assert_eq!(resolve_language(None, &mut config), "eng");
}

#[test]
fn flags_none_given() {
    assert!(no_flags().none_given());
    let mut flags = no_flags();
    flags.words = true;
    assert!(!flags.none_given());
}
