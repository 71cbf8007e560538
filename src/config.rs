//! The persisted settings record and the operations on it that do not touch
//! the disk.

use vstd::prelude::*;

verus! {

/// Language tag used when nothing else is known.
pub const DEFAULT_LANGUAGE: &'static str = "ger";

/// The user's preferences for generating secrets.
#[derive(Clone, Debug, PartialEq)]
pub struct Options {
    pub language: String,
    pub length: Option<usize>,
    pub upper_letters: bool,
    pub lower_letters: bool,
    pub symbols: bool,
    pub words: bool,
    pub numbers: bool,
}

/// The configuration record; it wraps a single `Options` value.
#[derive(Clone, Debug, PartialEq)]
pub struct Config {
    pub options: Options,
}

impl Options {
    /// At least one of the five toggles is set.
    pub open spec fn has_toggle(&self) -> bool {
        self.upper_letters || self.lower_letters || self.symbols || self.words || self.numbers
    }

    /// The built-in defaults: lowercase letters and words, primary language.
    pub open spec fn is_builtin_default(&self) -> bool {
        &&& self.language@ == DEFAULT_LANGUAGE@
        &&& self.length is None
        &&& !self.upper_letters
        &&& self.lower_letters
        &&& !self.symbols
        &&& self.words
        &&& !self.numbers
    }
}

impl Config {
    /// A configuration is valid iff at least one toggle is set; an all-false
    /// record cannot produce any output.
    pub fn is_valid(&self) -> (r: bool)
        ensures
            !r <==> (!self.options.upper_letters && !self.options.lower_letters
                && !self.options.symbols && !self.options.words && !self.options.numbers),
    {
        let options = &self.options;
        if !options.upper_letters && !options.lower_letters && !options.symbols && !options.words
            && !options.numbers {
            return false;
        }
        true
    }
}

impl Default for Config {
    /// The built-in defaults, used when no stored configuration can be read.
    fn default() -> (r: Config)
        ensures
            r.options.is_builtin_default(),
    {
        Config {
            options: Options {
                language: DEFAULT_LANGUAGE.to_owned(),
                length: None,
                upper_letters: false,
                lower_letters: true,
                symbols: false,
                words: true,
                numbers: false,
            },
        }
    }
}

/// The stored language tag.
pub fn get_language<'a>(config: &'a mut Config) -> (r: Option<&'a str>)
    ensures
        r matches Some(l) && l@ == old(config).options.language@,
        *final(config) == *old(config),
{
    Some(config.options.language.as_str())
}

/// The configuration that a run works with: what was read from storage, or
/// the built-in defaults when nothing usable was read.
pub fn config_or_default(loaded: Option<Config>) -> (r: Config)
    ensures
        match loaded {
            Some(c) => r == c,
            None => r.options.is_builtin_default(),
        },
{
    match loaded {
        Some(c) => c,
        None => Config::default(),
    }
}

/// Overwrites the stored preferences with the given ones. The language is
/// changed only when one is given; every other field is replaced.
pub fn apply_defaults(
    config: &mut Config,
    lang: Option<&str>,
    length: Option<usize>,
    upper_letters: bool,
    lower_letters: bool,
    symbols: bool,
    words: bool,
    numbers: bool,
)
    ensures
        final(config).options.language@ == match lang {
            Some(l) => l@,
            None => old(config).options.language@,
        },
        final(config).options.length == length,
        final(config).options.upper_letters == upper_letters,
        final(config).options.lower_letters == lower_letters,
        final(config).options.symbols == symbols,
        final(config).options.words == words,
        final(config).options.numbers == numbers,
{
    if let Some(l) = lang {
        config.options.language = l.to_owned();
    }
    config.options.length = length;
    config.options.upper_letters = upper_letters;
    config.options.lower_letters = lower_letters;
    config.options.symbols = symbols;
    config.options.words = words;
    config.options.numbers = numbers;
}

} // verus!
