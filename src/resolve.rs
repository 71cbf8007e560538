//! Reconciles the flags given on a run with the stored preferences.

use vstd::prelude::*;
use crate::config::{get_language, Config, Options, DEFAULT_LANGUAGE};

verus! {

/// Secret length in word mode when none is given or stored.
pub const DEFAULT_WORD_COUNT: usize = 5;

/// Secret length in character mode when none is given or stored.
pub const DEFAULT_CHARACTER_COUNT: usize = 20;

/// The text shown when no flag is given and the stored preferences enable
/// nothing.
pub const NO_TOGGLE_MESSAGE: &'static str = "\nThere where no flags provided\n-> use config.yaml\nIssue: seems like all flags in the configs are set to false.\nChange it by using the --set-default flag.\nExample:\nsecret 10 -naAs --set-default\n";

/// The five class and word toggles as given on one run.
#[derive(Clone, Copy, Debug, PartialEq, Eq)]
pub struct Flags {
    pub numbers: bool,
    pub lower_letters: bool,
    pub upper_letters: bool,
    pub symbols: bool,
    pub words: bool,
}

/// What a run generates.
#[derive(Clone, Copy, Debug, PartialEq, Eq)]
pub struct Selection {
    pub words: bool,
    pub numbers: bool,
    pub lower_letters: bool,
    pub upper_letters: bool,
    pub symbols: bool,
    pub length: Option<usize>,
}

/// Why no selection could be made.
#[derive(Clone, Copy, Debug, PartialEq, Eq)]
pub enum ResolveError {
    /// No flag was given and the stored preferences enable nothing.
    NoToggleInConfig,
}

impl Flags {
    /// No toggle was given, so the stored preferences decide.
    pub open spec fn spec_none_given(&self) -> bool {
        !self.numbers && !self.lower_letters && !self.upper_letters && !self.symbols && !self.words
    }

    pub fn none_given(&self) -> (r: bool)
        ensures
            r == self.spec_none_given(),
    {
        !self.numbers && !self.lower_letters && !self.upper_letters && !self.symbols && !self.words
    }
}

impl Selection {
    /// The selection that the flags give.
    pub open spec fn from_flags(flags: Flags, length: Option<usize>) -> Selection {
        Selection {
            words: flags.words,
            numbers: flags.numbers,
            lower_letters: flags.lower_letters,
            upper_letters: flags.upper_letters,
            symbols: flags.symbols,
            length,
        }
    }

    /// The selection that the stored preferences give.
    pub open spec fn from_options(options: Options) -> Selection {
        Selection {
            words: options.words,
            numbers: options.numbers,
            lower_letters: options.lower_letters,
            upper_letters: options.upper_letters,
            symbols: options.symbols,
            length: options.length,
        }
    }

    /// The length to generate: the selected one, else five words or twenty
    /// characters.
    pub fn secret_length(&self) -> (r: usize)
        ensures
            r == match self.length {
                Some(n) => n,
                None => if self.words {
                    DEFAULT_WORD_COUNT
                } else {
                    DEFAULT_CHARACTER_COUNT
                },
            },
    {
        match self.length {
            Some(n) => n,
            None => if self.words {
                DEFAULT_WORD_COUNT
            } else {
                DEFAULT_CHARACTER_COUNT
            },
        }
    }
}

impl ResolveError {
    /// The message shown to the user.
    pub fn message(&self) -> (r: String)
        ensures
            r@ == NO_TOGGLE_MESSAGE@,
    {
        match self {
            ResolveError::NoToggleInConfig => NO_TOGGLE_MESSAGE.to_owned(),
        }
    }
}

/// The stored value when the configuration decides, else the given one.
pub fn get_by_arg_or_config<T>(use_config: bool, cli_arg: T, config_arg: T) -> (r: T)
    ensures
        r == if use_config {
            config_arg
        } else {
            cli_arg
        },
{
    if use_config {
        config_arg
    } else {
        cli_arg
    }
}

/// Decides what to generate. With no toggle given, every toggle and the
/// length come from the configuration, which must enable at least one toggle;
/// otherwise the given flags and length are taken as they are.
pub fn resolve_selection(flags: &Flags, length: Option<usize>, config: &Config) -> (r: Result<
    Selection,
    ResolveError,
>)
    ensures
        flags.spec_none_given() && !config.options.has_toggle() ==> r == Err::<
            Selection,
            ResolveError,
        >(ResolveError::NoToggleInConfig),
        flags.spec_none_given() && config.options.has_toggle() ==> r == Ok::<
            Selection,
            ResolveError,
        >(Selection::from_options(config.options)),
        !flags.spec_none_given() ==> r == Ok::<Selection, ResolveError>(
            Selection::from_flags(*flags, length),
        ),
{
    let use_config = flags.none_given();
    if use_config && !config.is_valid() {
        return Err(ResolveError::NoToggleInConfig);
    }
    let options = &config.options;
    Ok(
        Selection {
            words: get_by_arg_or_config(use_config, flags.words, options.words),
            numbers: get_by_arg_or_config(use_config, flags.numbers, options.numbers),
            lower_letters: get_by_arg_or_config(
                use_config,
                flags.lower_letters,
                options.lower_letters,
            ),
            upper_letters: get_by_arg_or_config(
                use_config,
                flags.upper_letters,
                options.upper_letters,
            ),
            symbols: get_by_arg_or_config(use_config, flags.symbols, options.symbols),
            length: get_by_arg_or_config(use_config, length, options.length),
        },
    )
}

/// The language to use: the given one, else the stored one.
pub fn resolve_language(given: Option<String>, config: &mut Config) -> (r: String)
    ensures
        r@ == match given {
            Some(l) => l@,
            None => old(config).options.language@,
        },
        *final(config) == *old(config),
{
    match given {
        Some(l) => l,
        None => match get_language(config) {
            Some(l) => l.to_owned(),
            None => DEFAULT_LANGUAGE.to_owned(),
        },
    }
}

} // verus!
