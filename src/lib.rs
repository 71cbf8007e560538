//! A generator of secrets: random character strings drawn from selectable
//! character classes, or passphrases made of words from a word list, with the
//! user's preferred defaults kept in a small configuration record.
//!
//! Randomness comes from `rand`; everything that decides what the secret looks
//! like given the random draws is verified.

pub mod config;
pub mod charset;
mod rng;
mod text;
pub mod words;
pub mod wordlist;
pub mod resolve;
