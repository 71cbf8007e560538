//! Character mode: the alphabet built from the selected classes, and secrets
//! drawn from it.

use vstd::prelude::*;
use crate::rng::random_index;
use crate::text::string_from_chars;

verus! {

/// The digit class, in the order in which it enters an alphabet.
pub const DIGITS: &'static str = "1234567890";

/// The lowercase letter class.
pub const LOWERCASE: &'static str = "abcdefghijklmnopqrstuvwxyz";

/// The uppercase letter class.
pub const UPPERCASE: &'static str = "ABCDEFGHIJKLMNOPQRSTUVWXYZ";

/// The fixed symbol class.
pub const SYMBOLS: &'static str = "!@#$%&*_+-=.?";

pub open spec fn is_digit(c: char) -> bool {
    '0' <= c <= '9'
}

pub open spec fn is_lower(c: char) -> bool {
    'a' <= c <= 'z'
}

pub open spec fn is_upper(c: char) -> bool {
    'A' <= c <= 'Z'
}

pub open spec fn is_alphanumeric(c: char) -> bool {
    is_digit(c) || is_lower(c) || is_upper(c)
}

proof fn lemma_classes()
    ensures
        DIGITS@.len() == 10,
        LOWERCASE@.len() == 26,
        UPPERCASE@.len() == 26,
        SYMBOLS@.len() == 13,
        forall|i: int| 0 <= i < DIGITS@.len() ==> is_digit(#[trigger] DIGITS@[i]),
        forall|i: int| 0 <= i < LOWERCASE@.len() ==> is_lower(#[trigger] LOWERCASE@[i]),
        forall|i: int| 0 <= i < UPPERCASE@.len() ==> is_upper(#[trigger] UPPERCASE@[i]),
        forall|i: int| 0 <= i < SYMBOLS@.len() ==> !is_alphanumeric(#[trigger] SYMBOLS@[i]),
        DIGITS@.no_duplicates(),
        LOWERCASE@.no_duplicates(),
        UPPERCASE@.no_duplicates(),
        SYMBOLS@.no_duplicates(),
{
    reveal_strlit("1234567890");
    reveal_strlit("abcdefghijklmnopqrstuvwxyz");
    reveal_strlit("ABCDEFGHIJKLMNOPQRSTUVWXYZ");
    reveal_strlit("!@#$%&*_+-=.?");
}

/// A class if it is selected, else nothing.
pub open spec fn class_if(selected: bool, class: Seq<char>) -> Seq<char> {
    if selected {
        class
    } else {
        Seq::empty()
    }
}

/// The alphabet for the selected classes: digits, lowercase, uppercase and
/// symbols, in that order.
pub open spec fn character_set(numbers: bool, lower: bool, upper: bool, symbols: bool) -> Seq<
    char,
> {
    class_if(numbers, DIGITS@) + class_if(lower, LOWERCASE@) + class_if(upper, UPPERCASE@)
        + class_if(symbols, SYMBOLS@)
}

/// Builds the alphabet to sample from.
pub fn make_character_set(numbers: bool, letters_lower: bool, letters_upper: bool, symbols: bool) -> (r:
    String)
    ensures
        r@ == character_set(numbers, letters_lower, letters_upper, symbols),
{
    let mut set = String::new();
    if numbers {
        set.append(DIGITS);
    }
    if letters_lower {
        set.append(LOWERCASE);
    }
    if letters_upper {
        set.append(UPPERCASE);
    }
    if symbols {
        set.append(SYMBOLS);
    }
    proof {
        assert(set@ =~= character_set(numbers, letters_lower, letters_upper, symbols));
    }
    set
}

proof fn lemma_concat_no_duplicates(a: Seq<char>, b: Seq<char>)
    requires
        a.no_duplicates(),
        b.no_duplicates(),
        forall|i: int, j: int| 0 <= i < a.len() && 0 <= j < b.len() ==> a[i] != b[j],
    ensures
        (a + b).no_duplicates(),
{
    assert forall|i: int, j: int| 0 <= i < (a + b).len() && 0 <= j < (a + b).len() && i != j
        implies (a + b)[i] != (a + b)[j] by {
        if i >= a.len() && j < a.len() {
            assert(a[j] != b[i - a.len()]);
        }
    }
}

/// The alphabet is as long as its selected classes together, and no character
/// occurs in it twice; in particular no two classes share a character.
pub proof fn lemma_character_set_shape(numbers: bool, lower: bool, upper: bool, symbols: bool)
    ensures
        character_set(numbers, lower, upper, symbols).len() == (if numbers { 10int } else { 0 }) + (
        if lower { 26int } else { 0 }) + (if upper { 26int } else { 0 }) + (if symbols { 13int } else { 0 }),
        character_set(numbers, lower, upper, symbols).no_duplicates(),
{
    lemma_classes();
    let d = class_if(numbers, DIGITS@);
    let l = class_if(lower, LOWERCASE@);
    let u = class_if(upper, UPPERCASE@);
    let s = class_if(symbols, SYMBOLS@);
    assert(forall|i: int| 0 <= i < d.len() ==> is_digit(#[trigger] d[i]));
    assert(forall|i: int| 0 <= i < l.len() ==> is_lower(#[trigger] l[i]));
    assert(forall|i: int| 0 <= i < u.len() ==> is_upper(#[trigger] u[i]));
    assert(forall|i: int| 0 <= i < s.len() ==> !is_alphanumeric(#[trigger] s[i]));
    lemma_concat_no_duplicates(d, l);
    let dl = d + l;
    assert(forall|i: int| 0 <= i < dl.len() ==> is_digit(#[trigger] dl[i]) || is_lower(dl[i]));
    lemma_concat_no_duplicates(dl, u);
    let dlu = dl + u;
    assert(forall|i: int| 0 <= i < dlu.len() ==> is_alphanumeric(#[trigger] dlu[i]));
    lemma_concat_no_duplicates(dlu, s);
}

/// The secret whose characters are the alphabet's characters at the given
/// indices, in order.
pub fn secret_from_indices(character_set: &str, indices: &Vec<usize>) -> (r: String)
    requires
        forall|k: int| 0 <= k < indices@.len() ==> indices@[k] < character_set@.len(),
    ensures
        r@ == indices@.map_values(|i: usize| character_set@[i as int]),
{
    let mut chars: Vec<char> = Vec::new();
    let mut k: usize = 0;
    while k < indices.len()
        invariant
            k <= indices@.len(),
            forall|j: int| 0 <= j < indices@.len() ==> indices@[j] < character_set@.len(),
            chars@ =~= indices@.subrange(0, k as int).map_values(|i: usize| character_set@[i as int]),
        decreases indices@.len() - k,
    {
        chars.push(character_set.get_char(indices[k]));
        k = k + 1;
    }
    proof {
        assert(indices@.subrange(0, k as int) =~= indices@);
    }
    string_from_chars(&chars)
}

/// Draws `length` characters uniformly and independently from the alphabet.
pub fn generate_character_secret(character_set: &str, length: usize) -> (r: String)
    requires
        length == 0 || character_set@.len() > 0,
    ensures
        r@.len() == length,
        forall|i: int| 0 <= i < r@.len() ==> character_set@.contains(#[trigger] r@[i]),
{
    let size = character_set.unicode_len();
    let mut indices: Vec<usize> = Vec::new();
    let mut k: usize = 0;
    while k < length
        invariant
            k <= length,
            size == character_set@.len(),
            length == 0 || size > 0,
            indices@.len() == k,
            forall|j: int| 0 <= j < indices@.len() ==> indices@[j] < size,
        decreases length - k,
    {
        indices.push(random_index(size));
        k = k + 1;
    }
    let r = secret_from_indices(character_set, &indices);
    proof {
        assert forall|i: int| 0 <= i < r@.len() implies character_set@.contains(#[trigger] r@[i]) by {
            assert(r@[i] == character_set@[indices@[i] as int]);
        }
    }
    r
}

} // verus!
