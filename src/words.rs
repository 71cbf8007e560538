//! Word mode: passphrases made of words drawn from a word list, joined by a
//! dash, lowercased, then optionally given uppercase letters and leetspeak
//! digits.

use vstd::prelude::*;
use vstd::arithmetic::div_mod::{lemma_add_mod_noop, lemma_mod_add_multiples_vanish, lemma_small_mod};
use vstd::set_lib::{lemma_int_range, lemma_len_subset, set_int_range};
use crate::rng::random_index;
use crate::text::{
    ascii_upper, lower_of, lowercase, replace, replace_char, string_from_chars, to_ascii_uppercase,
};

verus! {

/// The character placed between two consecutive words.
pub const SEPARATOR: char = '-';

/// The words joined by a single separator between consecutive ones.
pub open spec fn joined(ws: Seq<Seq<char>>) -> Seq<char>
    decreases ws.len(),
{
    if ws.len() == 0 {
        Seq::empty()
    } else if ws.len() == 1 {
        ws[0]
    } else {
        joined(ws.drop_last()) + seq![SEPARATOR] + ws.last()
    }
}

/// The words of the list at the picked indices, in order.
pub open spec fn picked(words: Seq<String>, picks: Seq<usize>) -> Seq<Seq<char>> {
    picks.map_values(|i: usize| words[i as int]@)
}

/// Joins the words at the picked indices.
pub fn join_words(words: &Vec<String>, picks: &Vec<usize>) -> (r: String)
    requires
        forall|k: int| 0 <= k < picks@.len() ==> picks@[k] < words@.len(),
    ensures
        r@ == joined(picked(words@, picks@)),
{
    let mut secret = String::new();
    let mut k: usize = 0;
    while k < picks.len()
        invariant
            k <= picks@.len(),
            forall|j: int| 0 <= j < picks@.len() ==> picks@[j] < words@.len(),
            secret@ == joined(picked(words@, picks@.subrange(0, k as int))),
        decreases picks@.len() - k,
    {
        let word = &words[picks[k]];
        proof {
            let before = picked(words@, picks@.subrange(0, k as int));
            let after = picked(words@, picks@.subrange(0, k + 1));
            assert(after.drop_last() =~= before);
            assert(after.last() == word@);
        }
        if k > 0 {
            secret.append("-");
        }
        secret.append(word.as_str());
        proof {
            reveal_strlit("-");
            let after = picked(words@, picks@.subrange(0, k + 1));
            if k == 0 {
                assert(secret@ =~= after[0]);
            } else {
                assert(secret@ =~= joined(after));
            }
        }
        k = k + 1;
    }
    proof {
        assert(picks@.subrange(0, k as int) =~= picks@);
    }
    secret
}

/// The leetspeak digit for a letter, or the character itself.
pub open spec fn leet_char(c: char) -> char {
    if c == 'a' {
        '4'
    } else if c == 'e' {
        '3'
    } else if c == 'o' {
        '0'
    } else if c == 'i' {
        '1'
    } else {
        c
    }
}

/// Every `a`, `e`, `o` and `i` replaced by `4`, `3`, `0` and `1`.
pub open spec fn leetspeak(s: Seq<char>) -> Seq<char> {
    s.map_values(|c: char| leet_char(c))
}

/// Applies the leetspeak substitution to the whole string.
pub fn apply_leetspeak(s: &str) -> (r: String)
    ensures
        r@ == leetspeak(s@),
{
    let r1 = replace(s, 'a', '4');
    let r2 = replace(r1.as_str(), 'e', '3');
    let r3 = replace(r2.as_str(), 'o', '0');
    let r4 = replace(r3.as_str(), 'i', '1');
    proof {
        assert(r4@ =~= leetspeak(s@));
    }
    r4
}

/// A string without `a`, `e`, `o` and `i` is left as it is by leetspeak.
pub proof fn lemma_leetspeak_identity(s: Seq<char>)
    requires
        forall|i: int| 0 <= i < s.len() ==> s[i] != 'a' && s[i] != 'e' && s[i] != 'o' && s[i] != 'i',
    ensures
        leetspeak(s) == s,
{
    assert(leetspeak(s) =~= s);
}

/// The first position at or after `p`, going round modulo `len`, that `used`
/// does not hold, trying at most `fuel` steps.
pub open spec fn free_from(used: Seq<usize>, p: usize, len: usize, fuel: nat) -> usize
    decreases fuel,
{
    if fuel == 0 || !used.contains(p) {
        p
    } else {
        free_from(used, ((p + 1) % (len as int)) as usize, len, (fuel - 1) as nat)
    }
}

/// The positions chosen for the draws, one per draw: a drawn position that
/// was already chosen moves on to the next free one, modulo `len`.
pub open spec fn probe_positions(draws: Seq<usize>, len: usize) -> Seq<usize>
    decreases draws.len(),
{
    if draws.len() == 0 {
        Seq::empty()
    } else {
        let before = probe_positions(draws.drop_last(), len);
        before.push(free_from(before, draws.last(), len, len as nat))
    }
}

fn vec_contains(v: &Vec<usize>, x: usize) -> (r: bool)
    ensures
        r == v@.contains(x),
{
    let mut k: usize = 0;
    while k < v.len()
        invariant
            k <= v@.len(),
            forall|j: int| 0 <= j < k ==> v@[j] != x,
        decreases v@.len() - k,
    {
        if v[k] == x {
            return true;
        }
        k = k + 1;
    }
    false
}

/// Resolves the drawn positions into distinct ones by linear probing.
pub fn uppercase_positions(len: usize, draws: &Vec<usize>) -> (r: Vec<usize>)
    requires
        forall|k: int| 0 <= k < draws@.len() ==> draws@[k] < len,
    ensures
        r@ == probe_positions(draws@, len),
{
    let mut positions: Vec<usize> = Vec::new();
    let mut k: usize = 0;
    while k < draws.len()
        invariant
            k <= draws@.len(),
            forall|j: int| 0 <= j < draws@.len() ==> draws@[j] < len,
            positions@ == probe_positions(draws@.subrange(0, k as int), len),
        decreases draws@.len() - k,
    {
        let mut num: usize = draws[k];
        let mut steps: usize = 0;
        while steps < len && vec_contains(&positions, num)
            invariant
                0 < len,
                num < len,
                steps <= len,
                free_from(positions@, draws@[k as int], len, len as nat) == free_from(
                    positions@,
                    num,
                    len,
                    (len - steps) as nat,
                ),
            decreases len - steps,
        {
            num = (num + 1) % len;
            steps = steps + 1;
        }
        proof {
            assert(draws@.subrange(0, k + 1).drop_last() =~= draws@.subrange(0, k as int));
        }
        positions.push(num);
        k = k + 1;
    }
    proof {
        assert(draws@.subrange(0, k as int) =~= draws@);
    }
    positions
}

proof fn lemma_free_from_probes(used: Seq<usize>, p: usize, len: usize, fuel: nat)
    requires
        p < len,
        fuel <= len,
    ensures
        free_from(used, p, len, fuel) < len,
        used.contains(free_from(used, p, len, fuel)) ==> forall|t: int|
            0 <= t <= fuel && t < len ==> used.contains(#[trigger] (((p + t) % (len as int)) as usize)),
    decreases fuel,
{
    lemma_small_mod(p as nat, len as nat);
    if fuel == 0 || !used.contains(p) {
    } else {
        let q = ((p + 1) % (len as int)) as usize;
        lemma_free_from_probes(used, q, len, (fuel - 1) as nat);
        if used.contains(free_from(used, p, len, fuel)) {
            assert forall|t: int| 0 <= t <= fuel && t < len implies used.contains(
                #[trigger] (((p + t) % (len as int)) as usize),
            ) by {
                if t > 0 {
                    let u = t - 1;
                    assert(used.contains(((q + u) % (len as int)) as usize));
                    lemma_small_mod(u as nat, len as nat);
                    lemma_add_mod_noop(p + 1, u, len as int);
                }
            }
        }
    }
}

/// Probing from any position finds a free one when fewer than `len`
/// distinct positions below `len` are taken.
proof fn lemma_free_from_is_free(used: Seq<usize>, p: usize, len: usize)
    requires
        p < len,
        used.len() < len,
        forall|j: int| 0 <= j < used.len() ==> used[j] < len,
    ensures
        free_from(used, p, len, len as nat) < len,
        !used.contains(free_from(used, p, len, len as nat)),
{
    lemma_free_from_probes(used, p, len, len as nat);
    if used.contains(free_from(used, p, len, len as nat)) {
        let as_int = used.map_values(|u: usize| u as int);
        let range = set_int_range(0, len as int);
        assert forall|x: int| range.contains(x) implies as_int.to_set().contains(x) by {
            let t = if x >= p { x - p } else { x + len - p };
            assert(used.contains((((p + t) % (len as int)) as usize)));
            if x >= p {
                lemma_small_mod(x as nat, len as nat);
            } else {
                lemma_mod_add_multiples_vanish(x, len as int);
                lemma_small_mod(x as nat, len as nat);
            }
            let j = choose|j: int| 0 <= j < used.len() && used[j] == x as usize;
            assert(as_int[j] == x);
        }
        lemma_int_range(0, len as int);
        lemma_len_subset(range, as_int.to_set());
        as_int.lemma_cardinality_of_set();
    }
}

/// Uppercasing picks exactly one position per draw, all of them distinct
/// and inside the string, as long as there are no more draws than
/// characters.
pub proof fn lemma_uppercase_positions_distinct(draws: Seq<usize>, len: usize)
    requires
        draws.len() <= len,
        forall|k: int| 0 <= k < draws.len() ==> draws[k] < len,
    ensures
        probe_positions(draws, len).len() == draws.len(),
        probe_positions(draws, len).no_duplicates(),
        forall|k: int|
            0 <= k < draws.len() ==> #[trigger] probe_positions(draws, len)[k] < len,
    decreases draws.len(),
{
    if draws.len() > 0 {
        let rest = draws.drop_last();
        lemma_uppercase_positions_distinct(rest, len);
        let before = probe_positions(rest, len);
        lemma_free_from_is_free(before, draws.last(), len);
        let after = probe_positions(draws, len);
        assert(after == before.push(free_from(before, draws.last(), len, len as nat)));
        assert forall|i: int, j: int| 0 <= i < after.len() && 0 <= j < after.len() && i != j
            implies after[i] != after[j] by {
            if i == after.len() - 1 {
                assert(before.contains(after[j]) || j == i);
            } else if j == after.len() - 1 {
                assert(before.contains(after[i]));
            }
        }
    }
}

/// `s` with the characters at the given positions turned to ASCII uppercase.
pub open spec fn uppercase_at(s: Seq<char>, positions: Seq<usize>) -> Seq<char> {
    Seq::new(s.len(), |i: int| if positions.contains(i as usize) { ascii_upper(s[i]) } else { s[i] })
}

/// The lowercased passphrase after the optional uppercasing (at the positions
/// that the draws resolve to) and the optional leetspeak substitution.
pub open spec fn mangled(lowered: Seq<char>, with_numbers: bool, with_uppercase: bool, draws: Seq<
    usize,
>) -> Seq<char> {
    let cased = if with_uppercase {
        uppercase_at(lowered, probe_positions(draws, lowered.len() as usize))
    } else {
        lowered
    };
    if with_numbers {
        leetspeak(cased)
    } else {
        cased
    }
}

/// How many positions are uppercased in a string of `len` characters.
pub open spec fn uppercase_count(len: nat) -> nat {
    len / 5
}

/// Uppercases the characters at the given positions.
pub fn uppercase_at_positions(s: &str, positions: &Vec<usize>) -> (r: String)
    ensures
        r@ == uppercase_at(s@, positions@),
{
    let len = s.unicode_len();
    let mut chars: Vec<char> = Vec::new();
    let mut i: usize = 0;
    while i < len
        invariant
            len == s@.len(),
            i <= len,
            chars@ =~= uppercase_at(s@, positions@).subrange(0, i as int),
        decreases len - i,
    {
        let c = s.get_char(i);
        if vec_contains(positions, i) {
            chars.push(to_ascii_uppercase(c));
        } else {
            chars.push(c);
        }
        i = i + 1;
    }
    proof {
        assert(chars@ =~= uppercase_at(s@, positions@));
    }
    string_from_chars(&chars)
}

/// Turns a lowercased passphrase into the final secret, given the positions
/// drawn for uppercasing.
pub fn mangle(lowered: &str, with_numbers: bool, with_uppercase: bool, draws: &Vec<usize>) -> (r:
    String)
    requires
        forall|k: int| 0 <= k < draws@.len() ==> draws@[k] < lowered@.len(),
    ensures
        r@ == mangled(lowered@, with_numbers, with_uppercase, draws@),
{
    let len = lowered.unicode_len();
    let cased = if with_uppercase {
        let positions = uppercase_positions(len, draws);
        uppercase_at_positions(lowered, &positions)
    } else {
        lowered.to_owned()
    };
    if with_numbers {
        apply_leetspeak(cased.as_str())
    } else {
        cased
    }
}

/// Draws `length` words uniformly and independently from the list, joins and
/// lowercases them, then uppercases `len / 5` distinct positions if asked to
/// and applies leetspeak if asked to.
pub fn generate_word_secret(
    words: &Vec<String>,
    length: usize,
    with_numbers: bool,
    _with_lowercase_letters: bool,
    with_uppercase_letters: bool,
    _with_symbols: bool,
) -> (r: String)
    requires
        length == 0 || words@.len() > 0,
    ensures
        exists|picks: Seq<usize>, draws: Seq<usize>|
            {
                &&& picks.len() == length
                &&& forall|k: int| 0 <= k < picks.len() ==> #[trigger] picks[k] < words@.len()
                &&& draws.len() == if with_uppercase_letters {
                    uppercase_count(lower_of(joined(picked(words@, picks))).len())
                } else {
                    0
                }
                &&& forall|k: int|
                    0 <= k < draws.len() ==> #[trigger] draws[k] < lower_of(
                        joined(picked(words@, picks)),
                    ).len()
                &&& r@ == mangled(
                    lower_of(joined(picked(words@, picks))),
                    with_numbers,
                    with_uppercase_letters,
                    draws,
                )
            },
{
    let mut picks: Vec<usize> = Vec::new();
    let mut k: usize = 0;
    while k < length
        invariant
            k <= length,
            length == 0 || words@.len() > 0,
            picks@.len() == k,
            forall|j: int| 0 <= j < picks@.len() ==> picks@[j] < words@.len(),
        decreases length - k,
    {
        picks.push(random_index(words.len()));
        k = k + 1;
    }
    let secret = join_words(words, &picks);
    let lowered = lowercase(secret.as_str());
    let len = lowered.unicode_len();
    let mut draws: Vec<usize> = Vec::new();
    if with_uppercase_letters {
        let amount = len / 5;
        let mut n: usize = 0;
        while n < amount
            invariant
                n <= amount,
                amount == len / 5,
                len == lowered@.len(),
                draws@.len() == n,
                forall|j: int| 0 <= j < draws@.len() ==> draws@[j] < len,
            decreases amount - n,
        {
            draws.push(random_index(len));
            n = n + 1;
        }
    }
    let r = mangle(lowered.as_str(), with_numbers, with_uppercase_letters, &draws);
    proof {
        assert(lowered@ == lower_of(joined(picked(words@, picks@))));
    }
    r
}

/// The lengths of the words, added up.
pub open spec fn total_len(ws: Seq<Seq<char>>) -> nat
    decreases ws.len(),
{
    if ws.len() == 0 {
        0
    } else {
        total_len(ws.drop_last()) + ws.last().len()
    }
}

/// How often `c` occurs in `s`.
pub open spec fn count_char(s: Seq<char>, c: char) -> nat
    decreases s.len(),
{
    if s.len() == 0 {
        0
    } else {
        count_char(s.drop_last(), c) + if s.last() == c {
            1nat
        } else {
            0
        }
    }
}

proof fn lemma_count_concat(a: Seq<char>, b: Seq<char>, c: char)
    ensures
        count_char(a + b, c) == count_char(a, c) + count_char(b, c),
    decreases b.len(),
{
    if b.len() > 0 {
        assert((a + b).drop_last() =~= a + b.drop_last());
        lemma_count_concat(a, b.drop_last(), c);
    } else {
        assert(a + b =~= a);
    }
}

proof fn lemma_count_absent(s: Seq<char>, c: char)
    requires
        !s.contains(c),
    ensures
        count_char(s, c) == 0,
    decreases s.len(),
{
    if s.len() > 0 {
        assert(!s.drop_last().contains(c)) by {
            if s.drop_last().contains(c) {
                let j = choose|j: int| 0 <= j < s.drop_last().len() && s.drop_last()[j] == c;
                assert(s[j] == c);
            }
        }
        lemma_count_absent(s.drop_last(), c);
    }
}

/// Joining `n >= 1` words adds exactly `n - 1` separators: the result is as
/// long as the words together plus `n - 1`, and when no word holds the
/// separator it occurs exactly `n - 1` times.
pub proof fn lemma_joined_shape(ws: Seq<Seq<char>>)
    requires
        ws.len() >= 1,
    ensures
        joined(ws).len() == total_len(ws) + ws.len() - 1,
        (forall|k: int| 0 <= k < ws.len() ==> !(#[trigger] ws[k]).contains(SEPARATOR))
            ==> count_char(joined(ws), SEPARATOR) == ws.len() - 1,
    decreases ws.len(),
{
    let no_sep = forall|k: int| 0 <= k < ws.len() ==> !(#[trigger] ws[k]).contains(SEPARATOR);
    if ws.len() == 1 {
        assert(ws.drop_last().len() == 0);
        if no_sep {
            lemma_count_absent(ws[0], SEPARATOR);
        }
    } else {
        let rest = ws.drop_last();
        lemma_joined_shape(rest);
        if no_sep {
            assert forall|k: int| 0 <= k < rest.len() implies !(#[trigger] rest[k]).contains(
                SEPARATOR,
            ) by {
                assert(rest[k] == ws[k]);
            }
            let sep = seq![SEPARATOR];
            lemma_count_concat(joined(rest), sep, SEPARATOR);
            lemma_count_concat(joined(rest) + sep, ws.last(), SEPARATOR);
            assert(sep.drop_last().len() == 0);
            assert(count_char(sep.drop_last(), SEPARATOR) == 0);
            assert(sep.last() == SEPARATOR);
            assert(count_char(sep, SEPARATOR) == 1);
            assert(!ws[ws.len() - 1].contains(SEPARATOR));
            lemma_count_absent(ws.last(), SEPARATOR);
        }
    }
}

} // verus!
