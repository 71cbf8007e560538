//! The word list format: one word per line.

use vstd::prelude::*;
use crate::text::{chars_of, string_from_chars};

verus! {

/// The index of the first newline in `s`, or `s.len()` when there is none.
pub open spec fn first_newline(s: Seq<char>) -> int
    decreases s.len(),
{
    if s.len() == 0 {
        0
    } else if s[0] == '\n' {
        0
    } else {
        1 + first_newline(s.drop_first())
    }
}

/// A line without the carriage return that ended it, if any.
pub open spec fn strip_cr(line: Seq<char>) -> Seq<char> {
    if line.len() > 0 && line.last() == '\r' {
        line.drop_last()
    } else {
        line
    }
}

/// The lines of a text: the pieces before each newline, with a carriage
/// return before the newline removed, and the piece after the last newline if
/// it is not empty.
pub open spec fn lines_of(s: Seq<char>) -> Seq<Seq<char>>
    decreases s.len(),
{
    if s.len() == 0 {
        Seq::empty()
    } else {
        let i = first_newline(s);
        if 0 <= i < s.len() {
            seq![strip_cr(s.subrange(0, i))] + lines_of(s.subrange(i + 1, s.len() as int))
        } else {
            seq![s]
        }
    }
}

proof fn lemma_first_newline(cur: Seq<char>, rest: Seq<char>)
    requires
        !cur.contains('\n'),
    ensures
        first_newline(cur + rest) == cur.len() + first_newline(rest),
        0 <= first_newline(rest) <= rest.len(),
        rest.len() > 0 && rest[0] == '\n' ==> first_newline(rest) == 0,
    decreases cur.len() + rest.len(),
{
    if cur.len() > 0 {
        assert(cur[0] != '\n');
        assert((cur + rest).drop_first() =~= cur.drop_first() + rest);
        assert(!cur.drop_first().contains('\n')) by {
            if cur.drop_first().contains('\n') {
                let j = choose|j: int| 0 <= j < cur.drop_first().len() && cur.drop_first()[j] == '\n';
                assert(cur[j + 1] == '\n');
            }
        }
        lemma_first_newline(cur.drop_first(), rest);
    } else {
        assert(cur + rest =~= rest);
        if rest.len() > 0 {
            let e = Seq::<char>::empty();
            lemma_first_newline(e, rest.drop_first());
        }
    }
}

proof fn lemma_lines_newline(cur: Seq<char>, rest: Seq<char>)
    requires
        !cur.contains('\n'),
    ensures
        lines_of(cur + seq!['\n'] + rest) == seq![strip_cr(cur)] + lines_of(rest),
{
    let s = cur + seq!['\n'] + rest;
    let tail = seq!['\n'] + rest;
    assert(s =~= cur + tail);
    assert(tail[0] == '\n');
    lemma_first_newline(cur, tail);
    assert(first_newline(s) == cur.len());
    assert(s.subrange(0, cur.len() as int) =~= cur);
    assert(s.subrange(cur.len() + 1int, s.len() as int) =~= rest);
}

proof fn lemma_lines_last(cur: Seq<char>)
    requires
        !cur.contains('\n'),
        cur.len() > 0,
    ensures
        lines_of(cur) == seq![cur],
{
    lemma_first_newline(cur, Seq::empty());
    assert(cur + Seq::<char>::empty() =~= cur);
}

/// Splits a word list into its lines.
pub fn parse_wordlist(content: &str) -> (r: Vec<String>)
    ensures
        r@.map_values(|l: String| l@) == lines_of(content@),
{
    let chars = chars_of(content);
    let mut lines: Vec<String> = Vec::new();
    let mut cur: Vec<char> = Vec::new();
    let mut i: usize = 0;
    proof {
        assert(cur@ + chars@.subrange(0, chars@.len() as int) =~= content@);
        assert(lines@.map_values(|l: String| l@) + lines_of(content@) =~= lines_of(content@));
    }
    while i < chars.len()
        invariant
            i <= chars@.len(),
            chars@ == content@,
            !cur@.contains('\n'),
            lines@.map_values(|l: String| l@) + lines_of(cur@ + chars@.subrange(i as int, chars@.len() as int))
                == lines_of(content@),
        decreases chars@.len() - i,
    {
        let c = chars[i];
        let ghost rest = chars@.subrange(i + 1, chars@.len() as int);
        proof {
            assert(chars@.subrange(i as int, chars@.len() as int) =~= seq![c] + rest);
        }
        if c == '\n' {
            proof {
                assert(cur@ + (seq![c] + rest) =~= cur@ + seq!['\n'] + rest);
                lemma_lines_newline(cur@, rest);
            }
            let n = cur.len();
            if n > 0 && cur[n - 1] == '\r' {
                cur.pop();
            }
            let line = string_from_chars(&cur);
            let ghost before = lines@;
            lines.push(line);
            proof {
                assert(lines@.map_values(|l: String| l@) =~= before.map_values(|l: String| l@).push(line@));
            }
            cur = Vec::new();
            proof {
                assert(cur@ + rest =~= rest);
            }
        } else {
            let ghost old_cur = cur@;
            cur.push(c);
            proof {
                assert(old_cur + (seq![c] + rest) =~= cur@ + rest);
                assert(!cur@.contains('\n')) by {
                    if cur@.contains('\n') {
                        let j = choose|j: int| 0 <= j < cur@.len() && cur@[j] == '\n';
                        if j < old_cur.len() {
                            assert(old_cur[j] == '\n');
                        }
                    }
                }
            }
        }
        i = i + 1;
    }
    proof {
        assert(chars@.subrange(i as int, chars@.len() as int) =~= Seq::<char>::empty());
        assert(cur@ + Seq::<char>::empty() =~= cur@);
    }
    if cur.len() > 0 {
        let line = string_from_chars(&cur);
        let ghost before = lines@;
        lines.push(line);
        proof {
            lemma_lines_last(cur@);
            assert(lines@.map_values(|l: String| l@) =~= before.map_values(|l: String| l@).push(line@));
        }
    } else {
        proof {
            assert(lines_of(cur@) =~= Seq::<Seq<char>>::empty());
            assert(lines@.map_values(|l: String| l@) + Seq::<Seq<char>>::empty() =~= lines@.map_values(|l: String| l@));
        }
    }
    lines
}

} // verus!
