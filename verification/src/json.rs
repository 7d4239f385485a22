//! The JSON text that commands travel in: white space and punctuation
//! here, string literals, numbers and the outline of values in the modules
//! below.
//!
//! Every reader is stated over the text that is still to be read: it says
//! what was found at its front and what text is left after it.

pub mod numbers;
pub mod strings;
pub mod values;

use vstd::prelude::*;

verus! {

/// Whether `c` is JSON white space.
pub open spec fn is_space(c: char) -> bool {
    c == ' ' || c == '\t' || c == '\n' || c == '\r'
}

/// `input` without its leading white space.
pub open spec fn trim_start(input: Seq<char>) -> Seq<char>
    decreases input.len(),
{
    if input.len() > 0 && is_space(input[0]) {
        trim_start(input.drop_first())
    } else {
        input
    }
}

/// Whether `input` begins with `word`.
pub open spec fn has_prefix(input: Seq<char>, word: Seq<char>) -> bool {
    input.len() >= word.len() && input.take(word.len() as int) == word
}

/// What is left after the character `close`, where it is the next thing in
/// `input` after white space.
pub open spec fn closing(input: Seq<char>, close: char) -> Option<Seq<char>> {
    let next = trim_start(input);
    if next.len() > 0 && next[0] == close {
        Some(next.drop_first())
    } else {
        None
    }
}

/// Where the next item begins, where a comma is the next thing in `input`
/// after white space.
pub open spec fn following(input: Seq<char>) -> Option<Seq<char>> {
    let next = trim_start(input);
    if next.len() > 0 && next[0] == ',' {
        Some(trim_start(next.drop_first()))
    } else {
        None
    }
}

/// Whether the index `r` stands in `s` where `rest` begins, beyond `i`; or
/// neither is there.
pub open spec fn lands(s: Seq<char>, i: usize, r: Option<usize>, rest: Option<Seq<char>>) -> bool {
    match (rest, r) {
        (Some(rest), Some(j)) => i < j <= s.len() && s.skip(j as int) == rest,
        (None, None) => true,
        _ => false,
    }
}

/// The index of the first character at or after `i` that is no white space.
pub(crate) fn skip_space(s: &[char], i: usize) -> (j: usize)
    requires
        i <= s.len(),
    ensures
        i <= j <= s.len(),
        s@.skip(j as int) == trim_start(s@.skip(i as int)),
{
    let mut j: usize = i;
    while j < s.len() && (s[j] == ' ' || s[j] == '\t' || s[j] == '\n' || s[j] == '\r')
        invariant
            i <= j <= s.len(),
            trim_start(s@.skip(j as int)) == trim_start(s@.skip(i as int)),
        decreases s.len() - j,
    {
        proof {
            assert(s@.skip(j as int).drop_first() =~= s@.skip(j as int + 1));
        }
        j += 1;
    }
    j
}

/// Whether the characters of `word` stand in `s` from index `i` on.
pub(crate) fn begins_with(s: &[char], i: usize, word: &[char]) -> (b: bool)
    requires
        i <= s.len(),
    ensures
        b == has_prefix(s@.skip(i as int), word@),
{
    if s.len() - i < word.len() {
        return false;
    }
    let mut k: usize = 0;
    while k < word.len()
        invariant
            i + word.len() <= s.len(),
            k <= word.len(),
            forall|m: int| 0 <= m < k ==> s@[i + m] == word@[m],
        decreases word.len() - k,
    {
        if s[i + k] != word[k] {
            proof {
                assert(s@.skip(i as int).take(word.len() as int)[k as int] != word@[k as int]);
            }
            return false;
        }
        k += 1;
    }
    proof {
        assert(s@.skip(i as int).take(word.len() as int) =~= word@);
    }
    true
}

/// The index after the character `close`, where it is the next thing
/// at or after index `i` but for white space.
pub(crate) fn read_closing(s: &[char], i: usize, close: char) -> (r: Option<usize>)
    requires
        i <= s.len(),
    ensures
        lands(s@, i, r, closing(s@.skip(i as int), close)),
{
    let n = skip_space(s, i);
    if n < s.len() && s[n] == close {
        proof {
            assert(s@.skip(n as int).drop_first() =~= s@.skip(n as int + 1));
        }
        Some(n + 1)
    } else {
        None
    }
}

/// The index at which the next item begins, where a comma is the next
/// thing at or after index `i` but for white space.
pub(crate) fn read_following(s: &[char], i: usize) -> (r: Option<usize>)
    requires
        i <= s.len(),
    ensures
        lands(s@, i, r, following(s@.skip(i as int))),
{
    let n = skip_space(s, i);
    if n < s.len() && s[n] == ',' {
        proof {
            assert(s@.skip(n as int).drop_first() =~= s@.skip(n as int + 1));
        }
        Some(skip_space(s, n + 1))
    } else {
        None
    }
}

} // verus!
