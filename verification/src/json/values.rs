//! Values: where a JSON value ends, whatever it holds, and how the key of
//! a member is read.

use super::numbers::{number_end, number_len};
use super::strings::{read_string, string_body, string_rest};
use super::{
    begins_with, closing, following, has_prefix, lands, read_closing, read_following, skip_space,
    trim_start,
};
use vstd::prelude::*;

verus! {

/// How deep arrays and objects may nest inside one value.
pub const NESTING_LIMIT: usize = 128;

/// Reads the key of a member and the colon after it: the key's text, and
/// the input from where the member's value begins.
pub open spec fn key_and_value(input: Seq<char>) -> Option<(Seq<char>, Seq<char>)> {
    if input.len() == 0 || input[0] != '"' {
        None
    } else {
        match string_body(input.drop_first()) {
            None => None,
            Some((key, after)) => {
                let colon = trim_start(after);
                if colon.len() == 0 || colon[0] != ':' {
                    None
                } else {
                    Some((key, trim_start(colon.drop_first())))
                }
            },
        }
    }
}

/// What is left of `input` after the JSON value at its front, if one stands
/// there whose arrays and objects nest no deeper than `depth`.
pub open spec fn value_rest(input: Seq<char>, depth: nat) -> Option<Seq<char>>
    decreases depth, input.len(), 0nat,
{
    if input.len() == 0 {
        None
    } else if input[0] == '"' {
        string_rest(input.drop_first())
    } else if input[0] == '[' {
        if depth == 0 {
            None
        } else if closing(input.drop_first(), ']') is Some {
            closing(input.drop_first(), ']')
        } else {
            elements_rest(trim_start(input.drop_first()), (depth - 1) as nat)
        }
    } else if input[0] == '{' {
        if depth == 0 {
            None
        } else if closing(input.drop_first(), '}') is Some {
            closing(input.drop_first(), '}')
        } else {
            members_rest(trim_start(input.drop_first()), (depth - 1) as nat)
        }
    } else if has_prefix(input, seq!['t', 'r', 'u', 'e']) {
        Some(input.skip(4))
    } else if has_prefix(input, seq!['f', 'a', 'l', 's', 'e']) {
        Some(input.skip(5))
    } else if has_prefix(input, seq!['n', 'u', 'l', 'l']) {
        Some(input.skip(4))
    } else {
        match number_len(input) {
            Some(n) => Some(input.skip(n as int)),
            None => None,
        }
    }
}

/// What is left after the elements of an array and its closing bracket,
/// where `input` begins with the first of the elements still to come.
pub open spec fn elements_rest(input: Seq<char>, depth: nat) -> Option<Seq<char>>
    decreases depth, input.len(), 1nat,
{
    match value_rest(input, depth) {
        None => None,
        Some(after) => if closing(after, ']') is Some {
            closing(after, ']')
        } else {
            match following(after) {
                None => None,
                Some(more) => if more.len() < input.len() {
                    elements_rest(more, depth)
                } else {
                    None
                },
            }
        },
    }
}

/// What is left after the members of an object and its closing brace,
/// where `input` begins with the key of the first member still to come.
pub open spec fn members_rest(input: Seq<char>, depth: nat) -> Option<Seq<char>>
    decreases depth, input.len(), 1nat,
{
    match key_and_value(input) {
        None => None,
        Some((_, value)) => if value.len() < input.len() {
            match value_rest(value, depth) {
                None => None,
                Some(after) => if closing(after, '}') is Some {
                    closing(after, '}')
                } else {
                    match following(after) {
                        None => None,
                        Some(more) => if more.len() < input.len() {
                            members_rest(more, depth)
                        } else {
                            None
                        },
                    }
                },
            }
        } else {
            None
        },
    }
}

/// Reads the key that starts at index `i` and the colon after it: the
/// key's text and the index at which the member's value begins.
pub(crate) fn read_key(s: &[char], i: usize) -> (r: Option<(String, usize)>)
    requires
        i <= s.len(),
    ensures
        match (key_and_value(s@.skip(i as int)), r) {
            (Some((key, value)), Some((text, v))) => {
                &&& text@ == key
                &&& i < v <= s.len()
                &&& s@.skip(v as int) == value
            },
            (None, None) => true,
            _ => false,
        },
{
    if i >= s.len() || s[i] != '"' {
        return None;
    }
    proof {
        assert(s@.skip(i as int).drop_first() =~= s@.skip(i as int + 1));
    }
    let (key, k) = match read_string(s, i + 1) {
        None => {
            return None;
        },
        Some(found) => found,
    };
    let c = skip_space(s, k);
    if c >= s.len() || s[c] != ':' {
        return None;
    }
    proof {
        assert(s@.skip(c as int).drop_first() =~= s@.skip(c as int + 1));
    }
    Some((key, skip_space(s, c + 1)))
}

/// The index after the value that starts at `i`, if one stands there whose
/// arrays and objects nest no deeper than `depth`.
pub(crate) fn skip_value(s: &[char], i: usize, depth: usize) -> (r: Option<usize>)
    requires
        i <= s.len(),
    ensures
        lands(s@, i, r, value_rest(s@.skip(i as int), depth as nat)),
    decreases depth, 0nat,
{
    if i >= s.len() {
        return None;
    }
    proof {
        assert(s@.skip(i as int).drop_first() =~= s@.skip(i as int + 1));
    }
    let c = s[i];
    if c == '"' {
        match read_string(s, i + 1) {
            Some((_, next)) => Some(next),
            None => None,
        }
    } else if c == '[' {
        if depth == 0 {
            return None;
        }
        match read_closing(s, i + 1, ']') {
            Some(end) => Some(end),
            None => skip_elements(s, skip_space(s, i + 1), depth - 1),
        }
    } else if c == '{' {
        if depth == 0 {
            return None;
        }
        match read_closing(s, i + 1, '}') {
            Some(end) => Some(end),
            None => skip_members(s, skip_space(s, i + 1), depth - 1),
        }
    } else {
        skip_plain(s, i)
    }
}

/// The index after the literal name or number that starts at `i`.
fn skip_plain(s: &[char], i: usize) -> (r: Option<usize>)
    requires
        i < s.len(),
        s@[i as int] != '"',
        s@[i as int] != '[',
        s@[i as int] != '{',
    ensures
        forall|depth: nat| lands(s@, i, r, #[trigger] value_rest(s@.skip(i as int), depth)),
{
    let input = Ghost(s@.skip(i as int));
    proof {
        assert(input@[0] == s@[i as int]);
    }
    if begins_with(s, i, ['t', 'r', 'u', 'e'].as_slice()) {
        proof {
            assert(input@.skip(4) =~= s@.skip(i as int + 4));
        }
        Some(i + 4)
    } else if begins_with(s, i, ['f', 'a', 'l', 's', 'e'].as_slice()) {
        proof {
            assert(input@.skip(5) =~= s@.skip(i as int + 5));
        }
        Some(i + 5)
    } else if begins_with(s, i, ['n', 'u', 'l', 'l'].as_slice()) {
        proof {
            assert(input@.skip(4) =~= s@.skip(i as int + 4));
        }
        Some(i + 4)
    } else {
        match number_end(s, i) {
            Some(end) => {
                proof {
                    assert(input@.skip(end - i) =~= s@.skip(end as int));
                }
                Some(end)
            },
            None => None,
        }
    }
}

/// The index after the closing bracket of the array whose next element
/// starts at `i`.
fn skip_elements(s: &[char], i: usize, depth: usize) -> (r: Option<usize>)
    requires
        i <= s.len(),
    ensures
        lands(s@, i, r, elements_rest(s@.skip(i as int), depth as nat)),
    decreases depth, 1nat,
{
    let mut j: usize = i;
    loop
        invariant
            i <= j <= s.len(),
            elements_rest(s@.skip(i as int), depth as nat) == elements_rest(
                s@.skip(j as int),
                depth as nat,
            ),
        decreases s.len() - j,
    {
        let e = match skip_value(s, j, depth) {
            None => {
                return None;
            },
            Some(e) => e,
        };
        match read_closing(s, e, ']') {
            Some(end) => {
                return Some(end);
            },
            None => {},
        }
        match read_following(s, e) {
            None => {
                return None;
            },
            Some(more) => {
                j = more;
            },
        }
    }
}

/// The index after the closing brace of the object whose next key starts
/// at `i`.
fn skip_members(s: &[char], i: usize, depth: usize) -> (r: Option<usize>)
    requires
        i <= s.len(),
    ensures
        lands(s@, i, r, members_rest(s@.skip(i as int), depth as nat)),
    decreases depth, 1nat,
{
    let mut j: usize = i;
    loop
        invariant
            i <= j <= s.len(),
            members_rest(s@.skip(i as int), depth as nat) == members_rest(
                s@.skip(j as int),
                depth as nat,
            ),
        decreases s.len() - j,
    {
        let v = match read_key(s, j) {
            None => {
                return None;
            },
            Some((_, v)) => v,
        };
        let e = match skip_value(s, v, depth) {
            None => {
                return None;
            },
            Some(e) => e,
        };
        match read_closing(s, e, '}') {
            Some(end) => {
                return Some(end);
            },
            None => {},
        }
        match read_following(s, e) {
            None => {
                return None;
            },
            Some(more) => {
                j = more;
            },
        }
    }
}

} // verus!
