//! String literals: how text is written between quotes, and how it is read
//! back.

use crate::primitives::{digit_value, hex_char, is_hex_digit};
use vstd::prelude::*;
use vstd::utf8::is_scalar;

verus! {

/// `char::from_u32` gives the character with the given code where the code
/// is a Unicode scalar value, and nothing otherwise.
pub assume_specification[ char::from_u32 ](code: u32) -> (c: Option<char>)
    ensures
        c == (if is_scalar(code) {
            Some(code as char)
        } else {
            None::<char>
        }),
;

/// The letter that follows the backslash in the two-character escape of
/// `c`, for the characters that have one.
pub open spec fn short_escape(c: char) -> Option<char> {
    if c == '"' {
        Some('"')
    } else if c == '\\' {
        Some('\\')
    } else if c == '\u{8}' {
        Some('b')
    } else if c == '\u{c}' {
        Some('f')
    } else if c == '\n' {
        Some('n')
    } else if c == '\r' {
        Some('r')
    } else if c == '\t' {
        Some('t')
    } else {
        None
    }
}

/// How a character is written inside a string literal: the quote, the
/// backslash and the control characters escaped, every other character as
/// it is.
pub open spec fn escape_char(c: char) -> Seq<char> {
    match short_escape(c) {
        Some(letter) => seq!['\\', letter],
        None => if (c as u32) < 0x20 {
            seq!['\\', 'u', '0', '0', hex_char(c as nat / 16), hex_char(c as nat % 16)]
        } else {
            seq![c]
        },
    }
}

/// `text` with every character written as inside a string literal.
pub open spec fn escape_text(text: Seq<char>) -> Seq<char>
    decreases text.len(),
{
    if text.len() == 0 {
        Seq::empty()
    } else {
        escape_char(text[0]) + escape_text(text.drop_first())
    }
}

/// The string literal that stands for `text`.
pub open spec fn string_literal(text: Seq<char>) -> Seq<char> {
    seq!['"'] + (escape_text(text) + seq!['"'])
}

/// The number that four hexadecimal digits at the front of `input` spell.
pub open spec fn hex4(input: Seq<char>) -> Option<nat> {
    if input.len() >= 4 && is_hex_digit(input[0]) && is_hex_digit(input[1]) && is_hex_digit(
        input[2],
    ) && is_hex_digit(input[3]) {
        Some(
            ((digit_value(input[0])->0 * 16 + digit_value(input[1])->0) * 16 + digit_value(
                input[2],
            )->0) * 16 + digit_value(input[3])->0,
        )
    } else {
        None
    }
}

/// The character that a two-character escape stands for, given the letter
/// after its backslash.
pub open spec fn short_unescape(letter: char) -> Option<char> {
    if letter == '"' || letter == '\\' || letter == '/' {
        Some(letter)
    } else if letter == 'b' {
        Some('\u{8}')
    } else if letter == 'f' {
        Some('\u{c}')
    } else if letter == 'n' {
        Some('\n')
    } else if letter == 'r' {
        Some('\r')
    } else if letter == 't' {
        Some('\t')
    } else {
        None
    }
}

/// The character that a `\u` escape stands for, and how many characters it
/// takes, given the text after its `u`. An escape in the range of the
/// leading surrogates must be followed by one in the range of the trailing
/// surrogates, and the two stand for one character; a trailing surrogate
/// alone stands for nothing.
pub open spec fn unicode_unescape(input: Seq<char>) -> Option<(char, nat)> {
    match hex4(input) {
        None => None,
        Some(unit) => if 0xD800 <= unit <= 0xDBFF {
            if input.len() >= 6 && input[4] == '\\' && input[5] == 'u' {
                match hex4(input.skip(6)) {
                    None => None,
                    Some(low) => if 0xDC00 <= low <= 0xDFFF {
                        Some(
                            (
                                (0x10000 + (unit - 0xD800) * 0x400 + (low - 0xDC00)) as u32 as char,
                                10,
                            ),
                        )
                    } else {
                        None
                    },
                }
            } else {
                None
            }
        } else if 0xDC00 <= unit <= 0xDFFF {
            None
        } else {
            Some((unit as u32 as char, 4))
        },
    }
}

/// The character that an escape stands for, and how many characters the
/// escape takes, given the text after its backslash.
pub open spec fn unescape(input: Seq<char>) -> Option<(char, nat)> {
    if input.len() == 0 {
        None
    } else {
        match short_unescape(input[0]) {
            Some(c) => Some((c, 1)),
            None => if input[0] == 'u' {
                match unicode_unescape(input.drop_first()) {
                    Some((c, taken)) => Some((c, 1 + taken)),
                    None => None,
                }
            } else {
                None
            },
        }
    }
}

/// Reads a string literal from after its opening quote: the text it stands
/// for, and what is left after its closing quote. Control characters may
/// not stand in a literal unescaped.
#[verifier::opaque]
pub open spec fn string_body(input: Seq<char>) -> Option<(Seq<char>, Seq<char>)>
    decreases input.len(),
{
    if input.len() == 0 {
        None
    } else if input[0] == '"' {
        Some((Seq::empty(), input.drop_first()))
    } else if input[0] == '\\' {
        match unescape(input.drop_first()) {
            None => None,
            Some((c, taken)) => if 1 + taken <= input.len() {
                match string_body(input.skip(1 + taken as int)) {
                    None => None,
                    Some((text, rest)) => Some((seq![c] + text, rest)),
                }
            } else {
                None
            },
        }
    } else if (input[0] as u32) < 0x20 {
        None
    } else {
        match string_body(input.drop_first()) {
            None => None,
            Some((text, rest)) => Some((seq![input[0]] + text, rest)),
        }
    }
}

/// What is left after a string literal, read from after its opening quote.
pub open spec fn string_rest(input: Seq<char>) -> Option<Seq<char>> {
    match string_body(input) {
        Some((_, rest)) => Some(rest),
        None => None,
    }
}

/// The text of the string literal at the front of `input`.
pub open spec fn text_value(input: Seq<char>) -> Option<Seq<char>> {
    if input.len() > 0 && input[0] == '"' {
        match string_body(input.drop_first()) {
            Some((text, _)) => Some(text),
            None => None,
        }
    } else {
        None
    }
}

fn hex_value(c: char) -> (v: Option<u32>)
    ensures
        match v {
            Some(d) => is_hex_digit(c) && digit_value(c) == Some(d as nat),
            None => !is_hex_digit(c),
        },
{
    if '0' <= c && c <= '9' {
        Some(c as u32 - '0' as u32)
    } else if 'a' <= c && c <= 'f' {
        Some(c as u32 - 'a' as u32 + 10)
    } else if 'A' <= c && c <= 'F' {
        Some(c as u32 - 'A' as u32 + 10)
    } else {
        None
    }
}

fn read_hex4(s: &[char], i: usize) -> (v: Option<u32>)
    requires
        i <= s.len(),
    ensures
        match v {
            Some(n) => hex4(s@.skip(i as int)) == Some(n as nat) && n <= 0xFFFF && i + 4 <= s.len(),
            None => hex4(s@.skip(i as int)) is None,
        },
{
    if s.len() - i < 4 {
        return None;
    }
    let a = hex_value(s[i]);
    let b = hex_value(s[i + 1]);
    let c = hex_value(s[i + 2]);
    let d = hex_value(s[i + 3]);
    match (a, b, c, d) {
        (Some(a), Some(b), Some(c), Some(d)) => Some(((a * 16 + b) * 16 + c) * 16 + d),
        _ => None,
    }
}

fn read_short_escape(letter: char) -> (c: Option<char>)
    ensures
        c == short_unescape(letter),
{
    if letter == '"' || letter == '\\' || letter == '/' {
        Some(letter)
    } else if letter == 'b' {
        Some('\u{8}')
    } else if letter == 'f' {
        Some('\u{c}')
    } else if letter == 'n' {
        Some('\n')
    } else if letter == 'r' {
        Some('\r')
    } else if letter == 't' {
        Some('\t')
    } else {
        None
    }
}

/// Reads the `\u` escape whose `u` stands just before index `i`.
fn read_unicode_escape(s: &[char], i: usize) -> (r: Option<(char, usize)>)
    requires
        i <= s.len(),
    ensures
        match unicode_unescape(s@.skip(i as int)) {
            Some((c, taken)) => r == Some((c, (i + taken) as usize)) && i + taken <= s.len(),
            None => r is None,
        },
{
    let unit: u32 = match read_hex4(s, i) {
        None => {
            return None;
        },
        Some(unit) => unit,
    };
    if 0xD800 <= unit && unit <= 0xDBFF {
        if s.len() - i >= 6 && s[i + 4] == '\\' && s[i + 5] == 'u' {
            proof {
                assert(s@.skip(i as int).skip(6) =~= s@.skip(i as int + 6));
            }
            match read_hex4(s, i + 6) {
                None => None,
                Some(low) => {
                    if 0xDC00 <= low && low <= 0xDFFF {
                        let code: u32 = 0x10000 + (unit - 0xD800) * 0x400 + (low - 0xDC00);
                        match char::from_u32(code) {
                            Some(ch) => Some((ch, i + 10)),
                            None => None,
                        }
                    } else {
                        None
                    }
                },
            }
        } else {
            None
        }
    } else if 0xDC00 <= unit && unit <= 0xDFFF {
        None
    } else {
        match char::from_u32(unit) {
            Some(ch) => Some((ch, i + 4)),
            None => None,
        }
    }
}

/// Reads the escape whose backslash stands just before index `i`: the
/// character it stands for and the index after it.
fn read_escape(s: &[char], i: usize) -> (r: Option<(char, usize)>)
    requires
        i <= s.len(),
    ensures
        match unescape(s@.skip(i as int)) {
            Some((c, taken)) => r == Some((c, (i + taken) as usize)) && i + taken <= s.len(),
            None => r is None,
        },
{
    if i >= s.len() {
        return None;
    }
    let letter = s[i];
    match read_short_escape(letter) {
        Some(c) => Some((c, i + 1)),
        None => {
            if letter == 'u' {
                proof {
                    assert(s@.skip(i as int).drop_first() =~= s@.skip(i as int + 1));
                }
                read_unicode_escape(s, i + 1)
            } else {
                None
            }
        },
    }
}

/// What is read when `text` has been read already and `more` is read from
/// there on.
pub open spec fn read_on(text: Seq<char>, more: Option<(Seq<char>, Seq<char>)>) -> Option<
    (Seq<char>, Seq<char>),
> {
    match more {
        None => None,
        Some((tail, rest)) => Some((text + tail, rest)),
    }
}

/// Reading on after one more character has been read.
proof fn lemma_read_on_push(text: Seq<char>, c: char, more: Option<(Seq<char>, Seq<char>)>)
    ensures
        read_on(text, read_on(seq![c], more)) == read_on(text.push(c), more),
{
    if let Some((tail, _)) = more {
        assert(text + (seq![c] + tail) =~= text.push(c) + tail);
    }
}

/// How the reading of a string literal goes on at index `j` of `s`.
proof fn lemma_string_body_at(s: Seq<char>, j: int)
    requires
        0 <= j < s.len(),
    ensures
        s[j] == '"' ==> string_body(s.skip(j)) == Some((Seq::<char>::empty(), s.skip(j + 1))),
        s[j] == '\\' ==> string_body(s.skip(j)) == (match unescape(s.skip(j + 1)) {
            None => None,
            Some((c, taken)) => if j + 1 + taken <= s.len() {
                read_on(seq![c], string_body(s.skip(j + 1 + taken)))
            } else {
                None
            },
        }),
        s[j] != '"' && s[j] != '\\' && (s[j] as u32) < 0x20 ==> string_body(s.skip(j)) is None,
        s[j] != '"' && s[j] != '\\' && (s[j] as u32) >= 0x20 ==> string_body(s.skip(j)) == read_on(
            seq![s[j]],
            string_body(s.skip(j + 1)),
        ),
{
    reveal(string_body);
    let input = s.skip(j);
    assert(input[0] == s[j]);
    assert(input.drop_first() =~= s.skip(j + 1));
    if s[j] == '\\' {
        if let Some((c, taken)) = unescape(s.skip(j + 1)) {
            if j + 1 + taken <= s.len() {
                assert(input.skip(1 + taken as int) =~= s.skip(j + 1 + taken));
            }
        }
    }
}

/// Reads the string literal whose opening quote stands just before index
/// `i`: the text it stands for and the index after its closing quote.
pub(crate) fn read_string(s: &[char], i: usize) -> (r: Option<(String, usize)>)
    requires
        i <= s.len(),
    ensures
        match (string_body(s@.skip(i as int)), r) {
            (Some((text, rest)), Some((out, next))) => {
                &&& out@ == text
                &&& i < next <= s.len()
                &&& s@.skip(next as int) == rest
            },
            (None, None) => true,
            _ => false,
        },
{
    let mut text = String::new();
    let mut j: usize = i;
    proof {
        if let Some((tail, _)) = string_body(s@.skip(i as int)) {
            assert(text@ + tail =~= tail);
        }
    }
    while j < s.len()
        invariant
            i <= j <= s.len(),
            string_body(s@.skip(i as int)) == read_on(text@, string_body(s@.skip(j as int))),
        decreases s.len() - j,
    {
        let c = s[j];
        proof {
            lemma_string_body_at(s@, j as int);
        }
        if c == '"' {
            proof {
                assert(text@ + Seq::<char>::empty() =~= text@);
            }
            return Some((text, j + 1));
        } else if c == '\\' {
            match read_escape(s, j + 1) {
                None => {
                    return None;
                },
                Some((ch, next)) => {
                    proof {
                        lemma_read_on_push(text@, ch, string_body(s@.skip(next as int)));
                    }
                    text.push(ch);
                    j = next;
                },
            }
        } else if (c as u32) < 0x20 {
            return None;
        } else {
            proof {
                lemma_read_on_push(text@, c, string_body(s@.skip(j as int + 1)));
            }
            text.push(c);
            j += 1;
        }
    }
    proof {
        reveal(string_body);
        assert(s@.skip(j as int).len() == 0);
    }
    None
}

/// The text of the string literal that starts at index `i`.
pub(crate) fn read_text_value(s: &[char], i: usize) -> (r: Option<String>)
    requires
        i <= s.len(),
    ensures
        match (text_value(s@.skip(i as int)), r) {
            (Some(text), Some(out)) => out@ == text,
            (None, None) => true,
            _ => false,
        },
{
    if i < s.len() && s[i] == '"' {
        proof {
            assert(s@.skip(i as int).drop_first() =~= s@.skip(i as int + 1));
        }
        match read_string(s, i + 1) {
            Some((text, _)) => Some(text),
            None => None,
        }
    } else {
        None
    }
}

/// Escaping goes character by character.
pub proof fn lemma_escape_text_push(text: Seq<char>, c: char)
    ensures
        escape_text(text.push(c)) == escape_text(text) + escape_char(c),
    decreases text.len(),
{
    let pushed = text.push(c);
    if text.len() == 0 {
        assert(pushed.drop_first() =~= Seq::<char>::empty());
        assert(escape_text(pushed.drop_first()) =~= Seq::<char>::empty());
        assert(escape_text(text) =~= Seq::<char>::empty());
        assert(escape_text(pushed) =~= escape_text(text) + escape_char(c));
    } else {
        lemma_escape_text_push(text.drop_first(), c);
        assert(pushed.drop_first() =~= text.drop_first().push(c));
        assert(pushed[0] == text[0]);
        assert(escape_text(pushed) =~= escape_text(text) + escape_char(c));
    }
}

fn short_escape_of(c: char) -> (letter: Option<char>)
    ensures
        letter == short_escape(c),
{
    if c == '"' {
        Some('"')
    } else if c == '\\' {
        Some('\\')
    } else if c == '\u{8}' {
        Some('b')
    } else if c == '\u{c}' {
        Some('f')
    } else if c == '\n' {
        Some('n')
    } else if c == '\r' {
        Some('r')
    } else if c == '\t' {
        Some('t')
    } else {
        None
    }
}

fn hex_letter(n: u8) -> (c: char)
    requires
        n < 16,
    ensures
        c == hex_char(n as nat),
{
    if n < 10 {
        (48u8 + n) as char
    } else {
        (97u8 + (n - 10)) as char
    }
}

fn write_escaped(c: char, out: &mut String)
    ensures
        final(out)@ == old(out)@ + escape_char(c),
{
    match short_escape_of(c) {
        Some(letter) => {
            out.push('\\');
            out.push(letter);
        },
        None => {
            if (c as u32) < 0x20 {
                let code: u8 = c as u8;
                out.push('\\');
                out.push('u');
                out.push('0');
                out.push('0');
                out.push(hex_letter(code / 16));
                out.push(hex_letter(code % 16));
            } else {
                out.push(c);
            }
        },
    }
    proof {
        assert(out@ =~= old(out)@ + escape_char(c));
    }
}

/// Appends the string literal that stands for `text` to `out`.
pub(crate) fn write_string(text: &str, out: &mut String)
    ensures
        final(out)@ == old(out)@ + string_literal(text@),
{
    out.push('"');
    for c in it: text.chars()
        invariant
            it.seq() == text@,
            out@ == old(out)@ + (seq!['"'] + escape_text(it.seq().take(it.index()))),
    {
        proof {
            let before = it.seq().take(it.index());
            assert(it.seq().take(it.index() + 1) =~= before.push(c));
            lemma_escape_text_push(before, c);
        }
        let ghost start = out@;
        write_escaped(c, out);
        proof {
            let before = it.seq().take(it.index());
            assert(start + escape_char(c) =~= old(out)@ + (seq!['"'] + (escape_text(before)
                + escape_char(c))));
        }
    }
    out.push('"');
    proof {
        assert(text@.take(text@.len() as int) =~= text@);
        assert(out@ =~= old(out)@ + string_literal(text@));
    }
}

/// A two-character escape stands for the character it was written for.
pub proof fn lemma_short_escape(c: char)
    requires
        short_escape(c) is Some,
    ensures
        short_unescape(short_escape(c)->0) == Some(c),
{
}

/// The `\u` escape of a control character stands for that character.
pub proof fn lemma_unicode_escape(c: char, tail: Seq<char>)
    requires
        (c as u32) < 0x20,
    ensures
        unicode_unescape(seq!['0', '0', hex_char(c as nat / 16), hex_char(c as nat % 16)] + tail)
            == Some((c, 4nat)),
{
    let code = c as nat;
    let input = seq!['0', '0', hex_char(code / 16), hex_char(code % 16)] + tail;
    crate::primitives::lemma_hex_char(code / 16);
    crate::primitives::lemma_hex_char(code % 16);
    assert(input[0] == '0' && input[1] == '0');
    assert(input[2] == hex_char(code / 16) && input[3] == hex_char(code % 16));
    assert(hex4(input) == Some(code));
    vstd::utf8::char_u32_cast(c, c as u32);
}

proof fn lemma_short_escape_reads_back(c: char, tail: Seq<char>)
    requires
        short_escape(c) is Some,
    ensures
        string_body(seq!['\\', short_escape(c)->0] + tail) == read_on(seq![c], string_body(tail)),
{
    reveal(string_body);
    let input = seq!['\\', short_escape(c)->0] + tail;
    lemma_short_escape(c);
    assert(input[0] == '\\');
    assert(input.drop_first()[0] == short_escape(c)->0);
    assert(unescape(input.drop_first()) == Some((c, 1nat)));
    assert(input.skip(2) =~= tail);
}

proof fn lemma_unicode_escape_reads_back(c: char, tail: Seq<char>)
    requires
        (c as u32) < 0x20,
    ensures
        string_body(
            seq!['\\', 'u', '0', '0', hex_char(c as nat / 16), hex_char(c as nat % 16)] + tail,
        ) == read_on(seq![c], string_body(tail)),
{
    reveal(string_body);
    let code = c as nat;
    let digits = seq!['0', '0', hex_char(code / 16), hex_char(code % 16)];
    let input = seq!['\\', 'u', '0', '0', hex_char(code / 16), hex_char(code % 16)] + tail;
    assert(input[0] == '\\');
    let after = input.drop_first();
    assert(after[0] == 'u');
    assert(after.drop_first() =~= digits + tail);
    lemma_unicode_escape(c, tail);
    assert(unescape(after) == Some((c, 5nat)));
    assert(input.skip(6) =~= tail);
}

proof fn lemma_plain_char_reads_back(c: char, tail: Seq<char>)
    requires
        c != '"',
        c != '\\',
        (c as u32) >= 0x20,
    ensures
        string_body(seq![c] + tail) == read_on(seq![c], string_body(tail)),
{
    reveal(string_body);
    let input = seq![c] + tail;
    assert(input[0] == c);
    assert(input.drop_first() =~= tail);
}

/// An escaped character, read from after where it starts, stands for the
/// character and leaves what follows it.
proof fn lemma_escaped_char_reads_back(c: char, tail: Seq<char>)
    ensures
        string_body(escape_char(c) + tail) == read_on(seq![c], string_body(tail)),
{
    if short_escape(c) is Some {
        assert(escape_char(c) == seq!['\\', short_escape(c)->0]);
        lemma_short_escape_reads_back(c, tail);
    } else if (c as u32) < 0x20 {
        assert(escape_char(c) == seq![
            '\\',
            'u',
            '0',
            '0',
            hex_char(c as nat / 16),
            hex_char(c as nat % 16),
        ]);
        lemma_unicode_escape_reads_back(c, tail);
    } else {
        assert(escape_char(c) == seq![c]);
        lemma_plain_char_reads_back(c, tail);
    }
}

/// A string literal reads back as the text it stands for, and leaves what
/// follows it.
pub proof fn lemma_string_round_trip(text: Seq<char>, rest: Seq<char>)
    ensures
        string_body(escape_text(text) + (seq!['"'] + rest)) == Some((text, rest)),
    decreases text.len(),
{
    let input = escape_text(text) + (seq!['"'] + rest);
    if text.len() == 0 {
        reveal(string_body);
        assert(input[0] == '"');
        assert(input.drop_first() =~= rest);
    } else {
        let c = text[0];
        let tail = escape_text(text.drop_first()) + (seq!['"'] + rest);
        lemma_string_round_trip(text.drop_first(), rest);
        assert(input =~= escape_char(c) + tail);
        assert(seq![c] + text.drop_first() =~= text);
        lemma_escaped_char_reads_back(c, tail);
    }
}

} // verus!
