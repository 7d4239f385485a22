//! The two value types every command is built from: 20-byte account
//! addresses and unsigned 256-bit amounts, with their text forms.

use std::str::FromStr;
use vstd::arithmetic::power2::pow2;
use vstd::prelude::*;

verus! {

/// A 20-byte account address.
#[derive(Clone, Copy, Debug, PartialEq, Eq)]
pub struct Address {
    pub bytes: [u8; 20],
}

impl View for Address {
    type V = Seq<u8>;

    open spec fn view(&self) -> Seq<u8> {
        self.bytes@
    }
}

/// An unsigned 256-bit integer, held as 32 big-endian bytes.
#[derive(Clone, Copy, Debug, PartialEq, Eq)]
pub struct U256 {
    pub be_bytes: [u8; 32],
}

impl View for U256 {
    type V = nat;

    open spec fn view(&self) -> nat {
        be_value(self.be_bytes@)
    }
}

/// The number that a big-endian byte string denotes.
pub open spec fn be_value(bytes: Seq<u8>) -> nat
    decreases bytes.len(),
{
    if bytes.len() == 0 {
        0
    } else {
        be_value(bytes.drop_last()) * 256 + bytes.last() as nat
    }
}

/// The last `len` big-endian bytes of `n`.
pub open spec fn be_bytes_of(n: nat, len: nat) -> Seq<u8>
    decreases len,
{
    if len == 0 {
        Seq::empty()
    } else {
        be_bytes_of(n / 256, (len - 1) as nat).push((n % 256) as u8)
    }
}

/// Two to the power 256, the first number an amount cannot hold.
pub open spec fn uint_limit() -> nat {
    pow2(256)
}

/// The value of a character as a digit: `0`-`9`, then the letters in either
/// case from ten upward.
pub open spec fn digit_value(c: char) -> Option<nat> {
    if '0' <= c && c <= '9' {
        Some((c as u32 - '0' as u32) as nat)
    } else if 'a' <= c && c <= 'z' {
        Some((c as u32 - 'a' as u32 + 10) as nat)
    } else if 'A' <= c && c <= 'Z' {
        Some((c as u32 - 'A' as u32 + 10) as nat)
    } else {
        None
    }
}

/// Whether `c` is a hexadecimal digit in either case.
pub open spec fn is_hex_digit(c: char) -> bool {
    digit_value(c) is Some && digit_value(c)->0 < 16
}

/// The lower-case hexadecimal digit for a number below sixteen.
pub open spec fn hex_char(n: nat) -> char {
    if n < 10 {
        (('0' as u8) + n as u8) as char
    } else {
        (('a' as u8) + (n - 10) as u8) as char
    }
}

/// The shortest lower-case hexadecimal numeral for `n`; zero is `0`.
pub open spec fn hex_digits(n: nat) -> Seq<char>
    decreases n,
{
    if n < 16 {
        seq![hex_char(n)]
    } else {
        hex_digits(n / 16).push(hex_char(n % 16))
    }
}

/// Two lower-case hexadecimal digits for every byte, in order.
pub open spec fn hex_of_bytes(bytes: Seq<u8>) -> Seq<char>
    decreases bytes.len(),
{
    if bytes.len() == 0 {
        Seq::empty()
    } else {
        hex_of_bytes(bytes.drop_last()).push(hex_char(bytes.last() as nat / 16)).push(
            hex_char(bytes.last() as nat % 16),
        )
    }
}

/// The text form of an address: `0x` and forty lower-case digits.
pub open spec fn address_text(bytes: Seq<u8>) -> Seq<char> {
    seq!['0', 'x'] + hex_of_bytes(bytes)
}

/// The text form of an amount: `0x` and the shortest hexadecimal numeral.
pub open spec fn uint_text(n: nat) -> Seq<char> {
    seq!['0', 'x'] + hex_digits(n)
}

/// `text` without a leading `0x` or `0X`.
pub open spec fn strip_hex_prefix(text: Seq<char>) -> Seq<char> {
    if text.len() >= 2 && text[0] == '0' && (text[1] == 'x' || text[1] == 'X') {
        text.skip(2)
    } else {
        text
    }
}

/// Whether every character of `text` is a hexadecimal digit.
pub open spec fn all_hex(text: Seq<char>) -> bool {
    forall|i: int| 0 <= i < text.len() ==> is_hex_digit(#[trigger] text[i])
}

/// The bytes that a run of hexadecimal digits spells, two digits a byte.
pub open spec fn bytes_of_hex(digits: Seq<char>) -> Seq<u8> {
    Seq::new(
        digits.len() / 2,
        |i: int| (digit_value(digits[2 * i])->0 * 16 + digit_value(digits[2 * i + 1])->0) as u8,
    )
}

/// The address that `text` spells, if any: forty hexadecimal digits in
/// either case, after an optional `0x` or `0X`.
pub open spec fn address_text_value(text: Seq<char>) -> Option<Seq<u8>> {
    let digits = strip_hex_prefix(text);
    if digits.len() == 40 && all_hex(digits) {
        Some(bytes_of_hex(digits))
    } else {
        None
    }
}

/// The radix that the first two characters of a numeral select.
pub open spec fn numeral_radix(text: Seq<char>) -> nat {
    if text.len() >= 2 && text[0] == '0' {
        if text[1] == 'x' || text[1] == 'X' {
            16
        } else if text[1] == 'o' || text[1] == 'O' {
            8
        } else if text[1] == 'b' || text[1] == 'B' {
            2
        } else {
            10
        }
    } else {
        10
    }
}

/// The digits of a numeral: what follows the radix prefix where there is
/// one, the whole text where there is none.
pub open spec fn numeral_digits(text: Seq<char>) -> Seq<char> {
    if numeral_radix(text) == 10 {
        text
    } else {
        text.skip(2)
    }
}

/// The number that `digits` spell in `radix`, most significant digit first.
/// Underscores are passed over; any other character that is no digit of the
/// radix leaves the run without a value.
pub open spec fn radix_value(digits: Seq<char>, radix: nat) -> Option<nat>
    decreases digits.len(),
{
    if digits.len() == 0 {
        Some(0)
    } else {
        match radix_value(digits.drop_last(), radix) {
            None => None,
            Some(above) => {
                let c = digits.last();
                if c == '_' {
                    Some(above)
                } else {
                    match digit_value(c) {
                        Some(d) => if d < radix {
                            Some(above * radix + d)
                        } else {
                            None
                        },
                        None => None,
                    }
                }
            },
        }
    }
}

/// The amount that `text` spells, if any: a numeral in radix 16, 8 or 2
/// after the prefix `0x`, `0o` or `0b` (in either case), in radix 10
/// otherwise, whose value is below two to the power 256.
pub open spec fn uint_text_value(text: Seq<char>) -> Option<nat> {
    match radix_value(numeral_digits(text), numeral_radix(text)) {
        Some(v) => if v < uint_limit() {
            Some(v)
        } else {
            None
        },
        None => None,
    }
}

fn hex_char_of(n: u8) -> (c: char)
    requires
        n < 16,
    ensures
        c == hex_char(n as nat),
{
    if n < 10 {
        (48u8 + n) as char
    } else {
        (97u8 + (n - 10)) as char
    }
}

/// Parses an address with `alloy_primitives::Address::from_str`, which
/// hex-decodes into exactly twenty bytes: an optional `0x` or `0X`, then
/// forty hexadecimal digits of either case, and nothing else.
#[verifier::external_body]
fn address_from_text(text: &str) -> (out: Option<Address>)
    ensures
        match out {
            Some(a) => address_text_value(text@) == Some(a@),
            None => address_text_value(text@) is None,
        },
{
    match alloy_primitives::Address::from_str(text) {
        Ok(a) => Some(Address { bytes: a.into_array() }),
        Err(_) => None,
    }
}

/// Parses an amount with `alloy_primitives::U256::from_str`, which reads
/// a radix prefix, skips underscores, takes digits of either case and
/// fails on any other character or on a value of more than 256 bits.
#[verifier::external_body]
fn uint_from_text(text: &str) -> (out: Option<U256>)
    ensures
        match out {
            Some(v) => uint_text_value(text@) == Some(v@),
            None => uint_text_value(text@) is None,
        },
{
    match alloy_primitives::U256::from_str(text) {
        Ok(v) => Some(U256 { be_bytes: v.to_be_bytes::<32>() }),
        Err(_) => None,
    }
}

impl Address {
    /// The address made of `bytes`.
    pub fn new(bytes: [u8; 20]) -> (a: Address)
        ensures
            a@ == bytes@,
    {
        Address { bytes }
    }

    /// Reads an address from its text form.
    pub fn from_text(text: &str) -> (out: Option<Address>)
        ensures
            match out {
                Some(a) => address_text_value(text@) == Some(a@),
                None => address_text_value(text@) is None,
            },
    {
        address_from_text(text)
    }

    /// Appends the text form of the address to `out`.
    pub fn write_text(&self, out: &mut String)
        ensures
            final(out)@ == old(out)@ + address_text(self@),
    {
        out.push('0');
        out.push('x');
        let mut i: usize = 0;
        while i < 20
            invariant
                i <= 20,
                out@ == old(out)@ + (seq!['0', 'x'] + hex_of_bytes(self.bytes@.take(i as int))),
            decreases 20 - i,
        {
            let b: u8 = self.bytes[i];
            proof {
                let before = self.bytes@.take(i as int);
                let after = self.bytes@.take(i + 1);
                assert(after.drop_last() =~= before);
                assert(after.last() == b);
            }
            out.push(hex_char_of(b / 16));
            out.push(hex_char_of(b % 16));
            i += 1;
        }
        proof {
            assert(self.bytes@.take(20) =~= self.bytes@);
        }
    }

    /// The text form of the address.
    pub fn to_text(&self) -> (out: String)
        ensures
            out@ == address_text(self@),
    {
        let mut out = String::new();
        self.write_text(&mut out);
        out
    }
}

/// The digits written so far while rendering: none for zero, the numeral
/// otherwise.
spec fn written_digits(v: nat) -> Seq<char> {
    if v == 0 {
        Seq::empty()
    } else {
        hex_digits(v)
    }
}

proof fn lemma_append_nibble(v: nat, n: nat)
    requires
        n < 16,
    ensures
        (v * 16 + n == 0) <==> (v == 0 && n == 0),
        v * 16 + n != 0 ==> hex_digits(v * 16 + n) == written_digits(v).push(hex_char(n)),
{
    let next = v * 16 + n;
    if next != 0 {
        if next < 16 {
            assert(v == 0);
            assert(hex_digits(next) =~= written_digits(v).push(hex_char(n)));
        } else {
            assert(next / 16 == v && next % 16 == n);
            assert(v != 0);
        }
    }
}

proof fn lemma_be_value_zeros(bytes: Seq<u8>)
    requires
        forall|i: int| 0 <= i < bytes.len() ==> bytes[i] == 0,
    ensures
        be_value(bytes) == 0,
    decreases bytes.len(),
{
    if bytes.len() > 0 {
        lemma_be_value_zeros(bytes.drop_last());
    }
}

impl U256 {
    /// The amount whose big-endian bytes are `be_bytes`.
    pub fn from_be_bytes(be_bytes: [u8; 32]) -> (v: U256)
        ensures
            v.be_bytes@ == be_bytes@,
            v@ == be_value(be_bytes@),
    {
        U256 { be_bytes }
    }

    /// The amount equal to `value`.
    pub fn from_u64(value: u64) -> (v: U256)
        ensures
            v@ == value as nat,
    {
        let mut be_bytes: [u8; 32] = [0u8; 32];
        let mut divisor: u64 = 0x0100_0000_0000_0000;
        let mut i: usize = 24;
        proof {
            lemma_be_value_zeros(be_bytes@.take(24));
            lemma_byte_weights();
            assert(divisor as nat * 256 == 0x1_0000_0000_0000_0000);
            assert(value as nat / 0x1_0000_0000_0000_0000 == 0);
        }
        while i < 32
            invariant
                24 <= i <= 32,
                i < 32 ==> divisor as nat == byte_weight((31 - i) as nat),
                i < 32 ==> be_value(be_bytes@.take(i as int)) == value as nat / (divisor as nat
                    * 256),
                i == 32 ==> be_value(be_bytes@.take(i as int)) == value as nat,
            decreases 32 - i,
        {
            proof {
                lemma_byte_weights();
            }
            let digit: u8 = ((value / divisor) % 256) as u8;
            let ghost before = be_bytes@;
            be_bytes[i] = digit;
            proof {
                let taken = be_bytes@.take(i + 1);
                assert(taken.drop_last() =~= before.take(i as int));
                assert(taken.last() == digit);
                lemma_byte_weights();
                vstd::arithmetic::div_mod::lemma_div_denominator(
                    value as int,
                    divisor as int,
                    256,
                );
                assert(be_value(taken) == value as nat / divisor as nat);
                if i == 31 {
                    assert(divisor == 1);
                    assert(value as nat / 1 == value as nat);
                }
            }
            i += 1;
            if i < 32 {
                divisor = divisor / 256;
            }
        }
        proof {
            assert(be_bytes@.take(32) =~= be_bytes@);
        }
        U256 { be_bytes }
    }

    /// Reads an amount from its text form.
    pub fn from_text(text: &str) -> (out: Option<U256>)
        ensures
            match out {
                Some(v) => uint_text_value(text@) == Some(v@),
                None => uint_text_value(text@) is None,
            },
    {
        uint_from_text(text)
    }

    /// Appends the text form of the amount to `out`.
    pub fn write_text(&self, out: &mut String)
        ensures
            final(out)@ == old(out)@ + uint_text(self@),
    {
        out.push('0');
        out.push('x');
        let mut started = false;
        let mut i: usize = 0;
        while i < 32
            invariant
                i <= 32,
                started == (be_value(self.be_bytes@.take(i as int)) != 0),
                out@ == old(out)@ + (seq!['0', 'x'] + written_digits(
                    be_value(self.be_bytes@.take(i as int)),
                )),
            decreases 32 - i,
        {
            let b: u8 = self.be_bytes[i];
            let high: u8 = b / 16;
            let low: u8 = b % 16;
            proof {
                let above = be_value(self.be_bytes@.take(i as int));
                let taken = self.be_bytes@.take(i + 1);
                assert(taken.drop_last() =~= self.be_bytes@.take(i as int));
                assert(taken.last() == b);
                assert(be_value(taken) == (above * 16 + high as nat) * 16 + low as nat);
                lemma_append_nibble(above, high as nat);
                lemma_append_nibble(above * 16 + high as nat, low as nat);
            }
            if started || high != 0 {
                out.push(hex_char_of(high));
                started = true;
            }
            if started || low != 0 {
                out.push(hex_char_of(low));
                started = true;
            }
            i += 1;
        }
        proof {
            assert(self.be_bytes@.take(32) =~= self.be_bytes@);
        }
        if !started {
            out.push('0');
        }
    }

    /// The text form of the amount.
    pub fn to_text(&self) -> (out: String)
        ensures
            out@ == uint_text(self@),
    {
        let mut out = String::new();
        self.write_text(&mut out);
        out
    }
}

proof fn lemma_byte_weights()
    ensures
        byte_weight(0) == 1,
        byte_weight(1) == 0x100,
        byte_weight(2) == 0x1_0000,
        byte_weight(3) == 0x100_0000,
        byte_weight(4) == 0x1_0000_0000,
        byte_weight(5) == 0x100_0000_0000,
        byte_weight(6) == 0x1_0000_0000_0000,
        byte_weight(7) == 0x100_0000_0000_0000,
{
    reveal_with_fuel(byte_weight, 9);
}

/// The weight of the byte that stands `k` places before the last one.
spec fn byte_weight(k: nat) -> nat
    decreases k,
{
    if k == 0 {
        1
    } else {
        256 * byte_weight((k - 1) as nat)
    }
}

/// A lower-case hexadecimal digit has the value it was made from.
pub proof fn lemma_hex_char(n: nat)
    requires
        n < 16,
    ensures
        digit_value(hex_char(n)) == Some(n),
        is_hex_digit(hex_char(n)),
        hex_char(n) != '_',
{
}

/// Every character of `hex_of_bytes` is the digit of the nibble it stands
/// for: two characters a byte, high nibble first.
pub proof fn lemma_hex_of_bytes(bytes: Seq<u8>)
    ensures
        hex_of_bytes(bytes).len() == 2 * bytes.len(),
        forall|i: int|
            0 <= i < bytes.len() ==> {
                &&& #[trigger] hex_of_bytes(bytes)[2 * i] == hex_char(bytes[i] as nat / 16)
                &&& hex_of_bytes(bytes)[2 * i + 1] == hex_char(bytes[i] as nat % 16)
            },
    decreases bytes.len(),
{
    if bytes.len() > 0 {
        lemma_hex_of_bytes(bytes.drop_last());
        let head = hex_of_bytes(bytes.drop_last());
        assert forall|i: int| 0 <= i < bytes.len() implies {
            &&& #[trigger] hex_of_bytes(bytes)[2 * i] == hex_char(bytes[i] as nat / 16)
            &&& hex_of_bytes(bytes)[2 * i + 1] == hex_char(bytes[i] as nat % 16)
        } by {
            if i < bytes.len() - 1 {
                assert(head[2 * i] == hex_char(bytes.drop_last()[i] as nat / 16));
                assert(head[2 * i + 1] == hex_char(bytes.drop_last()[i] as nat % 16));
            }
        }
    }
}

/// Reading the text form of an address gives the address back.
pub proof fn lemma_address_text_round_trip(bytes: Seq<u8>)
    requires
        bytes.len() == 20,
    ensures
        address_text_value(address_text(bytes)) == Some(bytes),
{
    let text = address_text(bytes);
    let digits = hex_of_bytes(bytes);
    lemma_hex_of_bytes(bytes);
    assert(text[0] == '0' && text[1] == 'x');
    assert(strip_hex_prefix(text) =~= digits);
    assert forall|k: int| 0 <= k < digits.len() implies is_hex_digit(#[trigger] digits[k]) by {
        let i = k / 2;
        lemma_hex_char(bytes[i] as nat / 16);
        lemma_hex_char(bytes[i] as nat % 16);
        assert(digits[2 * i] == hex_char(bytes[i] as nat / 16));
        assert(digits[2 * i + 1] == hex_char(bytes[i] as nat % 16));
        if k % 2 == 0 {
            assert(k == 2 * i);
        } else {
            assert(k == 2 * i + 1);
        }
    }
    assert forall|i: int| 0 <= i < bytes.len() implies bytes_of_hex(digits)[i] == bytes[i] by {
        lemma_hex_char(bytes[i] as nat / 16);
        lemma_hex_char(bytes[i] as nat % 16);
        assert(digits[2 * i] == hex_char(bytes[i] as nat / 16));
    }
    assert(bytes_of_hex(digits) =~= bytes);
}

/// The shortest hexadecimal numeral of `n` spells `n`.
pub proof fn lemma_hex_digits_value(n: nat)
    ensures
        radix_value(hex_digits(n), 16) == Some(n),
    decreases n,
{
    let digits = hex_digits(n);
    if n < 16 {
        lemma_hex_char(n);
        assert(digits.drop_last() =~= Seq::<char>::empty());
        assert(radix_value(digits.drop_last(), 16) == Some(0nat));
    } else {
        lemma_hex_digits_value(n / 16);
        lemma_hex_char(n % 16);
        assert(digits.drop_last() =~= hex_digits(n / 16));
        assert(digits.last() == hex_char(n % 16));
    }
}

/// Reading the text form of an amount gives the amount back.
pub proof fn lemma_uint_text_round_trip(n: nat)
    requires
        n < uint_limit(),
    ensures
        uint_text_value(uint_text(n)) == Some(n),
{
    let text = uint_text(n);
    assert(hex_digits(n).len() >= 1) by {
        if n >= 16 {
        }
    }
    assert(text[0] == '0' && text[1] == 'x');
    assert(numeral_digits(text) =~= hex_digits(n));
    lemma_hex_digits_value(n);
}

/// A big-endian byte string denotes a number below 256 to the power of its
/// length.
pub proof fn lemma_be_value_bound(bytes: Seq<u8>)
    ensures
        be_value(bytes) < pow2(8 * bytes.len()),
    decreases bytes.len(),
{
    if bytes.len() == 0 {
        vstd::arithmetic::power2::lemma2_to64();
    } else {
        lemma_be_value_bound(bytes.drop_last());
        vstd::arithmetic::power2::lemma2_to64();
        vstd::arithmetic::power2::lemma_pow2_adds(8 * (bytes.len() - 1) as nat, 8);
        let above = be_value(bytes.drop_last());
        let limit = pow2(8 * (bytes.len() - 1) as nat);
        assert(above * 256 + 255 < limit * 256) by (nonlinear_arith)
            requires
                above < limit,
        ;
    }
}

/// Writing the number of a byte string back in as many bytes gives the
/// byte string.
pub proof fn lemma_be_bytes_of_value(bytes: Seq<u8>)
    ensures
        be_bytes_of(be_value(bytes), bytes.len()) == bytes,
    decreases bytes.len(),
{
    if bytes.len() > 0 {
        lemma_be_bytes_of_value(bytes.drop_last());
        let n = be_value(bytes);
        assert(n / 256 == be_value(bytes.drop_last()));
        assert(n % 256 == bytes.last() as nat);
        assert(be_bytes_of(n, bytes.len()) =~= bytes);
    } else {
        assert(be_bytes_of(be_value(bytes), bytes.len()) =~= bytes);
    }
}

/// Writing a number in bytes enough to hold it and reading the bytes back
/// gives the number.
pub proof fn lemma_be_value_of_bytes(n: nat, len: nat)
    requires
        n < pow2(8 * len),
    ensures
        be_bytes_of(n, len).len() == len,
        be_value(be_bytes_of(n, len)) == n,
    decreases len,
{
    vstd::arithmetic::power2::lemma2_to64();
    if len > 0 {
        vstd::arithmetic::power2::lemma_pow2_adds(8 * (len - 1) as nat, 8);
        let limit = pow2(8 * (len - 1) as nat);
        assert(n / 256 < limit) by (nonlinear_arith)
            requires
                n < limit * 256,
        ;
        lemma_be_value_of_bytes(n / 256, (len - 1) as nat);
        let bytes = be_bytes_of(n, len);
        assert(bytes.drop_last() =~= be_bytes_of(n / 256, (len - 1) as nat));
        assert(bytes.last() == (n % 256) as u8);
    }
}

impl U256 {
    /// The 32 big-endian bytes of an amount are the bytes it is held as.
    pub proof fn lemma_word(&self)
        ensures
            be_bytes_of(self@, 32) == self.be_bytes@,
    {
        lemma_be_bytes_of_value(self.be_bytes@);
    }

    /// Every amount is below two to the power 256.
    pub proof fn lemma_in_range(&self)
        ensures
            self@ < uint_limit(),
    {
        lemma_be_value_bound(self.be_bytes@);
    }
}

} // verus!
