//! The call data of an ERC-20 `transfer`: a four-byte selector followed by
//! the recipient and the amount, one 32-byte word each.

use crate::primitives::{
    be_bytes_of, be_value, lemma_be_value_of_bytes, uint_limit, Address, U256,
};
use alloy_sol_types::SolValue;
use vstd::prelude::*;
use vstd::utf8::encode_utf8;

verus! {

/// The canonical signature of the ERC-20 transfer function.
pub const TRANSFER_SIGNATURE: &'static str = "transfer(address,uint256)";

/// The Keccak-256 digest of `data`: 32 bytes.
pub uninterp spec fn keccak256_digest(data: Seq<u8>) -> Seq<u8>;

/// The selector of the function with the given signature: the first four
/// bytes of the digest of the signature's UTF-8 bytes.
pub open spec fn selector_of(signature: Seq<char>) -> Seq<u8> {
    keccak256_digest(encode_utf8(signature)).take(4)
}

/// An address as an ABI word: twelve zero bytes, then the twenty bytes of
/// the address.
pub open spec fn address_word(to: Seq<u8>) -> Seq<u8> {
    Seq::new(12, |i: int| 0u8) + to
}

/// An amount as an ABI word: its 32 big-endian bytes.
pub open spec fn uint_word(amount: nat) -> Seq<u8> {
    be_bytes_of(amount, 32)
}

/// The call data of `transfer(to, amount)` under a given selector: the
/// selector, the recipient's word, the amount's word.
pub open spec fn call_data(selector: Seq<u8>, to: Seq<u8>, amount: nat) -> Seq<u8> {
    selector + (address_word(to) + uint_word(amount))
}

/// The call data of the ERC-20 `transfer(to, amount)`.
pub open spec fn transfer_call(to: Seq<u8>, amount: nat) -> Seq<u8> {
    call_data(selector_of(TRANSFER_SIGNATURE@), to, amount)
}

/// Hashes `data` with `alloy_primitives::keccak256`. The digest depends on
/// the bytes alone; nothing more is claimed of it.
#[verifier::external_body]
fn keccak256(data: &[u8]) -> (digest: [u8; 32])
    ensures
        digest@ == keccak256_digest(data@),
{
    alloy_primitives::keccak256(data).0
}

/// Encodes the pair `(address, uint256)` with
/// `alloy_sol_types::SolValue::abi_encode_sequence`. Both members are
/// static, so the encoding is their two head words and no tail: the address
/// left-padded with zeros to 32 bytes, then the integer big-endian.
#[verifier::external_body]
fn abi_encode_arguments(to: &Address, amount: &U256) -> (out: Vec<u8>)
    ensures
        out@ == address_word(to@) + amount.be_bytes@,
{
    let to = alloy_primitives::Address::new(to.bytes);
    let amount = alloy_primitives::U256::from_be_bytes(amount.be_bytes);
    (to, amount).abi_encode_sequence()
}

/// The four-byte selector of the function with the given signature.
pub fn function_selector(signature: &str) -> (selector: [u8; 4])
    ensures
        selector@ == selector_of(signature@),
{
    let digest = keccak256(signature.as_bytes());
    let selector = [digest[0], digest[1], digest[2], digest[3]];
    assert(selector@ =~= digest@.take(4));
    selector
}

/// The call data that invokes the function behind `selector` with the
/// arguments `(to, amount)`.
pub fn transfer_call_data(selector: [u8; 4], to: &Address, amount: &U256) -> (out: Vec<u8>)
    ensures
        out@ == call_data(selector@, to@, amount@),
        out@.len() == 68,
{
    proof {
        amount.lemma_word();
    }
    let mut out: Vec<u8> = Vec::new();
    out.push(selector[0]);
    out.push(selector[1]);
    out.push(selector[2]);
    out.push(selector[3]);
    assert(out@ =~= selector@);
    let mut arguments = abi_encode_arguments(to, amount);
    out.append(&mut arguments);
    out
}

/// The call data of the ERC-20 `transfer(to, amount)`: the selector derived
/// from [`TRANSFER_SIGNATURE`], then the two argument words.
pub fn encode_transfer(to: &Address, amount: &U256) -> (out: Vec<u8>)
    ensures
        out@ == transfer_call(to@, amount@),
        out@.len() == 68,
{
    transfer_call_data(function_selector(TRANSFER_SIGNATURE), to, amount)
}

/// The layout of the call data: 68 bytes, of which the first four are the
/// selector, the next twelve are zero, the next twenty are the recipient,
/// and the last 32 are the amount, most significant byte first.
pub proof fn lemma_call_data_layout(selector: Seq<u8>, to: Seq<u8>, amount: nat)
    requires
        selector.len() == 4,
        to.len() == 20,
        amount < uint_limit(),
    ensures
        call_data(selector, to, amount).len() == 68,
        call_data(selector, to, amount).subrange(0, 4) == selector,
        forall|i: int| 4 <= i < 16 ==> #[trigger] call_data(selector, to, amount)[i] == 0,
        call_data(selector, to, amount).subrange(16, 36) == to,
        be_value(call_data(selector, to, amount).subrange(36, 68)) == amount,
{
    let data = call_data(selector, to, amount);
    lemma_be_value_of_bytes(amount, 32);
    assert(data.subrange(0, 4) =~= selector);
    assert(data.subrange(16, 36) =~= to);
    assert(data.subrange(36, 68) =~= uint_word(amount));
}

} // verus!
