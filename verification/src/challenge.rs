//! The message that an account signs to prove who holds it, and the frame in
//! which the message is hashed.

use crate::account::AccountId;
use crate::registry::Chocolate;
use vstd::prelude::*;

verus! {

/// The four bytes of `n`, the most significant first.
pub open spec fn big_endian(n: u32) -> Seq<u8> {
    seq![
        (n / 0x100_0000) as u8,
        (n / 0x1_0000 % 0x100) as u8,
        (n / 0x100 % 0x100) as u8,
        (n % 0x100) as u8,
    ]
}

/// The challenge for `account` at the verification count `index`: the bytes
/// of the account followed by the count, the most significant byte first.
pub open spec fn challenge_message(account: AccountId, index: u32) -> Seq<u8> {
    account@ + big_endian(index)
}

/// Different numbers have different bytes.
pub proof fn lemma_big_endian_injective(n: u32, m: u32)
    requires
        big_endian(n) == big_endian(m),
    ensures
        n == m,
{
}

/// A challenge belongs to one account and one count: different accounts, and
/// different counts, give different challenges.
pub proof fn lemma_challenge_message_injective(
    account: AccountId,
    index: u32,
    other: AccountId,
    other_index: u32,
)
    requires
        challenge_message(account, index) == challenge_message(other, other_index),
    ensures
        account == other,
        index == other_index,
{
    let message = challenge_message(account, index);
    AccountId::lemma_view_injective(account, other);
    assert(message.subrange(0, 32) =~= account@);
    assert(message.subrange(0, 32) =~= other@);
    assert(message.subrange(32, 36) =~= big_endian(index));
    assert(message.subrange(32, 36) =~= big_endian(other_index));
    lemma_big_endian_injective(index, other_index);
}

/// The bytes of `<Bytes>` in ASCII.
pub open spec fn opening_tag() -> Seq<u8> {
    seq![60u8, 66u8, 121u8, 116u8, 101u8, 115u8, 62u8]
}

/// The bytes of `</Bytes>` in ASCII.
pub open spec fn closing_tag() -> Seq<u8> {
    seq![60u8, 47u8, 66u8, 121u8, 116u8, 101u8, 115u8, 62u8]
}

/// A message between the opening and the closing tag.
pub open spec fn wrapped(message: Seq<u8>) -> Seq<u8> {
    opening_tag() + message + closing_tag()
}

/// Calls `parity_scale_codec::Encode::encode` on the account as
/// `ink::primitives::AccountId`. The encoding of that type is the encoding of
/// its one field, an array of 32 bytes, and an array of bytes is encoded as
/// its bytes with nothing before or after them.
#[verifier::external_body]
fn encode_account(account: &AccountId) -> (encoded: Vec<u8>)
    ensures
        encoded@ == account@,
{
    parity_scale_codec::Encode::encode(&ink::primitives::AccountId::from(account.bytes))
}

/// Appends the four bytes of `n` to `out`, the most significant first.
fn push_big_endian(out: &mut Vec<u8>, n: u32)
    ensures
        final(out)@ == old(out)@ + big_endian(n),
{
    out.push((n / 0x100_0000) as u8);
    out.push((n / 0x1_0000 % 0x100) as u8);
    out.push((n / 0x100 % 0x100) as u8);
    out.push((n % 0x100) as u8);
}

/// Builds the challenge for `account` at the verification count `index`.
pub fn build_challenge(account: &AccountId, index: u32) -> (message: Vec<u8>)
    ensures
        message@ == challenge_message(*account, index),
{
    let mut message = encode_account(account);
    push_big_endian(&mut message, index);
    message
}

impl Chocolate {
    /// Puts a message between `<Bytes>` and `</Bytes>`, the frame in which a
    /// signed message is hashed.
    pub fn wrap_message(input: Vec<u8>) -> (output: Vec<u8>)
        ensures
            output@ == wrapped(input@),
    {
        let mut output: Vec<u8> = Vec::new();
        output.push(60);
        output.push(66);
        output.push(121);
        output.push(116);
        output.push(101);
        output.push(115);
        output.push(62);
        output.extend_from_slice(input.as_slice());
        output.push(60);
        output.push(47);
        output.push(66);
        output.push(121);
        output.push(116);
        output.push(101);
        output.push(115);
        output.push(62);
        output
    }
}

} // verus!
