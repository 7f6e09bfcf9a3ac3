//! Hashing and the recovery of the signer of a message.

use crate::account::{bytes_precede, bytes_precede_from, AccountId};
use crate::challenge::wrapped;
use crate::registry::Chocolate;
use vstd::prelude::*;

verus! {

/// The 32 bytes that `ink::env::hash_bytes` computes for `input` with the
/// hash `ink::env::hash::Blake2x256`.
pub uninterp spec fn blake2x256(input: Seq<u8>) -> Seq<u8>;

/// What `ink::env::ecdsa_recover` recovers from a signature of 65 bytes and
/// a digest of 32 bytes: the 33 bytes of the compressed public key, or
/// nothing where no key can be recovered.
pub uninterp spec fn ecdsa_recovered(signature: Seq<u8>, digest: Seq<u8>) -> Option<Seq<u8>>;

/// The order of the group of the curve secp256k1, the most significant byte
/// first.
pub open spec fn group_order() -> Seq<u8> {
    seq![
        0xffu8, 0xffu8, 0xffu8, 0xffu8, 0xffu8, 0xffu8, 0xffu8, 0xffu8,
        0xffu8, 0xffu8, 0xffu8, 0xffu8, 0xffu8, 0xffu8, 0xffu8, 0xfeu8,
        0xbau8, 0xaeu8, 0xdcu8, 0xe6u8, 0xafu8, 0x48u8, 0xa0u8, 0x3bu8,
        0xbfu8, 0xd2u8, 0x5eu8, 0x8cu8, 0xd0u8, 0x36u8, 0x41u8, 0x41u8,
    ]
}

/// A signature is well formed if its two numbers of 32 bytes, the most
/// significant byte first, are below the order of the group, and its last
/// byte, which says which of the candidate keys to recover, is in 0..=3 or in
/// 27..=30.
pub open spec fn well_formed_signature(signature: Seq<u8>) -> bool {
    &&& signature.len() == 65
    &&& (signature[64] <= 3 || 27 <= signature[64] <= 30)
    &&& bytes_precede(signature.subrange(0, 32), group_order())
    &&& bytes_precede(signature.subrange(32, 64), group_order())
}

/// The account that signed `message`, as far as `signature` shows it: the
/// hash of the public key recovered from the signature and from the hash of
/// the wrapped message. Nothing where the signature is not well formed or no
/// key can be recovered.
pub open spec fn recovered_signer(signature: Seq<u8>, message: Seq<u8>) -> Option<Seq<u8>> {
    if well_formed_signature(signature) {
        match ecdsa_recovered(signature, blake2x256(wrapped(message))) {
            Some(key) => Some(blake2x256(key)),
            None => None,
        }
    } else {
        None
    }
}

/// The order of the group of the curve secp256k1.
fn group_order_bytes() -> (order: [u8; 32])
    ensures
        order@ == group_order(),
{
    let order: [u8; 32] = [
        0xff, 0xff, 0xff, 0xff, 0xff, 0xff, 0xff, 0xff,
        0xff, 0xff, 0xff, 0xff, 0xff, 0xff, 0xff, 0xfe,
        0xba, 0xae, 0xdc, 0xe6, 0xaf, 0x48, 0xa0, 0x3b,
        0xbf, 0xd2, 0x5e, 0x8c, 0xd0, 0x36, 0x41, 0x41,
    ];
    order
}

/// Whether the number in the 32 bytes of `signature` from `from` on is below
/// the order of the group.
fn below_group_order(signature: &[u8; 65], from: usize) -> (below: bool)
    requires
        from + 32 <= 65,
    ensures
        below == bytes_precede(signature@.subrange(from as int, from + 32), group_order()),
{
    let order = group_order_bytes();
    let ghost number = signature@.subrange(from as int, from + 32);
    let mut i: usize = 0;
    while i < 32
        invariant
            0 <= i <= 32,
            from + 32 <= 65,
            order@ == group_order(),
            number == signature@.subrange(from as int, from + 32),
            bytes_precede(number, order@) == bytes_precede_from(number, order@, i as int),
        decreases 32 - i,
    {
        if signature[from + i] < order[i] {
            return true;
        }
        if signature[from + i] > order[i] {
            return false;
        }
        i += 1;
    }
    false
}

/// Whether a signature is well formed.
pub fn is_well_formed_signature(signature: &[u8; 65]) -> (well_formed: bool)
    ensures
        well_formed == well_formed_signature(signature@),
{
    let last = signature[64];
    (last <= 3 || (27 <= last && last <= 30)) && below_group_order(signature, 0)
        && below_group_order(signature, 32)
}

/// Calls `ink::env::ecdsa_recover`, which recovers the compressed public key
/// that made `signature` over `digest`. Off chain it panics on a signature
/// that is not well formed, and so this asks for one that is. What it
/// returns depends on the signature and the digest alone.
#[verifier::external_body]
fn ecdsa_recover(signature: &[u8; 65], digest: &[u8; 32]) -> (key: Option<[u8; 33]>)
    requires
        well_formed_signature(signature@),
    ensures
        ecdsa_recovered(signature@, digest@) == match key {
            Some(bytes) => Some(bytes@),
            None => None,
        },
{
    let mut output = [0u8; 33];
    match ink::env::ecdsa_recover(signature, digest, &mut output) {
        Ok(()) => Some(output),
        Err(_) => None,
    }
}

/// The bytes of a public key as a vector.
fn key_bytes(key: &[u8; 33]) -> (bytes: Vec<u8>)
    ensures
        bytes@ == key@,
{
    let mut bytes: Vec<u8> = Vec::new();
    bytes.extend_from_slice(key.as_slice());
    bytes
}

impl Chocolate {
    /// Calls `ink::env::hash_bytes` with the hash `ink::env::hash::Blake2x256`.
    /// What it returns depends on the input alone.
    #[verifier::external_body]
    pub fn hash_vec(input: Vec<u8>) -> (output: [u8; 32])
        ensures
            output@ == blake2x256(input@),
    {
        let mut output = [0u8; 32];
        ink::env::hash_bytes::<ink::env::hash::Blake2x256>(&input, &mut output);
        output
    }

    /// The account that signed `message`, as far as `signature` shows it.
    pub fn recover_signer(signature: &[u8; 65], message: Vec<u8>) -> (signer: Option<AccountId>)
        ensures
            recovered_signer(signature@, message@) == match signer {
                Some(account) => Some(account@),
                None => None,
            },
    {
        if !is_well_formed_signature(signature) {
            return None;
        }
        let digest = Chocolate::hash_vec(Chocolate::wrap_message(message));
        match ecdsa_recover(signature, &digest) {
            Some(key) => Some(AccountId::new(Chocolate::hash_vec(key_bytes(&key)))),
            None => None,
        }
    }
}

} // verus!
