//! Signatures of relay accounts, and the messages that they sign.

use vstd::prelude::*;
use vstd::bytes::spec_u64_to_le_bytes;
use crate::types::{AccountId, RelayAccountId};

verus! {

/// A signature, tagged with the scheme that made it.
#[derive(Clone, Copy, Debug, PartialEq, Eq)]
pub enum Signature {
    /// An Ed25519 signature.
    Ed25519([u8; 64]),
    /// An Sr25519 signature.
    Sr25519([u8; 64]),
    /// An ECDSA signature over secp256k1, with its recovery byte at the end.
    Ecdsa([u8; 65]),
}

/// Whether `signature` is an Ed25519 signature of `message` under the public key `signer`.
pub uninterp spec fn ed25519_valid(signature: Seq<u8>, message: Seq<u8>, signer: Seq<u8>) -> bool;

/// Whether `signature` is an Sr25519 signature of `message` under the public key `signer`.
pub uninterp spec fn sr25519_valid(signature: Seq<u8>, message: Seq<u8>, signer: Seq<u8>) -> bool;

/// Whether `signature` is an ECDSA signature of `message` by the key whose account is
/// `signer`.
pub uninterp spec fn ecdsa_valid(signature: Seq<u8>, message: Seq<u8>, signer: Seq<u8>) -> bool;

/// Calls `verify` of `sp_core::ed25519::Pair`. Nothing is proved of what counts as a
/// valid signature: the contract gives the answer a name, which stands for what that
/// function returns on these three byte strings.
#[verifier::external_body]
fn ed25519_verify(signature: &[u8; 64], message: &Vec<u8>, signer: &RelayAccountId) -> (ok: bool)
    ensures
        ok == ed25519_valid(signature@, message@, signer@),
{
    <sp_core::ed25519::Pair as sp_core::Pair>::verify(
        &sp_core::ed25519::Signature::from_raw(*signature),
        message.as_slice(),
        &sp_core::ed25519::Public::from_raw(*signer),
    )
}

/// Calls `verify` of `sp_core::sr25519::Pair`. Nothing is proved of what counts as a
/// valid signature: the contract gives the answer a name, which stands for what that
/// function returns on these three byte strings.
#[verifier::external_body]
fn sr25519_verify(signature: &[u8; 64], message: &Vec<u8>, signer: &RelayAccountId) -> (ok: bool)
    ensures
        ok == sr25519_valid(signature@, message@, signer@),
{
    <sp_core::sr25519::Pair as sp_core::Pair>::verify(
        &sp_core::sr25519::Signature::from_raw(*signature),
        message.as_slice(),
        &sp_core::sr25519::Public::from_raw(*signer),
    )
}

/// Calls `verify` of `sp_runtime::MultiSignature` on its ECDSA variant, which recovers
/// the public key from the signature and the Blake2 hash of the message and compares
/// the Blake2 hash of that key with the account. Nothing is proved of it: the contract
/// gives the answer a name, which stands for what that function returns on these three
/// byte strings.
#[verifier::external_body]
fn ecdsa_verify(signature: &[u8; 65], message: &Vec<u8>, signer: &RelayAccountId) -> (ok: bool)
    ensures
        ok == ecdsa_valid(signature@, message@, signer@),
{
    let signature = sp_runtime::MultiSignature::Ecdsa(
        sp_core::ecdsa::Signature::from_raw(*signature),
    );
    let account = sp_runtime::AccountId32::new(*signer);
    sp_runtime::traits::Verify::verify(&signature, message.as_slice(), &account)
}

/// Whether `signature` is a signature of `message` by the relay account `signer`, in
/// the scheme that its tag names.
pub open spec fn signature_valid(
    signature: Signature,
    message: Seq<u8>,
    signer: RelayAccountId,
) -> bool {
    match signature {
        Signature::Ed25519(bytes) => ed25519_valid(bytes@, message, signer@),
        Signature::Sr25519(bytes) => sr25519_valid(bytes@, message, signer@),
        Signature::Ecdsa(bytes) => ecdsa_valid(bytes@, message, signer@),
    }
}

/// Tells whether `signature` is a signature of `message` by the relay account `signer`.
pub fn verify(signature: &Signature, message: &Vec<u8>, signer: &RelayAccountId) -> (ok: bool)
    ensures
        ok == signature_valid(*signature, message@, *signer),
{
    match signature {
        Signature::Ed25519(bytes) => ed25519_verify(bytes, message, signer),
        Signature::Sr25519(bytes) => sr25519_verify(bytes, message, signer),
        Signature::Ecdsa(bytes) => ecdsa_verify(bytes, message, signer),
    }
}

/// The bytes `<Bytes>`, which open every signed message.
pub open spec fn framing_prefix() -> Seq<u8> {
    seq![60u8, 66u8, 121u8, 116u8, 101u8, 115u8, 62u8]
}

/// The bytes `</Bytes>`, which close every signed message.
pub open spec fn framing_suffix() -> Seq<u8> {
    seq![60u8, 47u8, 66u8, 121u8, 116u8, 101u8, 115u8, 62u8]
}

/// How an account of this chain is written in a signed message: its eight bytes, the
/// lowest first.
pub open spec fn account_encoding(account: AccountId) -> Seq<u8> {
    spec_u64_to_le_bytes(account)
}

/// `body` between the framing bytes, behind the identifier of the network.
pub open spec fn framed(network: Seq<u8>, body: Seq<u8>) -> Seq<u8> {
    framing_prefix() + network + body + framing_suffix()
}

/// The message that a relay account signs to give its contribution to `target`.
pub open spec fn association_message(network: Seq<u8>, target: AccountId) -> Seq<u8> {
    framed(network, account_encoding(target))
}

/// The message that a relay account signs to move the reward of `old_account` to
/// `new_account`.
pub open spec fn reassociation_message(
    network: Seq<u8>,
    new_account: AccountId,
    old_account: AccountId,
) -> Seq<u8> {
    framed(network, account_encoding(new_account) + account_encoding(old_account))
}

/// Calls `encode` of `parity_scale_codec::Encode` on a `u64`, which writes the eight
/// bytes of the number, the lowest first.
#[verifier::external_body]
fn encode_account(account: AccountId) -> (bytes: Vec<u8>)
    ensures
        bytes@ == account_encoding(account),
{
    parity_scale_codec::Encode::encode(&account)
}

/// Puts the bytes of `more` at the end of `bytes`.
fn extend(bytes: &mut Vec<u8>, more: &Vec<u8>)
    ensures
        final(bytes)@ == old(bytes)@ + more@,
{
    let mut i: usize = 0;
    while i < more.len()
        invariant
            i <= more.len(),
            bytes@ == old(bytes)@ + more@.take(i as int),
        decreases more.len() - i,
    {
        bytes.push(more[i]);
        assert(more@.take(i + 1) =~= more@.take(i as int).push(more@[i as int]));
        assert(bytes@ =~= old(bytes)@ + more@.take(i + 1));
        i = i + 1;
    }
    assert(more@.take(more.len() as int) =~= more@);
}

/// The framing bytes that open a signed message.
pub fn wrapped_bytes_prefix() -> (bytes: Vec<u8>)
    ensures
        bytes@ == framing_prefix(),
{
    let mut bytes: Vec<u8> = Vec::new();
    bytes.push(60u8);
    bytes.push(66u8);
    bytes.push(121u8);
    bytes.push(116u8);
    bytes.push(101u8);
    bytes.push(115u8);
    bytes.push(62u8);
    assert(bytes@ =~= framing_prefix());
    bytes
}

/// The framing bytes that close a signed message.
pub fn wrapped_bytes_postfix() -> (bytes: Vec<u8>)
    ensures
        bytes@ == framing_suffix(),
{
    let mut bytes: Vec<u8> = Vec::new();
    bytes.push(60u8);
    bytes.push(47u8);
    bytes.push(66u8);
    bytes.push(121u8);
    bytes.push(116u8);
    bytes.push(101u8);
    bytes.push(115u8);
    bytes.push(62u8);
    assert(bytes@ =~= framing_suffix());
    bytes
}

/// Builds the message that a relay account signs to give its contribution to `target`.
pub fn association_payload(network: &Vec<u8>, target: AccountId) -> (payload: Vec<u8>)
    ensures
        payload@ == association_message(network@, target),
{
    let mut payload = wrapped_bytes_prefix();
    extend(&mut payload, network);
    let encoded = encode_account(target);
    extend(&mut payload, &encoded);
    let suffix = wrapped_bytes_postfix();
    extend(&mut payload, &suffix);
    payload
}

/// Builds the message that a relay account signs to move the reward of `old_account`
/// to `new_account`.
pub fn reassociation_payload(network: &Vec<u8>, new_account: AccountId, old_account: AccountId) -> (payload:
    Vec<u8>)
    ensures
        payload@ == reassociation_message(network@, new_account, old_account),
{
    let mut payload = wrapped_bytes_prefix();
    extend(&mut payload, network);
    let first = encode_account(new_account);
    extend(&mut payload, &first);
    let second = encode_account(old_account);
    extend(&mut payload, &second);
    let suffix = wrapped_bytes_postfix();
    extend(&mut payload, &suffix);
    assert(payload@ =~= reassociation_message(network@, new_account, old_account));
    payload
}

} // verus!
