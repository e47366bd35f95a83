//! Who may connect: the pre-shared key challenge and its random nonce.
use vstd::prelude::*;
use vstd::string::*;

verus! {

/// The 32 bytes that `blake3::derive_key` gives for a context and material.
pub uninterp spec fn blake3_derived_key(context: Seq<char>, material: Seq<u8>) -> [u8; 32];

/// The 32 bytes that `blake3::keyed_hash` gives for a key and an input.
pub uninterp spec fn blake3_keyed_hash(key: Seq<u8>, input: Seq<u8>) -> [u8; 32];

/// The 32 bytes that `blake3::hash` gives for an input.
pub uninterp spec fn blake3_hash(input: Seq<u8>) -> [u8; 32];

/// Calls `blake3::derive_key`. Believed of it: the key depends on the context
/// and the material alone.
#[verifier::external_body]
fn derive_key(context: &str, material: &[u8]) -> (r: [u8; 32])
    ensures
        r == blake3_derived_key(context@, material@),
{
    blake3::derive_key(context, material)
}

/// Calls `blake3::keyed_hash`. Believed of it: the hash depends on the key and
/// the input alone.
#[verifier::external_body]
fn keyed_hash(key: &[u8; 32], input: &[u8]) -> (r: [u8; 32])
    ensures
        r == blake3_keyed_hash(key@, input@),
{
    *blake3::keyed_hash(key, input).as_bytes()
}

/// Calls `blake3::hash` on both inputs and compares the two `blake3::Hash`
/// values, which takes the same time wherever they differ. Believed of it: a
/// hash depends on its input alone, and `==` on hashes compares their bytes.
#[verifier::external_body]
fn same_hash(a: &[u8], b: &[u8]) -> (r: bool)
    ensures
        r == (blake3_hash(a@) == blake3_hash(b@)),
{
    blake3::hash(a) == blake3::hash(b)
}

/// Calls `getrandom::getrandom` to fill `dest` from the system's generator,
/// and tells whether it succeeded. Nothing is believed of the bytes: they are
/// random, and after a failure they are unspecified.
#[verifier::external_body]
fn fill_random(dest: &mut [u8; 32]) -> (filled: bool) {
    getrandom::getrandom(dest).is_ok()
}

/// The key that a pre-shared key stands for.
pub open spec fn psk_key_of(psk: Seq<char>) -> [u8; 32] {
    blake3_derived_key("steam-tunnel psk v1"@, vstd::utf8::encode_utf8(psk))
}

/// The answer to a challenge under a pre-shared key.
pub open spec fn psk_mac_of(psk: Seq<char>, nonce: Seq<u8>) -> [u8; 32] {
    blake3_keyed_hash(psk_key_of(psk)@, nonce)
}

/// Whether `mac` answers the challenge `nonce` under `psk`, compared by hash.
pub open spec fn mac_accepted(psk: Seq<char>, nonce: Seq<u8>, mac: Seq<u8>) -> bool {
    blake3_hash(mac) == blake3_hash(psk_mac_of(psk, nonce)@)
}

pub fn psk_key(psk: &str) -> (r: [u8; 32])
    ensures
        r == psk_key_of(psk@),
{
    derive_key("steam-tunnel psk v1", psk.as_bytes())
}

pub fn psk_mac(psk: &str, nonce: &[u8; 32]) -> (r: [u8; 32])
    ensures
        r == psk_mac_of(psk@, nonce@),
{
    let key = psk_key(psk);
    keyed_hash(&key, nonce.as_slice())
}

/// Whether `mac` answers the challenge `nonce` under `psk`.
pub fn mac_matches(psk: &str, nonce: &[u8; 32], mac: &[u8]) -> (r: bool)
    ensures
        r == mac_accepted(psk@, nonce@, mac@),
{
    let expected = psk_mac(psk, nonce);
    same_hash(mac, expected.as_slice())
}

/// The challenge that a filled buffer gives: none if the generator failed.
pub open spec fn nonce_of(filled: bool, bytes: [u8; 32]) -> Option<[u8; 32]> {
    if filled {
        Some(bytes)
    } else {
        None
    }
}

/// The challenge that a filled buffer gives: none if the generator failed.
pub fn nonce_from(filled: bool, bytes: [u8; 32]) -> (r: Option<[u8; 32]>)
    ensures
        r == nonce_of(filled, bytes),
{
    if filled {
        Some(bytes)
    } else {
        None
    }
}

/// A fresh random challenge; none if the system's generator is unavailable,
/// and the caller must then refuse rather than use a predictable one.
/// Nothing is stated of the result, which rests on the generator alone:
/// `nonce_from` states what becomes of whatever it gives.
pub fn fresh_nonce() -> (r: Option<[u8; 32]>) {
    let mut n: [u8; 32] = [0u8; 32];
    let filled = fill_random(&mut n);
    nonce_from(filled, n)
}

/// The holder of the key always passes its own challenge.
pub proof fn law_right_key_accepted(psk: Seq<char>, nonce: Seq<u8>)
    ensures
        mac_accepted(psk, nonce, psk_mac_of(psk, nonce)@),
{
}

} // verus!
