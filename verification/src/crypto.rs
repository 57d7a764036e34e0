//! The cryptography that challenges and tokens rest on: BLAKE3, ChaCha8 and hexadecimal text.

use crate::numbers::{hex_bytes, hex_text};
use chacha20::cipher::{KeyIvInit, StreamCipher, StreamCipherSeek};
use vstd::prelude::*;

verus! {

/// The key that BLAKE3 derives from key material in a context.
pub uninterp spec fn blake3_derived_key(context: Seq<char>, material: Seq<u8>) -> [u8; 32];

/// `blake3::derive_key`: a function of the context string and the key material.
#[verifier::external_body]
pub(crate) fn derive_key(context: &str, material: &[u8]) -> (r: [u8; 32])
    ensures
        r == blake3_derived_key(context@, material@),
{
    blake3::derive_key(context, material)
}

/// The keyed BLAKE3 hash of an input.
pub uninterp spec fn blake3_keyed_hash(key: Seq<u8>, input: Seq<u8>) -> [u8; 32];

/// `blake3::keyed_hash`: a function of the key and the input.
#[verifier::external_body]
pub(crate) fn keyed_hash(key: &[u8; 32], input: &[u8]) -> (r: [u8; 32])
    ensures
        r == blake3_keyed_hash(key@, input@),
{
    *blake3::keyed_hash(key, input).as_bytes()
}

/// The `Display` of `blake3::Hash`: the bytes in lower-case hexadecimal.
#[verifier::external_body]
pub(crate) fn hash_text(hash: &[u8; 32]) -> (r: String)
    ensures
        r@ == hex_text(hash@),
{
    blake3::Hash::from(*hash).to_string()
}

/// `blake3::Hash::from_hex`: the bytes that sixty-four hexadecimal digits of either case stand for,
/// and an error for any other text.
#[verifier::external_body]
pub(crate) fn hash_of_text(text: &str) -> (r: Option<[u8; 32]>)
    ensures
        match r {
            Some(hash) => hex_bytes(text@, 32) == Some(hash@),
            None => hex_bytes(text@, 32) is None,
        },
{
    Some(*blake3::Hash::from_hex(text).ok()?.as_bytes())
}

/// The `==` of `blake3::Hash`, which holds of equal bytes and runs in constant time.
#[verifier::external_body]
pub(crate) fn same_hash(a: &[u8; 32], b: &[u8; 32]) -> (r: bool)
    ensures
        r == (a@ == b@),
{
    blake3::Hash::from(*a) == blake3::Hash::from(*b)
}

/// `hex::encode`: two lower-case hexadecimal digits for each byte.
#[verifier::external_body]
pub(crate) fn hex_encode(bytes: &[u8]) -> (r: String)
    ensures
        r@ == hex_text(bytes@),
{
    hex::encode(bytes)
}

/// Four bytes of the ChaCha8 keystream under a key and an all-zero nonce, from a position on.
pub uninterp spec fn chacha8_keystream(key: Seq<u8>, byte_position: u64) -> [u8; 4];

/// `chacha20::ChaCha8`, made from the key and a zero nonce, moved to a position and applied to four
/// zero bytes: four bytes of the keystream, a function of the key and the position. The positions
/// admitted are those of a 32-bit word counter, which lie inside the keystream.
#[verifier::external_body]
pub(crate) fn keystream_at(key: &[u8; 32], byte_position: u64) -> (r: [u8; 4])
    requires
        byte_position <= 4 * 0xffff_ffff,
    ensures
        r == chacha8_keystream(key@, byte_position),
{
    let mut cipher = chacha20::ChaCha8::new(key.into(), &Default::default());
    cipher.seek(byte_position);
    let mut word = [0u8; 4];
    cipher.apply_keystream(&mut word);
    word
}

} // verus!
