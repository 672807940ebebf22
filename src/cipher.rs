//! The AEAD primitive: ChaCha20-Poly1305 with a 256-bit key and a 96-bit nonce.
use chacha20poly1305::aead::rand_core::RngCore;
use chacha20poly1305::aead::{Aead, KeyInit, OsRng};
use chacha20poly1305::{ChaCha20Poly1305, Key, Nonce};
use vstd::prelude::*;

verus! {

/// Width of a key in bytes.
pub const KEY_LEN: usize = 32;

/// Width of the nonce that the cipher takes, in bytes.
pub const NONCE_LEN: usize = 12;

/// Width of the authentication tag appended to each sealed message, in bytes.
pub const TAG_LEN: usize = 16;

/// Messages shorter than this many bytes can be sealed: ChaCha20's 32-bit
/// block counter, which starts at 1, covers fewer than `2^32 - 1` blocks of 64 bytes.
pub open spec fn seal_limit() -> nat {
    64 * 0xffff_ffff
}

/// The bytes that ChaCha20-Poly1305 produces when it seals `msg` under `key`
/// and `nonce`, with no associated data.
pub uninterp spec fn chacha20poly1305_encrypt(key: Seq<u8>, nonce: Seq<u8>, msg: Seq<u8>) -> Seq<u8>;

/// A sealed message: the ciphertext of `msg` followed by its tag, `TAG_LEN`
/// bytes longer than `msg`.
pub open spec fn sealed(key: Seq<u8>, nonce: Seq<u8>, msg: Seq<u8>) -> Seq<u8> {
    Seq::new(
        (msg.len() + TAG_LEN) as nat,
        |i: int| chacha20poly1305_encrypt(key, nonce, msg)[i],
    )
}

/// Relies on `Aead::encrypt` of `ChaCha20Poly1305`: the ciphertext keeps the
/// message's length and the 16-byte tag follows it; it fails only for a
/// message of `seal_limit()` bytes or more.
#[verifier::external_body]
pub(crate) fn seal(key: &[u8], nonce: &[u8], msg: &[u8]) -> (r: Vec<u8>)
    requires
        key@.len() == KEY_LEN,
        nonce@.len() == NONCE_LEN,
        msg@.len() < seal_limit(),
    ensures
        r@ == chacha20poly1305_encrypt(key@, nonce@, msg@),
        r@.len() == msg@.len() + TAG_LEN,
{
    let cipher = ChaCha20Poly1305::new(Key::from_slice(key));
    match cipher.encrypt(Nonce::from_slice(nonce), msg) {
        Ok(c) => c,
        Err(_) => Vec::new(),
    }
}

/// Relies on `Aead::decrypt` of `ChaCha20Poly1305`: it recomputes the tag over
/// the ciphertext and, only when that tag matches, returns the message whose
/// sealing gives exactly `ct`.
#[verifier::external_body]
pub(crate) fn open(key: &[u8], nonce: &[u8], ct: &[u8]) -> (r: Option<Vec<u8>>)
    requires
        key@.len() == KEY_LEN,
        nonce@.len() == NONCE_LEN,
    ensures
        r matches Some(m) ==> m@.len() < seal_limit() && sealed(key@, nonce@, m@) == ct@,
        forall|m: Seq<u8>| r is Some && r->0@ == m <== m.len() < seal_limit() && #[trigger] sealed(key@, nonce@, m) == ct@,
{
    let cipher = ChaCha20Poly1305::new(Key::from_slice(key));
    match cipher.decrypt(Nonce::from_slice(nonce), ct) {
        Ok(m) => Some(m),
        Err(_) => None,
    }
}

/// Relies on `RngCore::try_fill_bytes` of the operating system's generator
/// (`OsRng`): on success all `len` bytes are filled; a failure of the source
/// is reported, never replaced by a weaker one.
#[verifier::external_body]
pub(crate) fn os_random_bytes(len: usize) -> (r: Option<Vec<u8>>)
    ensures
        r matches Some(v) ==> v@.len() == len,
{
    let mut v = vec![0u8; len];
    match OsRng.try_fill_bytes(&mut v) {
        Ok(()) => Some(v),
        Err(_) => None,
    }
}

} // verus!
