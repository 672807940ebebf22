//! The text command's work between reading its inputs and writing its
//! output: encrypt and encode, decode and decrypt, generate a key.
use crate::cipher::{os_random_bytes, KEY_LEN};
use crate::cli::SubCommandOpt;
use crate::encoding::{
    base64_decode, base64_encode, decoded_bytes, encoded_text, EncodingError,
};
use crate::error::StreamError;
use crate::frame::{counter_fits, encrypted};
use crate::nonce::BASE_NONCE_LEN;
use crate::session::{decrypt, decrypts_to, encrypt, stream_counter_fits, well_framed};
use vstd::prelude::*;
use vstd::string::StringSliceAdditionalSpecFns;

verus! {

/// Plaintext bytes per chunk in the text command; a sealed chunk with its
/// tag fills 128 bytes.
pub const TEXT_CHUNK_SIZE: usize = 112;

/// Why a text command failed.
#[derive(Debug, Clone, Copy, PartialEq, Eq, Structural)]
pub enum TextError {
    Encoding(EncodingError),
    Stream(StreamError),
}

/// Encrypts `content` under `key` with a fresh `base_nonce` and writes the
/// stream as text in `opt.out_format`.
pub fn encrypt_text(opt: &SubCommandOpt, content: &str, key: &[u8], base_nonce: [u8; BASE_NONCE_LEN]) -> (r: Result<String, TextError>)
    ensures
        key@.len() != KEY_LEN ==> r == Err::<String, TextError>(TextError::Stream(StreamError::KeyFormatError)),
        key@.len() == KEY_LEN && !counter_fits(TEXT_CHUNK_SIZE as nat, content.spec_bytes().len())
            ==> r == Err::<String, TextError>(TextError::Stream(StreamError::CounterExhausted)),
        key@.len() == KEY_LEN && counter_fits(TEXT_CHUNK_SIZE as nat, content.spec_bytes().len()) ==> {
            let ct = encrypted(key@, base_nonce@, TEXT_CHUNK_SIZE as nat, content.spec_bytes());
            &&& r matches Ok(s) ==> encoded_text(opt.out_format, ct) == Some(s@)
            &&& r is Err ==> encoded_text(opt.out_format, ct) is None && r == Err::<String, TextError>(TextError::Encoding(EncodingError::InvalidUtf8))
        },
{
    let ct = match encrypt(key, base_nonce, TEXT_CHUNK_SIZE, content.as_bytes()) {
        Ok(c) => c,
        Err(e) => return Err(TextError::Stream(e)),
    };
    match base64_encode(&opt.out_format, ct.as_slice()) {
        Ok(s) => Ok(s),
        Err(e) => Err(TextError::Encoding(e)),
    }
}

/// Decodes `content` from `opt.in_format`, decrypts the stream under `key`,
/// and writes the plaintext as text in `opt.out_format`.
pub fn decrypt_text(opt: &SubCommandOpt, content: &str, key: &[u8]) -> (r: Result<String, TextError>)
    ensures
        decoded_bytes(opt.in_format, content.spec_bytes()) is None ==> r == Err::<String, TextError>(TextError::Encoding(EncodingError::InvalidBase64)),
        decoded_bytes(opt.in_format, content.spec_bytes()) matches Some(ct) ==> {
            &&& key@.len() != KEY_LEN ==> r == Err::<String, TextError>(TextError::Stream(StreamError::KeyFormatError))
            &&& key@.len() == KEY_LEN && !well_framed(TEXT_CHUNK_SIZE as nat, ct.len())
                ==> r == Err::<String, TextError>(TextError::Stream(StreamError::UnexpectedEndOfStream))
            &&& key@.len() == KEY_LEN && well_framed(TEXT_CHUNK_SIZE as nat, ct.len())
                && !stream_counter_fits(TEXT_CHUNK_SIZE as nat, ct.len())
                ==> r == Err::<String, TextError>(TextError::Stream(StreamError::CounterExhausted))
            &&& forall|p: Seq<u8>| #[trigger] decrypts_to(key@, TEXT_CHUNK_SIZE as nat, ct, p) ==> {
                &&& r matches Ok(s) ==> encoded_text(opt.out_format, p) == Some(s@)
                &&& r is Err ==> encoded_text(opt.out_format, p) is None && r == Err::<String, TextError>(TextError::Encoding(EncodingError::InvalidUtf8))
            }
            &&& key@.len() == KEY_LEN && well_framed(TEXT_CHUNK_SIZE as nat, ct.len())
                && stream_counter_fits(TEXT_CHUNK_SIZE as nat, ct.len())
                && !(exists|p: Seq<u8>| decrypts_to(key@, TEXT_CHUNK_SIZE as nat, ct, p))
                ==> r == Err::<String, TextError>(TextError::Stream(StreamError::AuthenticationFailed))
        },
{
    let ct = match base64_decode(&opt.in_format, content.as_bytes()) {
        Ok(c) => c,
        Err(e) => return Err(TextError::Encoding(e)),
    };
    let pt = match decrypt(key, TEXT_CHUNK_SIZE, ct.as_slice()) {
        Ok(p) => p,
        Err(e) => return Err(TextError::Stream(e)),
    };
    match base64_encode(&opt.out_format, pt.as_slice()) {
        Ok(s) => Ok(s),
        Err(e) => Err(TextError::Encoding(e)),
    }
}

/// Draws `len` bytes from the operating system's random source.
fn random_bytes(len: usize) -> (r: Result<Vec<u8>, StreamError>)
    ensures
        r matches Ok(v) ==> v@.len() == len,
        r is Err ==> r == Err::<Vec<u8>, StreamError>(StreamError::RandomSourceFailed),
{
    match os_random_bytes(len) {
        Some(v) => Ok(v),
        None => Err(StreamError::RandomSourceFailed),
    }
}

/// A new key: `KEY_LEN` bytes from the operating system's random source,
/// whose failure is reported.
pub fn generate_key() -> (r: Result<Vec<u8>, StreamError>)
    ensures
        r matches Ok(k) ==> k@.len() == KEY_LEN,
        r is Err ==> r == Err::<Vec<u8>, StreamError>(StreamError::RandomSourceFailed),
{
    random_bytes(KEY_LEN)
}

/// A fresh base nonce for one session, from the operating system's random
/// source, whose failure is reported.
pub fn generate_base_nonce() -> (r: Result<[u8; BASE_NONCE_LEN], StreamError>)
    ensures
        r is Err ==> r == Err::<[u8; BASE_NONCE_LEN], StreamError>(StreamError::RandomSourceFailed),
{
    let v = match random_bytes(BASE_NONCE_LEN) {
        Ok(v) => v,
        Err(e) => return Err(e),
    };
    Ok([v[0], v[1], v[2], v[3], v[4], v[5], v[6]])
}

} // verus!
