//! Text encodings of byte strings: the four base64 variants, or raw UTF-8.
use base64::prelude::{BASE64_STANDARD, BASE64_STANDARD_NO_PAD, BASE64_URL_SAFE, BASE64_URL_SAFE_NO_PAD};
use base64::Engine;
use vstd::prelude::*;
use vstd::utf8::{decode_utf8, valid_utf8};

verus! {

/// How bytes are written as text.
#[derive(Debug, Clone, Copy, PartialEq, Eq, Structural)]
pub enum Base64Charset {
    /// Standard alphabet, padded with `=`.
    Standard,
    /// Standard alphabet, no padding.
    StandardNoPad,
    /// URL-safe alphabet, padded with `=`.
    UrlSaff,
    /// URL-safe alphabet, no padding.
    UrlSafeNoPad,
    /// No base64: the bytes are taken as UTF-8 text.
    Raw,
}

/// Why a text could not be encoded, decoded or parsed.
#[derive(Debug, Clone, Copy, PartialEq, Eq, Structural)]
pub enum EncodingError {
    /// The input is not valid base64 for the chosen variant.
    InvalidBase64,
    /// The bytes are not valid UTF-8.
    InvalidUtf8,
    /// The name matches no charset.
    UnknownCharset,
}

/// The base64 text of `bytes` in the variant with the URL-safe alphabet or
/// not, and with padding or not.
pub uninterp spec fn base64_encoded(url_safe: bool, padded: bool, bytes: Seq<u8>) -> Seq<char>;

/// The bytes that the base64 text `text` stands for in the given variant, or
/// `None` when `text` is not valid in it.
pub uninterp spec fn base64_decoded(url_safe: bool, padded: bool, text: Seq<u8>) -> Option<Seq<u8>>;

/// Relies on `base64::Engine::encode` with one of the crate's four
/// general-purpose engines, picked by alphabet and padding.
#[verifier::external_body]
fn base64_engine_encode(url_safe: bool, padded: bool, bytes: &[u8]) -> (r: String)
    ensures
        r@ == base64_encoded(url_safe, padded, bytes@),
{
    match (url_safe, padded) {
        (false, true) => BASE64_STANDARD.encode(bytes),
        (false, false) => BASE64_STANDARD_NO_PAD.encode(bytes),
        (true, true) => BASE64_URL_SAFE.encode(bytes),
        (true, false) => BASE64_URL_SAFE_NO_PAD.encode(bytes),
    }
}

/// Relies on `base64::Engine::decode` with one of the crate's four
/// general-purpose engines, picked by alphabet and padding; its
/// `DecodeError` becomes `None`.
#[verifier::external_body]
fn base64_engine_decode(url_safe: bool, padded: bool, text: &[u8]) -> (r: Option<Vec<u8>>)
    ensures
        r matches Some(v) ==> base64_decoded(url_safe, padded, text@) == Some(v@),
        r is None ==> base64_decoded(url_safe, padded, text@) is None,
{
    let decoded = match (url_safe, padded) {
        (false, true) => BASE64_STANDARD.decode(text),
        (false, false) => BASE64_STANDARD_NO_PAD.decode(text),
        (true, true) => BASE64_URL_SAFE.decode(text),
        (true, false) => BASE64_URL_SAFE_NO_PAD.decode(text),
    };
    decoded.ok()
}

/// Relies on `String::from_utf8`: it succeeds exactly on valid UTF-8, and
/// the string holds the characters that the bytes encode.
#[verifier::external_body]
pub(crate) fn utf8_string(bytes: Vec<u8>) -> (r: Option<String>)
    ensures
        r is Some <==> valid_utf8(bytes@),
        r matches Some(s) ==> s@ == decode_utf8(bytes@),
{
    String::from_utf8(bytes).ok()
}

/// Alphabet and padding of a base64 charset; `None` for raw text.
pub open spec fn engine_of(c: Base64Charset) -> Option<(bool, bool)> {
    match c {
        Base64Charset::Standard => Some((false, true)),
        Base64Charset::StandardNoPad => Some((false, false)),
        Base64Charset::UrlSaff => Some((true, true)),
        Base64Charset::UrlSafeNoPad => Some((true, false)),
        Base64Charset::Raw => None,
    }
}

/// The text that `bytes` are written as in charset `c`, or `None` when raw
/// text is asked for and the bytes are not UTF-8.
pub open spec fn encoded_text(c: Base64Charset, bytes: Seq<u8>) -> Option<Seq<char>> {
    match engine_of(c) {
        Some((url_safe, padded)) => Some(base64_encoded(url_safe, padded, bytes)),
        None => if valid_utf8(bytes) {
            Some(decode_utf8(bytes))
        } else {
            None
        },
    }
}

/// The bytes that `text` stands for in charset `c`; raw text stands for itself.
pub open spec fn decoded_bytes(c: Base64Charset, text: Seq<u8>) -> Option<Seq<u8>> {
    match engine_of(c) {
        Some((url_safe, padded)) => base64_decoded(url_safe, padded, text),
        None => Some(text),
    }
}

/// Writes `content` as text in `charset`.
pub fn base64_encode(charset: &Base64Charset, content: &[u8]) -> (r: Result<String, EncodingError>)
    ensures
        r matches Ok(s) ==> encoded_text(*charset, content@) == Some(s@),
        r is Err ==> encoded_text(*charset, content@) is None && r == Err::<String, EncodingError>(EncodingError::InvalidUtf8),
{
    match charset {
        Base64Charset::Standard => Ok(base64_engine_encode(false, true, content)),
        Base64Charset::StandardNoPad => Ok(base64_engine_encode(false, false, content)),
        Base64Charset::UrlSaff => Ok(base64_engine_encode(true, true, content)),
        Base64Charset::UrlSafeNoPad => Ok(base64_engine_encode(true, false, content)),
        Base64Charset::Raw => match utf8_string(vstd::slice::slice_to_vec(content)) {
            Some(s) => Ok(s),
            None => Err(EncodingError::InvalidUtf8),
        },
    }
}

/// Reads the bytes that the text `content` stands for in `charset`.
pub fn base64_decode(charset: &Base64Charset, content: &[u8]) -> (r: Result<Vec<u8>, EncodingError>)
    ensures
        r matches Ok(v) ==> decoded_bytes(*charset, content@) == Some(v@),
        r is Err ==> decoded_bytes(*charset, content@) is None && r == Err::<Vec<u8>, EncodingError>(EncodingError::InvalidBase64),
{
    let decoded = match charset {
        Base64Charset::Standard => base64_engine_decode(false, true, content),
        Base64Charset::StandardNoPad => base64_engine_decode(false, false, content),
        Base64Charset::UrlSaff => base64_engine_decode(true, true, content),
        Base64Charset::UrlSafeNoPad => base64_engine_decode(true, false, content),
        Base64Charset::Raw => Some(vstd::slice::slice_to_vec(content)),
    };
    match decoded {
        Some(v) => Ok(v),
        None => Err(EncodingError::InvalidBase64),
    }
}

/// The characters of `s` without its leading and trailing whitespace.
pub uninterp spec fn trimmed(s: Seq<char>) -> Seq<char>;

/// The lowercase form of `s`, character by character.
pub uninterp spec fn lowercased(s: Seq<char>) -> Seq<char>;

/// Relies on `str::trim`: leading and trailing whitespace removed.
#[verifier::external_body]
pub(crate) fn trim(s: &str) -> (r: &str)
    ensures
        r@ == trimmed(s@),
{
    s.trim()
}

/// Relies on `str::to_lowercase`: the lowercase mapping of each character.
#[verifier::external_body]
pub(crate) fn lowercase(s: &str) -> (r: String)
    ensures
        r@ == lowercased(s@),
{
    s.to_lowercase()
}

/// The text of `content`, without leading and trailing whitespace.
pub open spec fn content_text(content: Seq<u8>) -> Option<Seq<char>> {
    if valid_utf8(content) {
        Some(trimmed(decode_utf8(content)))
    } else {
        None
    }
}

/// Reads what a source held as text, without leading and trailing whitespace.
pub fn reader_content_str(content: Vec<u8>) -> (r: Result<String, EncodingError>)
    ensures
        r matches Ok(s) ==> content_text(content@) == Some(s@),
        r is Err ==> content_text(content@) is None && r == Err::<String, EncodingError>(EncodingError::InvalidUtf8),
{
    match utf8_string(content) {
        Some(s) => Ok(trim(s.as_str()).to_owned()),
        None => Err(EncodingError::InvalidUtf8),
    }
}

/// `a` and `b` hold the same characters.
pub(crate) fn same_text(a: &str, b: &str) -> (r: bool)
    ensures
        r == (a@ == b@),
{
    a.to_owned() == b.to_owned()
}

/// The charset that a normalized (trimmed, lowercase) name stands for.
pub open spec fn charset_named(name: Seq<char>) -> Option<Base64Charset> {
    if name == "standard"@ {
        Some(Base64Charset::Standard)
    } else if name == "standard-nopad"@ {
        Some(Base64Charset::StandardNoPad)
    } else if name == "urlsafe"@ {
        Some(Base64Charset::UrlSaff)
    } else if name == "urlsafe-nopad"@ {
        Some(Base64Charset::UrlSafeNoPad)
    } else if name == "none"@ {
        Some(Base64Charset::Raw)
    } else {
        None
    }
}

impl Base64Charset {
    /// The charset named exactly `name`.
    pub fn from_name(name: &str) -> (r: Option<Base64Charset>)
        ensures
            r == charset_named(name@),
    {
        if same_text(name, "standard") {
            Some(Base64Charset::Standard)
        } else if same_text(name, "standard-nopad") {
            Some(Base64Charset::StandardNoPad)
        } else if same_text(name, "urlsafe") {
            Some(Base64Charset::UrlSaff)
        } else if same_text(name, "urlsafe-nopad") {
            Some(Base64Charset::UrlSafeNoPad)
        } else if same_text(name, "none") {
            Some(Base64Charset::Raw)
        } else {
            None
        }
    }

    /// Parses a charset name, ignoring surrounding whitespace and case.
    pub fn parse(s: &str) -> (r: Result<Base64Charset, EncodingError>)
        ensures
            r matches Ok(c) ==> charset_named(lowercased(trimmed(s@))) == Some(c),
            r is Err ==> charset_named(lowercased(trimmed(s@))) is None && r == Err::<Base64Charset, EncodingError>(EncodingError::UnknownCharset),
    {
        let name = lowercase(trim(s));
        match Base64Charset::from_name(name.as_str()) {
            Some(c) => Ok(c),
            None => Err(EncodingError::UnknownCharset),
        }
    }

    /// The name that `parse` reads back as this charset.
    pub fn name(&self) -> (r: &'static str)
        ensures
            charset_named(r@) == Some(*self),
    {
        let r = match self {
            Base64Charset::Standard => "standard",
            Base64Charset::StandardNoPad => "standard-nopad",
            Base64Charset::UrlSaff => "urlsafe",
            Base64Charset::UrlSafeNoPad => "urlsafe-nopad",
            Base64Charset::Raw => "none",
        };
        proof {
            reveal_strlit("standard");
            reveal_strlit("standard-nopad");
            reveal_strlit("urlsafe");
            reveal_strlit("urlsafe-nopad");
            reveal_strlit("none");
            // the five names differ in length
            assert("standard"@.len() == 8 && "standard-nopad"@.len() == 14 && "urlsafe"@.len() == 7);
            assert("urlsafe-nopad"@.len() == 13 && "none"@.len() == 4);
        }
        r
    }
}

impl std::str::FromStr for Base64Charset {
    type Err = EncodingError;

    fn from_str(s: &str) -> Result<Base64Charset, EncodingError> {
        Base64Charset::parse(s)
    }
}

} // verus!
