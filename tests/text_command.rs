use rcli::cli::SubCommandOpt;
use rcli::encoding::{Base64Charset, EncodingError};
use rcli::error::StreamError;
use rcli::text::{decrypt_text, encrypt_text, generate_base_nonce, generate_key, TextError};

fn opt(in_format: Base64Charset, out_format: Base64Charset) -> SubCommandOpt {
    SubCommandOpt { in_format, out_format, output: None, key: String::new(), content: None }
}

#[test]
fn text_round_trip_through_base64() {
    let key = b"my very super super secret key!!";
    let enc = opt(Base64Charset::Raw, Base64Charset::StandardNoPad);
    let ct = encrypt_text(&enc, "hello world!", key, [1, 2, 3, 4, 5, 6, 7]).unwrap();
    assert_eq!(ct.len(), ((7 + 12 + 16) * 4 + 2) / 3);
    let dec = opt(Base64Charset::StandardNoPad, Base64Charset::Raw);
    assert_eq!(decrypt_text(&dec, &ct, key).unwrap(), "hello world!");
}

#[test]
fn text_encrypt_rejects_short_key() {
    let enc = opt(Base64Charset::Raw, Base64Charset::Standard);
    let r = encrypt_text(&enc, "hello", b"short", [0; 7]);
    assert_eq!(r, Err(TextError::Stream(StreamError::KeyFormatError)));
}

#[test]
fn text_encrypt_raw_output_is_not_utf8() {
    let enc = opt(Base64Charset::Raw, Base64Charset::Raw);
    let r = encrypt_text(&enc, "hello", b"my very super super secret key!!", [0xff; 7]);
    assert_eq!(r, Err(TextError::Encoding(EncodingError::InvalidUtf8)));
}

#[test]
fn text_decrypt_rejects_bad_base64() {
    let dec = opt(Base64Charset::Standard, Base64Charset::Raw);
    let r = decrypt_text(&dec, "@@@", b"my very super super secret key!!");
    assert_eq!(r, Err(TextError::Encoding(EncodingError::InvalidBase64)));
}

#[test]
fn text_decrypt_with_wrong_key_fails() {
    let enc = opt(Base64Charset::Raw, Base64Charset::UrlSaff);
    let ct = encrypt_text(&enc, "payload", b"my very super super secret key!!", [5; 7]).unwrap();
    let dec = opt(Base64Charset::UrlSaff, Base64Charset::Raw);
    let r = decrypt_text(&dec, &ct, b"my very super super secret key!?");
    assert_eq!(r, Err(TextError::Stream(StreamError::AuthenticationFailed)));
}

#[test]
fn generated_keys_have_key_width() {
    let a = generate_key().unwrap();
    let b = generate_key().unwrap();
    assert_eq!(a.len(), 32);
    assert_ne!(a, b);
    let n1 = generate_base_nonce().unwrap();
    let n2 = generate_base_nonce().unwrap();
    assert_ne!(n1, n2);
}
