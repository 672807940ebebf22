use rcli::cli::DataFormat;
use rcli::encoding::{base64_decode, base64_encode, reader_content_str, Base64Charset, EncodingError};

#[test]
fn base64_standard_known_text() {
    let s = base64_encode(&Base64Charset::Standard, b"hello word!").unwrap();
    assert_eq!(s, "aGVsbG8gd29yZCE=");
}

#[test]
fn base64_no_pad_known_text() {
    let s = base64_encode(&Base64Charset::StandardNoPad, b"hello word!").unwrap();
    assert_eq!(s, "aGVsbG8gd29yZCE");
}

#[test]
fn base64_url_safe_alphabet_differs() {
    let bytes = [0xfbu8, 0xff, 0xfe];
    assert_eq!(base64_encode(&Base64Charset::Standard, &bytes).unwrap(), "+//+");
    assert_eq!(base64_encode(&Base64Charset::UrlSaff, &bytes).unwrap(), "-__-");
    assert_eq!(base64_encode(&Base64Charset::UrlSafeNoPad, &[0xfbu8]).unwrap(), "-w");
}

#[test]
fn base64_decode_known_bytes() {
    let v = base64_decode(&Base64Charset::Standard, b"aGVsbG8gd29yZCE=").unwrap();
    assert_eq!(v, b"hello word!".to_vec());
}

#[test]
fn base64_decode_rejects_invalid_text() {
    let r = base64_decode(&Base64Charset::Standard, b"not base64!");
    assert_eq!(r, Err(EncodingError::InvalidBase64));
}

#[test]
fn raw_charset_passes_bytes_through() {
    assert_eq!(base64_encode(&Base64Charset::Raw, b"plain").unwrap(), "plain");
    assert_eq!(base64_decode(&Base64Charset::Raw, b"plain").unwrap(), b"plain".to_vec());
}

#[test]
fn raw_charset_rejects_invalid_utf8() {
    let r = base64_encode(&Base64Charset::Raw, &[0xffu8, 0xfe]);
    assert_eq!(r, Err(EncodingError::InvalidUtf8));
}

#[test]
fn content_str_trims_whitespace() {
    let s = reader_content_str(b"  is file\n".to_vec()).unwrap();
    assert_eq!(s, "is file");
}

#[test]
fn content_str_rejects_invalid_utf8() {
    assert_eq!(reader_content_str(vec![0xc3u8, 0x28]), Err(EncodingError::InvalidUtf8));
}

#[test]
fn charset_names_parse() {
    assert_eq!(Base64Charset::parse(" Standard-NoPad\n"), Ok(Base64Charset::StandardNoPad));
    assert_eq!(Base64Charset::parse("URLSAFE"), Ok(Base64Charset::UrlSaff));
    assert_eq!(Base64Charset::parse("urlsafe-nopad"), Ok(Base64Charset::UrlSafeNoPad));
    assert_eq!(Base64Charset::parse("none"), Ok(Base64Charset::Raw));
    assert_eq!(Base64Charset::parse("standard"), Ok(Base64Charset::Standard));
    assert_eq!(Base64Charset::parse("base32"), Err(EncodingError::UnknownCharset));
}

#[test]
fn charset_names_read_back() {
    for c in [
        Base64Charset::Standard,
        Base64Charset::StandardNoPad,
        Base64Charset::UrlSaff,
        Base64Charset::UrlSafeNoPad,
        Base64Charset::Raw,
    ] {
        assert_eq!(Base64Charset::parse(c.name()), Ok(c));
    }
    assert_eq!(Base64Charset::Raw.name(), "none");
}

#[test]
fn data_format_names_parse() {
    assert_eq!(DataFormat::parse(" JSON "), Some(DataFormat::Json));
    assert_eq!(DataFormat::parse("yaml"), Some(DataFormat::Yaml));
    assert_eq!(DataFormat::parse("Toml"), Some(DataFormat::Toml));
    assert_eq!(DataFormat::parse("text"), Some(DataFormat::Text));
    assert_eq!(DataFormat::parse("xml"), None);
    assert_eq!(DataFormat::Yaml.name(), "yaml");
}

#[test]
fn names_parse_through_from_str() {
    assert_eq!("urlsafe".parse::<Base64Charset>(), Ok(Base64Charset::UrlSaff));
    assert!("bogus".parse::<Base64Charset>().is_err());
    assert_eq!("yaml".parse::<DataFormat>(), Ok(DataFormat::Yaml));
    assert!("csv".parse::<DataFormat>().is_err());
}
