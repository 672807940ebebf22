use rcli::encoding::{base64_decode, base64_encode, Base64Charset, EncodingError};

#[test]
fn utils_utils_base64_standard_test() -> Result<(), EncodingError> {
    let s: String = String::from("hello word!");
    let charset = Base64Charset::Standard;
    let encode = base64_encode(&charset, s.as_bytes())?;
    let decode = base64_decode(&charset, encode.as_bytes())?;
    assert_eq!(s.as_bytes(), decode.as_slice());
    Ok(())
}

#[test]
fn utils_utils_base64_standard_no_pad_test() -> Result<(), EncodingError> {
    let s: String = String::from("hello word!");
    let charset = Base64Charset::StandardNoPad;
    let encode = base64_encode(&charset, s.as_bytes())?;
    let decode = base64_decode(&charset, encode.as_bytes())?;
    assert_eq!(s.as_bytes(), decode.as_slice());
    Ok(())
}

#[test]
fn utils_utils_base64_url_saff_test() -> Result<(), EncodingError> {
    let s: String = String::from("hello word!");
    let charset = Base64Charset::UrlSaff;
    let encode = base64_encode(&charset, s.as_bytes())?;
    let decode = base64_decode(&charset, encode.as_bytes())?;
    assert_eq!(s.as_bytes(), decode.as_slice());
    Ok(())
}

#[test]
fn utils_utils_base64_url_saff_no_pad_test() -> Result<(), EncodingError> {
    let s: String = String::from("hello word!");
    let charset = Base64Charset::UrlSafeNoPad;
    let encode = base64_encode(&charset, s.as_bytes())?;
    let decode = base64_decode(&charset, encode.as_bytes())?;
    assert_eq!(s.as_bytes(), decode.as_slice());
    Ok(())
}

#[test]
fn base64_utils_base64_standard_test() -> Result<(), EncodingError> {
    let s: String = String::from("hello word!");
    let charset = Base64Charset::Standard;
    let encode = base64_encode(&charset, s.as_bytes())?;
    let decode = base64_decode(&charset, encode.as_bytes())?;
    assert_eq!(s.as_bytes(), decode.as_slice());
    Ok(())
}

#[test]
fn base64_utils_base64_standard_no_pad_test() -> Result<(), EncodingError> {
    let s: String = String::from("hello word!");
    let charset = Base64Charset::StandardNoPad;
    let encode = base64_encode(&charset, s.as_bytes())?;
    let decode = base64_decode(&charset, encode.as_bytes())?;
    assert_eq!(s.as_bytes(), decode.as_slice());
    Ok(())
}

#[test]
fn base64_utils_base64_url_saff_test() -> Result<(), EncodingError> {
    let s: String = String::from("hello word!");
    let charset = Base64Charset::UrlSaff;
    let encode = base64_encode(&charset, s.as_bytes())?;
    let decode = base64_decode(&charset, encode.as_bytes())?;
    assert_eq!(s.as_bytes(), decode.as_slice());
    Ok(())
}

#[test]
fn base64_utils_base64_url_saff_no_pad_test() -> Result<(), EncodingError> {
    let s: String = String::from("hello word!");
    let charset = Base64Charset::UrlSafeNoPad;
    let encode = base64_encode(&charset, s.as_bytes())?;
    let decode = base64_decode(&charset, encode.as_bytes())?;
    assert_eq!(s.as_bytes(), decode.as_slice());
    Ok(())
}
