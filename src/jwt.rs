//! The time claims of a token: reading them, and deciding whether the token
//! is current.
use chrono::DateTime;
use vstd::prelude::*;

verus! {

/// Why a token's time claims do not hold.
#[derive(Debug, Clone, Copy, PartialEq, Eq, Structural)]
pub enum ClaimError {
    /// The claim is absent.
    Missing,
    /// The claim is not a decimal integer.
    NotANumber,
    /// The claim is outside the range of representable dates.
    OutOfRange,
    /// The token has expired, or is not valid yet.
    Expired,
}

/// The 64-bit integer written in decimal by `s`, if any.
pub uninterp spec fn decimal_i64(s: Seq<char>) -> Option<i64>;

/// Whether chrono can represent the instant `secs` seconds after the epoch.
pub uninterp spec fn chrono_representable(secs: i64) -> bool;

/// Relies on `str::parse::<i64>`.
#[verifier::external_body]
fn parse_i64(s: &str) -> (r: Option<i64>)
    ensures
        r == decimal_i64(s@),
{
    s.parse::<i64>().ok()
}

/// Relies on `chrono::DateTime::from_timestamp(secs, 0)`, which returns a
/// date exactly when the instant is within chrono's range.
#[verifier::external_body]
fn representable(secs: i64) -> (r: bool)
    ensures
        r == chrono_representable(secs),
{
    DateTime::from_timestamp(secs, 0).is_some()
}

/// The text of an optional claim.
pub open spec fn claim_text(claim: Option<&str>) -> Option<Seq<char>> {
    match claim {
        Some(s) => Some(s@),
        None => None,
    }
}

/// The instant that a time claim names, in seconds since the epoch.
pub open spec fn claim_timestamp(claim: Option<Seq<char>>) -> Result<i64, ClaimError> {
    match claim {
        None => Err(ClaimError::Missing),
        Some(s) => match decimal_i64(s) {
            None => Err(ClaimError::NotANumber),
            Some(t) => if chrono_representable(t) {
                Ok(t)
            } else {
                Err(ClaimError::OutOfRange)
            },
        },
    }
}

/// Reads a time claim.
pub fn parse_timestamp(claim: Option<&str>) -> (r: Result<i64, ClaimError>)
    ensures
        r == claim_timestamp(claim_text(claim)),
{
    match claim {
        None => Err(ClaimError::Missing),
        Some(s) => match parse_i64(s) {
            None => Err(ClaimError::NotANumber),
            Some(t) => if representable(t) {
                Ok(t)
            } else {
                Err(ClaimError::OutOfRange)
            },
        },
    }
}

/// Nanoseconds since the epoch of `secs` seconds and `nanos` nanoseconds.
pub open spec fn instant(secs: i64, nanos: u32) -> int {
    secs * 1_000_000_000 + nanos
}

/// A token is current when now is before its expiry and after both its
/// not-before time and its issue time.
pub open spec fn is_current(now_secs: i64, now_nanos: u32, exp: i64, nbf: i64, iat: i64) -> bool {
    let now = instant(now_secs, now_nanos);
    &&& now < instant(exp, 0)
    &&& now > instant(nbf, 0)
    &&& now > instant(iat, 0)
}

/// Whether a token with these times is current at `now_secs` seconds and
/// `now_nanos` nanoseconds after the epoch.
pub fn claims_current(now_secs: i64, now_nanos: u32, exp: i64, nbf: i64, iat: i64) -> (r: bool)
    ensures
        r == is_current(now_secs, now_nanos, exp, nbf, iat),
{
    let now = now_secs as i128 * 1_000_000_000 + now_nanos as i128;
    now < exp as i128 * 1_000_000_000 && now > nbf as i128 * 1_000_000_000 && now > iat as i128 * 1_000_000_000
}

/// The verdict on a token's expiry, not-before and issue claims at a given
/// instant: the first claim that cannot be read, else whether it is current.
pub open spec fn claims_verdict(
    now_secs: i64,
    now_nanos: u32,
    exp: Option<Seq<char>>,
    nbf: Option<Seq<char>>,
    iat: Option<Seq<char>>,
) -> Result<(), ClaimError> {
    match (claim_timestamp(exp), claim_timestamp(nbf), claim_timestamp(iat)) {
        (Err(e), _, _) => Err(e),
        (Ok(_), Err(e), _) => Err(e),
        (Ok(_), Ok(_), Err(e)) => Err(e),
        (Ok(x), Ok(n), Ok(i)) => if is_current(now_secs, now_nanos, x, n, i) {
            Ok(())
        } else {
            Err(ClaimError::Expired)
        },
    }
}

/// Checks a token's time claims at a given instant.
pub fn check_claims(now_secs: i64, now_nanos: u32, exp: Option<&str>, nbf: Option<&str>, iat: Option<&str>) -> (r: Result<(), ClaimError>)
    ensures
        r == claims_verdict(now_secs, now_nanos, claim_text(exp), claim_text(nbf), claim_text(iat)),
{
    let x = match parse_timestamp(exp) {
        Ok(t) => t,
        Err(e) => return Err(e),
    };
    let n = match parse_timestamp(nbf) {
        Ok(t) => t,
        Err(e) => return Err(e),
    };
    let i = match parse_timestamp(iat) {
        Ok(t) => t,
        Err(e) => return Err(e),
    };
    if claims_current(now_secs, now_nanos, x, n, i) {
        Ok(())
    } else {
        Err(ClaimError::Expired)
    }
}

/// The claims to sign, as plain values; times are seconds since the epoch.
#[derive(Debug, Clone)]
pub struct SignClaims {
    pub subject: Option<String>,
    pub issuer: Option<String>,
    pub expiration_time: Option<i64>,
    pub audience: Option<String>,
    pub nbf: Option<i64>,
    pub iat: Option<i64>,
    pub jti: Option<String>,
}

/// `n` written in decimal.
pub uninterp spec fn decimal_text(n: i64) -> Seq<char>;

/// Relies on `i64::to_string`: the decimal form, with a `-` when negative.
#[verifier::external_body]
fn decimal(n: i64) -> (r: String)
    ensures
        r@ == decimal_text(n),
{
    n.to_string()
}

/// A claim as the text of its key and of its value.
pub open spec fn claim_view(c: (String, String)) -> (Seq<char>, Seq<char>) {
    (c.0@, c.1@)
}

/// One claim under `key` when the value is present.
pub open spec fn text_claim(key: Seq<char>, value: Option<String>) -> Seq<(Seq<char>, Seq<char>)> {
    match value {
        Some(v) => seq![(key, v@)],
        None => Seq::empty(),
    }
}

/// One time claim under `key` when the time is present.
pub open spec fn time_claim(key: Seq<char>, value: Option<i64>) -> Seq<(Seq<char>, Seq<char>)> {
    match value {
        Some(t) => seq![(key, decimal_text(t))],
        None => Seq::empty(),
    }
}

/// The claims of a token, in order: subject, issuer, expiry, audience,
/// not-before, issue time and id when present, then the data.
pub open spec fn claims_of(c: SignClaims, data: Seq<char>) -> Seq<(Seq<char>, Seq<char>)> {
    text_claim("sub"@, c.subject) + text_claim("iss"@, c.issuer) + time_claim("exp"@, c.expiration_time)
        + text_claim("aud"@, c.audience) + time_claim("nbf"@, c.nbf) + time_claim("iat"@, c.iat)
        + text_claim("jti"@, c.jti) + seq![("data"@, data)]
}

/// Appends a claim under `key` when the value is present.
fn push_text_claim(claims: &mut Vec<(String, String)>, key: &str, value: &Option<String>)
    ensures
        final(claims)@.map_values(|c: (String, String)| claim_view(c)) == old(claims)@.map_values(
            |c: (String, String)| claim_view(c),
        ) + text_claim(key@, *value),
{
    let ghost before = claims@;
    match value {
        Some(v) => claims.push((key.to_owned(), v.clone())),
        None => {},
    }
    proof {
        assert(claims@.map_values(|c: (String, String)| claim_view(c)) =~= before.map_values(
            |c: (String, String)| claim_view(c),
        ) + text_claim(key@, *value));
    }
}

/// Appends a time claim under `key` when the time is present.
fn push_time_claim(claims: &mut Vec<(String, String)>, key: &str, value: Option<i64>)
    ensures
        final(claims)@.map_values(|c: (String, String)| claim_view(c)) == old(claims)@.map_values(
            |c: (String, String)| claim_view(c),
        ) + time_claim(key@, value),
{
    let ghost before = claims@;
    match value {
        Some(t) => claims.push((key.to_owned(), decimal(t))),
        None => {},
    }
    proof {
        assert(claims@.map_values(|c: (String, String)| claim_view(c)) =~= before.map_values(
            |c: (String, String)| claim_view(c),
        ) + time_claim(key@, value));
    }
}

/// The claims to sign for `c` with `data` as the payload's data.
pub fn sign_claims(c: &SignClaims, data: String) -> (r: Vec<(String, String)>)
    ensures
        r@.map_values(|x: (String, String)| claim_view(x)) == claims_of(*c, data@),
{
    let mut claims: Vec<(String, String)> = Vec::new();
    proof {
        assert(claims@.map_values(|x: (String, String)| claim_view(x)) =~= Seq::<(Seq<char>, Seq<char>)>::empty());
    }
    push_text_claim(&mut claims, "sub", &c.subject);
    push_text_claim(&mut claims, "iss", &c.issuer);
    push_time_claim(&mut claims, "exp", c.expiration_time);
    push_text_claim(&mut claims, "aud", &c.audience);
    push_time_claim(&mut claims, "nbf", c.nbf);
    push_time_claim(&mut claims, "iat", c.iat);
    push_text_claim(&mut claims, "jti", &c.jti);
    let ghost before = claims@;
    let ghost data_view = data@;
    claims.push(("data".to_owned(), data));
    proof {
        assert(claims@.map_values(|x: (String, String)| claim_view(x)) =~= before.map_values(
            |x: (String, String)| claim_view(x),
        ) + seq![("data"@, data_view)]);
        assert(claims@.map_values(|x: (String, String)| claim_view(x)) =~= claims_of(*c, data_view));
    }
    claims
}

} // verus!
