//! Signatures of requests, and the times that go into them.

use crate::text::decimal;
use crate::text::decimal_text;
use hmac::Hmac;
use hmac::Mac;
use sha2::Sha256;
use vstd::prelude::*;
use vstd::string::*;

verus! {

/// The SHA-256 based message authentication code of a message, both taken as UTF-8.
pub uninterp spec fn hmac_sha256_of(secret: Seq<char>, message: Seq<char>) -> Seq<u8>;

/// A point in time, counted from the start of 1970 in universal time, in a `strftime` format.
/// `None` where the calendar does not reach.
pub uninterp spec fn utc_formatted(secs: i64, nanos: u32, format: Seq<char>) -> Option<Seq<char>>;

/// The character that stands for six bits.
pub open spec fn base64_char(n: int) -> char {
    if n < 26 {
        ('A' as int + n) as char
    } else if n < 52 {
        ('a' as int + n - 26) as char
    } else if n < 62 {
        ('0' as int + n - 52) as char
    } else if n == 62 {
        '+'
    } else {
        '/'
    }
}

/// Bytes in base64, padded: three bytes become four characters of six bits each, highest first.
pub open spec fn base64_of(bytes: Seq<u8>) -> Seq<char>
    decreases bytes.len(),
{
    if bytes.len() == 0 {
        Seq::empty()
    } else {
        let a = bytes[0] as int;
        let b = if bytes.len() > 1 { bytes[1] as int } else { 0 };
        let c = if bytes.len() > 2 { bytes[2] as int } else { 0 };
        let third = if bytes.len() > 1 { base64_char(b % 16 * 4 + c / 64) } else { '=' };
        let fourth = if bytes.len() > 2 { base64_char(c % 64) } else { '=' };
        let group = seq![base64_char(a / 4), base64_char(a % 4 * 16 + b / 16), third, fourth];
        if bytes.len() <= 3 { group } else { group + base64_of(bytes.skip(3)) }
    }
}

/// The signature of a message.
pub open spec fn signature_of(secret: Seq<char>, message: Seq<char>) -> Seq<char> {
    base64_of(hmac_sha256_of(secret, message))
}

/// The format of the time of a signed request.
pub open spec fn request_format() -> Seq<char> {
    "%Y-%m-%dT%H:%M:%S%.3fZ"@
}

/// The format of the time in a file name.
pub open spec fn file_format() -> Seq<char> {
    "%Y%m%d_%H%M%S"@
}

/// An integer in decimal.
pub open spec fn integer_text_of(n: int) -> Seq<char> {
    if n < 0 { "-"@ + decimal((-n) as nat) } else { decimal(n as nat) }
}

/// The code of a message, by `hmac::Hmac` over `sha2::Sha256`: `new_from_slice`, which takes keys
/// of every length, `update` and `finalize`. It has the 32 bytes of a SHA-256 digest.
#[verifier::external_body]
fn hmac_sha256(secret: &str, message: &str) -> (r: Vec<u8>)
    ensures
        r@ == hmac_sha256_of(secret@, message@),
        r@.len() == 32,
{
    let mut mac = Hmac::<Sha256>::new_from_slice(secret.as_bytes()).unwrap();
    mac.update(message.as_bytes());
    mac.finalize().into_bytes().to_vec()
}

/// Bytes in base64, by `base64::encode`: the standard alphabet, with padding.
#[verifier::external_body]
#[allow(deprecated)]
fn base64_text(bytes: &Vec<u8>) -> (r: String)
    requires
        bytes@.len() < 0x1000_0000,
    ensures
        r@ == base64_of(bytes@),
{
    base64::encode(bytes)
}

/// A point in time as text, by `chrono::DateTime::from_timestamp` and `format`. Not every format
/// can be written: the ones here can.
#[verifier::external_body]
fn utc_text(secs: i64, nanos: u32, format: &str) -> (r: Option<String>)
    requires
        format@ == request_format() || format@ == file_format(),
    ensures
        match r {
            Some(s) => utc_formatted(secs, nanos, format@) == Some(s@),
            None => utc_formatted(secs, nanos, format@) is None,
        },
{
    chrono::DateTime::from_timestamp(secs, nanos).map(|t| t.format(format).to_string())
}

/// The signature of a message.
pub fn sign(secret: &str, message: &str) -> (r: String)
    ensures
        r@ == signature_of(secret@, message@),
{
    let code = hmac_sha256(secret, message);
    base64_text(&code)
}

/// The time of a request, as it is signed and sent.
pub fn request_time(secs: i64, nanos: u32) -> (r: Option<String>)
    ensures
        match r {
            Some(s) => utc_formatted(secs, nanos, request_format()) == Some(s@),
            None => utc_formatted(secs, nanos, request_format()) is None,
        },
{
    utc_text(secs, nanos, "%Y-%m-%dT%H:%M:%S%.3fZ")
}

/// The time in the name of a file.
pub fn file_time(secs: i64, nanos: u32) -> (r: Option<String>)
    ensures
        match r {
            Some(s) => utc_formatted(secs, nanos, file_format()) == Some(s@),
            None => utc_formatted(secs, nanos, file_format()) is None,
        },
{
    utc_text(secs, nanos, "%Y%m%d_%H%M%S")
}

/// An integer in decimal.
pub fn integer_text(n: i64) -> (s: String)
    ensures
        s@ == integer_text_of(n as int),
{
    if n < 0 {
        let magnitude: u64 = (-(n as i128)) as u64;
        let mut s = "-".to_owned();
        s.append(decimal_text(magnitude).as_str());
        s
    } else {
        decimal_text(n as u64)
    }
}

} // verus!
