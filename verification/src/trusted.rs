use vstd::prelude::*;

use base64::Engine;
use base64::prelude::BASE64_STANDARD;
use jwt::algorithm::openssl::PKeyWithDigest;
use jwt::SigningAlgorithm;
use openssl::hash::MessageDigest;
use openssl::pkey::PKey;
use openssl::x509::X509;

verus! {

/// What the standard base64 engine returns for a byte sequence.
pub uninterp spec fn b64_of(bytes: Seq<u8>) -> Seq<char>;

/// What the standard base64 engine decodes a text to: `None` where the text
/// is not well-formed padded base64.
pub uninterp spec fn b64_decoded_of(text: Seq<char>) -> Option<Seq<u8>>;

/// What an X.509 certificate parsed from PEM re-encodes to, as PEM bytes:
/// `None` where the input is not a well-formed PEM certificate.
pub uninterp spec fn cert_pem_of(pem: Seq<u8>) -> Option<Seq<u8>>;

/// The SHA-1 digest of a byte sequence.
pub uninterp spec fn sha1_of(bytes: Seq<u8>) -> Seq<u8>;

/// A character of the standard base64 alphabet, or the `=` padding.
pub open spec fn is_b64_standard_char(c: char) -> bool {
    ||| 65 <= c as u32 <= 90  // 'A'..'Z'
    ||| 97 <= c as u32 <= 122  // 'a'..'z'
    ||| 48 <= c as u32 <= 57  // '0'..'9'
    ||| c == '+'
    ||| c == '/'
    ||| c == '='
}

/// A character of the URL-safe base64 alphabet, without padding.
pub open spec fn is_b64_url_char(c: char) -> bool {
    ||| 65 <= c as u32 <= 90
    ||| 97 <= c as u32 <= 122
    ||| 48 <= c as u32 <= 57
    ||| c == '-'
    ||| c == '_'
}

/// Relies on base64's standard engine `encode` (RFC 4648 with padding): the
/// result is a pure function of the input bytes, is `4 * ceil(n / 3)`
/// characters long, and uses only the standard alphabet and `=`.
#[verifier::external_body]
pub(crate) fn b64_encode(bytes: &[u8]) -> (r: String)
    ensures
        r@ == b64_of(bytes@),
        r@.len() == 4 * ((bytes@.len() + 2) / 3),
        forall|i: int| 0 <= i < r@.len() ==> is_b64_standard_char(#[trigger] r@[i]),
{
    BASE64_STANDARD.encode(bytes)
}

/// Relies on base64's standard engine `decode`: whether it succeeds and what
/// it returns depend on the input characters alone. `Err` carries the
/// decode error's display text.
#[verifier::external_body]
pub(crate) fn b64_decode(text: &str) -> (r: Result<Vec<u8>, String>)
    ensures
        r is Ok <==> b64_decoded_of(text@) is Some,
        r matches Ok(v) ==> Some(v@) == b64_decoded_of(text@),
{
    match BASE64_STANDARD.decode(text) {
        Ok(v) => Ok(v),
        Err(e) => Err(format!("{}", e)),
    }
}

/// Relies on openssl's `X509::from_pem` and `X509::to_pem`: parsing a PEM
/// certificate and re-encoding it is a pure function of the input bytes.
/// `Err` carries the error stack's display text.
#[verifier::external_body]
pub(crate) fn reencode_certificate_pem(pem: &[u8]) -> (r: Result<Vec<u8>, String>)
    ensures
        r is Ok <==> cert_pem_of(pem@) is Some,
        r matches Ok(v) ==> Some(v@) == cert_pem_of(pem@),
{
    let cert = match X509::from_pem(pem) {
        Ok(c) => c,
        Err(e) => return Err(format!("{}", e)),
    };
    match cert.to_pem() {
        Ok(v) => Ok(v),
        Err(e) => Err(format!("{}", e)),
    }
}

/// Relies on openssl's `hash` with `MessageDigest::sha1`: the digest is a
/// pure function of the input and is 20 bytes long. `Err` (a failure of the
/// digest primitive itself) carries the error stack's display text.
#[verifier::external_body]
pub(crate) fn sha1_digest(bytes: &[u8]) -> (r: Result<Vec<u8>, String>)
    ensures
        r matches Ok(v) ==> v@ == sha1_of(bytes@) && v@.len() == 20,
{
    match openssl::hash::hash(MessageDigest::sha1(), bytes) {
        Ok(d) => Ok(d.to_vec()),
        Err(e) => Err(format!("{}", e)),
    }
}

/// Relies on openssl's `PKey::private_key_from_pem` and `MessageDigest::sha256`
/// and on jwt's `PKeyWithDigest::sign`, which signs `header + "." + payload`
/// and returns the signature as unpadded URL-safe base64 text; a signature is
/// never empty. Nothing more is claimed of the value: for some key kinds the
/// signature is randomized. `Err` carries the error's display text.
#[verifier::external_body]
pub(crate) fn sign_rs256(private_key_pem: &[u8], header_b64: &str, payload_b64: &str) -> (r:
    Result<String, String>)
    ensures
        r matches Ok(sig) ==> sig@.len() > 0 && (forall|i: int|
            0 <= i < sig@.len() ==> is_b64_url_char(#[trigger] sig@[i])),
{
    let key = match PKey::private_key_from_pem(private_key_pem) {
        Ok(k) => k,
        Err(e) => return Err(format!("{}", e)),
    };
    let algorithm = PKeyWithDigest { digest: MessageDigest::sha256(), key };
    match algorithm.sign(header_b64, payload_b64) {
        Ok(s) => Ok(s),
        Err(e) => Err(format!("{}", e)),
    }
}

/// Relies on uuid's `Uuid::new_v4` and its hyphenated display form, which is
/// 36 characters long. Nothing is claimed about which value comes back: it is
/// random, and two calls may differ.
#[verifier::external_body]
pub(crate) fn new_jti() -> (r: String)
    ensures
        r@.len() == 36,
{
    uuid::Uuid::new_v4().to_string()
}

/// Relies on std's `SystemTime::now` and `SystemTime::duration_since`: whole
/// seconds since the Unix epoch, `None` where the clock reads earlier than
/// the epoch. Nothing is claimed about which value comes back.
#[verifier::external_body]
pub(crate) fn unix_now_seconds() -> Option<u64> {
    match std::time::SystemTime::now().duration_since(std::time::SystemTime::UNIX_EPOCH) {
        Ok(d) => Some(d.as_secs()),
        Err(_) => None,
    }
}

/// Relies on std's `char::from_u32`: `Some` exactly for code points that are
/// neither surrogates nor above the maximum, holding the character with that
/// code point.
#[verifier::external_body]
pub(crate) fn char_from_u32(v: u32) -> (r: Option<char>)
    ensures
        r is Some <==> (v < 0xD800 || (0xE000 <= v && v <= 0x10FFFF)),
        r matches Some(c) ==> c == (v as char),
{
    char::from_u32(v)
}

/// Relies on std's `String::push`: appends one character.
#[verifier::external_body]
pub(crate) fn push_char(s: &mut String, c: char)
    ensures
        final(s)@ == old(s)@.push(c),
{
    s.push(c);
}

} // verus!
