//! The JWT client assertion: header and payload construction, canonical JSON
//! serialization, base64 encoding, signing, and compact assembly.
use vstd::prelude::*;
use vstd::string::StrSliceExecFns;
use vstd::string::StringExecFns;
use vstd::utf8::encode_utf8;

use crate::errors::TokenError;
use crate::jsontext::{append_json_escaped, dec_of, json_escaped, u64_to_dec};
use crate::textops::{
    bytes_as_chars, bytes_to_chars, chars_to_string, remove_all, spec_remove_all, spec_trim,
    str_to_chars, trim_ws,
};
use crate::trusted::{
    b64_decode, b64_decoded_of, b64_encode, b64_of, cert_pem_of, is_b64_standard_char,
    is_b64_url_char, new_jti, reencode_certificate_pem, sha1_digest, sha1_of, sign_rs256,
    unix_now_seconds,
};

verus! {

/// The token-endpoint URL for a tenant: the audience of the assertion.
pub open spec fn aud_of(tenant_id: Seq<char>) -> Seq<char> {
    "https://login.microsoftonline.com/"@ + tenant_id + "/oauth2/v2.0/token"@
}

/// The token-endpoint URL for a tenant: the audience of the assertion.
pub fn aud(tenant_id: String) -> (r: String)
    ensures
        r@ == aud_of(tenant_id@),
{
    let mut r = "https://login.microsoftonline.com/".to_owned();
    r.append(tenant_id.as_str());
    r.append("/oauth2/v2.0/token");
    r
}

/// A PEM certificate body with its armor lines and line breaks removed and
/// surrounding whitespace trimmed: the bare base64 of the DER bytes.
pub open spec fn spec_strip_cert_armor(t: Seq<char>) -> Seq<char> {
    spec_trim(
        spec_remove_all(
            spec_remove_all(spec_remove_all(t, "-----BEGIN CERTIFICATE-----"@), "-----END CERTIFICATE-----"@),
            "\n"@,
        ),
    )
}

/// The normalized base64 certificate body of a PEM input, `None` where the
/// input does not parse as a certificate.
pub open spec fn spec_cert_body(pem: Seq<u8>) -> Option<Seq<char>> {
    match cert_pem_of(pem) {
        Some(bytes) => Some(spec_strip_cert_armor(bytes_as_chars(bytes))),
        None => None,
    }
}

/// The thumbprint of a base64 certificate body: base64 of the SHA-1 digest
/// of the decoded DER bytes, `None` where the body does not decode.
pub open spec fn spec_x5t(cert_b64: Seq<char>) -> Option<Seq<char>> {
    match b64_decoded_of(cert_b64) {
        Some(der) => Some(b64_of(sha1_of(der))),
        None => None,
    }
}

/// The thumbprint a PEM certificate input leads to, `None` where any step of
/// the normalization fails.
pub open spec fn spec_header_x5t(pem: Seq<u8>) -> Option<Seq<char>> {
    match spec_cert_body(pem) {
        Some(body) => spec_x5t(body),
        None => None,
    }
}

/// The signed JWT header: algorithm name, certificate thumbprint, and the
/// embedded certificate chain of exactly one certificate.
#[derive(Debug, Clone)]
pub struct Header {
    pub x5t: String,
    pub alg: String,
    pub x5c: Vec<String>,
}

/// The canonical JSON text of a header: keys in sorted order, string values
/// escaped.
pub open spec fn spec_header_json(h: Header) -> Seq<char> {
    "{\"alg\":\""@ + json_escaped(h.alg@) + "\",\"x5c\":[\""@ + json_escaped(h.x5c@[0]@)
        + "\"],\"x5t\":\""@ + json_escaped(h.x5t@) + "\"}"@
}

impl Header {
    /// A well-formed header: the algorithm is RS256, exactly one certificate
    /// is embedded, and the thumbprint is that certificate's.
    pub open spec fn wf(&self) -> bool {
        &&& self.alg@ == "RS256"@
        &&& self.x5c@.len() == 1
        &&& Some(self.x5t@) == spec_x5t(self.x5c@[0]@)
    }

    /// Builds the header for a PEM certificate: normalizes the certificate
    /// body, computes its thumbprint, and fixes the algorithm to RS256.
    pub fn new(public_key_pem: &[u8]) -> (r: Result<Self, TokenError>)
        ensures
            r matches Ok(h) ==> {
                &&& h.wf()
                &&& h.alg@ == "RS256"@
                &&& h.x5c@.len() == 1
                &&& Some(h.x5c@[0]@) == spec_cert_body(public_key_pem@)
                &&& Some(h.x5t@) == spec_header_x5t(public_key_pem@)
                &&& h.x5t@.len() == 28
            },
            cert_pem_of(public_key_pem@) is None ==> r is Err,
            r matches Err(e) ==> e is CertificateError,
    {
        let cert_pem = match Self::calc_pem(public_key_pem) {
            Ok(s) => s,
            Err(e) => return Err(e),
        };
        let x5t = match Self::calc_x5t(cert_pem.clone()) {
            Ok(s) => s,
            Err(e) => return Err(e),
        };
        let mut x5c: Vec<String> = Vec::new();
        x5c.push(cert_pem);
        Ok(Header { alg: "RS256".to_owned(), x5t, x5c })
    }

    /// The thumbprint of a normalized certificate body: base64 of the SHA-1
    /// digest of the decoded DER bytes.
    fn calc_x5t(public_key_pem: String) -> (r: Result<String, TokenError>)
        ensures
            r matches Ok(s) ==> b64_decoded_of(public_key_pem@) is Some && Some(s@) == spec_x5t(
                public_key_pem@,
            ) && s@.len() == 28,
            b64_decoded_of(public_key_pem@) is None ==> r is Err,
            r matches Err(e) ==> e is CertificateError,
    {
        let der = match b64_decode(public_key_pem.as_str()) {
            Ok(v) => v,
            Err(cause) => return Err(TokenError::CertificateError { cause }),
        };
        let digest = match sha1_digest(der.as_slice()) {
            Ok(v) => v,
            Err(cause) => return Err(TokenError::CertificateError { cause }),
        };
        Ok(b64_encode(digest.as_slice()))
    }

    /// The normalized certificate body: the certificate is parsed and
    /// re-encoded as PEM, and the armor lines, line breaks and surrounding
    /// whitespace are removed.
    fn calc_pem(public_key_pem: &[u8]) -> (r: Result<String, TokenError>)
        ensures
            r is Ok <==> cert_pem_of(public_key_pem@) is Some,
            r matches Ok(s) ==> Some(s@) == spec_cert_body(public_key_pem@),
            r matches Err(e) ==> e is CertificateError,
    {
        let pem_bytes = match reencode_certificate_pem(public_key_pem) {
            Ok(v) => v,
            Err(cause) => return Err(TokenError::CertificateError { cause }),
        };
        let chars = bytes_to_chars(&pem_bytes);
        let begin = str_to_chars("-----BEGIN CERTIFICATE-----");
        let end = str_to_chars("-----END CERTIFICATE-----");
        let nl = str_to_chars("\n");
        proof {
            reveal_strlit("-----BEGIN CERTIFICATE-----");
            reveal_strlit("-----END CERTIFICATE-----");
            reveal_strlit("\n");
        }
        let s1 = remove_all(&chars, &begin);
        let s2 = remove_all(&s1, &end);
        let s3 = remove_all(&s2, &nl);
        let trimmed = trim_ws(&s3);
        Ok(chars_to_string(&trimmed))
    }

    /// The canonical JSON text of the header, keys in sorted order.
    pub fn json_text(&self) -> (r: String)
        requires
            self.x5c@.len() == 1,
        ensures
            r@ == spec_header_json(*self),
    {
        let mut out = "{\"alg\":\"".to_owned();
        append_json_escaped(&mut out, self.alg.as_str());
        out.append("\",\"x5c\":[\"");
        append_json_escaped(&mut out, self.x5c[0].as_str());
        out.append("\"],\"x5t\":\"");
        append_json_escaped(&mut out, self.x5t.as_str());
        out.append("\"}");
        out
    }
}

/// Same certificate input, same thumbprint: the x5t of a built header is a
/// function of the certificate bytes alone, so repeated calls agree.
pub proof fn lemma_x5t_deterministic(h1: Header, h2: Header, pem: Seq<u8>)
    requires
        Some(h1.x5t@) == spec_header_x5t(pem),
        Some(h2.x5t@) == spec_header_x5t(pem),
    ensures
        h1.x5t@ == h2.x5t@,
{
}

/// The signed JWT payload: the client asserts its own identity (issuer and
/// subject), binds the assertion to one token endpoint (audience), to a
/// ten-minute validity window, and to a fresh identifier.
#[derive(Debug, Clone)]
pub struct Payload {
    pub iss: String,
    pub aud: String,
    pub sub: String,
    pub nbf: u64,
    pub exp: u64,
    pub jti: String,
}

/// The canonical JSON text of a payload: keys in sorted order, string values
/// escaped, the times as plain decimal numbers.
pub open spec fn spec_payload_json(p: Payload) -> Seq<char> {
    "{\"aud\":\""@ + json_escaped(p.aud@) + "\",\"exp\":"@ + dec_of(p.exp as nat) + ",\"iss\":\""@
        + json_escaped(p.iss@) + "\",\"jti\":\""@ + json_escaped(p.jti@) + "\",\"nbf\":"@ + dec_of(
        p.nbf as nat,
    ) + ",\"sub\":\""@ + json_escaped(p.sub@) + "\"}"@
}

impl Payload {
    /// Builds the payload for a tenant and client: issuer and subject are the
    /// client, the audience is the tenant's token endpoint, the validity
    /// window is exactly 600 seconds from now, and the JWT id is fresh.
    pub fn new(tenant_id: String, client_id: String) -> (r: Self)
        ensures
            r.iss@ == client_id@,
            r.sub@ == client_id@,
            r.aud@ == aud_of(tenant_id@),
            r.exp == r.nbf + 600,
            r.jti@.len() == 36,
    {
        let now = match unix_now_seconds() {
            Some(s) => s,
            None => 0,
        };
        let issued_at = if now <= u64::MAX - 600 {
            now
        } else {
            0
        };
        Payload {
            iss: client_id.clone(),
            aud: aud(tenant_id),
            sub: client_id,
            nbf: issued_at,
            exp: issued_at + 600,
            jti: new_jti(),
        }
    }

    /// The canonical JSON text of the payload, keys in sorted order.
    pub fn json_text(&self) -> (r: String)
        ensures
            r@ == spec_payload_json(*self),
    {
        let mut out = "{\"aud\":\"".to_owned();
        append_json_escaped(&mut out, self.aud.as_str());
        out.append("\",\"exp\":");
        out.append(u64_to_dec(self.exp).as_str());
        out.append(",\"iss\":\"");
        append_json_escaped(&mut out, self.iss.as_str());
        out.append("\",\"jti\":\"");
        append_json_escaped(&mut out, self.jti.as_str());
        out.append("\",\"nbf\":");
        out.append(u64_to_dec(self.nbf).as_str());
        out.append(",\"sub\":\"");
        append_json_escaped(&mut out, self.sub.as_str());
        out.append("\"}");
        out
    }
}

/// How many times `c` occurs in `s`.
pub open spec fn count_char(s: Seq<char>, c: char) -> nat
    decreases s.len(),
{
    if s.len() == 0 {
        0
    } else {
        (if s[0] == c {
            1nat
        } else {
            0nat
        }) + count_char(s.skip(1), c)
    }
}

pub proof fn lemma_count_char_concat(a: Seq<char>, b: Seq<char>, c: char)
    ensures
        count_char(a + b, c) == count_char(a, c) + count_char(b, c),
    decreases a.len(),
{
    if a.len() == 0 {
        assert(a + b =~= b);
    } else {
        assert((a + b).skip(1) =~= a.skip(1) + b);
        assert((a + b)[0] == a[0]);
        lemma_count_char_concat(a.skip(1), b, c);
    }
}

pub proof fn lemma_count_char_zero(s: Seq<char>, c: char)
    requires
        forall|i: int| 0 <= i < s.len() ==> s[i] != c,
    ensures
        count_char(s, c) == 0,
    decreases s.len(),
{
    if s.len() > 0 {
        lemma_count_char_zero(s.skip(1), c);
    }
}

/// `a` is the compact serialization with segments `h`, `p` and `sig`: the
/// three are nonempty, free of dots, and joined by single dots.
pub open spec fn assertion_parts(a: Seq<char>, h: Seq<char>, p: Seq<char>, sig: Seq<char>) -> bool {
    &&& a == h + seq!['.'] + p + seq!['.'] + sig
    &&& h.len() > 0
    &&& p.len() > 0
    &&& sig.len() > 0
    &&& count_char(h, '.') == 0
    &&& count_char(p, '.') == 0
    &&& count_char(sig, '.') == 0
}

/// A compact serialization has exactly two separator dots, so splitting it
/// at dots yields exactly its three nonempty segments.
pub proof fn lemma_compact_three_segments(a: Seq<char>, h: Seq<char>, p: Seq<char>, sig: Seq<char>)
    requires
        assertion_parts(a, h, p, sig),
    ensures
        count_char(a, '.') == 2,
{
    lemma_count_char_concat(h + seq!['.'] + p + seq!['.'], sig, '.');
    lemma_count_char_concat(h + seq!['.'] + p, seq!['.'], '.');
    lemma_count_char_concat(h + seq!['.'], p, '.');
    lemma_count_char_concat(h, seq!['.'], '.');
    assert(count_char(seq!['.'], '.') == 1) by {
        assert(count_char(Seq::<char>::empty(), '.') == 0);
        assert(seq!['.'].skip(1) =~= Seq::<char>::empty());
    };
}

/// Joins the two encoded halves and the outcome of the signing call into the
/// compact assertion; a failed signing call becomes a `SigningError` with
/// its cause.
pub fn assemble_assertion(
    header_b64: String,
    payload_b64: String,
    signature: Result<String, String>,
) -> (r: Result<String, TokenError>)
    ensures
        signature matches Ok(sig) ==> r matches Ok(a) && a@ == header_b64@ + seq!['.']
            + payload_b64@ + seq!['.'] + sig@,
        signature matches Err(e) ==> r matches Err(t) && t matches TokenError::SigningError {
            cause,
        } && cause@ == e@,
{
    match signature {
        Ok(sig) => {
            let mut a = header_b64;
            a.append(".");
            a.append(payload_b64.as_str());
            a.append(".");
            a.append(sig.as_str());
            proof {
                reveal_strlit(".");
                assert("."@ =~= seq!['.']);
            }
            Ok(a)
        },
        Err(cause) => Err(TokenError::SigningError { cause }),
    }
}

/// Builds the compact signed assertion for a header and payload: serializes
/// each to canonical JSON, base64-encodes the texts, signs them with the
/// private key, and joins the three segments with dots.
pub fn build_client_assertion(header: &Header, payload: &Payload, private_key_pem: &[u8]) -> (r:
    Result<String, TokenError>)
    requires
        header.x5c@.len() == 1,
    ensures
        r matches Ok(a) ==> assertion_shape(a@, *header, *payload),
        r matches Ok(a) ==> count_char(a@, '.') == 2,
        r matches Err(e) ==> e is SigningError,
{
    let header_json = header.json_text();
    let payload_json = payload.json_text();
    let header_b64 = b64_encode(header_json.as_str().as_bytes());
    let payload_b64 = b64_encode(payload_json.as_str().as_bytes());
    let signature = sign_rs256(private_key_pem, header_b64.as_str(), payload_b64.as_str());
    proof {
        reveal_strlit("{\"alg\":\"");
        lemma_encode_utf8_nonempty(spec_header_json(*header));
        reveal_strlit("{\"aud\":\"");
        lemma_encode_utf8_nonempty(spec_payload_json(*payload));
        assert forall|i: int| 0 <= i < header_b64@.len() implies header_b64@[i] != '.' by {
            assert(is_b64_standard_char(header_b64@[i]));
        }
        lemma_count_char_zero(header_b64@, '.');
        assert forall|i: int| 0 <= i < payload_b64@.len() implies payload_b64@[i] != '.' by {
            assert(is_b64_standard_char(payload_b64@[i]));
        }
        lemma_count_char_zero(payload_b64@, '.');
        if signature is Ok {
            let sig = signature->Ok_0@;
            assert forall|i: int| 0 <= i < sig.len() implies sig[i] != '.' by {
                assert(is_b64_url_char(sig[i]));
            }
            lemma_count_char_zero(sig, '.');
        }
    }
    let ghost hb = header_b64@;
    let ghost pb = payload_b64@;
    let ghost sg = signature;
    let r = assemble_assertion(header_b64, payload_b64, signature);
    proof {
        if sg is Ok {
            let a = r->Ok_0@;
            assert(assertion_parts(a, hb, pb, sg->Ok_0@));
            lemma_compact_three_segments(a, hb, pb, sg->Ok_0@);
        }
    }
    r
}

/// `a` is a compact assertion whose first two segments are exactly the
/// base64 encodings of the canonical JSON of `h` and `p`, and whose third is
/// some nonempty dot-free signature text.
pub open spec fn assertion_shape(a: Seq<char>, h: Header, p: Payload) -> bool {
    exists|sig: Seq<char>|
        assertion_parts(
            a,
            b64_of(encode_utf8(spec_header_json(h))),
            b64_of(encode_utf8(spec_payload_json(p))),
            sig,
        )
}

proof fn lemma_encode_utf8_nonempty(s: Seq<char>)
    requires
        s.len() > 0,
    ensures
        encode_utf8(s).len() > 0,
{
    assert(encode_utf8(s) == vstd::utf8::encode_scalar(s[0] as u32) + encode_utf8(s.drop_first()));
    assert(vstd::utf8::encode_scalar(s[0] as u32).len() > 0);
}

} // verus!
