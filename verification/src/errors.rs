use vstd::prelude::*;

verus! {

/// The failure classes of token acquisition. Every fallible step returns one
/// of these; nothing is panicked or swallowed. Each variant carries the text
/// of its underlying cause.
#[derive(Debug)]
pub enum TokenError {
    /// The certificate input was not a well-formed PEM X.509 certificate, or
    /// its embedded base64 body could not be processed. Fatal; raised before
    /// any request is assembled.
    CertificateError { cause: String },
    /// The private key could not be loaded or used to sign the assertion.
    SigningError { cause: String },
    /// The network request to the token endpoint failed. The caller decides
    /// on any retry; nothing here retries.
    TransportError { cause: String },
    /// The response body did not parse as an access-token response. The raw
    /// body text is kept verbatim so the caller can inspect a provider-side
    /// error payload.
    ResponseDecodeError { cause: String, body: String },
}

} // verus!
