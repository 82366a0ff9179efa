//! Acquisition of OAuth2 access tokens through the client-credentials grant
//! with a certificate-bound JWT client assertion.
//!
//! The crate builds the assertion (header, payload, base64 encoding, RSA
//! signature over SHA-256), the token-endpoint request that carries it, and
//! decodes the token endpoint's response. The one network call is left to the
//! caller; everything here is pure computation with proved contracts.

pub mod errors;
pub mod jsontext;
pub mod request;
pub mod response;
pub mod textops;
pub mod token;
pub mod trusted;
