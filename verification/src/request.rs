//! The token-endpoint request: the form fields of the client-credentials
//! grant and the one function that takes identity inputs and key material to
//! a ready-to-send request.
use vstd::prelude::*;
use vstd::string::StringExecFns;

use crate::errors::TokenError;
use crate::token::{
    aud, aud_of, assertion_shape, build_client_assertion, count_char, Header, Payload,
};
use crate::trusted::cert_pem_of;

verus! {

/// The fixed scopes every request asks for, prepended to the caller's scope.
pub open spec fn full_scope_of(scope: Seq<char>) -> Seq<char> {
    "openid profile offline_access "@ + scope
}

/// A token-endpoint request: the URL to post to and the five form fields of
/// the client-credentials grant with a JWT-bearer client assertion.
#[derive(Debug)]
pub struct TokenRequest {
    pub url: String,
    pub client_assertion_type: String,
    pub grant_type: String,
    pub scope: String,
    pub client_assertion: String,
    pub client_id: String,
}

/// Builds the form for an already-signed assertion: the fixed assertion-type
/// URN, the fixed grant type, the caller's scope behind the fixed scope
/// prefix, and the tenant's token endpoint as URL.
pub fn build_token_request(
    tenant_id: String,
    client_id: String,
    scope: String,
    assertion: String,
) -> (r: TokenRequest)
    ensures
        r.url@ == aud_of(tenant_id@),
        r.client_assertion_type@ == "urn:ietf:params:oauth:client-assertion-type:jwt-bearer"@,
        r.grant_type@ == "client_credentials"@,
        r.scope@ == full_scope_of(scope@),
        r.client_assertion@ == assertion@,
        r.client_id@ == client_id@,
{
    let mut full_scope = "openid profile offline_access ".to_owned();
    full_scope.append(scope.as_str());
    TokenRequest {
        url: aud(tenant_id),
        client_assertion_type: "urn:ietf:params:oauth:client-assertion-type:jwt-bearer".to_owned(),
        grant_type: "client_credentials".to_owned(),
        scope: full_scope,
        client_assertion: assertion,
        client_id,
    }
}

/// Everything of token acquisition that comes before the network: builds the
/// header from the certificate, the payload for the tenant and client, the
/// signed compact assertion, and the request that carries it. A malformed
/// certificate is rejected here, as a `CertificateError`, before any request
/// exists to send.
pub fn prepare_token_request(
    tenant_id: String,
    client_id: String,
    scope: String,
    private_key_pem: &Vec<u8>,
    public_key_pem: &Vec<u8>,
) -> (r: Result<TokenRequest, TokenError>)
    ensures
        cert_pem_of(public_key_pem@) is None ==> (r matches Err(e) && e is CertificateError),
        r matches Err(e) ==> e is CertificateError || e is SigningError,
        r matches Ok(t) ==> {
            &&& t.url@ == aud_of(tenant_id@)
            &&& t.client_assertion_type@
                == "urn:ietf:params:oauth:client-assertion-type:jwt-bearer"@
            &&& t.grant_type@ == "client_credentials"@
            &&& t.scope@ == full_scope_of(scope@)
            &&& t.client_id@ == client_id@
            &&& count_char(t.client_assertion@, '.') == 2
            &&& exists|h: Header, p: Payload|
                {
                    &&& assertion_shape(t.client_assertion@, h, p)
                    &&& h.alg@ == "RS256"@
                    &&& h.x5c@.len() == 1
                    &&& Some(h.x5c@[0]@) == crate::token::spec_cert_body(public_key_pem@)
                    &&& Some(h.x5t@) == crate::token::spec_header_x5t(public_key_pem@)
                    &&& p.iss@ == client_id@
                    &&& p.sub@ == client_id@
                    &&& p.aud@ == aud_of(tenant_id@)
                    &&& p.exp == p.nbf + 600
                    &&& p.jti@.len() == 36
                }
        },
{
    let header = match Header::new(public_key_pem.as_slice()) {
        Ok(h) => h,
        Err(e) => return Err(e),
    };
    let payload = Payload::new(tenant_id.clone(), client_id.clone());
    let assertion = match build_client_assertion(&header, &payload, private_key_pem.as_slice()) {
        Ok(a) => a,
        Err(e) => return Err(e),
    };
    let r = build_token_request(tenant_id, client_id, scope, assertion);
    proof {
        assert(assertion_shape(r.client_assertion@, header, payload));
    }
    Ok(r)
}

} // verus!
