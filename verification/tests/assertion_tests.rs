use base64::prelude::BASE64_STANDARD;
use base64::prelude::BASE64_URL_SAFE_NO_PAD;
use base64::Engine;
use openssl::asn1::{Asn1Integer, Asn1Time};
use openssl::bn::BigNum;
use openssl::hash::MessageDigest;
use openssl::pkey::PKey;
use openssl::rsa::Rsa;
use openssl::sign::Verifier;
use openssl::x509::{X509Builder, X509NameBuilder};

use client_assertion::errors::TokenError;
use client_assertion::request::{build_token_request, prepare_token_request};
use client_assertion::token::{aud, build_client_assertion, Header, Payload};

/// A fresh RSA key and a matching self-signed certificate, both PEM-encoded.
fn test_key_and_cert() -> (Vec<u8>, Vec<u8>) {
    let rsa = Rsa::generate(2048).unwrap();
    let pkey = PKey::from_rsa(rsa).unwrap();
    let mut name = X509NameBuilder::new().unwrap();
    name.append_entry_by_text("CN", "client-assertion-test").unwrap();
    let name = name.build();
    let mut builder = X509Builder::new().unwrap();
    builder.set_version(2).unwrap();
    let serial = Asn1Integer::from_bn(&BigNum::from_u32(1).unwrap()).unwrap();
    builder.set_serial_number(&serial).unwrap();
    builder.set_subject_name(&name).unwrap();
    builder.set_issuer_name(&name).unwrap();
    builder.set_pubkey(&pkey).unwrap();
    builder.set_not_before(&Asn1Time::days_from_now(0).unwrap()).unwrap();
    builder.set_not_after(&Asn1Time::days_from_now(1).unwrap()).unwrap();
    builder.sign(&pkey, MessageDigest::sha256()).unwrap();
    let cert = builder.build();
    (
        pkey.private_key_to_pem_pkcs8().unwrap(),
        cert.to_pem().unwrap(),
    )
}

#[test]
fn test_header_new() {
    let (_private_key_pem, public_key_pem) = test_key_and_cert();
    let header = Header::new(&public_key_pem).unwrap();
    assert_eq!(header.alg, "RS256");
    assert_eq!(header.x5c.len(), 1);
    assert!(header.x5t.len() > 0);
}

#[test]
fn test_payload_new() {
    let tenant_id = "your_tenant_id".to_string();
    let client_id = "your_client_id".to_string();

    let payload = Payload::new(tenant_id.clone(), client_id.clone());

    assert_eq!(payload.iss, client_id);
    assert!(payload.aud.contains(&tenant_id));
    assert_eq!(payload.sub, client_id);
    assert!(payload.exp > payload.nbf);
    assert!(payload.jti.len() > 0);
}

#[test]
fn payload_validity_window_and_audience() {
    let payload = Payload::new("tenant-x".to_string(), "client-y".to_string());
    assert_eq!(payload.exp - payload.nbf, 600);
    assert_eq!(
        payload.aud,
        "https://login.microsoftonline.com/tenant-x/oauth2/v2.0/token"
    );
}

#[test]
fn jti_differs_between_calls() {
    let a = Payload::new("t".to_string(), "c".to_string());
    let b = Payload::new("t".to_string(), "c".to_string());
    assert_ne!(a.jti, b.jti);
    assert_eq!(a.jti.len(), 36);
}

#[test]
fn aud_builds_the_token_endpoint_url() {
    assert_eq!(
        aud("72f988bf".to_string()),
        "https://login.microsoftonline.com/72f988bf/oauth2/v2.0/token"
    );
}

#[test]
fn x5t_is_stable_across_calls() {
    let (_private_key_pem, public_key_pem) = test_key_and_cert();
    let h1 = Header::new(&public_key_pem).unwrap();
    let h2 = Header::new(&public_key_pem).unwrap();
    assert_eq!(h1.x5t, h2.x5t);
}

#[test]
fn x5t_is_base64_of_sha1_of_der() {
    let (_private_key_pem, public_key_pem) = test_key_and_cert();
    let header = Header::new(&public_key_pem).unwrap();
    let der = BASE64_STANDARD.decode(&header.x5c[0]).unwrap();
    let digest = openssl::hash::hash(MessageDigest::sha1(), &der).unwrap();
    let expected = BASE64_STANDARD.encode(&digest);
    assert_eq!(header.x5t, expected);
    assert_eq!(header.x5t.len(), 28);
}

#[test]
fn x5c_is_the_stripped_pem_body() {
    let (_private_key_pem, public_key_pem) = test_key_and_cert();
    let header = Header::new(&public_key_pem).unwrap();
    let pem_text = String::from_utf8(public_key_pem.clone()).unwrap();
    let expected = pem_text
        .replace("-----BEGIN CERTIFICATE-----", "")
        .replace("-----END CERTIFICATE-----", "")
        .replace("\n", "")
        .trim()
        .to_owned();
    assert_eq!(header.x5c[0], expected);
}

#[test]
fn assertion_has_three_nonempty_segments() {
    let (private_key_pem, public_key_pem) = test_key_and_cert();
    let header = Header::new(&public_key_pem).unwrap();
    let payload = Payload::new("tenant".to_string(), "client".to_string());
    let assertion = build_client_assertion(&header, &payload, &private_key_pem).unwrap();
    let segments: Vec<&str> = assertion.split('.').collect();
    assert_eq!(segments.len(), 3);
    for segment in segments {
        assert!(!segment.is_empty());
    }
}

#[test]
fn header_segment_round_trips() {
    let (private_key_pem, public_key_pem) = test_key_and_cert();
    let header = Header::new(&public_key_pem).unwrap();
    let payload = Payload::new("tenant".to_string(), "client".to_string());
    let assertion = build_client_assertion(&header, &payload, &private_key_pem).unwrap();
    let first = assertion.split('.').next().unwrap();
    let header_json = String::from_utf8(BASE64_STANDARD.decode(first).unwrap()).unwrap();
    let v: serde_json::Value = serde_json::from_str(&header_json).unwrap();
    assert_eq!(v["alg"].as_str().unwrap(), "RS256");
    assert_eq!(v["x5c"].as_array().unwrap().len(), 1);
    assert!(v["x5t"].as_str().unwrap().len() > 0);
}

#[test]
fn payload_segment_round_trips() {
    let (private_key_pem, public_key_pem) = test_key_and_cert();
    let header = Header::new(&public_key_pem).unwrap();
    let payload = Payload::new("tenant".to_string(), "client".to_string());
    let assertion = build_client_assertion(&header, &payload, &private_key_pem).unwrap();
    let second = assertion.split('.').nth(1).unwrap();
    let payload_json = String::from_utf8(BASE64_STANDARD.decode(second).unwrap()).unwrap();
    let v: serde_json::Value = serde_json::from_str(&payload_json).unwrap();
    assert_eq!(v["iss"].as_str().unwrap(), "client");
    assert_eq!(v["sub"].as_str().unwrap(), "client");
    assert_eq!(
        v["aud"].as_str().unwrap(),
        "https://login.microsoftonline.com/tenant/oauth2/v2.0/token"
    );
    let nbf = v["nbf"].as_u64().unwrap();
    let exp = v["exp"].as_u64().unwrap();
    assert_eq!(exp - nbf, 600);
    assert_eq!(v["jti"].as_str().unwrap().len(), 36);
}

#[test]
fn signature_verifies_with_the_certificate_key() {
    let (private_key_pem, public_key_pem) = test_key_and_cert();
    let header = Header::new(&public_key_pem).unwrap();
    let payload = Payload::new("tenant".to_string(), "client".to_string());
    let assertion = build_client_assertion(&header, &payload, &private_key_pem).unwrap();
    let parts: Vec<&str> = assertion.split('.').collect();
    let signed_bytes = format!("{}.{}", parts[0], parts[1]);
    let signature = BASE64_URL_SAFE_NO_PAD.decode(parts[2]).unwrap();
    let key = PKey::private_key_from_pem(&private_key_pem).unwrap();
    let mut verifier = Verifier::new(MessageDigest::sha256(), &key).unwrap();
    verifier.update(signed_bytes.as_bytes()).unwrap();
    assert!(verifier.verify(&signature).unwrap());
}

#[test]
fn header_json_is_canonical() {
    let header = Header {
        x5t: "THUMB".to_string(),
        alg: "RS256".to_string(),
        x5c: vec!["CERTBODY".to_string()],
    };
    assert_eq!(
        header.json_text(),
        "{\"alg\":\"RS256\",\"x5c\":[\"CERTBODY\"],\"x5t\":\"THUMB\"}"
    );
}

#[test]
fn payload_json_is_canonical() {
    let payload = Payload {
        iss: "a".to_string(),
        aud: "A".to_string(),
        sub: "b".to_string(),
        nbf: 5,
        exp: 605,
        jti: "x".to_string(),
    };
    assert_eq!(
        payload.json_text(),
        "{\"aud\":\"A\",\"exp\":605,\"iss\":\"a\",\"jti\":\"x\",\"nbf\":5,\"sub\":\"b\"}"
    );
}

#[test]
fn json_escaping_agrees_with_a_json_reader() {
    let tricky = "a\"b\\c\nd\te\rf\u{8}g\u{c}h\u{1}i";
    let payload = Payload {
        iss: tricky.to_string(),
        aud: "A".to_string(),
        sub: "b".to_string(),
        nbf: 0,
        exp: 600,
        jti: "x".to_string(),
    };
    let v: serde_json::Value = serde_json::from_str(&payload.json_text()).unwrap();
    assert_eq!(v["iss"].as_str().unwrap(), tricky);
}

#[test]
fn token_request_carries_the_fixed_fields() {
    let request = build_token_request(
        "tenant".to_string(),
        "client".to_string(),
        "https://graph.microsoft.com/.default".to_string(),
        "a.b.c".to_string(),
    );
    assert_eq!(
        request.url,
        "https://login.microsoftonline.com/tenant/oauth2/v2.0/token"
    );
    assert_eq!(
        request.client_assertion_type,
        "urn:ietf:params:oauth:client-assertion-type:jwt-bearer"
    );
    assert_eq!(request.grant_type, "client_credentials");
    assert_eq!(
        request.scope,
        "openid profile offline_access https://graph.microsoft.com/.default"
    );
    assert_eq!(request.client_assertion, "a.b.c");
    assert_eq!(request.client_id, "client");
}

#[test]
fn end_to_end_scenario() {
    let tenant_id = "72f988bf-86f1-41af-91ab-2d7cd011db47".to_string();
    let client_id = "064b969a-ed15-42fa-9044-f08081163a67".to_string();
    let scope = "https://graph.microsoft.com/.default".to_string();
    let (private_key_pem, public_key_pem) = test_key_and_cert();

    let request = prepare_token_request(
        tenant_id.clone(),
        client_id.clone(),
        scope,
        &private_key_pem,
        &public_key_pem,
    )
    .unwrap();

    let segments: Vec<&str> = request.client_assertion.split('.').collect();
    assert_eq!(segments.len(), 3);
    for segment in &segments {
        assert!(!segment.is_empty());
    }
    assert!(request.url.contains(&tenant_id));

    // a stub endpoint echoing a fixed body stands in for the provider
    let stub_body =
        "{\"token_type\":\"Bearer\",\"expires_in\":3599,\"ext_expires_in\":3599,\"access_token\":\"abc\"}";
    let token = client_assertion::response::parse_token_response(stub_body).unwrap();
    assert_eq!(token.token_type, "Bearer");
    assert!(token.access_token.len() > 0);
}

#[test]
fn malformed_certificate_fails_before_any_request_exists() {
    let (private_key_pem, _public_key_pem) = test_key_and_cert();
    let bad_pem = b"this is not a certificate".to_vec();
    // the error comes from request preparation: no request value exists that
    // could have been sent anywhere
    let result = prepare_token_request(
        "tenant".to_string(),
        "client".to_string(),
        "scope".to_string(),
        &private_key_pem,
        &bad_pem,
    );
    assert!(matches!(
        result,
        Err(TokenError::CertificateError { .. })
    ));
}

#[test]
fn malformed_certificate_fails_header_construction() {
    let result = Header::new(b"-----BEGIN CERTIFICATE-----\ngarbage\n-----END CERTIFICATE-----\n");
    assert!(matches!(result, Err(TokenError::CertificateError { .. })));
}

#[test]
fn wrong_key_material_is_a_signing_error() {
    let (_private_key_pem, public_key_pem) = test_key_and_cert();
    let header = Header::new(&public_key_pem).unwrap();
    let payload = Payload::new("tenant".to_string(), "client".to_string());
    let result = build_client_assertion(&header, &payload, b"not a private key");
    assert!(matches!(result, Err(TokenError::SigningError { .. })));
}
