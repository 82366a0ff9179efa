use client_assertion::errors::TokenError;
use client_assertion::response::parse_token_response;

#[test]
fn decodes_the_access_token_response() {
    let body =
        "{\"token_type\":\"Bearer\",\"expires_in\":3599,\"ext_expires_in\":3599,\"access_token\":\"abc\"}";
    let token = parse_token_response(body).unwrap();
    assert_eq!(token.token_type, "Bearer");
    assert_eq!(token.expires_in, 3599);
    assert_eq!(token.ext_expires_in, 3599);
    assert_eq!(token.access_token, "abc");
}

#[test]
fn tolerates_whitespace_member_order_and_unknown_scalar_members() {
    let body = " {\n\t\"foo\" : null , \"access_token\" : \"t\",\r\n \"expires_in\": 1, \"bar\": -1.5e3, \"ext_expires_in\" :2, \"token_type\":\"Bearer\", \"baz\": true, \"qux\": false } ";
    let token = parse_token_response(body).unwrap();
    assert_eq!(token.token_type, "Bearer");
    assert_eq!(token.expires_in, 1);
    assert_eq!(token.ext_expires_in, 2);
    assert_eq!(token.access_token, "t");
}

#[test]
fn decodes_escapes_in_string_members() {
    let body = "{\"token_type\":\"Be\\\"ar\\\\er\\n\",\"expires_in\":0,\"ext_expires_in\":0,\"access_token\":\"a\\/b\\t\"}";
    let token = parse_token_response(body).unwrap();
    assert_eq!(token.token_type, "Be\"ar\\er\n");
    assert_eq!(token.access_token, "a/b\t");
}

#[test]
fn ignores_unknown_members_holding_arrays_of_scalars() {
    let body = "{\"error_codes\":[90002, 7000215],\"token_type\":\"Bearer\",\"expires_in\":1,\"ext_expires_in\":1,\"mix\":[\"a\", null, true, -1.5],\"empty\":[],\"access_token\":\"a\"}";
    let token = parse_token_response(body).unwrap();
    assert_eq!(token.token_type, "Bearer");
    assert_eq!(token.access_token, "a");
}

#[test]
fn nested_containers_are_decode_errors() {
    expect_decode_error(
        "{\"deep\":[[1]],\"token_type\":\"Bearer\",\"expires_in\":1,\"ext_expires_in\":1,\"access_token\":\"a\"}",
    );
    expect_decode_error(
        "{\"obj\":{\"k\":1},\"token_type\":\"Bearer\",\"expires_in\":1,\"ext_expires_in\":1,\"access_token\":\"a\"}",
    );
}

#[test]
fn decodes_unicode_escapes() {
    let body = "{\"token_type\":\"\\u0042earer\",\"expires_in\":1,\"ext_expires_in\":1,\"access_token\":\"caf\\u00e9 \\uD83D\\uDE00\"}";
    let token = parse_token_response(body).unwrap();
    assert_eq!(token.token_type, "Bearer");
    assert_eq!(token.access_token, "caf\u{e9} \u{1F600}");
}

fn expect_decode_error(body: &str) {
    match parse_token_response(body) {
        Err(TokenError::ResponseDecodeError { cause: _, body: kept }) => {
            assert_eq!(kept, body);
        }
        other => panic!("expected a decode error, got {:?}", other),
    }
}

#[test]
fn non_json_body_is_a_decode_error_with_the_raw_text() {
    expect_decode_error("this is not json");
}

#[test]
fn provider_error_payload_is_a_decode_error_with_the_raw_text() {
    expect_decode_error(
        "{\"error\":\"invalid_client\",\"error_description\":\"AADSTS700027: client assertion rejected\"}",
    );
}

#[test]
fn missing_member_is_a_decode_error() {
    expect_decode_error("{\"token_type\":\"Bearer\",\"expires_in\":3599,\"ext_expires_in\":3599}");
}

#[test]
fn duplicate_member_is_a_decode_error() {
    expect_decode_error(
        "{\"token_type\":\"Bearer\",\"token_type\":\"Bearer\",\"expires_in\":1,\"ext_expires_in\":1,\"access_token\":\"a\"}",
    );
}

#[test]
fn wrongly_typed_member_is_a_decode_error() {
    expect_decode_error(
        "{\"token_type\":7,\"expires_in\":3599,\"ext_expires_in\":3599,\"access_token\":\"abc\"}",
    );
    expect_decode_error(
        "{\"token_type\":\"Bearer\",\"expires_in\":\"soon\",\"ext_expires_in\":3599,\"access_token\":\"abc\"}",
    );
}

#[test]
fn negative_or_oversized_integers_are_decode_errors() {
    expect_decode_error(
        "{\"token_type\":\"Bearer\",\"expires_in\":-1,\"ext_expires_in\":1,\"access_token\":\"a\"}",
    );
    expect_decode_error(
        "{\"token_type\":\"Bearer\",\"expires_in\":99999999999999999999999,\"ext_expires_in\":1,\"access_token\":\"a\"}",
    );
}

#[test]
fn boundary_integer_values_decode_exactly() {
    let body = "{\"token_type\":\"Bearer\",\"expires_in\":18446744073709551615,\"ext_expires_in\":0,\"access_token\":\"a\"}";
    let token = parse_token_response(body).unwrap();
    assert_eq!(token.expires_in, u64::MAX);
    assert_eq!(token.ext_expires_in, 0);
    expect_decode_error(
        "{\"token_type\":\"Bearer\",\"expires_in\":18446744073709551616,\"ext_expires_in\":0,\"access_token\":\"a\"}",
    );
}

#[test]
fn leading_zeros_are_decode_errors() {
    expect_decode_error(
        "{\"token_type\":\"Bearer\",\"expires_in\":01,\"ext_expires_in\":1,\"access_token\":\"a\"}",
    );
}

#[test]
fn trailing_text_is_a_decode_error() {
    expect_decode_error(
        "{\"token_type\":\"Bearer\",\"expires_in\":1,\"ext_expires_in\":1,\"access_token\":\"a\"} x",
    );
}

#[test]
fn bad_unicode_escapes_are_decode_errors() {
    // a lone high surrogate
    expect_decode_error(
        "{\"token_type\":\"\\uD83Dx\",\"expires_in\":1,\"ext_expires_in\":1,\"access_token\":\"a\"}",
    );
    // a lone low surrogate
    expect_decode_error(
        "{\"token_type\":\"\\uDE00\",\"expires_in\":1,\"ext_expires_in\":1,\"access_token\":\"a\"}",
    );
    // digits that are not hexadecimal
    expect_decode_error(
        "{\"token_type\":\"\\u00zz\",\"expires_in\":1,\"ext_expires_in\":1,\"access_token\":\"a\"}",
    );
}

#[test]
fn empty_or_truncated_bodies_are_decode_errors() {
    expect_decode_error("");
    expect_decode_error("{}");
    expect_decode_error("{\"token_type\":\"Bearer\"");
    expect_decode_error("[1,2,3]");
}
