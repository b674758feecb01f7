use ace_codec::cbor_map::to_wire_pairs;
use ace_codec::values::{ByteString, CborValue, TextOrByteString};
use ace_codec::pop::ProofOfPossessionKey;
use ace_codec::creation_hint::AuthServerRequestCreationHint;
use ace_codec::token::{AccessTokenRequest, AccessTokenResponse};
use ace_codec::errors::{ErrorCode, ErrorResponse};

fn text(s: &str) -> CborValue {
    CborValue::Text(s.to_string())
}

fn bytes(b: &[u8]) -> CborValue {
    CborValue::Bytes(b.to_vec())
}

fn bstr(b: &[u8]) -> ByteString {
    ByteString { bytes: b.to_vec() }
}

fn full_hint() -> AuthServerRequestCreationHint {
    AuthServerRequestCreationHint {
        auth_server: Some("coaps://as.example.com/token".to_string()),
        kid: Some(bstr(&[0x11, 0x22])),
        audience: Some("coaps://rs.example.com".to_string()),
        scope: Some(TextOrByteString::TextString("rTempC".to_string())),
        client_nonce: Some(bstr(&[0xe0, 0xa1, 0x56, 0xbb])),
    }
}

fn pop_key() -> ProofOfPossessionKey {
    ProofOfPossessionKey { entries: vec![(3, bytes(&[0xaa, 0xbb]))] }
}

fn full_request() -> AccessTokenRequest {
    AccessTokenRequest {
        grant_type: Some(2),
        audience: Some("tempSensor4711".to_string()),
        redirect_uri: Some("coaps://client.example.com/cb".to_string()),
        client_nonce: Some(bstr(&[0x01, 0x02, 0x03])),
        scope: Some(TextOrByteString::TextString("read".to_string())),
        ace_profile: Some(()),
        req_cnf: Some(pop_key()),
        client_id: "myclient".to_string(),
    }
}

fn full_response() -> AccessTokenResponse {
    AccessTokenResponse {
        access_token: bstr(&[0x4a, 0x5e]),
        expires_in: Some(86400),
        scope: Some(TextOrByteString::ByteString(bstr(&[0x21, 0x22]))),
        token_type: Some(1),
        refresh_token: Some(bstr(&[0x0f])),
        ace_profile: Some(-7),
        cnf: Some(pop_key()),
        rs_cnf: Some(ProofOfPossessionKey { entries: vec![(1, CborValue::Integer(4))] }),
    }
}

fn encode_to_wire<F: FnOnce() -> Vec<(u16, Option<CborValue>)>>(f: F) -> Vec<(i128, CborValue)> {
    to_wire_pairs(&f())
}

#[test]
fn hint_round_trip_all_fields_set() {
    let hint = full_hint();
    let wire = encode_to_wire(|| hint.as_cbor_map());
    let back = AuthServerRequestCreationHint::try_from_cbor_map(wire);
    assert_eq!(back, Some(full_hint()));
}

#[test]
fn request_round_trip_all_fields_set() {
    let req = full_request();
    let wire = encode_to_wire(|| req.as_cbor_map());
    let back = AccessTokenRequest::try_from_cbor_map(wire);
    assert_eq!(back, Some(full_request()));
}

#[test]
fn response_round_trip_all_fields_set() {
    let rsp = full_response();
    let wire = encode_to_wire(|| rsp.as_cbor_map());
    let back = AccessTokenResponse::try_from_cbor_map(wire);
    assert_eq!(back, Some(full_response()));
}

#[test]
fn error_response_round_trip_all_fields_set() {
    let rsp = ErrorResponse {
        error: ErrorCode::UnsupportedPopKey,
        error_description: Some("no such key".to_string()),
        error_uri: Some("https://errors.example.com/7".to_string()),
    };
    let wire = encode_to_wire(|| rsp.as_cbor_map());
    let back = ErrorResponse::try_from_cbor_map(wire);
    assert_eq!(
        back,
        Some(ErrorResponse {
            error: ErrorCode::UnsupportedPopKey,
            error_description: Some("no such key".to_string()),
            error_uri: Some("https://errors.example.com/7".to_string()),
        })
    );
}

#[test]
fn unset_fields_emit_no_tag() {
    let hint = AuthServerRequestCreationHint {
        audience: Some("rs1".to_string()),
        ..Default::default()
    };
    let wire = encode_to_wire(|| hint.as_cbor_map());
    assert_eq!(wire.len(), 1);
    assert_eq!(wire[0], (5, text("rs1")));
}

#[test]
fn all_absent_hint_encodes_empty_and_decodes() {
    let hint = AuthServerRequestCreationHint::default();
    let wire = encode_to_wire(|| hint.as_cbor_map());
    assert!(wire.is_empty());
    let back = AuthServerRequestCreationHint::try_from_cbor_map(wire);
    assert_eq!(back, Some(AuthServerRequestCreationHint::default()));
}

#[test]
fn unknown_tag_fails_hint() {
    let wire = vec![(3, text("oops"))];
    assert_eq!(AuthServerRequestCreationHint::try_from_cbor_map(wire), None);
}

#[test]
fn unknown_tag_fails_even_beside_valid_pairs() {
    let wire = vec![(5, text("rs1")), (99, CborValue::Integer(0))];
    assert_eq!(AuthServerRequestCreationHint::try_from_cbor_map(wire), None);
}

#[test]
fn client_id_with_binary_value_fails() {
    let wire = vec![(24, bytes(&[0x01]))];
    assert_eq!(AccessTokenRequest::try_from_cbor_map(wire), None);
}

#[test]
fn kid_with_text_value_fails() {
    let wire = vec![(2, text("not-bytes"))];
    assert_eq!(AuthServerRequestCreationHint::try_from_cbor_map(wire), None);
}

#[test]
fn error_code_values_are_bijective() {
    let codes = [
        ErrorCode::InvalidRequest,
        ErrorCode::InvalidClient,
        ErrorCode::InvalidGrant,
        ErrorCode::UnauthorizedClient,
        ErrorCode::UnsupportedGrantType,
        ErrorCode::InvalidScope,
        ErrorCode::UnsupportedPopKey,
        ErrorCode::IncompatibleAceProfiles,
    ];
    for (i, code) in codes.iter().enumerate() {
        let v = (i + 1) as u8;
        assert_eq!(code.to_u8(), v);
        assert_eq!(ErrorCode::try_from_u8(v), Some(*code));
    }
    assert_eq!(ErrorCode::try_from_u8(0), None);
    assert_eq!(ErrorCode::try_from_u8(9), None);
    assert_eq!(ErrorCode::try_from_u8(255), None);
}

#[test]
fn error_code_zero_nine_and_255_fail_decode() {
    for v in [0, 9, 255] {
        let wire = vec![(30, CborValue::Integer(v))];
        assert_eq!(ErrorResponse::try_from_cbor_map(wire), None);
    }
}

#[test]
fn error_code_out_of_byte_range_fails_decode() {
    let wire = vec![(30, CborValue::Integer(256))];
    assert_eq!(ErrorResponse::try_from_cbor_map(wire), None);
    let wire = vec![(30, CborValue::Integer(-1))];
    assert_eq!(ErrorResponse::try_from_cbor_map(wire), None);
}

#[test]
fn error_response_without_code_fails() {
    let wire = vec![(31, text("something went wrong"))];
    assert_eq!(ErrorResponse::try_from_cbor_map(wire), None);
    assert_eq!(ErrorResponse::try_from_cbor_map(vec![]), None);
}

#[test]
fn error_code_last_writer_wins() {
    let wire = vec![(30, CborValue::Integer(0)), (30, CborValue::Integer(1))];
    let back = ErrorResponse::try_from_cbor_map(wire);
    assert_eq!(
        back,
        Some(ErrorResponse {
            error: ErrorCode::InvalidRequest,
            error_description: None,
            error_uri: None,
        })
    );
}

#[test]
fn scope_text_decodes_to_text_variant() {
    let wire = vec![(9, text("read write"))];
    let back = AuthServerRequestCreationHint::try_from_cbor_map(wire).unwrap();
    assert_eq!(
        back.scope,
        Some(TextOrByteString::TextString("read write".to_string()))
    );
}

#[test]
fn scope_bytes_decodes_to_bytes_variant() {
    let wire = vec![(9, bytes(&[0x01, 0x02]))];
    let back = AuthServerRequestCreationHint::try_from_cbor_map(wire).unwrap();
    assert_eq!(back.scope, Some(TextOrByteString::ByteString(bstr(&[0x01, 0x02]))));
}

#[test]
fn scope_variants_round_trip_unchanged() {
    let make = |text_kind: bool| {
        if text_kind {
            TextOrByteString::TextString("read".to_string())
        } else {
            TextOrByteString::ByteString(bstr(&[0x09]))
        }
    };
    for text_kind in [true, false] {
        let hint = AuthServerRequestCreationHint {
            scope: Some(make(text_kind)),
            ..Default::default()
        };
        let wire = encode_to_wire(|| hint.as_cbor_map());
        let back = AuthServerRequestCreationHint::try_from_cbor_map(wire).unwrap();
        assert_eq!(back.scope, Some(make(text_kind)));
    }
}

#[test]
fn ace_profile_decodes_only_from_null() {
    let ok = AccessTokenRequest::try_from_cbor_map(vec![(38, CborValue::Null)]).unwrap();
    assert_eq!(ok.ace_profile, Some(()));
    assert_eq!(
        AccessTokenRequest::try_from_cbor_map(vec![(38, CborValue::Integer(1))]),
        None
    );
    assert_eq!(AccessTokenRequest::try_from_cbor_map(vec![(38, text("yes"))]), None);
}

#[test]
fn nested_key_with_non_integer_key_fails_request() {
    let bad = CborValue::MapValue(vec![(text("kid"), bytes(&[0x01]))]);
    assert_eq!(AccessTokenRequest::try_from_cbor_map(vec![(4, bad)]), None);
}

#[test]
fn nested_key_with_non_integer_key_fails_response() {
    for tag in [8, 41] {
        let bad = CborValue::MapValue(vec![(text("kid"), bytes(&[0x01]))]);
        assert_eq!(AccessTokenResponse::try_from_cbor_map(vec![(tag, bad)]), None);
    }
}

#[test]
fn nested_key_with_non_map_value_fails() {
    assert_eq!(AccessTokenRequest::try_from_cbor_map(vec![(4, bytes(&[0x01]))]), None);
    assert_eq!(AccessTokenResponse::try_from_cbor_map(vec![(8, text("x"))]), None);
}

#[test]
fn nested_key_decodes_to_its_pair_list() {
    let good = CborValue::MapValue(vec![(CborValue::Integer(3), bytes(&[0xaa, 0xbb]))]);
    let back = AccessTokenRequest::try_from_cbor_map(vec![(4, good)]).unwrap();
    assert_eq!(back.req_cnf, Some(pop_key()));
}

#[test]
fn response_scenario_exact_tags_and_round_trip() {
    let rsp = AccessTokenResponse {
        access_token: bstr(&[0x01, 0x02]),
        expires_in: Some(3600),
        token_type: Some(1),
        ..Default::default()
    };
    let wire = encode_to_wire(|| rsp.as_cbor_map());
    let tags: Vec<i128> = wire.iter().map(|p| p.0).collect();
    assert_eq!(tags, vec![1, 2, 34]);
    assert_eq!(wire[0].1, bytes(&[0x01, 0x02]));
    assert_eq!(wire[1].1, CborValue::Integer(3600));
    assert_eq!(wire[2].1, CborValue::Integer(1));
    let back = AccessTokenResponse::try_from_cbor_map(wire);
    assert_eq!(
        back,
        Some(AccessTokenResponse {
            access_token: bstr(&[0x01, 0x02]),
            expires_in: Some(3600),
            token_type: Some(1),
            ..Default::default()
        })
    );
}

#[test]
fn response_scenario_with_unknown_tag_fails_entirely() {
    let rsp = AccessTokenResponse {
        access_token: bstr(&[0x01, 0x02]),
        expires_in: Some(3600),
        token_type: Some(1),
        ..Default::default()
    };
    let mut wire = encode_to_wire(|| rsp.as_cbor_map());
    wire.push((99, CborValue::Integer(0)));
    assert_eq!(AccessTokenResponse::try_from_cbor_map(wire), None);
}

#[test]
fn integer_fields_are_range_checked() {
    let max = u32::MAX as i128;
    let ok = AccessTokenResponse::try_from_cbor_map(vec![(2, CborValue::Integer(max))]).unwrap();
    assert_eq!(ok.expires_in, Some(u32::MAX));
    assert_eq!(
        AccessTokenResponse::try_from_cbor_map(vec![(2, CborValue::Integer(max + 1))]),
        None
    );
    assert_eq!(
        AccessTokenResponse::try_from_cbor_map(vec![(2, CborValue::Integer(-1))]),
        None
    );
    assert_eq!(
        AccessTokenRequest::try_from_cbor_map(vec![(33, CborValue::Integer(-1))]),
        None
    );
    let ok = AccessTokenResponse::try_from_cbor_map(vec![
        (34, CborValue::Integer(i32::MIN as i128)),
    ])
    .unwrap();
    assert_eq!(ok.token_type, Some(i32::MIN));
    assert_eq!(
        AccessTokenResponse::try_from_cbor_map(vec![(
            34,
            CborValue::Integer(i32::MAX as i128 + 1)
        )]),
        None
    );
}

#[test]
fn duplicate_tags_last_writer_wins() {
    let wire = vec![(5, text("first")), (5, text("second"))];
    let back = AuthServerRequestCreationHint::try_from_cbor_map(wire).unwrap();
    assert_eq!(back.audience, Some("second".to_string()));
}

#[test]
fn missing_client_id_decodes_as_empty_string() {
    let back = AccessTokenRequest::try_from_cbor_map(vec![]).unwrap();
    assert_eq!(back.client_id, "");
    assert_eq!(back, AccessTokenRequest::default());
}

#[test]
fn missing_access_token_decodes_as_empty_bytes() {
    let back = AccessTokenResponse::try_from_cbor_map(vec![]).unwrap();
    assert_eq!(back.access_token, bstr(&[]));
}
