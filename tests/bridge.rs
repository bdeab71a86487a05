use speculos_hid::bridge::{
    apdu_endpoint, reply_from_body, reply_from_member, request_body, BridgeError,
};

#[test]
fn request_body_holds_lowercase_hex() {
    assert_eq!(request_body(&[0x01, 0xAB, 0xFF]), "{\"data\":\"01abff\"}");
    assert_eq!(request_body(&[]), "{\"data\":\"\"}");
}

#[test]
fn reply_is_decoded_from_hex_of_either_case() {
    assert_eq!(reply_from_body("{\"data\":\"01AbfF\"}"), Ok(vec![0x01, 0xAB, 0xFF]));
    assert_eq!(reply_from_body("{\"data\": \"9000\", \"other\": 1}"), Ok(vec![0x90, 0x00]));
    assert_eq!(reply_from_body("{\"data\":\"\"}"), Ok(vec![]));
}

#[test]
fn reply_that_is_not_json_is_an_error() {
    assert_eq!(reply_from_body("not json"), Err(BridgeError::NotJson));
    assert_eq!(reply_from_body(""), Err(BridgeError::NotJson));
}

#[test]
fn reply_without_data_is_an_error() {
    assert_eq!(reply_from_body("{\"other\":\"00\"}"), Err(BridgeError::MissingData));
    assert_eq!(reply_from_body("{\"data\":5}"), Err(BridgeError::MissingData));
    assert_eq!(reply_from_body("[1,2]"), Err(BridgeError::MissingData));
}

#[test]
fn reply_with_invalid_hex_is_an_error() {
    assert_eq!(reply_from_body("{\"data\":\"0g\"}"), Err(BridgeError::InvalidHex));
    assert_eq!(reply_from_body("{\"data\":\"abc\"}"), Err(BridgeError::InvalidHex));
}

#[test]
fn reply_from_member_covers_each_case() {
    assert_eq!(reply_from_member(None), Err(BridgeError::NotJson));
    assert_eq!(reply_from_member(Some(None)), Err(BridgeError::MissingData));
    assert_eq!(reply_from_member(Some(Some("zz".to_string()))), Err(BridgeError::InvalidHex));
    assert_eq!(reply_from_member(Some(Some("0A0b".to_string()))), Ok(vec![0x0a, 0x0b]));
}

#[test]
fn echoing_emulator_returns_the_message() {
    for m in [vec![], vec![0x00], vec![0xE0, 0x01, 0x00, 0x00, 0x00], vec![0xAA; 260]] {
        let body = request_body(&m);
        assert_eq!(reply_from_body(&body), Ok(m));
    }
}

#[test]
fn endpoint_is_under_base_url() {
    assert_eq!(apdu_endpoint("http://localhost:8080"), "http://localhost:8080/apdu");
}
