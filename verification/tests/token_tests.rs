use kiro_vault::errors::ValidationError;
use kiro_vault::state_token::{generate_secure_state, get_hmac_key, validate_state_signature};
use base64::Engine;

fn now() -> i64 {
    chrono::Utc::now().timestamp()
}

#[test]
fn fresh_token_validates() {
    let machine_id = "token-device";
    let state = generate_secure_state(machine_id);
    assert!(validate_state_signature(&state, machine_id, now()).is_ok());
}

#[test]
fn stale_token_is_rejected() {
    let machine_id = "token-device";
    let state = generate_secure_state(machine_id);
    match validate_state_signature(&state, machine_id, now() + 301) {
        Err(ValidationError::Expired) => {}
        other => panic!("expected expiry, got {:?}", other),
    }
    match validate_state_signature(&state, machine_id, now() - 302) {
        Err(ValidationError::Expired) => {}
        other => panic!("expected expiry, got {:?}", other),
    }
}

#[test]
fn tampered_signature_is_rejected() {
    let machine_id = "token-device";
    let state = generate_secure_state(machine_id);
    let colon = state.rfind(':').unwrap();
    let (payload, sig) = state.split_at(colon + 1);
    let mut sig_bytes: Vec<u8> = sig.bytes().collect();
    // flip one base64 character to another alphabet character
    sig_bytes[0] = if sig_bytes[0] == b'A' { b'B' } else { b'A' };
    let tampered = format!("{}{}", payload, String::from_utf8(sig_bytes).unwrap());
    if tampered != state {
        assert!(validate_state_signature(&tampered, machine_id, now()).is_err());
    }
}

#[test]
fn token_of_another_device_is_rejected() {
    let state = generate_secure_state("device-one");
    match validate_state_signature(&state, "device-two", now()) {
        Err(ValidationError::SignatureMismatch) => {}
        other => panic!("expected signature mismatch, got {:?}", other),
    }
}

#[test]
fn malformed_tokens_are_rejected_with_the_right_reason() {
    let machine_id = "token-device";
    match validate_state_signature("no-colons-here", machine_id, now()) {
        Err(ValidationError::Format) => {}
        other => panic!("expected format error, got {:?}", other),
    }
    match validate_state_signature("1:sig", machine_id, now()) {
        Err(ValidationError::PayloadFormat) => {}
        other => panic!("expected payload format error, got {:?}", other),
    }
    match validate_state_signature("abc:nonce:sig", machine_id, now()) {
        Err(ValidationError::Timestamp) => {}
        other => panic!("expected timestamp error, got {:?}", other),
    }
    let fresh = format!("{}:nonce:?!bad-base64?!", now());
    match validate_state_signature(&fresh, machine_id, now()) {
        Err(ValidationError::HmacEncoding) => {}
        other => panic!("expected encoding error, got {:?}", other),
    }
}

#[test]
fn plus_signed_timestamps_parse_like_the_standard_parser() {
    // "+5" is a valid decimal timestamp (as str::parse accepts it), so the
    // failure is expiry, not a timestamp parse error.
    match validate_state_signature("+5:nonce:AA", "token-device", 400) {
        Err(ValidationError::Expired) => {}
        other => panic!("expected expiry, got {:?}", other),
    }
}

#[test]
fn hmac_key_is_device_bound() {
    let k1 = get_hmac_key("device-one");
    let k2 = get_hmac_key("device-one");
    let k3 = get_hmac_key("device-two");
    assert_eq!(k1, k2);
    assert_eq!(k1.len(), 32);
    assert_ne!(k1, k3);
}

#[test]
fn token_shape_is_timestamp_nonce_signature() {
    let state = generate_secure_state("shape-device");
    let parts: Vec<&str> = state.split(':').collect();
    assert_eq!(parts.len(), 3);
    assert!(parts[0].parse::<i64>().is_ok());
    assert_eq!(parts[1].len(), 36);
    let sig = base64::engine::general_purpose::URL_SAFE_NO_PAD
        .decode(parts[2])
        .expect("signature must be URL-safe base64");
    assert_eq!(sig.len(), 32);
}
