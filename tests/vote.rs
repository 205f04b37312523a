use aqa_publisher::vote::{action_hash, build_exchange_request, encode_action, hex_0x, l1_payload_hash};
use aqa_publisher::{get_signed_vote, ValidatorL1StreamAction};

fn test_key() -> Vec<u8> {
    vec![0x11; 32]
}

#[test]
fn action_bytes_layout() {
    let bytes = encode_action("0.04500000", 1_700_000_000_000);
    let mut expected: Vec<u8> = vec![0x82, 0xa4];
    expected.extend_from_slice(b"type");
    expected.push(0xb1);
    expected.extend_from_slice(b"validatorL1Stream");
    expected.push(0xac);
    expected.extend_from_slice(b"riskFreeRate");
    expected.push(0xaa);
    expected.extend_from_slice(b"0.04500000");
    expected.extend_from_slice(&1_700_000_000_000u64.to_be_bytes());
    expected.push(0);
    assert_eq!(bytes, expected);
}

#[test]
fn long_rate_text_uses_str8_header() {
    let rate = "1".repeat(40);
    let bytes = encode_action(&rate, 0);
    assert_eq!(bytes[37], 0xd9);
    assert_eq!(bytes[38], 40);
}

#[test]
fn action_hash_is_a_digest_not_the_bytes() {
    let action = ValidatorL1StreamAction::new("0.04500000");
    let bytes = encode_action("0.04500000", 1);
    let h = action_hash(&action, 1);
    assert_eq!(h.len(), 32);
    assert_ne!(h, bytes);
    assert_ne!(h, vec![0u8; 32]);
}

#[test]
fn action_hash_determinism() {
    let action = ValidatorL1StreamAction::new("0.03701946");
    let h1 = action_hash(&action, 1_700_000_000_000);
    let h2 = action_hash(&ValidatorL1StreamAction::new("0.03701946"), 1_700_000_000_000);
    let h3 = action_hash(&action, 1_700_000_000_001);
    assert_eq!(h1.len(), 32);
    assert_eq!(h1, h2);
    assert_ne!(h1, h3);
}

#[test]
fn network_binds_the_digest() {
    let h = action_hash(&ValidatorL1StreamAction::new("0.03701946"), 1_700_000_000_000);
    let main = l1_payload_hash(&h, true);
    let test = l1_payload_hash(&h, false);
    assert_eq!(main.len(), 32);
    assert_ne!(main, test);
    assert_ne!(main, h);
}

#[test]
fn signature_v_is_27_or_28() {
    for nonce in 0..8u64 {
        let (action, sig) = get_signed_vote(&test_key(), nonce % 2 == 0, 1_700_000_000_000 + nonce, "0.03701946").unwrap();
        assert_eq!(action.type_string, "validatorL1Stream");
        assert_eq!(action.risk_free_rate, "0.03701946");
        assert!(sig.v == 27 || sig.v == 28);
        assert_eq!(sig.r.len(), 32);
        assert_eq!(sig.s.len(), 32);
    }
}

#[test]
fn signing_is_deterministic_and_refuses_bad_keys() {
    let (_, a) = get_signed_vote(&test_key(), true, 5, "0.01000000").unwrap();
    let (_, b) = get_signed_vote(&test_key(), true, 5, "0.01000000").unwrap();
    assert_eq!((a.r.clone(), a.s.clone(), a.v), (b.r.clone(), b.s.clone(), b.v));
    assert!(get_signed_vote(&[0u8; 32], true, 5, "0.01000000").is_err());
    assert!(get_signed_vote(&[1u8; 33], true, 5, "0.01000000").is_err());
}

#[test]
fn request_hex_is_padded_lowercase() {
    let (action, sig) = get_signed_vote(&test_key(), true, 7, "0.03702437").unwrap();
    let req = build_exchange_request(action, 7, &sig);
    assert_eq!(req.nonce, 7);
    assert_eq!(req.signature.r.len(), 66);
    assert!(req.signature.r.starts_with("0x"));
    assert_eq!(req.signature.r, hex_0x(&sig.r));
    assert_eq!(hex_0x(&vec![0x00, 0x0f, 0xab]), "0x000fab");
}
