use ed25519_dalek::{Signature, SigningKey, Verifier};
use sha2::Digest;
use usdf_signer::conversion::{checked_pow10, convert, parse_price, PriceData, USDF_COEFFICIENT};
use usdf_signer::engine::{SigningEngine, SigningRequest};
use usdf_signer::error::SigningError;
use usdf_signer::message::canonicalize;
use usdf_signer::nonce::NonceAllocator;
use usdf_signer::signing::{load_signing_key, SigningKeyMaterial};

fn quote(price: &str, decimals: u8) -> Option<PriceData> {
    Some(PriceData { price: price.to_string(), decimals })
}

fn test_secret() -> [u8; 32] {
    [7u8; 32]
}

fn encoded_keypair(secret: [u8; 32]) -> String {
    let key = SigningKey::from_bytes(&secret);
    bs58::encode(key.to_keypair_bytes()).into_string()
}

fn test_key() -> SigningKeyMaterial {
    load_signing_key(&encoded_keypair(test_secret())).ok().unwrap()
}

fn request(token: &str, amount: u128) -> SigningRequest {
    SigningRequest {
        user_address: "alice.near".to_string(),
        token_address: token.to_string(),
        amount,
    }
}

#[test]
fn conversion_example() {
    let q = quote("68420000000000", 8);
    // 100 * 68420000000000 * 30 / 100 / 10^8
    assert_eq!(convert(&q, 100), Ok(20526000));
    assert_eq!(convert(&q, 100).unwrap().to_string(), "20526000");
}

#[test]
fn conversion_truncates_after_multiplying() {
    // 7 * 3 * 30 = 630; 630 / 100 = 6; 6 / 10 = 0
    assert_eq!(convert(&quote("3", 1), 7), Ok(0));
    // 7 * 3 * 30 / 100 = 6 with no scale
    assert_eq!(convert(&quote("3", 0), 7), Ok(6));
    assert_eq!(convert(&quote("800000000000000", 18), 1_000_000), Ok(240));
}

#[test]
fn conversion_zero_amount() {
    assert_eq!(convert(&quote("68420000000000", 8), 0), Ok(0));
}

#[test]
fn conversion_is_deterministic() {
    let q = quote("800000000000000", 8);
    assert_eq!(convert(&q, 12345), convert(&q, 12345));
}

#[test]
fn unknown_token_fails() {
    assert_eq!(convert(&None, 1), Err(SigningError::UnknownToken));
    assert!(SigningError::UnknownToken.is_caller_error());
    assert!(!SigningError::MalformedQuote.is_caller_error());
}

#[test]
fn malformed_quote_fails() {
    assert_eq!(convert(&quote("12a", 2), 1), Err(SigningError::MalformedQuote));
    assert_eq!(convert(&quote("", 2), 1), Err(SigningError::MalformedQuote));
    assert_eq!(convert(&quote("+", 2), 1), Err(SigningError::MalformedQuote));
    assert_eq!(convert(&quote("-5", 0), 1), Err(SigningError::MalformedQuote));
    assert_eq!(
        convert(&quote("340282366920938463463374607431768211456", 0), 1),
        Err(SigningError::MalformedQuote)
    );
}

#[test]
fn parse_price_values() {
    assert_eq!(parse_price(&"0".to_string()), Some(0));
    assert_eq!(parse_price(&"+42".to_string()), Some(42));
    assert_eq!(parse_price(&"007".to_string()), Some(7));
    assert_eq!(
        parse_price(&"340282366920938463463374607431768211455".to_string()),
        Some(u128::MAX)
    );
    assert_eq!(parse_price(&"340282366920938463463374607431768211456".to_string()), None);
    assert_eq!(parse_price(&"4 2".to_string()), None);
}

#[test]
fn pow10_limits() {
    assert_eq!(checked_pow10(0), Some(1));
    assert_eq!(checked_pow10(8), Some(100_000_000));
    assert_eq!(checked_pow10(38), Some(10u128.pow(38)));
    assert_eq!(checked_pow10(39), None);
}

#[test]
fn overflow_boundary() {
    // u128::MAX / 30 is the largest product that survives the coefficient
    let limit = u128::MAX / USDF_COEFFICIENT;
    assert_eq!(convert(&quote(&limit.to_string(), 0), 1), Ok(limit * 30 / 100));
    assert_eq!(
        convert(&quote(&(limit + 1).to_string(), 0), 1),
        Err(SigningError::ArithmeticOverflow)
    );
    assert_eq!(convert(&quote("2", 0), u128::MAX), Err(SigningError::ArithmeticOverflow));
    assert_eq!(convert(&quote("1", 39), 1), Err(SigningError::ArithmeticOverflow));
    assert_eq!(convert(&quote("1", 38), 1), Ok(0));
}

#[test]
fn nonce_starts_from_recovered_value() {
    assert_eq!(NonceAllocator::new(None).last_issued(), 0);
    assert_eq!(NonceAllocator::new(Some(41)).last_issued(), 41);
}

#[test]
fn nonces_are_consecutive() {
    let mut nonces = NonceAllocator::new(Some(10));
    let mut issued = Vec::new();
    for _ in 0..5 {
        assert_eq!(nonces.next_candidate(), Ok(nonces.last_issued() + 1));
        issued.push(nonces.commit(true).unwrap());
    }
    assert_eq!(issued, vec![11, 12, 13, 14, 15]);
    assert_eq!(nonces.last_issued(), 15);
}

#[test]
fn failed_persist_keeps_counter() {
    let mut nonces = NonceAllocator::new(Some(3));
    assert_eq!(nonces.commit(false), Err(SigningError::DurableStoreUnavailable));
    assert_eq!(nonces.last_issued(), 3);
    assert!(SigningError::DurableStoreUnavailable.is_retryable());
    assert_eq!(nonces.commit(true), Ok(4));
}

#[test]
fn nonce_overflow() {
    let mut nonces = NonceAllocator::new(Some(u64::MAX));
    assert_eq!(nonces.next_candidate(), Err(SigningError::NonceOverflow));
    assert_eq!(nonces.commit(true), Err(SigningError::NonceOverflow));
    assert_eq!(nonces.last_issued(), u64::MAX);
}

fn expected_message(nonce: u64, token: &str, amount: u128, settlement: u128, user: &str) -> Vec<u8> {
    let mut payload = Vec::new();
    payload.push(0x88);
    payload.extend_from_slice(&nonce.to_be_bytes());
    payload.push(0x80 + token.len() as u8);
    payload.extend_from_slice(token.as_bytes());
    payload.push(0x90);
    payload.extend_from_slice(&amount.to_be_bytes());
    payload.push(0x90);
    payload.extend_from_slice(&settlement.to_be_bytes());
    payload.push(0x80 + user.len() as u8);
    payload.extend_from_slice(user.as_bytes());
    let mut message = vec![0xf8, payload.len() as u8];
    message.extend(payload);
    message
}

#[test]
fn canonical_digest_layout() {
    let digest = canonicalize(7, &"usmeme.tg".to_string(), 100, 205260000000000, &"alice.near".to_string());
    let message = expected_message(7, "usmeme.tg", 100, 205260000000000, "alice.near");
    assert_eq!(message.len(), 66);
    assert_eq!(digest, sha2::Sha256::digest(&message).to_vec());
    assert_eq!(digest.len(), 32);
}

#[test]
fn canonical_digest_is_deterministic() {
    let a = canonicalize(1, &"dd.tg".to_string(), 5, 6, &"bob".to_string());
    let b = canonicalize(1, &"dd.tg".to_string(), 5, 6, &"bob".to_string());
    assert_eq!(a, b);
}

#[test]
fn canonical_digest_changes_with_each_field() {
    let base = canonicalize(1, &"dd.tg".to_string(), 5, 6, &"bob".to_string());
    assert_ne!(base, canonicalize(2, &"dd.tg".to_string(), 5, 6, &"bob".to_string()));
    assert_ne!(base, canonicalize(1, &"de.tg".to_string(), 5, 6, &"bob".to_string()));
    assert_ne!(base, canonicalize(1, &"dd.tg".to_string(), 6, 6, &"bob".to_string()));
    assert_ne!(base, canonicalize(1, &"dd.tg".to_string(), 5, 7, &"bob".to_string()));
    assert_ne!(base, canonicalize(1, &"dd.tg".to_string(), 5, 6, &"bod".to_string()));
    assert_ne!(base, canonicalize(1, &"bob".to_string(), 5, 6, &"dd.tg".to_string()));
}

#[test]
fn signing_key_loads() {
    let key = test_key();
    let digest = canonicalize(1, &"dd.tg".to_string(), 5, 6, &"bob".to_string());
    let signature = key.sign(&digest);
    assert_eq!(signature.len(), 64);
    let verifying = SigningKey::from_bytes(&test_secret()).verifying_key();
    let sig = Signature::from_slice(&signature).unwrap();
    assert!(verifying.verify(&digest, &sig).is_ok());
}

#[test]
fn signing_key_rejects_bad_material() {
    assert!(matches!(load_signing_key("0OIl"), Err(SigningError::KeyUnavailable)));
    let short = bs58::encode([1u8; 32]).into_string();
    assert!(matches!(load_signing_key(&short), Err(SigningError::KeyUnavailable)));
    let mut mismatched = SigningKey::from_bytes(&test_secret()).to_keypair_bytes();
    mismatched[32..].copy_from_slice(SigningKey::from_bytes(&[9u8; 32]).verifying_key().as_bytes());
    let encoded = bs58::encode(mismatched).into_string();
    assert!(matches!(load_signing_key(&encoded), Err(SigningError::KeyUnavailable)));
}

#[test]
fn failed_conversion_spends_no_nonce() {
    let engine = SigningEngine::new(test_key(), NonceAllocator::new(Some(9)));
    let r = engine.begin_signature(&request("no-such-token", 1), &None);
    assert_eq!(r, Err(SigningError::UnknownToken));
    assert_eq!(engine.last_issued_nonce(), 9);
}

#[test]
fn signing_request_round() {
    let mut engine = SigningEngine::new(test_key(), NonceAllocator::new(Some(9)));
    let req = request("usmeme.tg", 100);
    let q = quote("68420000000000", 8);
    let pending = engine.begin_signature(&req, &q).unwrap();
    assert_eq!(pending.nonce, 10);
    assert_eq!(pending.settlement_amount, 20526000);

    let failed = engine.complete_signature(&req, pending, false);
    assert!(matches!(failed, Err(SigningError::DurableStoreUnavailable)));
    assert_eq!(engine.last_issued_nonce(), 9);

    let pending = engine.begin_signature(&req, &q).unwrap();
    let attestation = engine.complete_signature(&req, pending, true).ok().unwrap();
    assert_eq!(attestation.nonce, 10);
    assert_eq!(attestation.settlement_amount, 20526000);
    assert_eq!(engine.last_issued_nonce(), 10);

    let digest = canonicalize(10, &req.token_address, 100, 20526000, &req.user_address);
    let verifying = SigningKey::from_bytes(&test_secret()).verifying_key();
    let sig = Signature::from_slice(&attestation.signature).unwrap();
    assert!(verifying.verify(&digest, &sig).is_ok());

    let next = engine.begin_signature(&req, &q).unwrap();
    assert_eq!(next.nonce, 11);
}
