use usdf_signer::conversion::PriceData;
use usdf_signer::settings::{default_is_json_logging, default_listener, default_loglevel, default_redis_uri};
use usdf_signer::whitelist::{is_token_key, token_keys, whitelist_entry, LAST_NONCE_KEY};

#[test]
fn reserved_key_is_not_a_token() {
    assert!(!is_token_key(&LAST_NONCE_KEY.to_string()));
    assert!(is_token_key(&"usmeme.tg".to_string()));
    assert!(is_token_key(&"last_nonce2".to_string()));
}

#[test]
fn token_keys_drop_reserved_key() {
    let keys = vec![
        "usmeme.tg".to_string(),
        "last_nonce".to_string(),
        "dd.tg".to_string(),
    ];
    assert_eq!(token_keys(&keys), vec!["usmeme.tg".to_string(), "dd.tg".to_string()]);
    assert!(token_keys(&Vec::new()).is_empty());
}

#[test]
fn whitelist_entry_fields() {
    let entry = whitelist_entry(
        "dd.tg".to_string(),
        PriceData { price: "800000000000000".to_string(), decimals: 8 },
    );
    assert_eq!(entry.token, "dd.tg");
    assert_eq!(entry.price, "800000000000000");
    assert_eq!(entry.coefficient, 30);
    assert_eq!(entry.decimals, 8);
}

#[test]
fn configuration_defaults() {
    assert!(default_is_json_logging());
    assert_eq!(default_loglevel(), "info");
    assert_eq!(default_listener(), "0.0.0.0:3000");
    assert_eq!(default_redis_uri(), "redis://localhost:6379");
}
