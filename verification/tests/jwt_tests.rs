use waterwheel::jwt::{
    claims_at, config_audience, generate_config_jwt, generate_jwt_at, generate_stash_jwt,
    key_source, load_hmac_secret, load_keys, stash_audience, validate_config_jwt,
    validate_jwt, validate_stash_jwt, JwtError, KeyMaterial, KeySettings, KeySource,
    SigningAlgorithm,
};
use waterwheel::logs::log_key;

fn settings(hmac: Option<&str>, public: Option<&str>, private: Option<&str>) -> KeySettings {
    KeySettings {
        hmac_secret: hmac.map(String::from),
        public_key: public.map(String::from),
        private_key: private.map(String::from),
    }
}

const RUN_ID: u128 = 0x67e5504410b1426f9247bb680e5fe0c8;

#[test]
fn key_source_prefers_an_rsa_pair() {
    let s = settings(Some("secret"), Some("pub.pem"), Some("priv.pem"));
    assert_eq!(
        key_source(&s).unwrap(),
        KeySource::Rsa {
            public_key_file: "pub.pem".to_owned(),
            private_key_file: "priv.pem".to_owned()
        }
    );
}

#[test]
fn key_source_needs_the_private_key_with_a_public_key() {
    let s = settings(Some("secret"), Some("pub.pem"), None);
    assert_eq!(
        key_source(&s).unwrap_err(),
        JwtError::Settings(
            "RSA private key not set (either both public and private keys must be set, \
             or the HMAC secret must be set)"
                .to_owned()
        )
    );
}

#[test]
fn key_source_falls_back_to_the_hmac_secret() {
    let s = settings(Some("secret"), None, Some("priv.pem"));
    assert_eq!(key_source(&s).unwrap(), KeySource::Hmac { secret: "secret".to_owned() });
}

#[test]
fn key_source_without_keys_is_refused() {
    let s = settings(None, None, None);
    assert_eq!(
        key_source(&s).unwrap_err(),
        JwtError::Settings(
            "HMAC secret set (either both public and private keys must be set, \
             or the HMAC secret must be set)"
                .to_owned()
        )
    );
}

#[test]
fn hmac_keys_sign_with_hs256() {
    let keys = load_keys(KeyMaterial::Hmac { secret: b"secret".to_vec() }).unwrap();
    assert_eq!(keys.algorithm(), SigningAlgorithm::Hs256);
    assert_eq!(load_hmac_secret("secret"), keys);
}

#[test]
fn rsa_keys_that_do_not_parse_are_refused() {
    let r = load_keys(KeyMaterial::Rsa {
        public_pem: b"not a key".to_vec(),
        private_pem: b"not a key either".to_vec(),
    });
    assert!(matches!(r, Err(JwtError::Key(_))));
}

#[test]
fn claims_expire_five_minutes_after_they_are_made() {
    let c = claims_at("waterwheel.stash", "task-1", 1_000);
    assert_eq!(c.iss, "waterwheel");
    assert_eq!(c.sub, "task-1");
    assert_eq!(c.aud, "waterwheel.stash");
    assert_eq!(c.exp, 1_300);
}

#[test]
fn stash_token_gives_back_its_task() {
    let keys = load_hmac_secret("s3cret");
    let token = generate_stash_jwt(&keys, "task-1").unwrap();
    assert_eq!(validate_stash_jwt(&keys, &token).unwrap(), "task-1");
}

#[test]
fn signed_token_is_three_encoded_parts() {
    let keys = load_hmac_secret("s3cret");
    let token = generate_jwt_at(&keys, stash_audience(), "task-1", 4_000_000_000).unwrap();
    assert_eq!(token.split('.').count(), 3);
    assert!(!token.contains("task-1"));
    assert!(token.starts_with("eyJ"));
}

#[test]
fn signed_token_depends_on_keys_and_claims_only() {
    let keys = load_hmac_secret("s3cret");
    let a = generate_jwt_at(&keys, stash_audience(), "task-1", 4_000_000_000).unwrap();
    let b = generate_jwt_at(&keys, stash_audience(), "task-1", 4_000_000_000).unwrap();
    assert_eq!(a, b);
    let other = load_hmac_secret("other");
    let c = generate_jwt_at(&other, stash_audience(), "task-1", 4_000_000_000).unwrap();
    assert_ne!(a, c);
    let d = generate_jwt_at(&keys, stash_audience(), "task-2", 4_000_000_000).unwrap();
    assert_ne!(a, d);
}

#[test]
fn token_of_another_secret_is_refused() {
    let keys = load_hmac_secret("s3cret");
    let other = load_hmac_secret("other");
    let token = generate_stash_jwt(&other, "task-1").unwrap();
    assert_eq!(
        validate_stash_jwt(&keys, &token).unwrap_err(),
        JwtError::Token("InvalidSignature".to_owned())
    );
}

#[test]
fn stash_token_does_not_open_configuration() {
    let keys = load_hmac_secret("s3cret");
    let token = generate_stash_jwt(&keys, "task-1").unwrap();
    assert_eq!(
        validate_jwt(&keys, &token, config_audience()).unwrap_err(),
        JwtError::Token("InvalidAudience".to_owned())
    );
}

#[test]
fn expired_token_is_refused() {
    let keys = load_hmac_secret("s3cret");
    let token = generate_jwt_at(&keys, stash_audience(), "task-1", 1_000).unwrap();
    assert_eq!(
        validate_stash_jwt(&keys, &token).unwrap_err(),
        JwtError::Token("ExpiredSignature".to_owned())
    );
}

#[test]
fn garbage_token_is_refused() {
    let keys = load_hmac_secret("s3cret");
    assert!(matches!(validate_stash_jwt(&keys, "not-a-token"), Err(JwtError::Token(_))));
}

#[test]
fn config_token_must_name_the_requested_id() {
    let keys = load_hmac_secret("s3cret");
    let token = generate_config_jwt(&keys, RUN_ID).unwrap();
    assert_eq!(
        validate_config_jwt(&keys, &token, RUN_ID).unwrap(),
        "67e55044-10b1-426f-9247-bb680e5fe0c8"
    );
    assert_eq!(validate_config_jwt(&keys, &token, RUN_ID + 1).unwrap_err(), JwtError::Forbidden);
}

#[test]
fn uuid_text_is_hyphenated_lower_hex() {
    assert_eq!(log_key(RUN_ID), "waterwheel-logs.67e55044-10b1-426f-9247-bb680e5fe0c8");
    assert_eq!(log_key(0), "waterwheel-logs.00000000-0000-0000-0000-000000000000");
}

#[test]
fn claims_are_written_in_declaration_order() {
    let keys = load_hmac_secret("s3cret");
    let token = generate_jwt_at(&keys, stash_audience(), "task-1", 4_000_000_000).unwrap();
    let mut validation = jsonwebtoken::Validation::new(jsonwebtoken::Algorithm::HS256);
    validation.insecure_disable_signature_validation();
    validation.validate_aud = false;
    validation.validate_exp = false;
    let data = jsonwebtoken::decode::<serde_json::Map<String, serde_json::Value>>(
        &token,
        &jsonwebtoken::DecodingKey::from_secret(b"unused"),
        &validation,
    )
    .unwrap();
    let keys: Vec<&str> = data.claims.keys().map(String::as_str).collect();
    assert_eq!(keys, vec!["iss", "sub", "aud", "exp"]);
    assert_eq!(data.claims["sub"], serde_json::Value::from("task-1"));
    assert_eq!(data.claims["exp"], serde_json::Value::from(4_000_000_300u64));
}

#[test]
fn tampered_token_is_refused() {
    let keys = load_hmac_secret("s3cret");
    let token = generate_stash_jwt(&keys, "task-1").unwrap();
    let parts: Vec<&str> = token.split('.').collect();
    // another subject's payload under the first token's signature
    let other = generate_stash_jwt(&keys, "task-2").unwrap();
    let other_payload = other.split('.').nth(1).unwrap();
    let forged = format!("{}.{}.{}", parts[0], other_payload, parts[2]);
    assert_eq!(validate_stash_jwt(&keys, &forged).unwrap_err(), JwtError::Token("InvalidSignature".to_owned()));
    assert!(matches!(validate_stash_jwt(&keys, "not-a-jwt"), Err(JwtError::Token(_))));
    assert!(matches!(validate_stash_jwt(&keys, &format!("{}.x", token)), Err(JwtError::Token(_))));
}
