use base64::Engine;
use hmac::Mac;
use ugoite_core::auth::{
    auth_capabilities_snapshot, authenticate_headers_core, CoreAuthError, Identity,
};
use ugoite_core::config::{normalize_scopes, parse_key_value_map, parse_string_set};
use ugoite_core::crypto::verify_digest;
use ugoite_core::service_key::{
    hash_legacy_service_api_key_secret, hash_service_api_key_secret,
    verify_service_api_key_secret,
};

fn b64(data: &[u8]) -> String {
    base64::engine::general_purpose::URL_SAFE_NO_PAD.encode(data)
}

fn signed_token(payload_json: &str, secret: &str) -> String {
    let payload = b64(payload_json.as_bytes());
    let mut mac = hmac::Hmac::<sha2::Sha256>::new_from_slice(secret.as_bytes()).unwrap();
    mac.update(payload.as_bytes());
    let sig = mac.finalize().into_bytes();
    format!("v1.{}.{}", payload, b64(&sig))
}

fn auth(
    authorization: Option<&str>,
    api_key: Option<&str>,
    bearer: Option<&str>,
    keys: Option<&str>,
) -> Result<Identity, CoreAuthError> {
    authenticate_headers_core(authorization, api_key, bearer, keys, None, None, None, None, None)
}

fn signed(token: &str, secrets: &str, active: Option<&str>, revoked: Option<&str>) -> Result<Identity, CoreAuthError> {
    let header = format!("Bearer {token}");
    authenticate_headers_core(Some(&header), None, None, None, Some(secrets), active, revoked, None, None)
}

fn code(r: Result<Identity, CoreAuthError>) -> String {
    let e = r.unwrap_err();
    assert_eq!(e.status_code, 401);
    e.code
}

const FAR_FUTURE: i64 = 4_000_000_000;

#[test]
fn static_bearer_token_grants_identity() {
    let r = auth(
        Some("Bearer abc123"),
        None,
        Some(r#"{"abc123":{"user_id":"u1","principal_type":"user"}}"#),
        None,
    );
    let id = r.unwrap();
    assert_eq!(id.user_id, "u1");
    assert_eq!(id.auth_method, "bearer");
    assert_eq!(id.principal_type, "user");
    assert!(id.scopes.is_empty());
}

#[test]
fn no_headers_is_missing_credentials() {
    assert_eq!(code(auth(None, None, None, None)), "missing_credentials");
    assert_eq!(code(auth(Some("   "), Some(""), None, None)), "missing_credentials");
}

#[test]
fn scheme_must_be_bearer() {
    assert_eq!(code(auth(Some("Basic abc"), None, None, None)), "invalid_credentials");
    assert_eq!(code(auth(Some("Bearer"), None, None, None)), "invalid_credentials");
    assert_eq!(code(auth(Some("Bearer    "), None, None, None)), "missing_credentials");
    let tokens = Some(r#"{"abc":{"user_id":"u1"}}"#);
    assert_eq!(auth(Some("bEaReR  abc "), None, tokens, None).unwrap().user_id, "u1");
}

#[test]
fn static_token_failures() {
    let tokens = Some(
        r#"{"a":{"user_id":"u1","key_id":"k1"},"d":{"user_id":"u2","disabled":true},
            "bad":{"user_id":"u3","principal_type":"robot"},"none":{"principal_type":"user"}}"#,
    );
    let revoked = Some("k1");
    let r = authenticate_headers_core(Some("Bearer a"), None, tokens, None, None, None, revoked, None, None);
    assert_eq!(code(r), "revoked_key");
    assert_eq!(code(auth(Some("Bearer d"), None, tokens, None)), "disabled_identity");
    assert_eq!(code(auth(Some("Bearer bad"), None, tokens, None)), "invalid_credentials");
    assert_eq!(code(auth(Some("Bearer none"), None, tokens, None)), "invalid_credentials");
    assert_eq!(code(auth(Some("Bearer zzz"), None, tokens, None)), "invalid_credentials");
    assert_eq!(auth(Some("Bearer a"), None, tokens, None).unwrap().key_id.as_deref(), Some("k1"));
}

#[test]
fn disabled_api_key_is_refused() {
    let keys = Some(r#"{"key-1":{"user_id":"svc","principal_type":"service","disabled":true}}"#);
    assert_eq!(code(auth(None, Some("key-1"), None, keys)), "disabled_identity");
}

#[test]
fn api_key_grants_identity() {
    let keys = Some(
        r#"{"key-1":{"user_id":"svc","principal_type":"service","scopes":[" write","read","write",""," ",3],
            "scope_enforced":true,"service_account_id":"sa1","display_name":"Svc"}}"#,
    );
    let id = auth(None, Some(" key-1 "), None, keys).unwrap();
    assert_eq!(id.auth_method, "api_key");
    assert_eq!(id.principal_type, "service");
    assert_eq!(id.scopes, vec!["read".to_string(), "write".to_string()]);
    assert!(id.scope_enforced);
    assert_eq!(id.service_account_id.as_deref(), Some("sa1"));
    assert_eq!(id.display_name.as_deref(), Some("Svc"));
    assert_eq!(code(auth(None, Some("key-2"), None, keys)), "invalid_credentials");
}

#[test]
fn authorization_wins_over_api_key() {
    let keys = Some(r#"{"key-1":{"user_id":"svc"}}"#);
    assert_eq!(code(auth(Some("Bearer x"), Some("key-1"), None, keys)), "invalid_credentials");
}

#[test]
fn bootstrap_token_only_without_static_tokens() {
    let r = authenticate_headers_core(Some("Bearer boot"), None, None, None, None, None, None, Some("boot"), None);
    let id = r.unwrap();
    assert_eq!(id.user_id, "bootstrap-user");
    assert_eq!(id.key_id.as_deref(), Some("bootstrap"));
    assert_eq!(id.display_name.as_deref(), Some("Local Bootstrap User"));
    let r = authenticate_headers_core(Some("Bearer boot"), None, None, None, None, None, None, Some("boot"), Some("admin"));
    assert_eq!(r.unwrap().user_id, "admin");
    let tokens = Some(r#"{"real":{"user_id":"u1"}}"#);
    let r = authenticate_headers_core(Some("Bearer boot"), None, tokens, None, None, None, None, Some("boot"), None);
    assert_eq!(code(r), "invalid_credentials");
}

#[test]
fn signed_token_grants_identity() {
    let payload = format!(
        r#"{{"kid":"k1","exp":{FAR_FUTURE},"sub":"u9","principal_type":"service","scopes":["b","a"]}}"#
    );
    let token = signed_token(&payload, "s3cret");
    let id = signed(&token, "k1:s3cret", None, None).unwrap();
    assert_eq!(id.user_id, "u9");
    assert_eq!(id.auth_method, "bearer");
    assert_eq!(id.key_id.as_deref(), Some("k1"));
    assert_eq!(id.principal_type, "service");
    assert_eq!(id.scopes, vec!["a".to_string(), "b".to_string()]);
}

#[test]
fn expired_signed_token_is_refused() {
    let token = signed_token(r#"{"kid":"k1","exp":1000,"sub":"u9"}"#, "s3cret");
    assert_eq!(code(signed(&token, "k1:s3cret", None, None)), "expired_token");
}

#[test]
fn revoked_kid_is_refused() {
    let payload = format!(r#"{{"kid":"k1","exp":{FAR_FUTURE},"sub":"u9"}}"#);
    let token = signed_token(&payload, "s3cret");
    assert_eq!(code(signed(&token, "k1:s3cret", None, Some("k0, k1"))), "revoked_key");
    assert_eq!(code(signed(&token, "k1:s3cret", Some("k2"), None)), "revoked_key");
    assert!(signed(&token, "k1:s3cret", Some("k2,k1"), None).is_ok());
}

#[test]
fn signed_token_failures() {
    let good = format!(r#"{{"kid":"k1","exp":{FAR_FUTURE},"sub":"u9"}}"#);
    let token = signed_token(&good, "s3cret");
    assert_eq!(code(signed(&token, "k1:other", None, None)), "invalid_signature");
    assert_eq!(code(signed(&token, "k2:s3cret", None, None)), "invalid_signature");
    assert_eq!(code(signed("v1.abc", "k1:s3cret", None, None)), "invalid_signature");
    assert_eq!(code(signed("v1.a.b.c", "k1:s3cret", None, None)), "invalid_signature");
    assert_eq!(code(signed("v1.!!.AA", "k1:s3cret", None, None)), "invalid_signature");
    let not_json = format!("v1.{}.{}", b64(b"nope"), b64(b"x"));
    assert_eq!(code(signed(&not_json, "k1:s3cret", None, None)), "invalid_signature");
    let no_kid = signed_token(&format!(r#"{{"exp":{FAR_FUTURE},"sub":"u9"}}"#), "s3cret");
    assert_eq!(code(signed(&no_kid, "k1:s3cret", None, None)), "invalid_signature");
    let no_exp = signed_token(r#"{"kid":"k1","sub":"u9"}"#, "s3cret");
    assert_eq!(code(signed(&no_exp, "k1:s3cret", None, None)), "invalid_credentials");
    let no_sub = signed_token(&format!(r#"{{"kid":"k1","exp":{FAR_FUTURE}}}"#), "s3cret");
    assert_eq!(code(signed(&no_sub, "k1:s3cret", None, None)), "invalid_credentials");
    let disabled = signed_token(
        &format!(r#"{{"kid":"k1","exp":{FAR_FUTURE},"sub":"u9","disabled":true}}"#),
        "s3cret",
    );
    assert_eq!(code(signed(&disabled, "k1:s3cret", None, None)), "disabled_identity");
    let robot = signed_token(
        &format!(r#"{{"kid":"k1","exp":{FAR_FUTURE},"sub":"u9","principal_type":"robot"}}"#),
        "s3cret",
    );
    assert_eq!(code(signed(&robot, "k1:s3cret", None, None)), "invalid_credentials");
}

#[test]
fn key_value_map_parsing() {
    let pairs = parse_key_value_map(Some(" k1 : s1 ,bad, :x,k2:,k3:a:b,k1:s9,,"));
    let mut sorted = pairs.clone();
    sorted.sort();
    assert_eq!(
        sorted,
        vec![("k1".to_string(), "s9".to_string()), ("k3".to_string(), "a:b".to_string())]
    );
    assert!(parse_key_value_map(None).is_empty());
}

#[test]
fn string_set_parsing() {
    assert_eq!(
        parse_string_set(Some(" b, a,,b ,c ")),
        vec!["a".to_string(), "b".to_string(), "c".to_string()]
    );
    assert!(parse_string_set(None).is_empty());
    assert!(parse_string_set(Some(" , ")).is_empty());
}

#[test]
fn scopes_are_sorted_and_deduplicated() {
    let raw = vec![" x".to_string(), "a".to_string(), "x".to_string(), "  ".to_string()];
    assert_eq!(normalize_scopes(&raw), vec!["a".to_string(), "x".to_string()]);
}

#[test]
fn capabilities_snapshot_counts() {
    let snap = auth_capabilities_snapshot(
        Some(r#"{"t1":{"user_id":"u1"},"t2":{"user_id":"u2"},"t3":{}}"#),
        Some("not json"),
        Some("k1:s1,k2:s2,k1:s3"),
        Some("k2, k1"),
        Some("old"),
    );
    assert_eq!(snap.configured_static_token_count, 2);
    assert_eq!(snap.configured_static_api_key_count, 0);
    assert_eq!(snap.configured_signing_kid_count, 2);
    assert_eq!(snap.active_kids, vec!["k1".to_string(), "k2".to_string()]);
    assert_eq!(snap.revoked_key_ids, vec!["old".to_string()]);
}

#[test]
fn error_json_text() {
    let e = CoreAuthError::new("revoked_key", "Key \"x\" revoked");
    assert_eq!(e.status_code, 401);
    assert_eq!(
        e.as_json(),
        r#"{"code":"revoked_key","detail":"Key \"x\" revoked","status_code":401}"#
    );
    let v: serde_json::Value = serde_json::from_str(&e.as_json()).unwrap();
    assert_eq!(v["status_code"], 401);
}

#[test]
fn digest_comparison() {
    assert!(verify_digest("abcd", "abcd"));
    assert!(!verify_digest("abcd", "abce"));
    assert!(!verify_digest("abcd", "abc"));
}

#[test]
fn service_key_hashes() {
    let legacy = hash_legacy_service_api_key_secret("secret");
    assert_eq!(legacy, "2bb80d537b1da3e38bd30361aa855686bde0eacd7162fef6a25fe97bf527a25b");
    assert!(verify_service_api_key_secret(&legacy, "secret", None, None));
    assert!(!verify_service_api_key_secret(&legacy, "other", None, None));
    assert!(hash_service_api_key_secret("secret", "").is_none());
    let hashed = hash_service_api_key_secret("secret", "salt").unwrap();
    let mut derived = [0u8; 32];
    pbkdf2::pbkdf2_hmac::<sha2::Sha256>(b"secret", b"salt", 240_000, &mut derived);
    assert_eq!(hashed, b64(&derived));
    assert!(verify_service_api_key_secret(&hashed, "secret", Some("pbkdf2_sha256_v1"), Some("salt")));
    assert!(!verify_service_api_key_secret(&hashed, "secret", Some("pbkdf2_sha256_v1"), Some("pepper")));
    assert!(!verify_service_api_key_secret(&hashed, "secret", Some("other"), Some("salt")));
    assert!(verify_service_api_key_secret(&legacy, "secret", Some("pbkdf2_sha256_v1"), Some("")));
}

#[test]
fn non_string_principal_type_is_refused() {
    let tokens = Some(r#"{"t":{"user_id":"u1","principal_type":7}}"#);
    assert_eq!(code(auth(Some("Bearer t"), None, tokens, None)), "invalid_credentials");
    let token = signed_token(
        &format!(r#"{{"kid":"k1","exp":{FAR_FUTURE},"sub":"u9","principal_type":true}}"#),
        "s3cret",
    );
    assert_eq!(code(signed(&token, "k1:s3cret", None, None)), "invalid_credentials");
}

#[test]
fn fractional_expiry_counts_as_missing() {
    let token = signed_token(r#"{"kid":"k1","exp":4000000000.5,"sub":"u9"}"#, "s3cret");
    assert_eq!(code(signed(&token, "k1:s3cret", None, None)), "invalid_credentials");
    let huge = signed_token(r#"{"kid":"k1","exp":18446744073709551615,"sub":"u9"}"#, "s3cret");
    assert!(signed(&huge, "k1:s3cret", None, None).is_ok());
}
