use vibing2_desktop::credentials::AuthError;
use vibing2_desktop::credentials::AuthSource;
use vibing2_desktop::credentials::ValidationOutcome;
use vibing2_desktop::credentials::classify_validation_status;
use vibing2_desktop::credentials::keychain_probe_pairs;
use vibing2_desktop::credentials::parse_keychain_value;
use vibing2_desktop::credentials::resolve_keychain_entries;
use vibing2_desktop::credjson::parse_credentials_json_str;
use vibing2_desktop::store::Store;
use vibing2_desktop::types::ClaudeCredentials;

fn auth_store() -> Store {
    let mut store = Store::new();
    store.migrate();
    store
}

#[test]
fn test_keychain_parsing() {
    // A structured JSON credential record.
    let json_creds = r#"{"api_key":"sk-ant-test123","email":"user@example.com"}"#;
    let parsed = parse_keychain_value(json_creds).unwrap();
    assert_eq!(parsed.api_key, "sk-ant-test123");
    assert_eq!(parsed.email, Some("user@example.com".to_string()));
}

#[test]
fn test_keychain_parsing_raw_key() {
    // Not JSON, but it carries the key-format prefix.
    let parsed = parse_keychain_value("sk-ant-raw-key-42").unwrap();
    assert_eq!(parsed.api_key, "sk-ant-raw-key-42");
    assert_eq!(parsed.email, None);
    assert_eq!(parsed.subscription_tier, None);
}

#[test]
fn test_keychain_parsing_rejects_junk() {
    assert!(parse_keychain_value("invalid-key").is_none());
    assert!(parse_keychain_value("").is_none());
    assert!(parse_keychain_value(r#"{"email":"x@y.z"}"#).is_none());
}

#[test]
fn test_json_whitespace_escapes_and_extras() {
    let text = " { \"api_key\" : \"k\\n1\" , \"email\" : null , \"other\" : 7 } ";
    let c = parse_credentials_json_str(text).unwrap();
    assert_eq!(c.api_key, "k\n1");
    assert_eq!(c.email, None);
    assert_eq!(c.subscription_tier, None);
}

#[test]
fn test_json_skips_unknown_member_values() {
    // Nested composites and arbitrary escapes in unrecognized members are
    // passed over without interpretation.
    let text = r#"{"api_key":"k","meta":{"a":[1,2,{"b":"x}]"}]},"note":"☃ snow"}"#;
    let c = parse_credentials_json_str(text).unwrap();
    assert_eq!(c.api_key, "k");
    assert_eq!(c.email, None);
    // A recognized member must still be a plain string: a \u escape in it
    // is outside the record format.
    assert!(parse_credentials_json_str(r#"{"api_key":"k\u0041"}"#).is_none());
}

#[test]
fn test_json_rejects_malformed() {
    assert!(parse_credentials_json_str(r#"{"api_key":"k""#).is_none());
    assert!(parse_credentials_json_str(r#"{"api_key":true}"#).is_none());
    assert!(parse_credentials_json_str(r#"{"api_key":"a","api_key":"b"}"#).is_none());
    assert!(parse_credentials_json_str(r#"{"api_key":"a"} trailing"#).is_none());
    assert!(parse_credentials_json_str("{}").is_none());
}

#[test]
fn test_probe_pairs_order() {
    let services = vec![
        "svc.first".to_string(),
        "svc.second".to_string(),
        "svc.third".to_string(),
    ];
    let pairs = keychain_probe_pairs(&services);
    assert_eq!(pairs.len(), 9);
    assert_eq!(pairs[0].0, "svc.first");
    assert_eq!(pairs[0].1, "default");
    assert_eq!(pairs[1].1, "api_key");
    assert_eq!(pairs[2].1, "credentials");
    assert_eq!(pairs[3].0, "svc.second");
    assert_eq!(pairs[8].0, "svc.third");
    assert_eq!(pairs[8].1, "credentials");
}

#[test]
fn test_resolve_entries_first_match_wins() {
    let entries = vec![
        None,
        Some("garbage".to_string()),
        Some("sk-ant-first".to_string()),
        Some("sk-ant-second".to_string()),
    ];
    let creds = resolve_keychain_entries(&entries).unwrap();
    assert_eq!(creds.api_key, "sk-ant-first");
    let empty: Vec<Option<String>> = vec![None, Some("nope".to_string())];
    assert!(resolve_keychain_entries(&empty).is_none());
}

#[test]
fn test_classify_validation_status() {
    assert_eq!(classify_validation_status(200), ValidationOutcome::Valid);
    assert_eq!(classify_validation_status(204), ValidationOutcome::Valid);
    assert_eq!(classify_validation_status(401), ValidationOutcome::Invalid);
    assert_eq!(classify_validation_status(500), ValidationOutcome::Failed);
    assert_eq!(classify_validation_status(403), ValidationOutcome::Failed);
}

#[test]
fn test_check_auth_status_no_credentials() {
    // No keychain entries and no cached record: unauthenticated, "none".
    let mut store = auth_store();
    let status = store.check_auth_status(None, None, 0);
    assert_eq!(status.authenticated, false);
    assert_eq!(status.source, AuthSource::NoCredentials);
    assert_eq!(status.source_label(), "none");
    assert_eq!(status.email, None);
}

#[test]
fn test_check_auth_status_keychain_valid() {
    let mut store = auth_store();
    let creds = ClaudeCredentials {
        api_key: "sk-ant-abc".to_string(),
        email: Some("me@example.com".to_string()),
        subscription_tier: None,
    };
    let status = store.check_auth_status(Some(creds), Some(ValidationOutcome::Valid), 42);
    assert!(status.authenticated);
    assert_eq!(status.source_label(), "keychain");
    assert_eq!(status.email, Some("me@example.com".to_string()));
    // The validated credentials were cached for later fallback.
    let cached = store.get_credentials().unwrap();
    assert_eq!(cached.api_key, "sk-ant-abc");
}

#[test]
fn test_check_auth_status_database_fallback() {
    let mut store = auth_store();
    store
        .store_credentials("sk-ant-old".to_string(), Some("old@example.com".to_string()), None, 7)
        .unwrap();
    // The keychain key failed validation; the cached record still answers.
    let creds = ClaudeCredentials {
        api_key: "sk-ant-new".to_string(),
        email: None,
        subscription_tier: None,
    };
    let status = store.check_auth_status(Some(creds), Some(ValidationOutcome::Invalid), 8);
    assert!(status.authenticated);
    assert_eq!(status.source_label(), "database");
    assert_eq!(status.email, Some("old@example.com".to_string()));
}

#[test]
fn test_save_api_key_valid() {
    let mut store = auth_store();
    let result = store.save_api_key(
        "sk-ant-manual".to_string(),
        Some("hand@example.com".to_string()),
        ValidationOutcome::Valid,
        99,
    );
    assert!(result.is_ok());
    let cached = store.get_credentials().unwrap();
    assert_eq!(cached.api_key, "sk-ant-manual");
    assert_eq!(cached.email, Some("hand@example.com".to_string()));
    assert_eq!(cached.subscription_tier, None);
}

#[test]
fn test_save_api_key_invalid() {
    let mut store = auth_store();
    let result = store.save_api_key("bad".to_string(), None, ValidationOutcome::Invalid, 1);
    assert_eq!(result.unwrap_err(), AuthError::InvalidKey);
    assert!(store.get_credentials().is_err());
}

#[test]
fn test_save_api_key_validation_failed() {
    let mut store = auth_store();
    let result = store.save_api_key("key".to_string(), None, ValidationOutcome::Failed, 1);
    let err = result.unwrap_err();
    assert_eq!(err, AuthError::ValidationFailed);
    assert_eq!(err.message(), "validation failed");
    assert!(store.get_credentials().is_err());
}

#[test]
fn test_get_credentials_not_found() {
    let store = auth_store();
    assert!(store.get_credentials().is_err());
}
