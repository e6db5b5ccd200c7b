use localtunnel::auth::{CfWorkerStore, Config};
use localtunnel::error::ServerError;

fn full_config() -> Config {
    Config {
        cloudflare_account: Some("acct".to_string()),
        cloudflare_namespace: Some("ns".to_string()),
        cloudflare_auth_email: Some("ops@lt.test".to_string()),
        cloudflare_auth_key: Some("SECRET-REDACTED".to_string()),
    }
}

#[test]
fn complete_settings_are_handed_out() {
    let (account, namespace, email, key) = CfWorkerStore::store_settings(&full_config()).unwrap();
    assert_eq!(account, "acct");
    assert_eq!(namespace, "ns");
    assert_eq!(email, "ops@lt.test");
    assert_eq!(key, "SECRET-REDACTED");
}

#[test]
fn a_missing_setting_is_an_invalid_config() {
    let mut config = full_config();
    config.cloudflare_namespace = None;
    assert!(matches!(
        CfWorkerStore::store_settings(&config),
        Err(ServerError::InvalidConfig)
    ));
}

#[test]
fn lookup_url_names_account_namespace_and_value() {
    let url = CfWorkerStore::kv_request_url("acct", "ns", "demo");
    assert_eq!(
        url,
        "https://api.cloudflare.com/client/v4/accounts/acct/storage/kv/namespaces/ns/values/demo"
    );
}

#[test]
fn credential_must_equal_the_stored_value() {
    assert!(CfWorkerStore::credential_matches("tok", "tok"));
    assert!(!CfWorkerStore::credential_matches("tok", "other"));
    assert!(!CfWorkerStore::credential_matches("tok", ""));
}
