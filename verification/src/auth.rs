//! The credential store's verified half: which settings it needs, which URL
//! it queries, and how its answer is judged.
//!
//! The store itself is a remote key-value service; fetching the stored value
//! is network I/O and lives outside. What comes back is compared here.

use vstd::prelude::*;
use vstd::string::*;
use crate::error::ServerError;
use crate::text::str_eq;

verus! {

/// The credential store's settings, read from the environment at startup.
pub struct Config {
    pub cloudflare_account: Option<String>,
    pub cloudflare_namespace: Option<String>,
    pub cloudflare_auth_email: Option<String>,
    pub cloudflare_auth_key: Option<String>,
}

/// The remote key-value credential store.
pub struct CfWorkerStore;

impl CfWorkerStore {
    /// The settings a lookup needs — account, namespace, auth email, auth
    /// key — or `InvalidConfig` if any of them is missing.
    pub fn store_settings(config: &Config) -> (r: Result<
        (String, String, String, String),
        ServerError,
    >)
        ensures
            r is Ok <==> (config.cloudflare_account is Some && config.cloudflare_namespace is Some
                && config.cloudflare_auth_email is Some && config.cloudflare_auth_key is Some),
            r matches Ok(v) ==> {
                &&& v.0@ == config.cloudflare_account->Some_0@
                &&& v.1@ == config.cloudflare_namespace->Some_0@
                &&& v.2@ == config.cloudflare_auth_email->Some_0@
                &&& v.3@ == config.cloudflare_auth_key->Some_0@
            },
            r matches Err(e) ==> e == ServerError::InvalidConfig,
    {
        let account = match &config.cloudflare_account {
            Some(v) => v.clone(),
            None => {
                return Err(ServerError::InvalidConfig);
            },
        };
        let namespace = match &config.cloudflare_namespace {
            Some(v) => v.clone(),
            None => {
                return Err(ServerError::InvalidConfig);
            },
        };
        let email = match &config.cloudflare_auth_email {
            Some(v) => v.clone(),
            None => {
                return Err(ServerError::InvalidConfig);
            },
        };
        let key = match &config.cloudflare_auth_key {
            Some(v) => v.clone(),
            None => {
                return Err(ServerError::InvalidConfig);
            },
        };
        Ok((account, namespace, email, key))
    }

    /// The URL under which the store keeps the value for `value` (the
    /// subdomain being claimed).
    pub fn kv_request_url(account: &str, namespace: &str, value: &str) -> (r: String)
        ensures
            r@ == "https://api.cloudflare.com/client/v4/accounts/"@ + account@
                + "/storage/kv/namespaces/"@ + namespace@ + "/values/"@ + value@,
    {
        let mut url = String::from_str("https://api.cloudflare.com/client/v4/accounts/");
        url.append(account);
        url.append("/storage/kv/namespaces/");
        url.append(namespace);
        url.append("/values/");
        url.append(value);
        url
    }

    /// Judges the store's answer: the credential is valid exactly when the
    /// stored value equals the presented credential.
    pub fn credential_matches(credential: &str, stored: &str) -> (r: bool)
        ensures
            r == (credential@ == stored@),
    {
        str_eq(credential, stored)
    }
}

} // verus!
