use localtunnel::api::{
    api_status_info, auth_step, credential_from_query, registration_screen,
    registration_success, AuthOutcome, RegistrationStep,
};

#[test]
fn valid_subdomain_without_auth_allocates() {
    let step = registration_screen("demo", false, &None);
    assert!(matches!(step, RegistrationStep::Allocate));
}

#[test]
fn invalid_subdomain_is_rejected_with_400() {
    let step = registration_screen("DEMO", false, &None);
    match step {
        RegistrationStep::Reject(reply) => {
            assert_eq!(reply.status, 400);
            assert!(reply.body.contains("invalid"));
            assert_eq!(
                reply.body,
                "Request subdomain is invalid, only chars in lowercase and numbers are allowed"
            );
        }
        _ => panic!("expected a rejection"),
    }
}

#[test]
fn missing_credential_is_rejected_when_auth_is_required() {
    let step = registration_screen("demo", true, &None);
    match step {
        RegistrationStep::Reject(reply) => {
            assert_eq!(reply.status, 400);
            assert_eq!(reply.body, "Request Error: credential param is empty.");
        }
        _ => panic!("expected a rejection"),
    }
}

#[test]
fn present_credential_goes_to_the_auth_check() {
    let step = registration_screen("demo", true, &Some("tok".to_string()));
    match step {
        RegistrationStep::CheckAuth(credential) => assert_eq!(credential, "tok"),
        _ => panic!("expected an auth check"),
    }
}

#[test]
fn invalid_subdomain_is_rejected_before_the_auth_gate() {
    let step = registration_screen("DEMO", true, &Some("tok".to_string()));
    match step {
        RegistrationStep::Reject(reply) => assert_eq!(reply.status, 400),
        _ => panic!("expected a rejection"),
    }
}

#[test]
fn valid_credential_allocates() {
    assert!(matches!(auth_step(AuthOutcome::Valid), RegistrationStep::Allocate));
}

#[test]
fn invalid_credential_is_rejected_with_400() {
    match auth_step(AuthOutcome::Invalid) {
        RegistrationStep::Reject(reply) => {
            assert_eq!(reply.status, 400);
            assert_eq!(reply.body, "Error: credential is not valid.");
        }
        _ => panic!("expected a rejection"),
    }
}

#[test]
fn auth_backend_failure_is_a_500() {
    match auth_step(AuthOutcome::Error("store unreachable".to_string())) {
        RegistrationStep::Reject(reply) => {
            assert_eq!(reply.status, 500);
            assert_eq!(reply.body, "Server Error: store unreachable");
        }
        _ => panic!("expected a rejection"),
    }
}

#[test]
fn registration_response_advertises_the_tenant() {
    let info = registration_success("demo", 35123, 2, false, "lt.test");
    assert_eq!(info.id, "demo");
    assert_eq!(info.port, 35123);
    assert_eq!(info.max_conn_count, 2);
    assert_eq!(info.url, "http://demo.lt.test");
}

#[test]
fn secure_server_advertises_https() {
    let info = registration_success("demo", 35123, 10, true, "lt.test");
    assert_eq!(info.url, "https://demo.lt.test");
}

#[test]
fn advertised_url_wraps_subdomain_and_domain() {
    let info = registration_success("sub-1", 1, 1, false, "example.org");
    assert!(info.url.ends_with("example.org"));
    assert!(info.url.starts_with("http://"));
    assert!(info.url["http://".len()..].starts_with("sub-1."));
}

#[test]
fn credential_is_read_from_the_query() {
    assert_eq!(
        credential_from_query(&Some("credential=tok".to_string())),
        Some("tok".to_string())
    );
    assert_eq!(
        credential_from_query(&Some("foo=1&credential=tok&bar=2".to_string())),
        Some("tok".to_string())
    );
    assert_eq!(
        credential_from_query(&Some("credential=".to_string())),
        Some("".to_string())
    );
    assert_eq!(credential_from_query(&Some("foo=1&bar=2".to_string())), None);
    assert_eq!(credential_from_query(&Some("".to_string())), None);
    assert_eq!(credential_from_query(&None), None);
}

#[test]
fn status_endpoint_is_stubbed() {
    let status = api_status_info();
    assert_eq!(status.tunnels_count, 0);
    assert_eq!(status.tunels, "kaichao");
}
