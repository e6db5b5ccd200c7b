use localtunnel::error::ServerError;
use localtunnel::proxy::{extract, plan_upgrade, resolve_endpoint, UpgradeAction};

#[test]
fn extract_subdomain_works() {
    let hostname = "demo.example.org";
    let subdomain = "demo".to_string();

    let domains = [
        &format!("http://{}", hostname),
        &format!("https://{}", hostname),
        &format!("ws://{}", hostname),
        &format!("wss://{}", hostname),
        hostname,
    ];

    for domain in domains {
        assert_eq!(extract(domain).unwrap(), subdomain);
    }
}

#[test]
fn extract_tolerates_a_port() {
    assert_eq!(extract("demo.lt.test:3001").unwrap(), "demo");
    assert_eq!(extract("http://demo.lt.test:3001").unwrap(), "demo");
}

#[test]
fn extract_without_dot_returns_whole_label() {
    assert_eq!(extract("localhost").unwrap(), "localhost");
}

#[test]
fn extract_rejects_an_empty_label() {
    assert!(matches!(extract(""), Err(ServerError::InvalidHostName)));
    assert!(matches!(
        extract(".example.org"),
        Err(ServerError::InvalidHostName)
    ));
    assert!(matches!(
        extract("https://.example.org"),
        Err(ServerError::InvalidHostName)
    ));
}

#[test]
fn resolve_endpoint_requires_a_host() {
    assert!(matches!(
        resolve_endpoint(&None),
        Err(ServerError::NoHostHeader)
    ));
    let host = Some("demo.lt.test".to_string());
    assert_eq!(resolve_endpoint(&host).unwrap(), "demo");
}

#[test]
fn upgrade_is_spliced_only_on_matching_101() {
    let websocket = Some("websocket".to_string());
    assert_eq!(
        plan_upgrade(101, "websocket", &websocket).unwrap(),
        UpgradeAction::Splice
    );
    assert_eq!(
        plan_upgrade(101, "websocket", &Some("h2c".to_string())).unwrap(),
        UpgradeAction::Verbatim
    );
    assert_eq!(
        plan_upgrade(200, "websocket", &websocket).unwrap(),
        UpgradeAction::Verbatim
    );
    assert_eq!(
        plan_upgrade(200, "websocket", &None).unwrap(),
        UpgradeAction::Verbatim
    );
    assert!(matches!(
        plan_upgrade(101, "websocket", &None),
        Err(ServerError::NoUpgradeHeader)
    ));
}

#[test]
fn error_statuses_follow_the_table() {
    assert_eq!(ServerError::NoHostHeader.http_status(), 400);
    assert_eq!(ServerError::InvalidHostName.http_status(), 400);
    assert_eq!(ServerError::ProxyNotReady.http_status(), 502);
    assert_eq!(ServerError::EmptyConnection.http_status(), 502);
    assert_eq!(ServerError::NoUpgradeHeader.http_status(), 502);
    assert_eq!(ServerError::NoUpgradeExtension.http_status(), 502);
    assert_eq!(ServerError::InvalidConfig.http_status(), 500);
}

#[test]
fn error_messages_describe_the_kind() {
    assert_eq!(
        ServerError::ProxyNotReady.message(),
        "Proxy connection is not setup"
    );
    assert_eq!(
        ServerError::EmptyConnection.message(),
        "Client connection is empty"
    );
    assert_eq!(ServerError::InvalidHostName.message(), "Host name is invalid");
}
