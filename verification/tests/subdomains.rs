use localtunnel::api::validate_endpoint;

#[test]
fn validate_endpoint_works() {
    let endpoints = [
        "demo",
        "123",
        "did-key-zq3shkkuzlvqefghdgzgfmux8vgkgvwsla83w2oekhzxocw2n",
    ];

    for endpoint in endpoints {
        assert_eq!(validate_endpoint(endpoint), true);
    }
}

#[test]
fn sixty_three_chars_is_valid() {
    let endpoint = "a".repeat(63);
    assert_eq!(endpoint.len(), 63);
    assert!(validate_endpoint(&endpoint));
}

#[test]
fn sixty_four_chars_is_invalid() {
    let endpoint = "a".repeat(64);
    assert!(!validate_endpoint(&endpoint));
}

#[test]
fn trailing_hyphen_is_invalid() {
    assert!(!validate_endpoint("demo-"));
}

#[test]
fn leading_hyphen_is_invalid() {
    assert!(!validate_endpoint("-demo"));
}

#[test]
fn inner_hyphens_are_valid() {
    assert!(validate_endpoint("de-mo-1"));
}

#[test]
fn uppercase_is_invalid() {
    assert!(!validate_endpoint("DEMO"));
    assert!(!validate_endpoint("Demo"));
}

#[test]
fn empty_is_invalid() {
    assert!(!validate_endpoint(""));
}

#[test]
fn other_characters_are_invalid() {
    assert!(!validate_endpoint("demo.app"));
    assert!(!validate_endpoint("demo_app"));
    assert!(!validate_endpoint("dém0"));
}

#[test]
fn single_char_is_valid() {
    assert!(validate_endpoint("a"));
    assert!(validate_endpoint("7"));
}
