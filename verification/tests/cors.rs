use ethos_protocol::cors::cors_allowed_origins;

#[test]
fn empty_setting_configures_no_policy() {
    assert_eq!(cors_allowed_origins(""), None);
}

#[test]
fn origins_are_split_on_commas_and_trimmed() {
    assert_eq!(
        cors_allowed_origins("https://a.example, https://b.example ,http://localhost:3000"),
        Some(vec![
            "https://a.example".to_string(),
            "https://b.example".to_string(),
            "http://localhost:3000".to_string(),
        ])
    );
    assert_eq!(
        cors_allowed_origins("a,,b"),
        Some(vec!["a".to_string(), "".to_string(), "b".to_string()])
    );
}

#[test]
fn pieces_that_are_not_header_values_are_dropped() {
    assert_eq!(
        cors_allowed_origins("https://ok.example,bad\u{7f}origin,x\ty"),
        Some(vec!["https://ok.example".to_string(), "x\ty".to_string()])
    );
    assert_eq!(cors_allowed_origins("caf\u{e9}"), Some(vec!["caf\u{e9}".to_string()]));
}
