use shortener::config::Configuration;
use shortener::response::Response;

#[test]
fn configuration_getters() {
    let c = Configuration::with_values(
        "https://s.example".to_string(),
        "debug".to_string(),
        "sqlite:links.db".to_string(),
        8080,
        "admin".to_string(),
        "SECRET-REDACTED".to_string(),
        20,
    );
    assert_eq!(c.get_url(), "https://s.example");
    assert_eq!(c.get_log_level(), "debug");
    assert_eq!(c.get_db_url(), "sqlite:links.db");
    assert_eq!(c.get_port(), 8080);
    assert_eq!(c.get_username(), "admin");
    assert_eq!(c.get_password(), "SECRET-REDACTED");
    assert_eq!(c.get_page(), 20);
}

#[test]
fn response_carries_message() {
    let r = Response::new(200, "ok", "ignored");
    assert_eq!(r.get_status(), 200);
    assert_eq!(r.get_message(), "ok");
    assert_eq!(r.get_value(), "ok");
}
