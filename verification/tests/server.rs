use davenport::auth::authorized;
use davenport::config::{settings, Environment};
use davenport::error::Error;
use davenport::text::cut_bytes;

#[test]
fn header_decides() {
    assert!(authorized("secret", Some("Bearer secret"), None));
    assert!(!authorized("secret", Some("Bearer wrong"), None));
    assert!(!authorized("secret", Some("bearer secret"), None));
    assert!(!authorized("secret", Some("secret"), None));
    assert!(!authorized("secret", Some("Bearer secret "), None));
    assert!(!authorized("secret", Some(""), None));
    assert!(!authorized("secret", None, None));
    // The header takes precedence.
    assert!(!authorized("secret", Some("Bearer wrong"), Some("token=secret")));
    assert!(authorized("secret", Some("Bearer secret"), Some("token=wrong")));
}

#[test]
fn query_is_the_fallback() {
    assert!(authorized("secret", None, Some("token=secret")));
    assert!(authorized("secret", None, Some("access_token=secret")));
    assert!(authorized("secret", None, Some("a=b&token=secret&c=d")));
    assert!(!authorized("secret", None, Some("token=wrong&access_token=secret")));
    assert!(!authorized("secret", None, Some("mytoken=secret")));
    assert!(!authorized("secret", None, Some("token=secret2")));
    assert!(!authorized("secret", None, Some("")));
    assert!(!authorized("secret", None, Some("&&")));
}

fn environment() -> Environment {
    Environment {
        email: Some("e".into()),
        password: Some("p".into()),
        auth_token: Some("t".into()),
        base_url: None,
        bind: None,
    }
}

#[test]
fn settings_have_defaults() {
    let s = settings(environment()).ok().unwrap();
    assert_eq!(s.icloud.email, "e");
    assert_eq!(s.icloud.password, "p");
    assert_eq!(s.icloud.base_url, "https://caldav.icloud.com");
    assert_eq!(s.auth_token, "t");
    assert_eq!(s.bind, "0.0.0.0:8000");
    let s = settings(Environment {
        base_url: Some("http://x".into()),
        bind: Some("127.0.0.1:1".into()),
        ..environment()
    })
    .ok()
    .unwrap();
    assert_eq!(s.icloud.base_url, "http://x");
    assert_eq!(s.bind, "127.0.0.1:1");
}

#[test]
fn settings_that_are_required() {
    let e = settings(Environment { email: None, password: None, ..environment() }).err().unwrap();
    assert!(matches!(e, Error::NoEmail));
    assert_eq!(e.message(), "ICLOUD_EMAIL is required");
    let e = settings(Environment { password: None, ..environment() }).err().unwrap();
    assert!(matches!(e, Error::NoPassword));
    assert_eq!(e.message(), "ICLOUD_APP_SPECIFIC_PASSWORD is required");
    let e = settings(Environment { auth_token: None, ..environment() }).err().unwrap();
    assert!(matches!(e, Error::NoAuthToken));
    assert_eq!(e.message(), "MCP_AUTH_TOKEN is required (server is internet-facing)");
}

#[test]
fn prefixes_end_between_characters() {
    assert_eq!(cut_bytes("2026-06-10T15", 10), "2026-06-10");
    assert_eq!(cut_bytes("2026", 10), "2026");
    assert_eq!(cut_bytes("123456789é", 10), "123456789é");
    assert_eq!(cut_bytes("12345678éx", 10), "12345678é");
}
