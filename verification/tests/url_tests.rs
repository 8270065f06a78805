use kya::errors::Error;
use kya::url::{url_parse, url_parsed};

#[test]
fn test_url_parts() {
    let u = url_parse("https://example.com:8080/a/b?x=1").unwrap();
    assert_eq!(u.scheme(), "https");
    assert_eq!(u.host(), "example.com");
    assert_eq!(u.port(), Some(8080));
    assert_eq!(u.path(), "/a/b");
    assert_eq!(u.query(), "x=1");
    assert_eq!(u.repr(), "https://example.com:8080/a/b?x=1");
}

#[test]
fn test_url_without_host_or_query() {
    let u = url_parse("mailto:someone").unwrap();
    assert_eq!(u.host(), "");
    assert_eq!(u.query(), "");
    assert_eq!(u.port(), None);
}

#[test]
fn test_invalid_url() {
    match url_parse("not a url") {
        Err(Error::ValueError(m)) => assert!(m.starts_with("Invalid URL: ")),
        other => panic!("unexpected {:?}", other),
    }
    match url_parsed(Err("relative URL without a base".to_string())) {
        Err(Error::ValueError(m)) => assert_eq!(m, "Invalid URL: relative URL without a base"),
        other => panic!("unexpected {:?}", other),
    }
}
