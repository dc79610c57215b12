use rum::http::path::Path;
use rum::http::url::urldecode;

#[test]
fn test_path() {
    let path = "/hello?foo=bar&hello%3Dworld";
    let path = Path::parse(path).unwrap();
    assert_eq!(path.path(), "/hello");
    assert_eq!(path.query().get("foo"), Some(&"bar".to_string()));
}

#[test]
fn test_urldecode() {
    let url = "?foo=bar&hello=world";
    let encoded = urldecode(url);
    assert_eq!(encoded, "?foo=bar&hello=world");

    let url = "?foo=bar&hello=world%20&apples%3Doranges";
    let encoded = urldecode(url);
    assert_eq!(encoded, "?foo=bar&hello=world &apples=oranges");
}

#[test]
fn test_urldecode_edges() {
    // A percent sign with no hexadecimal digits decodes to nothing.
    assert_eq!(urldecode("abc%zz"), "abczz");
    assert_eq!(urldecode("%"), "");
    // A run whose value does not fit one byte decodes to nothing.
    assert_eq!(urldecode("%FFF"), "");
    // The whole digit run names one byte; leading zeroes are accepted.
    assert_eq!(urldecode("%0041"), "A");
}

#[test]
fn test_path_root_and_resource() {
    let root = Path::default();
    assert!(root.is_root());
    assert_eq!(root.resource(), None);

    let path = Path::parse("/users/5").unwrap();
    assert!(!path.is_root());
    assert_eq!(path.resource(), Some("5"));

    let prefix = Path::parse("/users").unwrap();
    assert!(prefix.matches(&path));
    assert!(!path.matches(&prefix));
}

#[test]
fn test_path_malformed_query() {
    assert!(Path::parse("/a?b=1?c=2").is_err());
    // An encoded question mark decodes into a real one before splitting.
    assert!(Path::parse("/a%3F?b=1").is_err());
}

#[test]
fn test_path_query_pairs() {
    let path = Path::parse("/p?a=1&bad&x=2=3&b=2").unwrap();
    // Segments without exactly one equals sign are skipped.
    assert_eq!(path.query().get("a"), Some(&"1".to_string()));
    assert_eq!(path.query().get("b"), Some(&"2".to_string()));
    assert_eq!(path.query().get("bad"), None);
    assert_eq!(path.query().get("x"), None);
}
