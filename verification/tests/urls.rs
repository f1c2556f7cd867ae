use ftml::url::{get_full_url, is_url, join_url};

fn v(s: &str) -> Vec<u8> {
    s.as_bytes().to_vec()
}

#[test]
fn join_is_idempotent_under_slash_duplication() {
    // Every way of sprinkling one slash on either side joins to the
    // same single-slash result.
    let expected = v("site/p");
    assert_eq!(join_url(&v("site/"), &v("/p")), expected);
    assert_eq!(join_url(&v("site"), &v("p")), expected);
    assert_eq!(join_url(&v("site/"), &v("p")), expected);
    assert_eq!(join_url(&v("site"), &v("/p")), expected);
}

#[test]
fn is_url_recognizes_schemes() {
    assert!(is_url(&v("http://a")));
    assert!(is_url(&v("https://a/b")));
    assert!(is_url(&v("ftp://x")));
    assert!(!is_url(&v("/relative")));
    assert!(!is_url(&v("page")));
    assert!(!is_url(&v("")));
}

#[test]
fn full_url_passes_absolute_through() {
    let base = v("https://example.com");
    assert_eq!(get_full_url(&v("https://other.org/x"), &base), v("https://other.org/x"));
    assert_eq!(get_full_url(&v("/p"), &base), v("https://example.com/p"));
    assert_eq!(get_full_url(&v("p"), &base), v("https://example.com/p"));
}
