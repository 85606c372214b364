use hiquant::urlencoding::encode_value;

#[test]
fn url_encode_basics() {
    assert_eq!(encode_value("000001"), "000001");
    assert_eq!(encode_value("a b"), "a%20b");
    assert_eq!(encode_value("IF2306"), "IF2306");
}

#[test]
fn url_encode_reserved_and_multibyte() {
    assert_eq!(encode_value("a&b=c"), "a%26b%3Dc");
    assert_eq!(encode_value("-_.~"), "-_.~");
    assert_eq!(encode_value("é"), "%C3%A9");
    assert_eq!(encode_value(""), "");
}

#[test]
fn url_encode_is_ascii_and_never_shorter() {
    for s in ["", "abc", "a b/c?d", "价格", "Az09-_.~", "%"] {
        let e = encode_value(s);
        assert!(e.is_ascii());
        assert!(e.len() >= s.len());
        let plain = s.bytes().all(|b| b.is_ascii_alphanumeric() || b"-_.~".contains(&b));
        assert_eq!(e == s, plain);
    }
}
