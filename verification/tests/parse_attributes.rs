use cookie_monster::Cookie;

#[test]
fn attributes() {
    let cookie = || Cookie::build("foo", "bar").secure().http_only().build();

    assert_eq!(Cookie::parse_cookie("foo=bar; Secure; HttpOnly"), Ok(cookie()));
    assert_eq!(Cookie::parse_cookie("foo=bar; Secure;; HttpOnly"), Ok(cookie()));
}

#[test]
fn invalid_attribute() {
    // Invalid characters are skipped.
    assert_eq!(Cookie::parse_cookie("foo=bar; Secure\0"), Ok(Cookie::new("foo", "bar")));
    assert_eq!(
        Cookie::parse_cookie(" foo=bar ;HttpOnly; =secure"),
        Ok(Cookie::build("foo", "bar").http_only().build())
    );
    assert_eq!(Cookie::parse_cookie("foo=bar; Sekure"), Ok(Cookie::new("foo", "bar")));
}
