use cookie_monster::Cookie;

#[test]
fn http_only_http_only() {
    assert_eq!(
        Cookie::parse_cookie(" foo=bar; HttpOnly"),
        Ok(Cookie::build("foo", "bar").http_only().build())
    );
    assert_eq!(
        Cookie::parse_cookie(" foo=bar;HttpOnly"),
        Ok(Cookie::build("foo", "bar").http_only().build())
    );
    assert_eq!(
        Cookie::parse_cookie(" foo=bar; httponly"),
        Ok(Cookie::build("foo", "bar").http_only().build())
    );
    assert_eq!(
        Cookie::parse_cookie(" foo=bar;httponly"),
        Ok(Cookie::build("foo", "bar").http_only().build())
    );
    assert_eq!(
        Cookie::parse_cookie(" foo=bar ;HttpOnly"),
        Ok(Cookie::build("foo", "bar").http_only().build())
    );
    assert_eq!(
        Cookie::parse_cookie(" foo=bar ;HttpOnly;;"),
        Ok(Cookie::build("foo", "bar").http_only().build())
    );
}

#[test]
fn invalid_http_only() {
    assert_eq!(Cookie::parse_cookie(" foo=bar; HttpOnly\0"), Ok(Cookie::new("foo", "bar")));
}

#[test]
fn secure_secure() {
    assert_eq!(
        Cookie::parse_cookie("foo=bar; Secure"),
        Ok(Cookie::build("foo", "bar").secure().build())
    );
    assert_eq!(
        Cookie::parse_cookie("foo=bar; secure"),
        Ok(Cookie::build("foo", "bar").secure().build())
    );
    assert_eq!(
        Cookie::parse_cookie("foo=bar; SECURE"),
        Ok(Cookie::build("foo", "bar").secure().build())
    );
}

#[test]
fn invalid_secure() {
    assert_eq!(Cookie::parse_cookie("foo=bar; Sekure"), Ok(Cookie::new("foo", "bar")));
    assert_eq!(Cookie::parse_cookie("foo=bar; Secure\0"), Ok(Cookie::new("foo", "bar")));
}

#[test]
fn partitioned_partitioned() {
    assert_eq!(
        Cookie::parse_cookie(" foo=bar; Partitioned"),
        Ok(Cookie::build("foo", "bar").partitioned().build())
    );
    assert_eq!(
        Cookie::parse_cookie(" foo=bar; partitioned"),
        Ok(Cookie::build("foo", "bar").partitioned().build())
    );
    assert_eq!(
        Cookie::parse_cookie(" foo=bar; PARTITIONED"),
        Ok(Cookie::build("foo", "bar").partitioned().build())
    );
    assert_ne!(
        Cookie::parse_cookie(" foo=bar"),
        Ok(Cookie::build("foo", "bar").partitioned().build())
    );
}
