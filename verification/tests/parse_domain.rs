use cookie_monster::Cookie;

#[test]
fn domain_domain() {
    assert_eq!(
        Cookie::parse_cookie("foo=bar; Domain=domain.com"),
        Ok(Cookie::build("foo", "bar").domain("domain.com").build())
    );
    assert_eq!(
        Cookie::parse_cookie("foo=bar; domain=domain.com"),
        Ok(Cookie::build("foo", "bar").domain("domain.com").build())
    );
    assert_eq!(
        Cookie::parse_cookie("foo=bar; DOMAIN=domain.com"),
        Ok(Cookie::build("foo", "bar").domain("domain.com").build())
    );

    assert_eq!(
        Cookie::parse_cookie("foo=bar; Domain=.domain.com"),
        Ok(Cookie::build("foo", "bar").domain("domain.com").build())
    );
    assert_eq!(
        Cookie::parse_cookie("foo=bar; Domain=DOMAIN.COM"),
        Ok(Cookie::build("foo", "bar").domain("domain.com").build())
    );
    assert_eq!(
        Cookie::parse_cookie("foo=bar; Domain=domain.com."),
        Ok(Cookie::build("foo", "bar").domain("domain.com.").build())
    );
}

#[test]
fn invalid_domain() {
    assert_eq!(
        Cookie::parse_cookie("foo=bar; Domain=www.foo\0.com"),
        Ok(Cookie::new("foo", "bar"))
    );

    assert_eq!(Cookie::parse_cookie("foo=bar; Domain="), Ok(Cookie::new("foo", "bar")));
}
