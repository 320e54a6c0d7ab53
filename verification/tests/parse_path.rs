use cookie_monster::Cookie;

#[test]
fn path_path() {
    assert_eq!(
        Cookie::parse_cookie("foo=bar; Path=/home"),
        Ok(Cookie::build("foo", "bar").path("/home").build())
    );
    assert_eq!(
        Cookie::parse_cookie("foo=bar; Path= /home"),
        Ok(Cookie::build("foo", "bar").path("/home").build())
    );
    assert_eq!(
        Cookie::parse_cookie("foo=bar; Path=/home "),
        Ok(Cookie::build("foo", "bar").path("/home").build())
    );
    assert_eq!(
        Cookie::parse_cookie("foo=bar; Path= /home "),
        Ok(Cookie::build("foo", "bar").path("/home").build())
    );
    assert_eq!(
        Cookie::parse_cookie("foo=bar; PATH=/home"),
        Ok(Cookie::build("foo", "bar").path("/home").build())
    );
}

#[test]
fn invalid_path() {
    assert_eq!(Cookie::parse_cookie("foo=bar; Path="), Ok(Cookie::new("foo", "bar")));
    assert_eq!(Cookie::parse_cookie("foo=bar; Path=home"), Ok(Cookie::new("foo", "bar")));
    assert_eq!(Cookie::parse_cookie("foo=bar; Path=home/"), Ok(Cookie::new("foo", "bar")));
    assert_eq!(Cookie::parse_cookie("foo=bar; Path=home/test"), Ok(Cookie::new("foo", "bar")));
    assert_eq!(Cookie::parse_cookie("foo=bar; Path=/home/\0"), Ok(Cookie::new("foo", "bar")));
}
