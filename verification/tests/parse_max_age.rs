use cookie_monster::Cookie;

#[test]
fn max_age_max_age() {
    let cookie = || Ok(Cookie::build("foo", "bar").max_age_secs(0).build());
    assert_eq!(Cookie::parse_cookie("foo=bar; Max-Age=0"), cookie());
    assert_eq!(Cookie::parse_cookie("foo=bar; max-age=0"), cookie());
    assert_eq!(Cookie::parse_cookie("foo=bar; MAX-AGE=0"), cookie());
    assert_eq!(Cookie::parse_cookie("foo=bar; Max-Age=-0"), cookie());
    assert_eq!(Cookie::parse_cookie("foo=bar; Max-Age=-10"), cookie());

    let cookie = || Ok(Cookie::build("foo", "bar").max_age_secs(10).build());

    assert_eq!(Cookie::parse_cookie("foo=bar; Max-Age=10"), cookie());
    assert_eq!(Cookie::parse_cookie("foo=bar; max-age= 10"), cookie());
    assert_eq!(Cookie::parse_cookie("foo=bar; MAX-AGE=  10"), cookie());
    assert_eq!(Cookie::parse_cookie("foo=bar; Max-Age=10 "), cookie());
    assert_eq!(Cookie::parse_cookie("foo=bar; Max-Age=10  "), cookie());
    assert_eq!(Cookie::parse_cookie("foo=bar; Max-Age=  10  "), cookie());
}

#[test]
fn invalid_max_age() {
    let cookie = || Ok(Cookie::build("foo", "bar").max_age_secs(10).build());

    assert_eq!(Cookie::parse_cookie("foo=bar; Max-Age=abc"), Ok(Cookie::new("foo", "bar")));
    assert_eq!(Cookie::parse_cookie("foo=bar; Max-Age=+10"), cookie());
    assert_eq!(Cookie::parse_cookie("foo=bar; Max-Age=-+1"), Ok(Cookie::new("foo", "bar")));
    assert_eq!(Cookie::parse_cookie("foo=bar; Max-Age="), Ok(Cookie::new("foo", "bar")));

    let cookie = || Ok(Cookie::build("foo", "bar").max_age_secs(u64::MAX).build());

    assert_ne!(
        Cookie::parse_cookie(&format!("foo=bar; Max-Age={}", (u64::MAX as u128) + 1)),
        cookie()
    );
}
