use cookie_monster::{Cookie, SameSite};

#[test]
fn parse_same_site() {
    let expected = Ok(Cookie::build("foo", "bar").same_site(SameSite::Lax).build());
    assert_eq!(Cookie::parse_cookie("foo=bar; SameSite=Lax"), expected);
    assert_eq!(Cookie::parse_cookie("foo=bar; SameSite=lax"), expected);
    assert_eq!(Cookie::parse_cookie("foo=bar; SameSite=LAX"), expected);
    assert_eq!(Cookie::parse_cookie("foo=bar; samesite=Lax"), expected);
    assert_eq!(Cookie::parse_cookie("foo=bar; SAMESITE=Lax"), expected);

    let expected = Ok(Cookie::build("foo", "bar").same_site(SameSite::Strict).build());
    assert_eq!(Cookie::parse_cookie("foo=bar; SameSite=Strict"), expected);
    assert_eq!(Cookie::parse_cookie("foo=bar; SameSITE=Strict"), expected);
    assert_eq!(Cookie::parse_cookie("foo=bar; SameSite=strict"), expected);
    assert_eq!(Cookie::parse_cookie("foo=bar; SameSite=STrICT"), expected);
    assert_eq!(Cookie::parse_cookie("foo=bar; SameSite=STRICT"), expected);

    let expected = Ok(Cookie::build("foo", "bar").same_site(SameSite::NoneValue).build());
    assert_eq!(Cookie::parse_cookie("foo=bar; SameSite=None"), expected);
    assert_eq!(Cookie::parse_cookie("foo=bar; SameSITE=none"), expected);
    assert_eq!(Cookie::parse_cookie("foo=bar; SameSite=NOne"), expected);
    assert_eq!(Cookie::parse_cookie("foo=bar; SameSite=nOne"), expected);
}

#[test]
fn eq() {
    let expected = Ok(Cookie::build("foo", "bar").same_site(SameSite::NoneValue).build());
    assert_ne!(Cookie::parse_cookie("foo=bar"), expected);
}
