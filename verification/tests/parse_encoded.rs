use cookie_monster::Cookie;

#[test]
fn encoded_encoded() {
    assert_eq!(Cookie::parse_cookie_encoded("foo=bar%00"), Ok(Cookie::new("foo", "bar\0")));

    assert_eq!(
        Cookie::parse_cookie_encoded("foo%20!%%3F%3D=bar%3B%3B%2C%20a"),
        Ok(Cookie::new("foo !%?=", "bar;;, a"))
    );
}
