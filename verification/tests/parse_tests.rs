use cookie_monster::{Cookie, Error};

#[test]
fn tests_name_value() {
    let foo_bar = Ok(Cookie::new("foo", "bar"));

    assert_eq!(Cookie::parse_cookie("foo=bar"), foo_bar);
    assert_eq!(Cookie::parse_cookie("foo=bar;"), foo_bar);
    assert_eq!(Cookie::parse_cookie("foo=bar;;"), foo_bar);
    assert_eq!(Cookie::parse_cookie("foo=bar; ; "), foo_bar);
    assert_eq!(Cookie::parse_cookie("foo=bar ; ; "), foo_bar);
    assert_eq!(Cookie::parse_cookie("foo=bar"), foo_bar);
    assert_eq!(Cookie::parse_cookie("  foo=bar"), foo_bar);
    assert_eq!(Cookie::parse_cookie("foo  =bar"), foo_bar);
    assert_eq!(Cookie::parse_cookie("foo=  bar"), foo_bar);
    assert_eq!(Cookie::parse_cookie("foo=bar  "), foo_bar);
    assert_eq!(Cookie::parse_cookie("  foo  =  bar  "), foo_bar);
    assert_eq!(Cookie::parse_cookie("foo=\"bar\""), foo_bar);

    assert_eq!(Cookie::parse_cookie("foo=bar=foo"), Ok(Cookie::new("foo", "bar=foo")));
    assert_eq!(Cookie::parse_cookie("foo="), Ok(Cookie::new("foo", "")));
    assert_eq!(Cookie::parse_cookie("FOO=BAR"), Ok(Cookie::new("FOO", "BAR")));

    assert_eq!(Cookie::parse_cookie("foo=b%2Fr"), Ok(Cookie::new("foo", "b%2Fr")));
}

#[test]
fn tests_invalid_name_value() {
    assert_eq!(Cookie::parse_cookie("foobar"), Err(Error::EqualsNotFound));
    assert_eq!(Cookie::parse_cookie("foo&bar"), Err(Error::EqualsNotFound));

    assert_eq!(Cookie::parse_cookie(""), Err(Error::EqualsNotFound));

    assert_eq!(Cookie::parse_cookie("=bar"), Err(Error::NameEmpty));
    assert_eq!(Cookie::parse_cookie(" =bar"), Err(Error::NameEmpty));
    assert_eq!(Cookie::parse_cookie("foo=\0"), Err(Error::InvalidValue('\0')));
    assert_eq!(Cookie::parse_cookie("foo=test\0test"), Err(Error::InvalidValue('\0')));
}

#[test]
fn tests_name_value_brackets_spaces() {
    assert_eq!(Cookie::parse_cookie("foo=\"bar\""), Ok(Cookie::new("foo", "bar")));

    assert_eq!(Cookie::parse_cookie("foo=\"  bar  \""), Err(Error::InvalidValue(' ')));

    assert_eq!(Cookie::parse_cookie("foo=\""), Err(Error::InvalidValue('\"')));
    assert_eq!(Cookie::parse_cookie("foo=\"\"bar\"\""), Err(Error::InvalidValue('\"')));
    assert_eq!(Cookie::parse_cookie("foo=\"bar"), Err(Error::InvalidValue('\"')));
    assert_eq!(Cookie::parse_cookie("foo=\"\"bar"), Err(Error::InvalidValue('\"')));
    assert_eq!(Cookie::parse_cookie("foo=bar\""), Err(Error::InvalidValue('\"')));
    assert_eq!(Cookie::parse_cookie("foo=bar\"\""), Err(Error::InvalidValue('\"')));
    assert_eq!(Cookie::parse_cookie("foo=\"bar\"\""), Err(Error::InvalidValue('\"')));
    assert_eq!(Cookie::parse_cookie("foo=\"  bar\"\""), Err(Error::InvalidValue(' ')));
    assert_eq!(Cookie::parse_cookie("foo=\"  bar\"  \"  "), Err(Error::InvalidValue(' ')));
    assert_eq!(Cookie::parse_cookie(" foo=\"bar   \" "), Err(Error::InvalidValue(' ')));
}

#[test]
fn tests_name_value_brackets_spaces_not_eq() {
    assert_ne!(Cookie::parse_cookie("foo=bar"), Ok(Cookie::new("foo", "\"bar\"")));
}

#[test]
fn invalid() {
    assert_eq!(Cookie::parse_cookie("foo=bar)"), Ok(Cookie::new("foo", "bar)")));
    assert_eq!(Cookie::parse_cookie("foo)=bar"), Err(Error::InvalidName(')')));
}
