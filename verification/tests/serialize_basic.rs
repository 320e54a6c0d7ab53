use cookie_monster::{Cookie, Error, SameSite};

#[test]
fn name_value_name_value() {
    assert_eq!(Cookie::new("foo", "bar").serialize().as_deref(), Ok("foo=bar"));
    assert_eq!(Cookie::new("foo", "").serialize().as_deref(), Ok("foo="));
    assert_eq!(Cookie::new("foo", "\"\"").serialize().as_deref(), Ok("foo=\"\""));
}

#[test]
fn name_value_invalid_name_value() {
    assert_eq!(Cookie::new("", "bar").serialize().as_deref(), Err(&Error::NameEmpty));
    assert_eq!(Cookie::new("foo\0", "bar").serialize().as_deref(), Err(&Error::InvalidName('\0')));
    assert_eq!(
        Cookie::new("foo", "bar\0").serialize().as_deref(),
        Err(&Error::InvalidValue('\0'))
    );
    assert_eq!(Cookie::new("foo", " ").serialize().as_deref(), Err(&Error::InvalidValue(' ')));
    assert_eq!(Cookie::new("foo", "\"").serialize().as_deref(), Err(&Error::InvalidValue('\"')));
}

#[test]
fn domain() {
    assert_eq!(
        Cookie::build("foo", "bar").domain("rust-lang.com").build().serialize().as_deref(),
        Ok("foo=bar; Domain=rust-lang.com")
    );

    assert_eq!(
        Cookie::build("foo", "bar").domain(".rust-lang.com").build().serialize().as_deref(),
        Ok("foo=bar; Domain=rust-lang.com")
    );

    assert_eq!(Cookie::build("foo", "bar").domain("").build().serialize().as_deref(), Ok("foo=bar"));

    assert_eq!(
        Cookie::build("foo", "bar").domain("rust-lang\0.com").build().serialize().as_deref(),
        Ok("foo=bar")
    );
}

#[test]
fn domain_matching() {
    assert_eq!(
        Cookie::build("foo", "bar").domain("rust-lang.com"),
        Cookie::build("foo", "bar").domain("rust-lang.com"),
    );
    assert_eq!(
        Cookie::build("foo", "bar").domain("rust-lang.com"),
        Cookie::build("foo", "bar").domain("RUST-LANG.COM"),
    );

    assert_eq!(
        Cookie::build("foo", "bar").domain("rust-lang.com"),
        Cookie::build("foo", "bar").domain(".rust-lang.com"),
    );
}

#[test]
fn path() {
    assert_eq!(
        Cookie::build("foo", "bar").path("/home").build().serialize().as_deref(),
        Ok("foo=bar; Path=/home")
    );

    assert_eq!(
        Cookie::build("foo", "bar").path("home").build().serialize().as_deref(),
        Err(&Error::NoLeadingSlash)
    );
    assert_eq!(
        Cookie::build("foo", "bar").path("").build().serialize().as_deref(),
        Err(&Error::EmptyPathValue)
    );
}

#[test]
fn max_age() {
    assert_eq!(
        Cookie::build("foo", "bar").max_age_secs(0).build().serialize().as_deref(),
        Ok("foo=bar; Max-Age=0")
    );
    assert_eq!(
        Cookie::build("foo", "bar").max_age_secs(12).build().serialize().as_deref(),
        Ok("foo=bar; Max-Age=12")
    );
}

#[test]
fn secure() {
    assert_eq!(
        Cookie::build("foo", "bar").secure().build().serialize().as_deref(),
        Ok("foo=bar; Secure")
    );
    assert_eq!(
        Cookie::build("foo", "").secure().build().serialize().as_deref(),
        Ok("foo=; Secure")
    );
}

#[test]
fn http_only() {
    assert_eq!(
        Cookie::build("foo", "bar").http_only().build().serialize().as_deref(),
        Ok("foo=bar; HttpOnly")
    );
    assert_eq!(
        Cookie::build("foo", "").http_only().build().serialize().as_deref(),
        Ok("foo=; HttpOnly")
    );
}

#[test]
fn partitioned() {
    assert_eq!(
        Cookie::build("foo", "bar").partitioned().build().serialize().as_deref(),
        Ok("foo=bar; Secure; Partitioned")
    );
    assert_eq!(
        Cookie::build("foo", "").partitioned().build().serialize().as_deref(),
        Ok("foo=; Secure; Partitioned")
    );
}

#[test]
fn same_site() {
    assert_eq!(
        Cookie::build("foo", "bar").same_site(SameSite::Strict).build().serialize().as_deref(),
        Ok("foo=bar; SameSite=Strict")
    );
    assert_eq!(
        Cookie::build("foo", "bar").same_site(SameSite::Lax).build().serialize().as_deref(),
        Ok("foo=bar; SameSite=Lax")
    );
    assert_eq!(
        Cookie::build("foo", "bar").same_site(SameSite::NoneValue).build().serialize().as_deref(),
        Ok("foo=bar; Secure; SameSite=None")
    );
}

#[test]
fn encoded() {
    assert_eq!(Cookie::new("foo", "bar\0").serialize_encoded().as_deref(), Ok("foo=bar%00"));

    assert_eq!(
        Cookie::new("foo !%?=", "bar;;, a").serialize_encoded().as_deref(),
        Ok("foo%20!%%3F%3D=bar%3B%3B%2C%20a")
    );
}
