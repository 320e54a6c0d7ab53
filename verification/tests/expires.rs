use cookie_monster::{Cookie, ExpVal, Expires, MAX_UNIX};

fn date(year: u16, month: u8, day: u8, hour: u8, minute: u8, second: u8) -> Expires {
    Expires::Exp(ExpVal::new(year, month, day, hour, minute, second).unwrap())
}

#[test]
fn dep_chrono_parse() {
    let expires = date(2015, 10, 21, 7, 28, 0);

    let expected = Cookie::build("foo", "bar").expires(expires).build();

    assert_eq!(
        expected.serialize().as_deref(),
        Ok("foo=bar; Expires=Wed, 21 Oct 2015 07:28:00 GMT")
    )
}

#[test]
fn large_date() {
    // One week past the largest representable instant clamps to it.
    let expires = Expires::Exp(ExpVal::from_unix_seconds(MAX_UNIX + 604800));
    assert_eq!(
        Cookie::build("foo", "bar").expires(expires).build().serialize().as_deref(),
        Ok("foo=bar; Expires=Fri, 31 Dec 9999 23:59:59 GMT")
    );
}

#[test]
fn zoned() {
    let now = Expires::Exp(ExpVal::from_unix_seconds(1700000000));

    let _ = Cookie::build("key", "value").expires(now);
}

#[test]
fn dep_jiff_parse() {
    let expires = date(2015, 10, 21, 7, 28, 0);

    let expected = Cookie::build("foo", "bar").expires(expires).build();

    assert_eq!(
        expected.serialize().as_deref(),
        Ok("foo=bar; Expires=Wed, 21 Oct 2015 07:28:00 GMT")
    )
}

#[test]
fn dep_time_parse() {
    let expires = date(2015, 10, 21, 7, 28, 0);

    let expected = Cookie::build("foo", "bar").expires(expires).build();

    assert_eq!(
        expected.serialize().as_deref(),
        Ok("foo=bar; Expires=Wed, 21 Oct 2015 07:28:00 GMT")
    )
}

#[test]
fn jiff() {
    let expires = date(2025, 10, 10, 23, 37, 0);

    assert_eq!(
        Cookie::parse_cookie("foo=bar; Expires=Fri, 10 Oct 2025 23:37:00 GMT"),
        Ok(Cookie::build("foo", "bar").expires(expires).build())
    );
}

#[test]
fn chrono() {
    let expires = date(2025, 10, 10, 23, 37, 0);

    assert_eq!(
        Cookie::parse_cookie("foo=bar; Expires=Fri, 10 Oct 2025 23:37:00 GMT"),
        Ok(Cookie::build("foo", "bar").expires(expires).build())
    );
}

#[test]
fn time() {
    let expires = date(2025, 10, 10, 23, 37, 0);

    assert_eq!(
        Cookie::parse_cookie("foo=bar; Expires=Fri, 10 Oct 2025 23:37:00 GMT"),
        Ok(Cookie::build("foo", "bar").expires(expires).build())
    );
}

#[test]
fn all() {
    // Only the last Expires set takes effect.
    let expires = date(2025, 10, 10, 23, 37, 0);

    assert_eq!(
        Cookie::build("foo", "bar")
            .expires(Expires::Exp(ExpVal::from_unix_seconds(MAX_UNIX)))
            .expires(Expires::Exp(ExpVal::from_unix_seconds(1700000000)))
            .expires(expires)
            .build()
            .serialize()
            .as_deref(),
        Ok("foo=bar; Expires=Fri, 10 Oct 2025 23:37:00 GMT")
    );
}
