use std::time::Duration;

use cookie_monster::{
    Cookie, CookieJar, CookieOptions, Error, ExpVal, Expires, MAX_UNIX, MIN_UNIX, SameSite,
    decode_name_value, encode_name, encode_value, find_invalid_cookie_value, is_token,
    parse_max_age, trim_quotes,
};

fn expires_year(c: &Cookie) -> u16 {
    match c.expires() {
        Expires::Exp(v) => v.year(),
        _ => panic!("no explicit expiry"),
    }
}

#[test]
fn two_digit_years() {
    // 0 through 68 mean 20xx, 69 through 99 mean 19xx.
    let c = Cookie::parse_cookie("foo=bar; Expires=Thu, 10 Sep-68 00:00:00 GMT");
    assert!(c.unwrap().expires() == &Expires::Session);

    let c = Cookie::parse_cookie("foo=bar; Expires=Thu, 10-Sep-68 00:00:00 GMT").unwrap();
    assert_eq!(expires_year(&c), 2068);

    let c = Cookie::parse_cookie("foo=bar; Expires=Wed, 10-Sep-69 00:00:00 GMT").unwrap();
    assert_eq!(expires_year(&c), 1969);

    let c = Cookie::parse_cookie("foo=bar; Expires=Fri, 10-Sep-99 00:00:00 GMT").unwrap();
    assert_eq!(expires_year(&c), 1999);

    let c = Cookie::parse_cookie("foo=bar; Expires=Thu, 10-Sep-20 00:00:00 GMT").unwrap();
    assert_eq!(expires_year(&c), 2020);
}

#[test]
fn date_formats() {
    let expected =
        Cookie::build("foo", "bar").expires(Expires::Exp(ExpVal::new(2015, 10, 21, 7, 28, 0).unwrap())).build();

    // RFC 1123.
    assert_eq!(
        Cookie::parse_cookie("foo=bar; Expires=Wed, 21 Oct 2015 07:28:00 GMT"),
        Ok(expected.clone())
    );
    // RFC 850, full weekday and a two-digit year.
    assert_eq!(
        Cookie::parse_cookie("foo=bar; Expires=Wednesday, 21-Oct-15 07:28:00 GMT"),
        Ok(expected.clone())
    );
    // asctime.
    assert_eq!(
        Cookie::parse_cookie("foo=bar; Expires=Wed Oct 21 07:28:00 2015"),
        Ok(expected.clone())
    );
    // Short-weekday dash variant with a two-digit year.
    assert_eq!(
        Cookie::parse_cookie("foo=bar; Expires=Wed, 21-Oct-15 07:28:00 GMT"),
        Ok(expected.clone())
    );
    // asctime with a space-padded day.
    let first = Cookie::parse_cookie("foo=bar; Expires=Thu Oct  1 07:28:00 2015").unwrap();
    assert_eq!(expires_year(&first), 2015);
    // A date that does not exist is ignored.
    assert_eq!(
        Cookie::parse_cookie("foo=bar; Expires=Tue, 31 Feb 2015 07:28:00 GMT"),
        Ok(Cookie::new("foo", "bar"))
    );
}

#[test]
fn expires_clamping() {
    // Instants outside 1601-01-01..=9999-12-31 23:59:59 clamp to the range.
    assert_eq!(ExpVal::from_unix_seconds(i64::MAX).to_unix_seconds(), MAX_UNIX);
    assert_eq!(ExpVal::from_unix_seconds(i64::MIN).to_unix_seconds(), MIN_UNIX);
    assert_eq!(ExpVal::from_unix_seconds(0).to_unix_seconds(), 0);

    let max = ExpVal::from_unix_seconds(MAX_UNIX + 1);
    assert_eq!((max.year(), max.month(), max.day()), (9999, 12, 31));
    assert_eq!((max.hour(), max.minute(), max.second()), (23, 59, 59));
}

#[test]
fn calendar_round_trips() {
    let v = ExpVal::new(2015, 10, 21, 7, 28, 0).unwrap();
    assert_eq!(v.to_unix_seconds(), 1445412480);
    assert_eq!(ExpVal::from_unix_seconds(1445412480), v);

    // Day zero of the calendar was a Monday.
    let epoch = Expires::Exp(ExpVal::new(1601, 1, 1, 0, 0, 0).unwrap());
    assert_eq!(
        Cookie::build("a", "b").expires(epoch).build().serialize().as_deref(),
        Ok("a=b; Expires=Mon, 01 Jan 1601 00:00:00 GMT")
    );

    // Leap day.
    assert!(ExpVal::new(2024, 2, 29, 0, 0, 0).is_some());
    assert!(ExpVal::new(2023, 2, 29, 0, 0, 0).is_none());
    assert!(ExpVal::new(1900, 2, 29, 0, 0, 0).is_none());
    assert!(ExpVal::new(2000, 2, 29, 0, 0, 0).is_some());
}

#[test]
fn round_trip_programmatic() {
    // A cookie built with RFC-legal fields survives serialize then parse.
    let cookie = Cookie::build("session", "abc123")
        .domain("Example.COM")
        .path("/app")
        .max_age_secs(3600)
        .secure()
        .http_only()
        .same_site(SameSite::Lax)
        .expires(Expires::Exp(ExpVal::new(2027, 1, 2, 3, 4, 5).unwrap()))
        .build();
    let wire = cookie.serialize().unwrap();
    assert_eq!(Cookie::parse_cookie(&wire), Ok(cookie));
}

#[test]
fn strictness_tiers() {
    // Strict refuses a leading plus on Max-Age; relaxed accepts it.
    let strict = Cookie::parse_cookie_with("foo=bar; Max-Age=+10", &CookieOptions::strict());
    assert_eq!(strict.unwrap().max_age_secs(), None);
    let relaxed = Cookie::parse_cookie_with("foo=bar; Max-Age=+10", &CookieOptions::relaxed());
    assert_eq!(relaxed.unwrap().max_age_secs(), Some(10));

    // The unchecked tier never fails.
    let unchecked = Cookie::parse_cookie_with("no equals here", &CookieOptions::unchecked());
    let c = unchecked.unwrap();
    assert_eq!(c.name(), "");
    assert_eq!(c.value(), "");

    let unchecked = Cookie::parse_cookie_with("=b\0r; Path=nolead", &CookieOptions::unchecked());
    let c = unchecked.unwrap();
    assert_eq!(c.value(), "b\0r");
    assert_eq!(c.path(), Some("nolead"));

    let opts = CookieOptions::strict();
    assert!(opts.is_strict());
    assert!(!opts.is_unchecked());
    assert!(matches!(
        opts.strictness(),
        cookie_monster::Strictness::Strict
    ));
}

#[test]
fn error_variants() {
    assert_eq!(
        Cookie::build("foo", "bar").path("/ho\0me").build().serialize().as_deref(),
        Err(&Error::InvalidPathValue('\0'))
    );
    assert_eq!(Cookie::parse_cookie_encoded("foo=%ff"), Err(Error::PercentDecodeError));
    assert_eq!(
        Error::NameEmpty.message(),
        "The cookie name is empty".to_string()
    );
    assert_eq!(
        Error::InvalidName('(').message(),
        "The cookie name contains an invalid character: (".to_string()
    );
    assert_eq!(
        Error::InvalidPathValue(';').message(),
        "The path attribute contains an invalid character (;)".to_string()
    );
}

#[test]
fn encoding_helpers() {
    assert_eq!(encode_name("foo !%?="), "foo%20!%%3F%3D".to_string());
    assert_eq!(encode_value("bar;;, a"), "bar%3B%3B%2C%20a".to_string());
    let (n, v) = decode_name_value("foo%20x", "a%2Cb").unwrap();
    assert_eq!(n, "foo x");
    assert_eq!(v, "a,b");
    assert_eq!(decode_name_value("ok", "%C3%A9").unwrap().1, "\u{e9}");
    assert!(decode_name_value("%ff", "ok").is_err());
    // Lowercase hex digits decode too; a lone percent passes through.
    assert_eq!(decode_name_value("a%2fb", "%").unwrap(), ("a/b".to_string(), "%".to_string()));
}

#[test]
fn char_class_helpers() {
    assert!(is_token("foo-bar_1"));
    assert!(!is_token("foo bar"));
    assert!(!is_token("foo=bar"));
    assert_eq!(find_invalid_cookie_value("abc"), None);
    assert_eq!(find_invalid_cookie_value("ab cd,"), Some(' '));
    assert_eq!(trim_quotes("\"abc\""), "abc");
    assert_eq!(trim_quotes("\"abc"), "\"abc");
    assert_eq!(trim_quotes("\""), "\"");
    assert_eq!(parse_max_age("10"), Some(10));
    assert_eq!(parse_max_age("-10"), Some(0));
    assert_eq!(parse_max_age("+10"), None);
    assert_eq!(parse_max_age(""), None);
}

#[test]
fn cookie_accessors() {
    let mut c = Cookie::new("hello", "world");
    assert_eq!(c.name(), "hello");
    assert_eq!(c.value(), "world");
    assert!(!c.is_expires_set());

    c.set_name("renamed");
    c.set_value("v2");
    c.set_domain("ex.com");
    c.set_path("/p");
    c.set_max_age(Duration::from_secs(100));
    assert_eq!(c.max_age(), Some(Duration::from_secs(100)));
    assert_eq!(c.max_age_secs(), Some(100));
    c.unset_max_age();
    assert_eq!(c.max_age(), None);
    c.set_max_age_secs(7);
    assert_eq!(c.max_age_secs(), Some(7));
    assert_eq!(c.domain(), Some("ex.com"));
    c.unset_domain();
    assert_eq!(c.domain(), None);
    assert_eq!(c.path(), Some("/p"));
    c.unset_path();
    assert_eq!(c.path(), None);
    c.set_same_site(Some(SameSite::Strict));
    assert_eq!(c.same_site(), Some(SameSite::Strict));
    c.set_expires(Expires::remove());
    assert!(c.is_expires_set());

    let removal = Cookie::remove("session");
    assert_eq!(removal.max_age_secs(), Some(0));
    assert!(removal.is_expires_set());
    assert_eq!(removal.value(), "");

    let b = Cookie::named("n").path("/login");
    assert_eq!(b.get_name(), "n");
    assert_eq!(b.get_value(), "");
    let built = b.name("m").value("v").set_secure(true).set_http_only(true).build();
    assert_eq!(built.name(), "m");
    assert!(built.secure() && built.http_only());

    let d = Cookie::build("a", "b").max_age(Duration::from_secs(5)).build();
    assert_eq!(d.max_age_secs(), Some(5));
}

#[test]
fn jar_entry_kinds() {
    let mut jar = CookieJar::empty();
    jar.add_original(Cookie::new("a", "1"));
    jar.add_original(Cookie::new("a", "2"));
    // The first original wins; a duplicate name is dropped.
    assert_eq!(jar.get("a").unwrap().value(), "1");

    // A removal hides the cookie from get.
    jar.remove(Cookie::new("a", ""));
    assert_eq!(jar.get("a"), None);

    // Setting it again makes it visible.
    jar.add(Cookie::new("a", "3"));
    assert_eq!(jar.get("a").unwrap().value(), "3");
    assert_eq!(jar.get("missing"), None);

    let jar2 = CookieJar::from_encoded_cookie("x%20y=a%2Cb; p=q");
    assert_eq!(jar2.get("x y").unwrap().value(), "a,b");
    assert_eq!(jar2.get("p").unwrap().value(), "q");

    let jar3 = CookieJar::from_original(vec![Cookie::new("k", "v")]);
    assert_eq!(jar3.get("k").unwrap().value(), "v");
}

#[test]
fn splitter_segments() {
    let mut sm = cookie_monster::SplitMut::new("a=1; b=2;");
    assert_eq!(sm.next(), Some("a=1"));
    assert_eq!(sm.next(), Some(" b=2"));
    assert_eq!(sm.next(), Some(""));
    assert_eq!(sm.next(), None);
    assert_eq!(sm.next(), None);
}
