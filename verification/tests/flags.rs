use cookie_monster::{BitFlags, SameSite};

#[test]
fn test_flags() {
    let mut flags = BitFlags::empty();
    assert!(flags.secure() == false);

    flags.set_secure(true);
    assert!(flags.secure() == true);
    flags.set_secure(false);
    assert!(flags.secure() == false);

    assert!(flags.http_only() == false);

    flags.set_http_only(true);
    assert!(flags.http_only() == true);

    flags.set_http_only(false);
    assert!(flags.http_only() == false);

    assert!(flags.same_site() == None);

    flags.set_same_site(Some(SameSite::NoneValue));
    assert!(flags.same_site() == Some(SameSite::NoneValue));

    flags.set_same_site(Some(SameSite::Lax));
    assert!(flags.same_site() == Some(SameSite::Lax));

    flags.set_same_site(Some(SameSite::Strict));
    assert!(flags.same_site() == Some(SameSite::Strict));
}
