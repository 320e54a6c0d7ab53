//! A builder for `Cookie` values.

use vstd::prelude::*;

use core::time::Duration;

use crate::cookie::{Cookie, CookieModel, empty_model, sem_eq};
use crate::duration::duration_of_secs;
use crate::expires::Expires;
use crate::same_site::SameSite;

verus! {

/// A builder struct for building a [`Cookie`].
#[derive(Debug)]
pub struct CookieBuilder(Cookie);

impl View for CookieBuilder {
    type V = CookieModel;

    closed spec fn view(&self) -> CookieModel {
        self.0@
    }
}

impl Cookie {
    /// Starts building a cookie with the given name and value.
    pub fn build(name: &str, value: &str) -> (b: CookieBuilder)
        ensures
            b@ == empty_model(name@, value@),
    {
        CookieBuilder::new(name, value)
    }

    /// Starts building a cookie with the given name and an empty value,
    /// as used when removing a cookie from a jar.
    pub fn named(name: &str) -> (b: CookieBuilder)
        ensures
            b@ == empty_model(name@, Seq::empty()),
    {
        proof {
            reveal_strlit("");
            assert(""@ =~= Seq::<char>::empty());
        }
        Self::build(name, "")
    }
}

impl CookieBuilder {
    /// Starts building a cookie with the given name and value.
    pub fn new(name: &str, value: &str) -> (b: CookieBuilder)
        ensures
            b@ == empty_model(name@, value@),
    {
        CookieBuilder(Cookie::new(name, value))
    }

    /// Sets the name of the cookie.
    pub fn name(self, name: &str) -> (b: Self)
        ensures
            b@ == (CookieModel { name: name@, ..self@ }),
    {
        let mut b = self;
        b.0.set_name(name);
        b
    }

    /// The name of the cookie.
    pub fn get_name(&self) -> (r: &str)
        ensures
            r@ == self@.name,
    {
        self.0.name()
    }

    /// Sets the value of the cookie.
    pub fn value(self, value: &str) -> (b: Self)
        ensures
            b@ == (CookieModel { value: value@, ..self@ }),
    {
        let mut b = self;
        b.0.set_value(value);
        b
    }

    /// The value of the cookie.
    pub fn get_value(&self) -> (r: &str)
        ensures
            r@ == self@.value,
    {
        self.0.value()
    }

    /// Sets the Expires attribute.
    pub fn expires(self, expiration: Expires) -> (b: Self)
        ensures
            b@ == (CookieModel { expires: expiration@, ..self@ }),
    {
        let mut b = self;
        b.0.set_expires(expiration);
        b
    }

    /// Sets the Max-Age attribute in seconds.
    pub fn max_age_secs(self, max_age_secs: u64) -> (b: Self)
        ensures
            b@ == (CookieModel { max_age: Some(max_age_secs), ..self@ }),
    {
        let mut b = self;
        b.0.set_max_age_secs(max_age_secs);
        b
    }

    /// Sets the Max-Age attribute from a duration; sub-second precision
    /// is dropped.
    pub fn max_age(self, max_age: Duration) -> (b: Self)
        ensures
            b@.max_age is Some,
            (forall|s: u64|
                max_age == duration_of_secs(s) ==> b@ == (CookieModel {
                    max_age: Some(s),
                    ..self@
                })),
            b@ == (CookieModel { max_age: b@.max_age, ..self@ }),
    {
        let mut b = self;
        b.0.set_max_age(max_age);
        b
    }

    /// Sets the Domain attribute.
    pub fn domain(self, domain: &str) -> (b: Self)
        ensures
            b@ == (CookieModel { domain: Some(domain@), ..self@ }),
    {
        let mut b = self;
        b.0.set_domain(domain);
        b
    }

    /// Sets the Path attribute.
    pub fn path(self, path: &str) -> (b: Self)
        ensures
            b@ == (CookieModel { path: Some(path@), ..self@ }),
    {
        let mut b = self;
        b.0.set_path(path);
        b
    }

    /// Sets the Secure attribute.
    pub fn secure(self) -> (b: Self)
        ensures
            b@ == (CookieModel { secure: true, ..self@ }),
    {
        self.set_secure(true)
    }

    /// Sets or clears the Secure attribute.
    pub fn set_secure(self, secure: bool) -> (b: Self)
        ensures
            b@ == (CookieModel { secure, ..self@ }),
    {
        let mut b = self;
        b.0.set_secure(secure);
        b
    }

    /// Sets the HttpOnly attribute.
    pub fn http_only(self) -> (b: Self)
        ensures
            b@ == (CookieModel { http_only: true, ..self@ }),
    {
        self.set_http_only(true)
    }

    /// Sets or clears the HttpOnly attribute.
    pub fn set_http_only(self, http_only: bool) -> (b: Self)
        ensures
            b@ == (CookieModel { http_only, ..self@ }),
    {
        let mut b = self;
        b.0.set_http_only(http_only);
        b
    }

    /// Sets the Partitioned attribute. Serialization adds the Secure
    /// attribute to every partitioned cookie.
    pub fn partitioned(self) -> (b: Self)
        ensures
            b@ == (CookieModel { partitioned: true, ..self@ }),
    {
        self.set_partitioned(true)
    }

    /// Sets or clears the Partitioned attribute.
    pub fn set_partitioned(self, partitioned: bool) -> (b: Self)
        ensures
            b@ == (CookieModel { partitioned, ..self@ }),
    {
        let mut b = self;
        b.0.set_partitioned(partitioned);
        b
    }

    /// Sets the SameSite attribute.
    pub fn same_site(self, same_site: SameSite) -> (b: Self)
        ensures
            b@ == (CookieModel { same_site: Some(same_site), ..self@ }),
    {
        let mut b = self;
        b.0.set_same_site(Some(same_site));
        b
    }

    /// Builds and returns the cookie.
    pub fn build(self) -> (c: Cookie)
        ensures
            c@ == self@,
    {
        self.0
    }
}

impl vstd::std_specs::cmp::PartialEqSpecImpl for CookieBuilder {
    open spec fn obeys_eq_spec() -> bool {
        true
    }

    open spec fn eq_spec(&self, other: &CookieBuilder) -> bool {
        sem_eq(self@, other@)
    }
}

impl PartialEq for CookieBuilder {
    /// Semantic equality of the cookies built so far.
    fn eq(&self, other: &CookieBuilder) -> (r: bool) {
        self.0 == other.0
    }
}

} // verus!
