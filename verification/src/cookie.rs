//! The `Cookie` entity: name, value, attributes, and the shared raw
//! buffer that parsed cookies slice their strings out of.

use vstd::prelude::*;

use core::time::Duration;

use crate::chars::{lower_seq, str_eq, str_eq_ignore_case};
use crate::duration::{duration_from_secs, duration_of_secs, duration_whole_secs};
use crate::expires::{Expires, ExpiresModel, expires_eq};
use crate::same_site::SameSite;
use crate::util::TinyStr;

verus! {

/// The mathematical value of a cookie: every string resolved, the backing
/// buffer forgotten.
pub struct CookieModel {
    pub name: Seq<char>,
    pub value: Seq<char>,
    pub expires: ExpiresModel,
    pub max_age: Option<u64>,
    pub domain: Option<Seq<char>>,
    pub path: Option<Seq<char>>,
    pub secure: bool,
    pub http_only: bool,
    pub partitioned: bool,
    pub same_site: Option<SameSite>,
}

/// The model of a fresh cookie: a name, a value, and no attributes.
pub open spec fn empty_model(name: Seq<char>, value: Seq<char>) -> CookieModel {
    CookieModel {
        name,
        value,
        expires: ExpiresModel::Session,
        max_age: None,
        domain: None,
        path: None,
        secure: false,
        http_only: false,
        partitioned: false,
        same_site: None,
    }
}

/// A domain with one leading dot removed.
pub open spec fn strip_dot(s: Seq<char>) -> Seq<char> {
    if s.len() > 0 && s[0] == '.' {
        s.subrange(1, s.len() as int)
    } else {
        s
    }
}

/// Optional strings equal up to ASCII case.
pub open spec fn opt_ieq(a: Option<Seq<char>>, b: Option<Seq<char>>) -> bool {
    match (a, b) {
        (Option::None, Option::None) => true,
        (Option::Some(x), Option::Some(y)) => lower_seq(x) == lower_seq(y),
        _ => false,
    }
}

/// An optional domain with one leading dot removed.
pub open spec fn opt_strip_dot(o: Option<Seq<char>>) -> Option<Seq<char>> {
    match o {
        Option::Some(s) => Some(strip_dot(s)),
        Option::None => None,
    }
}

/// Semantic cookie equality: name, value, flags, Max-Age, SameSite and
/// Expires agree exactly; domains agree after one leading dot is stripped,
/// up to ASCII case; paths agree up to ASCII case.
pub open spec fn sem_eq(a: CookieModel, b: CookieModel) -> bool {
    &&& a.name == b.name
    &&& a.value == b.value
    &&& a.secure == b.secure
    &&& a.http_only == b.http_only
    &&& a.partitioned == b.partitioned
    &&& a.max_age == b.max_age
    &&& a.same_site == b.same_site
    &&& a.expires == b.expires
    &&& opt_ieq(opt_strip_dot(a.domain), opt_strip_dot(b.domain))
    &&& opt_ieq(a.path, b.path)
}

/// An HTTP Cookie.
///
/// A parsed cookie keeps the raw header value it was parsed from; its
/// string fields are character ranges into that buffer wherever the text
/// was taken over verbatim. A cookie built programmatically owns its
/// strings and has no raw buffer.
#[derive(Debug)]
pub struct Cookie {
    pub(crate) raw_value: Option<String>,
    pub(crate) name: TinyStr,
    pub(crate) value: TinyStr,
    pub(crate) expires: Expires,
    pub(crate) max_age: Option<u64>,
    pub(crate) domain: Option<TinyStr>,
    pub(crate) path: Option<TinyStr>,
    pub(crate) secure: bool,
    pub(crate) http_only: bool,
    pub(crate) partitioned: bool,
    pub(crate) same_site: Option<SameSite>,
}

impl Cookie {
    /// The view of the raw buffer, if the cookie was parsed.
    pub(crate) open spec fn raw(self) -> Option<Seq<char>> {
        match self.raw_value {
            Option::Some(s) => Some(s@),
            Option::None => None,
        }
    }

    /// Every character range lies inside the raw buffer.
    #[verifier::type_invariant]
    pub(crate) open spec fn ranges_wf(self) -> bool {
        &&& self.name.wf(self.raw())
        &&& self.value.wf(self.raw())
        &&& (self.domain is Some ==> self.domain->0.wf(self.raw()))
        &&& (self.path is Some ==> self.path->0.wf(self.raw()))
    }
}

impl Clone for Cookie {
    /// An exact copy, semantically equal to the original.
    fn clone(&self) -> (r: Self)
        ensures
            r@ == self@,
    {
        proof {
            use_type_invariant(&*self);
        }
        Cookie {
            raw_value: match &self.raw_value {
                Some(s) => Some(s.clone()),
                None => None,
            },
            name: self.name.clone(),
            value: self.value.clone(),
            expires: self.expires,
            max_age: self.max_age,
            domain: match &self.domain {
                Some(d) => Some(d.clone()),
                None => None,
            },
            path: match &self.path {
                Some(p) => Some(p.clone()),
                None => None,
            },
            secure: self.secure,
            http_only: self.http_only,
            partitioned: self.partitioned,
            same_site: self.same_site,
        }
    }
}

impl View for Cookie {
    type V = CookieModel;

    closed spec fn view(&self) -> CookieModel {
        CookieModel {
            name: self.name.resolved(self.raw()),
            value: self.value.resolved(self.raw()),
            expires: self.expires@,
            max_age: self.max_age,
            domain: match self.domain {
                Option::Some(d) => Some(d.resolved(self.raw())),
                Option::None => None,
            },
            path: match self.path {
                Option::Some(p) => Some(p.resolved(self.raw())),
                Option::None => None,
            },
            secure: self.secure,
            http_only: self.http_only,
            partitioned: self.partitioned,
            same_site: self.same_site,
        }
    }
}

impl Cookie {
    /// Creates a new cookie with the given name and value and no
    /// attributes.
    pub fn new(name: &str, value: &str) -> (c: Cookie)
        ensures
            c@ == empty_model(name@, value@),
    {
        Self::new_inner(TinyStr::from_str_copy(name), TinyStr::from_str_copy(value))
    }

    /// Creates a cookie that removes the named cookie from the
    /// user-agent: the Expires attribute lies in the past and Max-Age is
    /// zero seconds.
    pub fn remove(name: &str) -> (c: Cookie)
        ensures
            c@ == (CookieModel {
                expires: ExpiresModel::Remove,
                max_age: Some(0u64),
                ..empty_model(name@, Seq::empty())
            }),
    {
        proof {
            reveal_strlit("");
            assert(""@ =~= Seq::<char>::empty());
        }
        Cookie::new(name, "").into_remove()
    }

    pub(crate) fn into_remove(self) -> (c: Self)
        ensures
            c@ == (CookieModel {
                expires: ExpiresModel::Remove,
                max_age: Some(0u64),
                value: Seq::empty(),
                ..self@
            }),
    {
        proof {
            use_type_invariant(&self);
        }
        let mut c = self;
        c.expires = Expires::remove();
        c.max_age = Some(0);
        c.value = TinyStr::empty();
        c
    }

    /// A freshly parsed cookie: the raw header value it was parsed from,
    /// and the name and value ranges or strings cut out of it.
    pub(crate) fn from_parse_parts(raw: String, name: TinyStr, value: TinyStr) -> (c: Cookie)
        requires
            name.wf(Some(raw@)),
            value.wf(Some(raw@)),
        ensures
            c@ == empty_model(name.resolved(Some(raw@)), value.resolved(Some(raw@))),
    {
        Cookie {
            raw_value: Some(raw),
            name,
            value,
            expires: Expires::Session,
            max_age: None,
            domain: None,
            path: None,
            secure: false,
            http_only: false,
            partitioned: false,
            same_site: None,
        }
    }

    pub(crate) fn new_inner(name: TinyStr, value: TinyStr) -> (c: Cookie)
        requires
            forall|raw: Option<Seq<char>>| #![all_triggers] name.wf(raw) && value.wf(raw),
        ensures
            c@ == empty_model(
                name.resolved(None::<Seq<char>>),
                value.resolved(None::<Seq<char>>),
            ),
    {
        Cookie {
            raw_value: None,
            name,
            value,
            expires: Expires::Session,
            max_age: None,
            domain: None,
            path: None,
            secure: false,
            http_only: false,
            partitioned: false,
            same_site: None,
        }
    }

    /// The cookie name.
    pub fn name(&self) -> (r: &str)
        ensures
            r@ == self@.name,
    {
        proof {
            use_type_invariant(&*self);
        }
        self.name.as_str(self.raw_value.as_ref())
    }

    /// Sets the cookie name.
    pub fn set_name(&mut self, name: &str)
        ensures
            final(self)@ == (CookieModel { name: name@, ..old(self)@ }),
    {
        proof {
            use_type_invariant(&*self);
        }
        self.name = TinyStr::from_str_copy(name);
    }

    /// The cookie value. Surrounding double quotes are not trimmed here;
    /// parsing already trimmed one pair.
    pub fn value(&self) -> (r: &str)
        ensures
            r@ == self@.value,
    {
        proof {
            use_type_invariant(&*self);
        }
        self.value.as_str(self.raw_value.as_ref())
    }

    /// Sets the cookie value.
    pub fn set_value(&mut self, value: &str)
        ensures
            final(self)@ == (CookieModel { value: value@, ..old(self)@ }),
    {
        proof {
            use_type_invariant(&*self);
        }
        self.value = TinyStr::from_str_copy(value);
    }

    /// Sets the Expires attribute.
    pub fn set_expires(&mut self, expires: Expires)
        ensures
            final(self)@ == (CookieModel { expires: expires@, ..old(self)@ }),
    {
        proof {
            use_type_invariant(&*self);
        }
        self.expires = expires;
    }

    /// The Expires attribute.
    pub fn expires(&self) -> (r: &Expires)
        ensures
            r@ == self@.expires,
    {
        &self.expires
    }

    /// Whether an Expires attribute is set. When it is not, the cookie
    /// expires with the user-agent session.
    pub fn is_expires_set(&self) -> (r: bool)
        ensures
            r == (self@.expires != ExpiresModel::Session),
    {
        !matches!(self.expires, Expires::Session)
    }

    /// The Max-Age attribute as a duration of whole seconds.
    pub fn max_age(&self) -> (r: Option<Duration>)
        ensures
            match r {
                Some(d) => self@.max_age is Some && d == duration_of_secs(self@.max_age->0),
                None => self@.max_age is None,
            },
    {
        match self.max_age {
            Some(secs) => Some(duration_from_secs(secs)),
            None => None,
        }
    }

    /// The Max-Age attribute in seconds.
    pub fn max_age_secs(&self) -> (r: Option<u64>)
        ensures
            r == self@.max_age,
    {
        self.max_age
    }

    /// Sets the Max-Age attribute from a duration; sub-second precision
    /// is dropped.
    pub fn set_max_age(&mut self, max_age: Duration)
        ensures
            final(self)@.max_age is Some,
            (forall|s: u64|
                max_age == duration_of_secs(s) ==> final(self)@ == (CookieModel {
                    max_age: Some(s),
                    ..old(self)@
                })),
            final(self)@ == (CookieModel { max_age: final(self)@.max_age, ..old(self)@ }),
    {
        proof {
            use_type_invariant(&*self);
        }
        let secs = duration_whole_secs(&max_age);
        self.max_age = Some(secs);
    }

    /// Sets the Max-Age attribute in seconds.
    pub fn set_max_age_secs(&mut self, max_age_secs: u64)
        ensures
            final(self)@ == (CookieModel { max_age: Some(max_age_secs), ..old(self)@ }),
    {
        proof {
            use_type_invariant(&*self);
        }
        self.max_age = Some(max_age_secs);
    }

    /// Removes the Max-Age attribute.
    pub fn unset_max_age(&mut self)
        ensures
            final(self)@ == (CookieModel { max_age: None, ..old(self)@ }),
    {
        proof {
            use_type_invariant(&*self);
        }
        self.max_age = None;
    }

    /// The Domain attribute, as stored.
    pub fn domain(&self) -> (r: Option<&str>)
        ensures
            match r {
                Some(s) => self@.domain == Some(s@),
                None => self@.domain is None,
            },
    {
        proof {
            use_type_invariant(&*self);
        }
        match &self.domain {
            Some(d) => Some(d.as_str(self.raw_value.as_ref())),
            None => None,
        }
    }

    /// The Domain attribute with one leading dot stripped.
    pub(crate) fn domain_sanitized(&self) -> (r: Option<&str>)
        ensures
            match r {
                Some(s) => self@.domain is Some && s@ == strip_dot(self@.domain->0),
                None => self@.domain is None,
            },
    {
        proof {
            use_type_invariant(&*self);
        }
        match &self.domain {
            Some(d) => {
                let s = d.as_str(self.raw_value.as_ref());
                let n = s.unicode_len();
                if n > 0 && s.get_char(0) == '.' {
                    Some(s.substring_char(1, n))
                } else {
                    Some(s)
                }
            },
            None => None,
        }
    }

    /// Sets the Domain attribute, as given.
    pub fn set_domain(&mut self, domain: &str)
        ensures
            final(self)@ == (CookieModel { domain: Some(domain@), ..old(self)@ }),
    {
        proof {
            use_type_invariant(&*self);
        }
        self.domain = Some(TinyStr::from_str_copy(domain));
    }

    /// Removes the Domain attribute.
    pub fn unset_domain(&mut self)
        ensures
            final(self)@ == (CookieModel { domain: None, ..old(self)@ }),
    {
        proof {
            use_type_invariant(&*self);
        }
        self.domain = None;
    }

    /// The Path attribute.
    pub fn path(&self) -> (r: Option<&str>)
        ensures
            match r {
                Some(s) => self@.path == Some(s@),
                None => self@.path is None,
            },
    {
        proof {
            use_type_invariant(&*self);
        }
        match &self.path {
            Some(p) => Some(p.as_str(self.raw_value.as_ref())),
            None => None,
        }
    }

    /// Sets the Path attribute.
    pub fn set_path(&mut self, path: &str)
        ensures
            final(self)@ == (CookieModel { path: Some(path@), ..old(self)@ }),
    {
        proof {
            use_type_invariant(&*self);
        }
        self.path = Some(TinyStr::from_str_copy(path));
    }

    /// Removes the Path attribute.
    pub fn unset_path(&mut self)
        ensures
            final(self)@ == (CookieModel { path: None, ..old(self)@ }),
    {
        proof {
            use_type_invariant(&*self);
        }
        self.path = None;
    }

    /// Whether the Secure attribute is set.
    pub fn secure(&self) -> (r: bool)
        ensures
            r == self@.secure,
    {
        self.secure
    }

    /// Sets the Secure attribute.
    pub fn set_secure(&mut self, secure: bool)
        ensures
            final(self)@ == (CookieModel { secure, ..old(self)@ }),
    {
        proof {
            use_type_invariant(&*self);
        }
        self.secure = secure;
    }

    /// Whether the HttpOnly attribute is set.
    pub fn http_only(&self) -> (r: bool)
        ensures
            r == self@.http_only,
    {
        self.http_only
    }

    /// Sets the HttpOnly attribute.
    pub fn set_http_only(&mut self, http_only: bool)
        ensures
            final(self)@ == (CookieModel { http_only, ..old(self)@ }),
    {
        proof {
            use_type_invariant(&*self);
        }
        self.http_only = http_only;
    }

    /// Whether the Partitioned attribute is set.
    pub fn partitioned(&self) -> (r: bool)
        ensures
            r == self@.partitioned,
    {
        self.partitioned
    }

    /// Sets the Partitioned attribute. Serialization adds the Secure
    /// attribute to every partitioned cookie.
    pub fn set_partitioned(&mut self, partitioned: bool)
        ensures
            final(self)@ == (CookieModel { partitioned, ..old(self)@ }),
    {
        proof {
            use_type_invariant(&*self);
        }
        self.partitioned = partitioned;
    }

    /// The SameSite attribute, if set.
    pub fn same_site(&self) -> (r: Option<SameSite>)
        ensures
            r == self@.same_site,
    {
        self.same_site
    }

    /// Sets or removes the SameSite attribute.
    pub fn set_same_site(&mut self, same_site: Option<SameSite>)
        ensures
            final(self)@ == (CookieModel { same_site, ..old(self)@ }),
    {
        proof {
            use_type_invariant(&*self);
        }
        self.same_site = same_site;
    }
}

/// Equality of optional strings up to ASCII case.
pub fn opt_str_eq(left: Option<&str>, right: Option<&str>) -> (r: bool)
    ensures
        r == (match (left, right) {
            (Option::None, Option::None) => true,
            (Option::Some(l), Option::Some(x)) => lower_seq(l@) == lower_seq(x@),
            _ => false,
        }),
{
    match (left, right) {
        (Option::None, Option::None) => true,
        (Option::Some(l), Option::Some(x)) => str_eq_ignore_case(l, x),
        _ => false,
    }
}

fn opt_u64_eq(a: Option<u64>, b: Option<u64>) -> (r: bool)
    ensures
        r == (a == b),
{
    match (a, b) {
        (Option::None, Option::None) => true,
        (Option::Some(x), Option::Some(y)) => x == y,
        _ => false,
    }
}

fn same_site_opt_eq(a: Option<SameSite>, b: Option<SameSite>) -> (r: bool)
    ensures
        r == (a == b),
{
    match (a, b) {
        (Option::None, Option::None) => true,
        (Option::Some(x), Option::Some(y)) => match (x, y) {
            (SameSite::Strict, SameSite::Strict) => true,
            (SameSite::Lax, SameSite::Lax) => true,
            (SameSite::NoneValue, SameSite::NoneValue) => true,
            _ => false,
        },
        _ => false,
    }
}

impl vstd::std_specs::cmp::PartialEqSpecImpl for Cookie {
    open spec fn obeys_eq_spec() -> bool {
        true
    }

    open spec fn eq_spec(&self, other: &Cookie) -> bool {
        sem_eq(self@, other@)
    }
}

impl PartialEq for Cookie {
    /// Semantic equality, per `sem_eq`: the backing buffers play no part.
    fn eq(&self, other: &Cookie) -> (r: bool) {
        if !(str_eq(self.name(), other.name()) && str_eq(self.value(), other.value())
            && self.secure == other.secure && self.http_only == other.http_only
            && self.partitioned == other.partitioned && opt_u64_eq(self.max_age, other.max_age)
            && same_site_opt_eq(self.same_site, other.same_site) && expires_eq(
            &self.expires,
            &other.expires,
        )) {
            return false;
        }
        if !opt_str_eq(self.domain_sanitized(), other.domain_sanitized()) {
            return false;
        }
        if !opt_str_eq(self.path(), other.path()) {
            return false;
        }
        true
    }
}

} // verus!
