//! Serialization of a cookie into a `Set-Cookie` header value. The
//! attribute order is fixed: `name=value`, Max-Age, Domain, Path, Secure,
//! HttpOnly, Partitioned, SameSite, Expires. The Secure attribute is also
//! written for every partitioned or `SameSite=None` cookie.

use vstd::prelude::*;

use crate::chars::{
    find_invalid_cookie_value, find_non_token, first_invalid_value_char, first_non_token_char,
    trim_quotes, trim_quotes_seq,
};
use crate::cookie::{Cookie, CookieModel, strip_dot};
use crate::digits::dec_seq;
use crate::encoding::{enc_seq, encode_name, encode_value};
use crate::error::Error;
use crate::expires::ExpiresModel;
use crate::httpdate::{fmt_http_date, http_date_seq};
use crate::same_site::{SameSite, same_site_name};

verus! {

/// The validated `name=value` part. The value is checked with one pair of
/// surrounding quotes trimmed, but written as stored; the checks repeat at
/// serialization time because a cookie can be mutated into an invalid
/// state after construction.
pub open spec fn nv_checked(m: CookieModel) -> Result<Seq<char>, Error> {
    let tv = trim_quotes_seq(m.value);
    if first_invalid_value_char(tv) is Some {
        Err(Error::InvalidValue(first_invalid_value_char(tv)->0))
    } else if first_non_token_char(m.name) is Some {
        Err(Error::InvalidName(first_non_token_char(m.name)->0))
    } else {
        Ok(m.name + seq!['='] + m.value)
    }
}

/// The Max-Age part: written whenever Max-Age is set, zero included.
pub open spec fn max_age_part(m: CookieModel) -> Seq<char> {
    match m.max_age {
        Option::Some(n) => "; Max-Age="@ + dec_seq(n as nat),
        Option::None => Seq::empty(),
    }
}

/// The Domain part. One leading dot is stripped; an empty domain or one
/// with a character illegal in a cookie value is left out, which makes
/// the cookie host-only.
pub open spec fn domain_part(m: CookieModel) -> Seq<char> {
    match m.domain {
        Option::Some(d) => {
            let sd = strip_dot(d);
            if sd.len() == 0 || first_invalid_value_char(sd) is Some {
                Seq::empty()
            } else {
                "; Domain="@ + sd
            }
        },
        Option::None => Seq::empty(),
    }
}

/// The Path part. A path makes a cookie more specific, so a malformed
/// path is an error rather than a silently dropped attribute: it must be
/// non-empty, start with `/`, and hold no character illegal in a cookie
/// value.
pub open spec fn path_part(m: CookieModel) -> Result<Seq<char>, Error> {
    match m.path {
        Option::Some(p) => {
            if p.len() == 0 {
                Err(Error::EmptyPathValue)
            } else if p[0] != '/' {
                Err(Error::NoLeadingSlash)
            } else if first_invalid_value_char(p) is Some {
                Err(Error::InvalidPathValue(first_invalid_value_char(p)->0))
            } else {
                Ok("; Path="@ + p)
            }
        },
        Option::None => Ok(Seq::empty()),
    }
}

/// The Secure part: written when the Secure flag is set, and forced for
/// partitioned and `SameSite=None` cookies.
pub open spec fn secure_part(m: CookieModel) -> Seq<char> {
    if m.secure || m.partitioned || m.same_site == Some(SameSite::NoneValue) {
        "; Secure"@
    } else {
        Seq::empty()
    }
}

/// The HttpOnly part.
pub open spec fn http_only_part(m: CookieModel) -> Seq<char> {
    if m.http_only {
        "; HttpOnly"@
    } else {
        Seq::empty()
    }
}

/// The Partitioned part.
pub open spec fn partitioned_part(m: CookieModel) -> Seq<char> {
    if m.partitioned {
        "; Partitioned"@
    } else {
        Seq::empty()
    }
}

/// The SameSite part.
pub open spec fn same_site_part(m: CookieModel) -> Seq<char> {
    match m.same_site {
        Option::Some(ss) => "; SameSite="@ + same_site_name(ss),
        Option::None => Seq::empty(),
    }
}

/// The Expires part: nothing for a session cookie, the fixed sentinel
/// date for a removal cookie, and the formatted date otherwise.
pub open spec fn expires_part(m: CookieModel) -> Seq<char> {
    match m.expires {
        ExpiresModel::Remove => "; Expires=Thu, 01 Jan 1970 00:00:00 GMT"@,
        ExpiresModel::Session => Seq::empty(),
        ExpiresModel::At(p) => "; Expires="@ + http_date_seq(p),
    }
}

/// Everything after `name=value`, in the fixed attribute order; an error
/// only for a malformed path.
pub open spec fn attrs_tail(m: CookieModel) -> Result<Seq<char>, Error> {
    match path_part(m) {
        Result::Err(e) => Err(e),
        Result::Ok(pp) => Ok(
            max_age_part(m) + domain_part(m) + pp + secure_part(m) + http_only_part(m)
                + partitioned_part(m) + same_site_part(m) + expires_part(m),
        ),
    }
}

/// The serialized cookie. An empty name fails first; then the name and
/// value character checks; then the path checks.
pub open spec fn spec_serialize(m: CookieModel) -> Result<Seq<char>, Error> {
    if m.name.len() == 0 {
        Err(Error::NameEmpty)
    } else {
        match nv_checked(m) {
            Result::Err(e) => Err(e),
            Result::Ok(nv) => match attrs_tail(m) {
                Result::Err(e) => Err(e),
                Result::Ok(t) => Ok(nv + t),
            },
        }
    }
}

/// The serialized cookie with the name and value percent-encoded.
/// Encoding makes the character checks unnecessary; an empty name and a
/// malformed path still fail.
pub open spec fn spec_serialize_encoded(m: CookieModel) -> Result<Seq<char>, Error> {
    if m.name.len() == 0 {
        Err(Error::NameEmpty)
    } else {
        match attrs_tail(m) {
            Result::Err(e) => Err(e),
            Result::Ok(t) => Ok(enc_seq(m.name, true) + seq!['='] + enc_seq(m.value, false) + t),
        }
    }
}

impl Cookie {
    /// Serializes the cookie as a `Set-Cookie` header value. Errors when
    /// the name is empty, the name or value holds an invalid character,
    /// or the Path attribute is malformed. Domains with invalid
    /// characters are left out rather than rejected.
    pub fn serialize(&self) -> (r: Result<String, Error>)
        ensures
            match r {
                Ok(s) => spec_serialize(self@) == Ok::<Seq<char>, Error>(s@),
                Err(e) => spec_serialize(self@) == Err::<Seq<char>, Error>(e),
            },
    {
        let name = self.name();
        if name.unicode_len() == 0 {
            return Err(Error::NameEmpty);
        }
        let value = self.value();
        let trimmed_value = trim_quotes(value);
        match find_invalid_cookie_value(trimmed_value) {
            Some(c) => {
                return Err(Error::InvalidValue(c));
            },
            None => (),
        }
        match find_non_token(name) {
            Some(c) => {
                return Err(Error::InvalidName(c));
            },
            None => (),
        }
        let mut buf = String::new();
        buf.append(name);
        buf.append("=");
        buf.append(value);
        proof {
            reveal_strlit("=");
            assert(buf@ =~= self@.name + seq!['='] + self@.value);
        }
        match self.serialize_attrs(buf) {
            Ok(out) => {
                proof {
                    assert(spec_serialize(self@) == Ok::<Seq<char>, Error>(out@));
                }
                Ok(out)
            },
            Err(e) => Err(e),
        }
    }

    /// Serializes the cookie with the name and value percent-encoded.
    /// Errors only when the name is empty or the Path attribute is
    /// malformed: encoding removes every invalid character.
    pub fn serialize_encoded(&self) -> (r: Result<String, Error>)
        ensures
            match r {
                Ok(s) => spec_serialize_encoded(self@) == Ok::<Seq<char>, Error>(s@),
                Err(e) => spec_serialize_encoded(self@) == Err::<Seq<char>, Error>(e),
            },
    {
        let name = self.name();
        if name.unicode_len() == 0 {
            return Err(Error::NameEmpty);
        }
        let value = self.value();
        let mut buf = String::new();
        let enc_n = encode_name(name);
        buf.append(enc_n.as_str());
        buf.append("=");
        let enc_v = encode_value(value);
        buf.append(enc_v.as_str());
        proof {
            reveal_strlit("=");
            assert(buf@ =~= enc_seq(self@.name, true) + seq!['='] + enc_seq(self@.value, false));
        }
        self.serialize_attrs(buf)
    }

    /// Appends every attribute after `name=value` in the fixed order.
    fn serialize_attrs(&self, buf: String) -> (r: Result<String, Error>)
        ensures
            match r {
                Ok(s) => attrs_tail(self@) is Ok && s@ == buf@ + attrs_tail(self@)->Ok_0,
                Err(e) => attrs_tail(self@) == Err::<Seq<char>, Error>(e),
            },
    {
        let mut out = buf;
        self.serialize_max_age(&mut out);
        self.serialize_domain(&mut out);
        match self.serialize_path(&mut out) {
            Ok(()) => (),
            Err(e) => {
                return Err(e);
            },
        }
        let force_secure = self.secure() || self.partitioned() || matches!(
            self.same_site(),
            Some(SameSite::NoneValue),
        );
        if force_secure {
            out.append("; Secure");
        }
        if self.http_only() {
            out.append("; HttpOnly");
        }
        if self.partitioned() {
            out.append("; Partitioned");
        }
        self.serialize_same_site(&mut out);
        self.serialize_expire(&mut out);
        proof {
            assert(out@ =~= buf@ + attrs_tail(self@)->Ok_0);
        }
        Ok(out)
    }

    /// Appends the Max-Age part.
    fn serialize_max_age(&self, buf: &mut String)
        ensures
            final(buf)@ == old(buf)@ + max_age_part(self@),
    {
        match self.max_age_secs() {
            Some(n) => {
                buf.append("; Max-Age=");
                let d = crate::digits::u64_to_dec(n);
                buf.append(d.as_str());
            },
            None => {
                proof {
                    assert(buf@ =~= buf@ + Seq::<char>::empty());
                }
            },
        }
    }

    /// Appends the Domain part; empty or invalid domains are left out.
    pub(crate) fn serialize_domain(&self, buf: &mut String)
        ensures
            final(buf)@ == old(buf)@ + domain_part(self@),
    {
        proof {
            assert(old(buf)@ =~= old(buf)@ + Seq::<char>::empty());
        }
        let domain = match self.domain_sanitized() {
            Some(d) => d,
            None => {
                return ;
            },
        };
        if domain.unicode_len() == 0 {
            return ;
        }
        if find_invalid_cookie_value(domain).is_some() {
            return ;
        }
        buf.append("; Domain=");
        buf.append(domain);
    }

    /// Appends the Path part, or reports how the path is malformed.
    pub(crate) fn serialize_path(&self, buf: &mut String) -> (r: Result<(), Error>)
        ensures
            match r {
                Ok(()) => path_part(self@) is Ok && final(buf)@ == old(buf)@ + path_part(
                    self@,
                )->Ok_0,
                Err(e) => path_part(self@) == Err::<Seq<char>, Error>(e) && final(buf)@ == old(
                    buf,
                )@,
            },
    {
        proof {
            assert(old(buf)@ =~= old(buf)@ + Seq::<char>::empty());
        }
        let path = match self.path() {
            Some(p) => p,
            None => {
                return Ok(());
            },
        };
        if path.unicode_len() == 0 {
            return Err(Error::EmptyPathValue);
        }
        if path.get_char(0) != '/' {
            return Err(Error::NoLeadingSlash);
        }
        match find_invalid_cookie_value(path) {
            Some(c) => {
                return Err(Error::InvalidPathValue(c));
            },
            None => (),
        }
        buf.append("; Path=");
        buf.append(path);
        Ok(())
    }

    /// Appends the SameSite part.
    pub(crate) fn serialize_same_site(&self, buf: &mut String)
        ensures
            final(buf)@ == old(buf)@ + same_site_part(self@),
    {
        match self.same_site() {
            Some(ss) => {
                buf.append("; SameSite=");
                buf.append(ss.as_str());
            },
            None => {
                proof {
                    assert(buf@ =~= buf@ + Seq::<char>::empty());
                }
            },
        }
    }

    /// Appends the Expires part: the fixed sentinel for a removal cookie,
    /// the formatted date for an explicit one, nothing for a session
    /// cookie.
    pub(crate) fn serialize_expire(&self, buf: &mut String)
        ensures
            final(buf)@ == old(buf)@ + expires_part(self@),
    {
        match self.expires() {
            crate::expires::Expires::Remove => {
                buf.append("; Expires=Thu, 01 Jan 1970 00:00:00 GMT");
            },
            crate::expires::Expires::Session => {
                proof {
                    assert(buf@ =~= buf@ + Seq::<char>::empty());
                }
            },
            crate::expires::Expires::Exp(v) => {
                buf.append("; Expires=");
                let d = fmt_http_date(v);
                buf.append(d.as_str());
                proof {
                    assert(buf@ =~= old(buf)@ + ("; Expires="@ + http_date_seq(v@)));
                }
            },
        }
    }
}

} // verus!
