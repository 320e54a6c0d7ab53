//! Parsing of cookie header values: the semicolon segment splitter, the
//! `name=value` grammar, and the per-attribute rules, each threaded
//! through the strictness tiers.

use vstd::prelude::*;

use crate::chars::{
    find_char, find_char_ex, find_invalid_cookie_value, find_non_token, first_invalid_value_char,
    first_non_token_char, lemma_find_char, lemma_find_char_app, lower_seq, lower_str, no_semi,
    str_eq, trim_bounds, trim_seq, trim_str, trim_quotes_seq,
};
use crate::cookie::{Cookie, CookieModel, empty_model, strip_dot};
use crate::encoding::{decode_name_value, decode_ok, decoded_chars};
use crate::error::Error;
use crate::expires::{Expires, ExpiresModel};
use crate::httpdate::{parse_http_date, parse_http_date_seq};
use crate::max_age::{max_age_spec, parse_max_age_with};
use crate::options::{CookieOptions, Strictness};
use crate::same_site::SameSite;
use crate::util::TinyStr;

verus! {

/// The semicolon-separated segments of a header value. A trailing
/// semicolon yields one final empty segment, mirroring the
/// `*( ";" cookie-av )` shape of the grammar.
pub open spec fn segs(s: Seq<char>) -> Seq<Seq<char>>
    decreases s.len(),
{
    let i = find_char(s, ';');
    if 0 <= i < s.len() {
        seq![s.take(i)] + segs(s.subrange(i + 1, s.len() as int))
    } else {
        seq![s]
    }
}

/// There is always a first segment: everything before the first
/// semicolon.
pub proof fn lemma_segs_first(s: Seq<char>)
    ensures
        segs(s).len() >= 1,
        segs(s)[0] == s.take(find_char(s, ';')),
{
    lemma_find_char(s, ';');
    if !(0 <= find_char(s, ';') < s.len()) {
        assert(s.take(find_char(s, ';')) =~= s);
    }
}

/// A header tail built from attribute segments: a semicolon before each.
pub open spec fn tail_of(parts: Seq<Seq<char>>) -> Seq<char>
    decreases parts.len(),
{
    if parts.len() == 0 {
        Seq::empty()
    } else {
        seq![';'] + parts.first() + tail_of(parts.drop_first())
    }
}

/// Tails concatenate segment-list-wise.
pub proof fn lemma_tail_of_app(p: Seq<Seq<char>>, q: Seq<Seq<char>>)
    ensures
        tail_of(p + q) == tail_of(p) + tail_of(q),
    decreases p.len(),
{
    if p.len() == 0 {
        assert(p + q =~= q);
        assert(tail_of(p) + tail_of(q) =~= tail_of(q));
    } else {
        assert((p + q).first() == p.first());
        assert((p + q).drop_first() =~= p.drop_first() + q);
        lemma_tail_of_app(p.drop_first(), q);
        assert((seq![';'] + p.first() + (tail_of(p.drop_first()) + tail_of(q))) =~= (seq![';']
            + p.first() + tail_of(p.drop_first())) + tail_of(q));
    }
}

/// A head without semicolons followed by a tail of semicolon-free
/// segments splits into exactly those segments.
pub proof fn lemma_segs_of_tail(head: Seq<char>, parts: Seq<Seq<char>>)
    requires
        no_semi(head),
        forall|i: int| 0 <= i < parts.len() ==> no_semi(#[trigger] parts[i]),
    ensures
        segs(head + tail_of(parts)) == seq![head] + parts,
    decreases parts.len(),
{
    lemma_find_char(head, ';');
    if parts.len() == 0 {
        assert(head + tail_of(parts) =~= head);
        assert(find_char(head, ';') == head.len());
        assert(segs(head) =~= seq![head]);
        assert(seq![head] + parts =~= seq![head]);
    } else {
        let h = head + tail_of(parts);
        let rest = parts.first() + tail_of(parts.drop_first());
        assert(h =~= head + (seq![';'] + rest));
        lemma_find_char_app(head, seq![';'] + rest, ';');
        assert((seq![';'] + rest)[0] == ';');
        assert(find_char(seq![';'] + rest, ';') == 0) by {
            lemma_find_char(seq![';'] + rest, ';');
            if find_char(seq![';'] + rest, ';') > 0 {
                assert((seq![';'] + rest)[0] != ';');
            }
        }
        let f = find_char(h, ';');
        assert(f == head.len());
        assert(h.take(f) =~= head);
        assert(h.subrange(f + 1, h.len() as int) =~= rest);
        assert(forall|i: int|
            0 <= i < parts.drop_first().len() ==> no_semi(#[trigger] parts.drop_first()[i]));
        lemma_segs_of_tail(parts.first(), parts.drop_first());
        assert(segs(h) == seq![head] + (seq![parts.first()] + parts.drop_first()));
        assert(seq![head] + (seq![parts.first()] + parts.drop_first()) =~= seq![head] + parts);
    }
}

/// The parsed name and value of the first segment. Without an `=` the
/// unchecked tier yields an empty cookie and the others fail. The name
/// and value are trimmed of whitespace, the value of one pair of
/// surrounding quotes; outside the unchecked tier an empty name or an
/// illegal character fails the parse.
pub open spec fn parse_nv(seg: Seq<char>, st: Strictness) -> Result<(Seq<char>, Seq<char>), Error> {
    let e = find_char(seg, '=');
    if e == seg.len() {
        if st == Strictness::Unchecked {
            Ok((Seq::empty(), Seq::empty()))
        } else {
            Err(Error::EqualsNotFound)
        }
    } else {
        let nm = trim_seq(seg.take(e));
        let tv = trim_quotes_seq(trim_seq(seg.subrange(e + 1, seg.len() as int)));
        if st != Strictness::Unchecked && nm.len() == 0 {
            Err(Error::NameEmpty)
        } else if st != Strictness::Unchecked && first_non_token_char(nm) is Some {
            Err(Error::InvalidName(first_non_token_char(nm)->0))
        } else if st != Strictness::Unchecked && first_invalid_value_char(tv) is Some {
            Err(Error::InvalidValue(first_invalid_value_char(tv)->0))
        } else {
            Ok((nm, tv))
        }
    }
}

/// One attribute segment applied to a cookie. Attribute names are
/// case-insensitive; a malformed attribute value is ignored in every
/// tier and never aborts the parse; when the same attribute appears
/// again later, the later occurrence wins by overwriting. Unknown
/// attribute names are ignored.
pub open spec fn apply_attr(m: CookieModel, seg: Seq<char>, st: Strictness) -> CookieModel {
    let e = find_char(seg, '=');
    if e == seg.len() {
        let nm = lower_seq(trim_seq(seg));
        if nm == "secure"@ {
            CookieModel { secure: true, ..m }
        } else if nm == "httponly"@ {
            CookieModel { http_only: true, ..m }
        } else if nm == "partitioned"@ {
            CookieModel { partitioned: true, ..m }
        } else {
            m
        }
    } else {
        let nm = lower_seq(trim_seq(seg.take(e)));
        let val = trim_seq(seg.subrange(e + 1, seg.len() as int));
        if nm == "domain"@ {
            let d = strip_dot(lower_seq(val));
            if d.len() == 0 || first_invalid_value_char(d) is Some {
                m
            } else {
                CookieModel { domain: Some(d), ..m }
            }
        } else if nm == "path"@ {
            if st == Strictness::Unchecked {
                if val.len() > 0 {
                    CookieModel { path: Some(val), ..m }
                } else {
                    m
                }
            } else {
                if val.len() > 0 && val[0] == '/' && first_invalid_value_char(val) is None {
                    CookieModel { path: Some(val), ..m }
                } else {
                    m
                }
            }
        } else if nm == "max-age"@ {
            match max_age_spec(val, st != Strictness::Strict) {
                Option::Some(v) => CookieModel { max_age: Some(v), ..m },
                Option::None => m,
            }
        } else if nm == "expires"@ {
            match parse_http_date_seq(val) {
                Option::Some(p) => CookieModel { expires: ExpiresModel::At(p), ..m },
                Option::None => m,
            }
        } else if nm == "samesite"@ {
            let lv = lower_seq(val);
            if lv == "strict"@ {
                CookieModel { same_site: Some(SameSite::Strict), ..m }
            } else if lv == "lax"@ {
                CookieModel { same_site: Some(SameSite::Lax), ..m }
            } else if lv == "none"@ {
                CookieModel { same_site: Some(SameSite::NoneValue), ..m }
            } else {
                m
            }
        } else {
            m
        }
    }
}

/// All attribute segments applied left to right.
pub open spec fn apply_attrs(m: CookieModel, ss: Seq<Seq<char>>, st: Strictness) -> CookieModel
    decreases ss.len(),
{
    if ss.len() == 0 {
        m
    } else {
        apply_attrs(apply_attr(m, ss.first(), st), ss.drop_first(), st)
    }
}

/// Attribute segments apply in batches: a concatenation of segment
/// lists applies the first list, then the second.
pub proof fn lemma_apply_attrs_app(
    m: CookieModel,
    p: Seq<Seq<char>>,
    q: Seq<Seq<char>>,
    st: Strictness,
)
    ensures
        apply_attrs(m, p + q, st) == apply_attrs(apply_attrs(m, p, st), q, st),
    decreases p.len(),
{
    if p.len() == 0 {
        assert(p + q =~= q);
    } else {
        assert((p + q).first() == p.first());
        assert((p + q).drop_first() =~= p.drop_first() + q);
        lemma_apply_attrs_app(apply_attr(m, p.first(), st), p.drop_first(), q, st);
    }
}

/// One attribute segment on its own applies as one attribute.
pub proof fn lemma_apply_one(m: CookieModel, x: Seq<char>, st: Strictness)
    ensures
        apply_attrs(m, seq![x], st) == apply_attr(m, x, st),
{
    assert(seq![x].first() == x);
    assert(seq![x].drop_first() =~= Seq::<Seq<char>>::empty());
    assert(apply_attrs(apply_attr(m, x, st), Seq::<Seq<char>>::empty(), st) == apply_attr(
        m,
        x,
        st,
    ));
}

/// Applying one more segment applies it to the result so far.
pub proof fn lemma_apply_attrs_snoc(m: CookieModel, ss: Seq<Seq<char>>, x: Seq<char>, st: Strictness)
    ensures
        apply_attrs(m, ss.push(x), st) == apply_attr(apply_attrs(m, ss, st), x, st),
    decreases ss.len(),
{
    if ss.len() == 0 {
        assert(ss.push(x).first() == x);
        assert(ss.push(x).drop_first() =~= Seq::<Seq<char>>::empty());
        assert(apply_attrs(apply_attr(m, x, st), Seq::<Seq<char>>::empty(), st) == apply_attr(
            m,
            x,
            st,
        ));
    } else {
        assert(ss.push(x).first() == ss.first());
        assert(ss.push(x).drop_first() =~= ss.drop_first().push(x));
        lemma_apply_attrs_snoc(apply_attr(m, ss.first(), st), ss.drop_first(), x, st);
    }
}

/// The cookie denoted by a header value under the given tier: the first
/// segment is the name and value, the rest are attributes.
pub open spec fn spec_parse(s: Seq<char>, st: Strictness) -> Result<CookieModel, Error> {
    let sg = segs(s);
    match parse_nv(sg[0], st) {
        Result::Err(e) => Err(e),
        Result::Ok(nv) => Ok(apply_attrs(empty_model(nv.0, nv.1), sg.drop_first(), st)),
    }
}

/// As `spec_parse`, with the name and value percent-decoded after
/// validation; a decoding that is not well-formed UTF-8 fails.
pub open spec fn spec_parse_encoded(s: Seq<char>, st: Strictness) -> Result<CookieModel, Error> {
    let sg = segs(s);
    match parse_nv(sg[0], st) {
        Result::Err(e) => Err(e),
        Result::Ok(nv) => if decode_ok(nv.0) && decode_ok(nv.1) {
            Ok(
                apply_attrs(
                    empty_model(decoded_chars(nv.0), decoded_chars(nv.1)),
                    sg.drop_first(),
                    st,
                ),
            )
        } else {
            Err(Error::PercentDecodeError)
        },
    }
}

/// Splits a header value on semicolons, yielding each segment in order.
/// A trailing semicolon yields one final empty segment.
pub struct SplitMut<'s> {
    haystack: &'s str,
    pos: usize,
    active: bool,
    emitted: Ghost<Seq<Seq<char>>>,
}

impl<'s> SplitMut<'s> {
    /// The whole input.
    pub closed spec fn input(self) -> Seq<char> {
        self.haystack@
    }

    /// The segments handed out so far.
    pub closed spec fn emitted_segs(self) -> Seq<Seq<char>> {
        self.emitted@
    }

    /// Whether another segment will be handed out.
    pub closed spec fn live(self) -> bool {
        self.active
    }

    #[verifier::type_invariant]
    spec fn type_wf(self) -> bool {
        &&& self.pos <= self.haystack@.len()
        &&& (self.active ==> segs(self.haystack@) == self.emitted@ + segs(
            self.haystack@.subrange(self.pos as int, self.haystack@.len() as int),
        ))
        &&& (!self.active ==> segs(self.haystack@) == self.emitted@)
    }

    /// A splitter at the start of the given input.
    pub fn new(haystack: &'s str) -> (r: SplitMut<'s>)
        ensures
            r.input() == haystack@,
            r.emitted_segs() == Seq::<Seq<char>>::empty(),
            r.live(),
    {
        proof {
            assert(haystack@.subrange(0, haystack@.len() as int) =~= haystack@);
            assert(Seq::<Seq<char>>::empty() + segs(haystack@) =~= segs(haystack@));
        }
        SplitMut { haystack, pos: 0, active: true, emitted: Ghost(Seq::empty()) }
    }

    /// The next segment: `segs(input)` is handed out segment by segment,
    /// then `None`.
    pub fn next(&mut self) -> (r: Option<&'s str>)
        ensures
            final(self).input() == old(self).input(),
            match r {
                Some(t) => {
                    &&& old(self).live()
                    &&& old(self).emitted_segs().len() < segs(old(self).input()).len()
                    &&& t@ == segs(old(self).input())[old(self).emitted_segs().len() as int]
                    &&& final(self).emitted_segs() == old(self).emitted_segs().push(t@)
                    &&& (!final(self).live() ==> final(self).emitted_segs() == segs(
                        old(self).input(),
                    ))
                },
                None => {
                    &&& !old(self).live()
                    &&& final(self).emitted_segs() == old(self).emitted_segs()
                    &&& final(self).emitted_segs() == segs(final(self).input())
                    &&& !final(self).live()
                },
            },
    {
        proof {
            use_type_invariant(&*self);
        }
        if !self.active {
            return None;
        }
        let n = self.haystack.unicode_len();
        let rest = self.haystack.substring_char(self.pos, n);
        let k = find_char_ex(rest, ';');
        proof {
            lemma_find_char(rest@, ';');
        }
        if k == rest.unicode_len() {
            let ghost old_emitted = self.emitted@;
            proof {
                assert(segs(rest@) =~= seq![rest@]);
                assert((old_emitted + segs(rest@))[old_emitted.len() as int] == rest@);
                assert(old_emitted.push(rest@) =~= old_emitted + seq![rest@]);
            }
            *self = SplitMut {
                haystack: self.haystack,
                pos: self.pos,
                active: false,
                emitted: Ghost(old_emitted.push(rest@)),
            };
            Some(rest)
        } else {
            let seg = self.haystack.substring_char(self.pos, self.pos + k);
            let ghost old_emitted = self.emitted@;
            let ghost t = rest@;
            proof {
                assert(seg@ =~= t.take(k as int));
                assert(segs(t) == seq![t.take(k as int)] + segs(
                    t.subrange(k as int + 1, t.len() as int),
                ));
                assert(t.subrange(k as int + 1, t.len() as int) =~= self.haystack@.subrange(
                    self.pos + k + 1,
                    self.haystack@.len() as int,
                ));
                assert((old_emitted + segs(t))[old_emitted.len() as int] == segs(t)[0]);
                assert(old_emitted + segs(t) =~= old_emitted.push(seg@) + segs(
                    t.subrange(k as int + 1, t.len() as int),
                ));
            }
            *self = SplitMut {
                haystack: self.haystack,
                pos: self.pos + k + 1,
                active: true,
                emitted: Ghost(old_emitted.push(seg@)),
            };
            Some(seg)
        }
    }
}

/// One attribute segment applied to a cookie, in place.
fn apply_attr_ex(c: &mut Cookie, seg: &str, st: Strictness)
    ensures
        final(c)@ == apply_attr(old(c)@, seg@, st),
{
    let n = seg.unicode_len();
    let e = find_char_ex(seg, '=');
    proof {
        lemma_find_char(seg@, '=');
    }
    if e == n {
        let nm = lower_str(trim_str(seg));
        if str_eq(nm.as_str(), "secure") {
            c.set_secure(true);
        } else if str_eq(nm.as_str(), "httponly") {
            c.set_http_only(true);
        } else if str_eq(nm.as_str(), "partitioned") {
            c.set_partitioned(true);
        }
    } else {
        let nm_sub = seg.substring_char(0, e);
        let nm_slice = trim_str(nm_sub);
        let nm = lower_str(nm_slice);
        let val_sub = seg.substring_char(e + 1, n);
        let val = trim_str(val_sub);
        proof {
            assert(nm_sub@ =~= seg@.take(e as int));
            assert(val_sub@ =~= seg@.subrange(e as int + 1, seg@.len() as int));
        }
        if str_eq(nm.as_str(), "domain") {
            let d0 = lower_str(val);
            let dn = d0.as_str().unicode_len();
            let d: &str = if dn > 0 && d0.as_str().get_char(0) == '.' {
                d0.as_str().substring_char(1, dn)
            } else {
                d0.as_str()
            };
            proof {
                assert(d@ == strip_dot(lower_seq(val@)));
            }
            if d.unicode_len() == 0 {
            } else if find_invalid_cookie_value(d).is_some() {
            } else {
                c.set_domain(d);
            }
        } else if str_eq(nm.as_str(), "path") {
            let vn = val.unicode_len();
            if matches!(st, Strictness::Unchecked) {
                if vn > 0 {
                    c.set_path(val);
                }
            } else {
                if vn > 0 && val.get_char(0) == '/' && find_invalid_cookie_value(val).is_none() {
                    c.set_path(val);
                }
            }
        } else if str_eq(nm.as_str(), "max-age") {
            match parse_max_age_with(val, !matches!(st, Strictness::Strict)) {
                Some(v) => c.set_max_age_secs(v),
                None => (),
            }
        } else if str_eq(nm.as_str(), "expires") {
            match parse_http_date(val) {
                Some(v) => c.set_expires(Expires::Exp(v)),
                None => (),
            }
        } else if str_eq(nm.as_str(), "samesite") {
            let lv = lower_str(val);
            if str_eq(lv.as_str(), "strict") {
                c.set_same_site(Some(SameSite::Strict));
            } else if str_eq(lv.as_str(), "lax") {
                c.set_same_site(Some(SameSite::Lax));
            } else if str_eq(lv.as_str(), "none") {
                c.set_same_site(Some(SameSite::NoneValue));
            }
        }
    }
}

impl Cookie {
    /// Parses a cookie header value under the relaxed tier. Errors when
    /// no `=` is found, the name is empty, or the name or value holds an
    /// invalid character; malformed attributes are ignored.
    pub fn parse_cookie(string: &str) -> (r: Result<Cookie, Error>)
        ensures
            match r {
                Ok(c) => spec_parse(string@, Strictness::Relaxed) == Ok::<CookieModel, Error>(c@),
                Err(e) => spec_parse(string@, Strictness::Relaxed) == Err::<CookieModel, Error>(e),
            },
    {
        parse_inner(string, Strictness::Relaxed, false)
    }

    /// Parses a percent-encoded cookie header value under the relaxed
    /// tier: the name and value are validated on the wire form, then
    /// percent-decoded.
    pub fn parse_cookie_encoded(string: &str) -> (r: Result<Cookie, Error>)
        ensures
            match r {
                Ok(c) => spec_parse_encoded(string@, Strictness::Relaxed) == Ok::<
                    CookieModel,
                    Error,
                >(c@),
                Err(e) => spec_parse_encoded(string@, Strictness::Relaxed) == Err::<
                    CookieModel,
                    Error,
                >(e),
            },
    {
        parse_inner(string, Strictness::Relaxed, true)
    }

    /// Parses a cookie header value under the given options.
    pub fn parse_cookie_with(string: &str, options: &CookieOptions) -> (r: Result<Cookie, Error>)
        ensures
            match r {
                Ok(c) => (if options.spec_encode() {
                    spec_parse_encoded(string@, options.spec_strictness()) == Ok::<
                        CookieModel,
                        Error,
                    >(c@)
                } else {
                    spec_parse(string@, options.spec_strictness()) == Ok::<CookieModel, Error>(c@)
                }),
                Err(e) => (if options.spec_encode() {
                    spec_parse_encoded(string@, options.spec_strictness()) == Err::<
                        CookieModel,
                        Error,
                    >(e)
                } else {
                    spec_parse(string@, options.spec_strictness()) == Err::<CookieModel, Error>(e)
                }),
            },
    {
        parse_inner(string, *options.strictness(), options.encoded_flag())
    }
}

/// The shared parser body: name and value from the first segment, then
/// the attribute segments folded left to right.
#[verifier::rlimit(60)]
#[verifier::spinoff_prover]
fn parse_inner(s: &str, st: Strictness, encode: bool) -> (r: Result<Cookie, Error>)
    ensures
        match r {
            Ok(c) => (if encode {
                spec_parse_encoded(s@, st) == Ok::<CookieModel, Error>(c@)
            } else {
                spec_parse(s@, st) == Ok::<CookieModel, Error>(c@)
            }),
            Err(e) => (if encode {
                spec_parse_encoded(s@, st) == Err::<CookieModel, Error>(e)
            } else {
                spec_parse(s@, st) == Err::<CookieModel, Error>(e)
            }),
        },
{
    let n = s.unicode_len();
    let semi = find_char_ex(s, ';');
    proof {
        lemma_find_char(s@, ';');
        lemma_segs_first(s@);
    }
    let seg0 = s.substring_char(0, semi);
    proof {
        assert(seg0@ =~= s@.take(semi as int));
    }
    let ghost sg0 = segs(s@)[0];
    let e = find_char_ex(seg0, '=');
    proof {
        lemma_find_char(seg0@, '=');
    }
    let unchecked = matches!(st, Strictness::Unchecked);
    let name: TinyStr;
    let value: TinyStr;
    if e == semi {
        if !unchecked {
            return Err(Error::EqualsNotFound);
        }
        name = TinyStr::empty();
        value = TinyStr::empty();
        proof {
            assert(parse_nv(sg0, st) == Ok::<(Seq<char>, Seq<char>), Error>(
                (Seq::<char>::empty(), Seq::<char>::empty()),
            ));
        }
    } else {
        let nm_sub = seg0.substring_char(0, e);
        let nb = trim_bounds(nm_sub);
        proof {
            assert(nm_sub@ =~= sg0.take(e as int));
            assert(nm_sub@.subrange(nb.0 as int, nb.1 as int) =~= s@.subrange(
                nb.0 as int,
                nb.1 as int,
            ));
        }
        let val_sub = seg0.substring_char(e + 1, semi);
        let vb = trim_bounds(val_sub);
        let vb1 = e + 1 + vb.0;
        let vb2 = e + 1 + vb.1;
        proof {
            assert(val_sub@ =~= sg0.subrange(e as int + 1, sg0.len() as int));
            assert(val_sub@.subrange(vb.0 as int, vb.1 as int) =~= s@.subrange(
                vb1 as int,
                vb2 as int,
            ));
        }
        let (v1, v2): (usize, usize) = if vb2 - vb1 > 1 && s.get_char(vb1) == '"' && s.get_char(
            vb2 - 1,
        ) == '"' {
            proof {
                let tv = trim_seq(sg0.subrange(e as int + 1, sg0.len() as int));
                assert(tv == s@.subrange(vb1 as int, vb2 as int));
                assert(tv[0] == s@[vb1 as int] && tv[tv.len() - 1] == s@[vb2 as int - 1]);
                assert(trim_quotes_seq(tv) =~= s@.subrange(vb1 as int + 1, vb2 as int - 1));
            }
            (vb1 + 1, vb2 - 1)
        } else {
            proof {
                let tv = trim_seq(sg0.subrange(e as int + 1, sg0.len() as int));
                assert(tv == s@.subrange(vb1 as int, vb2 as int));
                if tv.len() > 1 {
                    assert(tv[0] == s@[vb1 as int] && tv[tv.len() - 1] == s@[vb2 as int - 1]);
                }
                assert(trim_quotes_seq(tv) == tv);
            }
            (vb1, vb2)
        };
        let name_slice = s.substring_char(nb.0, nb.1);
        let value_slice = s.substring_char(v1, v2);
        proof {
            assert(name_slice@ == trim_seq(sg0.take(e as int)));
            assert(value_slice@ == trim_quotes_seq(
                trim_seq(sg0.subrange(e as int + 1, sg0.len() as int)),
            ));
        }
        if !unchecked {
            if name_slice.unicode_len() == 0 {
                return Err(Error::NameEmpty);
            }
            match find_non_token(name_slice) {
                Some(c) => {
                    return Err(Error::InvalidName(c));
                },
                None => (),
            }
            match find_invalid_cookie_value(value_slice) {
                Some(c) => {
                    return Err(Error::InvalidValue(c));
                },
                None => (),
            }
        }
        if encode {
            match decode_name_value(name_slice, value_slice) {
                Ok(pair) => {
                    name = TinyStr::from_string(pair.0);
                    value = TinyStr::from_string(pair.1);
                },
                Err(err) => {
                    return Err(err);
                },
            }
        } else {
            name = TinyStr::index(nb.0, nb.1);
            value = TinyStr::index(v1, v2);
        }
    }
    let raw = String::from_str(s);
    let mut cookie = Cookie::from_parse_parts(raw, name, value);
    let ghost m0 = cookie@;
    proof {
        if encode {
            assert(spec_parse_encoded(s@, st) == Ok::<CookieModel, Error>(
                apply_attrs(m0, segs(s@).drop_first(), st),
            ));
        } else {
            assert(spec_parse(s@, st) == Ok::<CookieModel, Error>(
                apply_attrs(m0, segs(s@).drop_first(), st),
            ));
        }
    }
    let mut sm = SplitMut::new(s);
    let first = sm.next();
    proof {
        assert(first is Some);
        assert(sm.emitted_segs() =~= segs(s@).take(1));
    }
    loop
        invariant_except_break
            sm.input() == s@,
            1 <= sm.emitted_segs().len() <= segs(s@).len(),
            sm.live() || sm.emitted_segs().len() == segs(s@).len(),
            cookie@ == apply_attrs(
                m0,
                segs(s@).subrange(1, sm.emitted_segs().len() as int),
                st,
            ),
            sm.emitted_segs() == segs(s@).take(sm.emitted_segs().len() as int),
        ensures
            cookie@ == apply_attrs(m0, segs(s@).subrange(1, segs(s@).len() as int), st),
        decreases segs(s@).len() - sm.emitted_segs().len(), (if sm.live() {
            1int
        } else {
            0int
        }),
    {
        let ghost k = sm.emitted_segs().len() as int;
        match sm.next() {
            Some(seg) => {
                proof {
                    assert(segs(s@).subrange(1, k + 1) =~= segs(s@).subrange(1, k).push(
                        segs(s@)[k],
                    ));
                    lemma_apply_attrs_snoc(m0, segs(s@).subrange(1, k), segs(s@)[k], st);
                    assert(sm.emitted_segs() =~= segs(s@).take(k + 1));
                }
                apply_attr_ex(&mut cookie, seg, st);
            },
            None => {
                proof {
                    assert(sm.emitted_segs().len() == segs(s@).len());
                }
                break ;
            },
        }
    }
    proof {
        assert(segs(s@).subrange(1, segs(s@).len() as int) =~= segs(s@).drop_first());
    }
    Ok(cookie)
}

} // verus!
