//! A cookie jar: a name-keyed collection of cookies, each marked as
//! original (received, never sent back), new (to be sent), or a removal
//! (sent with an expiry in the past). Names are unique in a jar.

use vstd::prelude::*;

use crate::cookie::{Cookie, CookieModel};
use crate::error::Error;
use crate::expires::ExpiresModel;
use crate::options::Strictness;
use crate::parse::{SplitMut, segs, spec_parse, spec_parse_encoded};
use crate::serialize::{spec_serialize, spec_serialize_encoded};

verus! {

/// How a cookie entered the jar, which decides whether it is sent back.
#[derive(Debug, Clone, Copy, PartialEq, Eq)]
pub enum EntryKind {
    /// Received from the user-agent; never sent back.
    Original,
    /// Newly set; sent back.
    New,
    /// Marked for removal; sent back with an expiry in the past.
    Removal,
}

pub(crate) struct JarEntry {
    pub(crate) kind: EntryKind,
    pub(crate) cookie: Cookie,
}

/// The index of the first entry with the given name, or the length when
/// no entry has it.
pub open spec fn jar_find(v: Seq<(EntryKind, CookieModel)>, name: Seq<char>) -> int
    decreases v.len(),
{
    if v.len() == 0 {
        0
    } else if v[0].1.name == name {
        0
    } else {
        1 + jar_find(v.drop_first(), name)
    }
}

pub proof fn lemma_jar_find(v: Seq<(EntryKind, CookieModel)>, name: Seq<char>)
    ensures
        0 <= jar_find(v, name) <= v.len(),
        jar_find(v, name) < v.len() ==> v[jar_find(v, name)].1.name == name,
        forall|j: int| 0 <= j < jar_find(v, name) ==> v[j].1.name != name,
    decreases v.len(),
{
    if v.len() > 0 && v[0].1.name != name {
        lemma_jar_find(v.drop_first(), name);
        assert forall|j: int| 0 <= j < jar_find(v, name) implies v[j].1.name != name by {
            if j > 0 {
                assert(v.drop_first()[j - 1] == v[j]);
            }
        }
    }
}

/// A jar with an original cookie added: kept out when the name is
/// already present.
pub open spec fn add_original_spec(v: Seq<(EntryKind, CookieModel)>, m: CookieModel) -> Seq<
    (EntryKind, CookieModel),
> {
    if jar_find(v, m.name) < v.len() {
        v
    } else {
        v.push((EntryKind::Original, m))
    }
}

/// A jar with a cookie set: the entry with the same name is replaced,
/// else the entry is appended.
pub open spec fn put_spec(
    v: Seq<(EntryKind, CookieModel)>,
    kind: EntryKind,
    m: CookieModel,
) -> Seq<(EntryKind, CookieModel)> {
    if jar_find(v, m.name) < v.len() {
        v.update(jar_find(v, m.name), (kind, m))
    } else {
        v.push((kind, m))
    }
}

/// A header value's segments parsed and added as original cookies, left
/// to right; segments that do not parse are ignored.
pub open spec fn from_header_spec(
    v: Seq<(EntryKind, CookieModel)>,
    ss: Seq<Seq<char>>,
    encoded: bool,
) -> Seq<(EntryKind, CookieModel)>
    decreases ss.len(),
{
    if ss.len() == 0 {
        v
    } else {
        from_header_spec(add_parsed_spec(v, ss.first(), encoded), ss.drop_first(), encoded)
    }
}

/// One header segment parsed and added as an original cookie, when it
/// parses.
pub open spec fn add_parsed_spec(
    v: Seq<(EntryKind, CookieModel)>,
    seg: Seq<char>,
    encoded: bool,
) -> Seq<(EntryKind, CookieModel)> {
    let p = if encoded {
        spec_parse_encoded(seg, Strictness::Relaxed)
    } else {
        spec_parse(seg, Strictness::Relaxed)
    };
    match p {
        Result::Ok(m) => add_original_spec(v, m),
        Result::Err(_) => v,
    }
}

pub proof fn lemma_from_header_snoc(
    v: Seq<(EntryKind, CookieModel)>,
    ss: Seq<Seq<char>>,
    x: Seq<char>,
    encoded: bool,
)
    ensures
        from_header_spec(v, ss.push(x), encoded) == add_parsed_spec(
            from_header_spec(v, ss, encoded),
            x,
            encoded,
        ),
    decreases ss.len(),
{
    if ss.len() == 0 {
        assert(ss.push(x).first() == x);
        assert(ss.push(x).drop_first() =~= Seq::<Seq<char>>::empty());
        assert(from_header_spec(add_parsed_spec(v, x, encoded), Seq::empty(), encoded)
            == add_parsed_spec(v, x, encoded));
    } else {
        assert(ss.push(x).first() == ss.first());
        assert(ss.push(x).drop_first() =~= ss.drop_first().push(x));
        lemma_from_header_snoc(add_parsed_spec(v, ss.first(), encoded), ss.drop_first(), x, encoded);
    }
}

/// The `Set-Cookie` header values of a jar: every new and removal entry
/// serialized, in jar order.
pub open spec fn headers_spec(v: Seq<(EntryKind, CookieModel)>) -> Seq<Result<Seq<char>, Error>>
    decreases v.len(),
{
    if v.len() == 0 {
        Seq::empty()
    } else {
        let rest = headers_spec(v.drop_first());
        if v[0].0 == EntryKind::Original {
            rest
        } else {
            seq![spec_serialize(v[0].1)] + rest
        }
    }
}

/// As `headers_spec`, with names and values percent-encoded.
pub open spec fn headers_encoded_spec(v: Seq<(EntryKind, CookieModel)>) -> Seq<
    Result<Seq<char>, Error>,
>
    decreases v.len(),
{
    if v.len() == 0 {
        Seq::empty()
    } else {
        let rest = headers_encoded_spec(v.drop_first());
        if v[0].0 == EntryKind::Original {
            rest
        } else {
            seq![spec_serialize_encoded(v[0].1)] + rest
        }
    }
}

proof fn lemma_headers_enc_snoc(v: Seq<(EntryKind, CookieModel)>, x: (EntryKind, CookieModel))
    ensures
        headers_encoded_spec(v.push(x)) == (if x.0 == EntryKind::Original {
            headers_encoded_spec(v)
        } else {
            headers_encoded_spec(v).push(spec_serialize_encoded(x.1))
        }),
    decreases v.len(),
{
    if v.len() == 0 {
        assert(v.push(x).drop_first() =~= Seq::<(EntryKind, CookieModel)>::empty());
        assert(v.push(x)[0] == x);
        assert(headers_encoded_spec(Seq::<(EntryKind, CookieModel)>::empty()) =~= Seq::<
            Result<Seq<char>, Error>,
        >::empty());
        if x.0 != EntryKind::Original {
            assert(seq![spec_serialize_encoded(x.1)] + Seq::<Result<Seq<char>, Error>>::empty()
                =~= headers_encoded_spec(v).push(spec_serialize_encoded(x.1)));
        }
    } else {
        assert(v.push(x).drop_first() =~= v.drop_first().push(x));
        assert(v.push(x)[0] == v[0]);
        lemma_headers_enc_snoc(v.drop_first(), x);
        if v[0].0 != EntryKind::Original {
            if x.0 != EntryKind::Original {
                assert(seq![spec_serialize_encoded(v[0].1)] + headers_encoded_spec(
                    v.drop_first(),
                ).push(spec_serialize_encoded(x.1)) =~= (seq![spec_serialize_encoded(v[0].1)]
                    + headers_encoded_spec(v.drop_first())).push(spec_serialize_encoded(x.1)));
            }
        }
    }
}

proof fn lemma_headers_snoc(v: Seq<(EntryKind, CookieModel)>, x: (EntryKind, CookieModel))
    ensures
        headers_spec(v.push(x)) == (if x.0 == EntryKind::Original {
            headers_spec(v)
        } else {
            headers_spec(v).push(spec_serialize(x.1))
        }),
    decreases v.len(),
{
    if v.len() == 0 {
        assert(v.push(x).drop_first() =~= Seq::<(EntryKind, CookieModel)>::empty());
        assert(v.push(x)[0] == x);
        assert(headers_spec(Seq::<(EntryKind, CookieModel)>::empty()) =~= Seq::<
            Result<Seq<char>, Error>,
        >::empty());
        if x.0 != EntryKind::Original {
            assert(seq![spec_serialize(x.1)] + Seq::<Result<Seq<char>, Error>>::empty()
                =~= headers_spec(v).push(spec_serialize(x.1)));
        }
    } else {
        assert(v.push(x).drop_first() =~= v.drop_first().push(x));
        assert(v.push(x)[0] == v[0]);
        lemma_headers_snoc(v.drop_first(), x);
        if v[0].0 != EntryKind::Original {
            if x.0 != EntryKind::Original {
                assert(seq![spec_serialize(v[0].1)] + headers_spec(v.drop_first()).push(
                    spec_serialize(x.1),
                ) =~= (seq![spec_serialize(v[0].1)] + headers_spec(v.drop_first())).push(
                    spec_serialize(x.1),
                ));
            }
        }
    }
}

/// A name-keyed cookie jar tracking per-session changes: which cookies
/// came in with the request, which are newly set, and which are to be
/// removed.
pub struct CookieJar {
    entries: Vec<JarEntry>,
}

impl View for CookieJar {
    type V = Seq<(EntryKind, CookieModel)>;

    closed spec fn view(&self) -> Seq<(EntryKind, CookieModel)> {
        Seq::new(self.entries@.len(), |i: int| (self.entries@[i].kind, self.entries@[i].cookie@))
    }
}

impl CookieJar {
    #[verifier::type_invariant]
    spec fn names_unique(self) -> bool {
        forall|i: int, j: int|
            0 <= i < j < self@.len() ==> #[trigger] self@[i].1.name != #[trigger] self@[j].1.name
    }

    /// Creates an empty jar.
    pub fn empty() -> (r: Self)
        ensures
            r@ == Seq::<(EntryKind, CookieModel)>::empty(),
    {
        let r = CookieJar { entries: Vec::new() };
        proof {
            assert(r@ =~= Seq::<(EntryKind, CookieModel)>::empty());
        }
        r
    }

    /// The index of the first entry with the given name.
    fn find_entry(&self, name: &str) -> (r: usize)
        ensures
            r as int == jar_find(self@, name@),
    {
        proof {
            lemma_jar_find(self@, name@);
        }
        let n = self.entries.len();
        let mut i: usize = 0;
        while i < n
            invariant
                0 <= i <= n,
                n == self@.len(),
                n == self.entries@.len(),
                forall|j: int| 0 <= j < i ==> self@[j].1.name != name@,
            decreases n - i,
        {
            let entry_name = self.entries[i].cookie.name();
            if crate::chars::str_eq(entry_name, name) {
                proof {
                    lemma_jar_find(self@, name@);
                    let f = jar_find(self@, name@);
                    if f < i {
                        assert(self@[f].1.name != name@);
                    } else if f > i {
                        assert(self@[i as int].1.name != name@);
                    }
                }
                return i;
            }
            i = i + 1;
        }
        proof {
            lemma_jar_find(self@, name@);
            if jar_find(self@, name@) < n {
                assert(self@[jar_find(self@, name@)].1.name != name@);
            }
        }
        n
    }

    /// Adds an original cookie: one received from the user-agent, never
    /// sent back. A cookie whose name is already in the jar is dropped.
    pub fn add_original(&mut self, cookie: Cookie)
        ensures
            final(self)@ == add_original_spec(old(self)@, cookie@),
    {
        proof {
            use_type_invariant(&*self);
            lemma_jar_find(self@, cookie@.name);
        }
        let i = self.find_entry(cookie.name());
        if i < self.entries.len() {
            return ;
        }
        let mut v: Vec<JarEntry> = Vec::new();
        core::mem::swap(&mut v, &mut self.entries);
        v.push(JarEntry { kind: EntryKind::Original, cookie });
        proof {
            assert(Seq::new(v@.len(), |k: int| (v@[k].kind, v@[k].cookie@)) =~= old(
                self,
            )@.push((EntryKind::Original, cookie@)));
        }
        self.entries = v;
    }

    /// Creates a jar of original cookies; later duplicates of a name are
    /// dropped.
    pub fn from_original(cookies: Vec<Cookie>) -> (r: Self)
        ensures
            r@ == spec_from_original(cookies@.map_values(|c: Cookie| c@)),
    {
        let mut jar = Self::empty();
        let n = cookies.len();
        let ghost models = cookies@.map_values(|c: Cookie| c@);
        let mut i: usize = 0;
        proof {
            assert(models.take(0) =~= Seq::<CookieModel>::empty());
        }
        while i < n
            invariant
                0 <= i <= n,
                n == cookies@.len(),
                models == cookies@.map_values(|c: Cookie| c@),
                jar@ == spec_from_original(models.take(i as int)),
            decreases n - i,
        {
            let c = cookies[i].clone();
            proof {
                assert(c@ == models[i as int]);
                assert(models.take(i as int + 1).drop_last() =~= models.take(i as int));
                assert(models.take(i as int + 1).last() == models[i as int]);
            }
            jar.add_original(c);
            i = i + 1;
        }
        proof {
            assert(models.take(n as int) =~= models);
        }
        jar
    }

    /// Parses a `Cookie` header value, one `name=value` pair per
    /// semicolon-separated segment, and returns the pairs as original
    /// cookies. Segments that do not parse are ignored.
    pub fn from_cookie(header: &str) -> (r: Self)
        ensures
            r@ == from_header_spec(Seq::empty(), segs(header@), false),
    {
        Self::from_header(header, false)
    }

    /// As `from_cookie`, with names and values percent-decoded.
    pub fn from_encoded_cookie(header: &str) -> (r: Self)
        ensures
            r@ == from_header_spec(Seq::empty(), segs(header@), true),
    {
        Self::from_header(header, true)
    }

    fn from_header(header: &str, encoded: bool) -> (r: Self)
        ensures
            r@ == from_header_spec(Seq::empty(), segs(header@), encoded),
    {
        let mut jar = Self::empty();
        let mut sm = SplitMut::new(header);
        loop
            invariant_except_break
                sm.input() == header@,
                sm.emitted_segs().len() <= segs(header@).len(),
                jar@ == from_header_spec(
                    Seq::empty(),
                    segs(header@).take(sm.emitted_segs().len() as int),
                    encoded,
                ),
                sm.emitted_segs() == segs(header@).take(sm.emitted_segs().len() as int),
            ensures
                jar@ == from_header_spec(Seq::empty(), segs(header@), encoded),
            decreases segs(header@).len() - sm.emitted_segs().len(), (if sm.live() {
                1int
            } else {
                0int
            }),
        {
            let ghost k = sm.emitted_segs().len() as int;
            proof {
                assert(segs(header@).take(0) =~= Seq::<Seq<char>>::empty());
            }
            match sm.next() {
                Some(seg) => {
                    proof {
                        assert(segs(header@).take(k + 1) =~= segs(header@).take(k).push(
                            segs(header@)[k],
                        ));
                        lemma_from_header_snoc(
                            Seq::empty(),
                            segs(header@).take(k),
                            segs(header@)[k],
                            encoded,
                        );
                    }
                    let parsed = if encoded {
                        Cookie::parse_cookie_encoded(seg)
                    } else {
                        Cookie::parse_cookie(seg)
                    };
                    match parsed {
                        Ok(c) => {
                            jar.add_original(c);
                        },
                        Err(_) => (),
                    }
                },
                None => {
                    proof {
                        assert(segs(header@).take(segs(header@).len() as int) =~= segs(header@));
                    }
                    break ;
                },
            }
        }
        jar
    }

    /// Gets a cookie by name: an original or newly set cookie, never a
    /// removal entry.
    pub fn get(&self, name: &str) -> (r: Option<&Cookie>)
        ensures
            ({
                let i = jar_find(self@, name@);
                match r {
                    Some(c) => i < self@.len() && self@[i].0 != EntryKind::Removal && c@
                        == self@[i].1,
                    None => i == self@.len() || self@[i].0 == EntryKind::Removal,
                }
            }),
    {
        proof {
            lemma_jar_find(self@, name@);
        }
        let i = self.find_entry(name);
        if i < self.entries.len() {
            let entry = &self.entries[i];
            match entry.kind {
                EntryKind::Removal => None,
                _ => Some(&entry.cookie),
            }
        } else {
            None
        }
    }

    /// The pending `Set-Cookie` header values: every new and removal
    /// entry serialized, in jar order.
    pub fn set_cookie_headers(&self) -> (r: Vec<Result<String, Error>>)
        ensures
            r@.len() == headers_spec(self@).len(),
            forall|i: int|
                0 <= i < r@.len() ==> (match (#[trigger] r@[i], headers_spec(self@)[i]) {
                    (Result::Ok(s), Result::Ok(t)) => s@ == t,
                    (Result::Err(a), Result::Err(b)) => a == b,
                    _ => false,
                }),
    {
        let mut out: Vec<Result<String, Error>> = Vec::new();
        let n = self.entries.len();
        let mut i: usize = 0;
        proof {
            lemma_headers_prefix(self@, 0);
        }
        while i < n
            invariant
                0 <= i <= n,
                n == self.entries@.len(),
                n == self@.len(),
                out@.len() == headers_spec_prefix(self@, i as int).len(),
                forall|j: int|
                    0 <= j < out@.len() ==> (match (
                        #[trigger] out@[j],
                        headers_spec_prefix(self@, i as int)[j],
                    ) {
                        (Result::Ok(s), Result::Ok(t)) => s@ == t,
                        (Result::Err(a), Result::Err(b)) => a == b,
                        _ => false,
                    }),
            decreases n - i,
        {
            let entry = &self.entries[i];
            proof {
                lemma_headers_prefix_step(self@, i as int);
            }
            match entry.kind {
                EntryKind::Original => (),
                _ => {
                    let ser = entry.cookie.serialize();
                    out.push(ser);
                },
            }
            i = i + 1;
        }
        proof {
            lemma_headers_prefix_all(self@);
        }
        out
    }

    /// The pending `Set-Cookie` header values with names and values
    /// percent-encoded: every new and removal entry, in jar order.
    pub fn set_cookie_headers_encoded(&self) -> (r: Vec<Result<String, Error>>)
        ensures
            r@.len() == headers_encoded_spec(self@).len(),
            forall|i: int|
                0 <= i < r@.len() ==> (match (
                    #[trigger] r@[i],
                    headers_encoded_spec(self@)[i],
                ) {
                    (Result::Ok(s), Result::Ok(t)) => s@ == t,
                    (Result::Err(a), Result::Err(b)) => a == b,
                    _ => false,
                }),
    {
        let mut out: Vec<Result<String, Error>> = Vec::new();
        let n = self.entries.len();
        let mut i: usize = 0;
        proof {
            assert(self@.take(0) =~= Seq::<(EntryKind, CookieModel)>::empty());
        }
        while i < n
            invariant
                0 <= i <= n,
                n == self.entries@.len(),
                n == self@.len(),
                out@.len() == headers_encoded_spec(self@.take(i as int)).len(),
                forall|j: int|
                    0 <= j < out@.len() ==> (match (
                        #[trigger] out@[j],
                        headers_encoded_spec(self@.take(i as int))[j],
                    ) {
                        (Result::Ok(s), Result::Ok(t)) => s@ == t,
                        (Result::Err(a), Result::Err(b)) => a == b,
                        _ => false,
                    }),
            decreases n - i,
        {
            let entry = &self.entries[i];
            proof {
                assert(self@.take(i as int + 1) =~= self@.take(i as int).push(self@[i as int]));
                lemma_headers_enc_snoc(self@.take(i as int), self@[i as int]);
            }
            match entry.kind {
                EntryKind::Original => (),
                _ => {
                    let ser = entry.cookie.serialize_encoded();
                    out.push(ser);
                },
            }
            i = i + 1;
        }
        proof {
            assert(self@.take(n as int) =~= self@);
        }
        out
    }

    /// Removes the named cookie: the jar entry becomes a removal that is
    /// sent back with Max-Age zero and an Expires date in the past.
    pub fn remove(&mut self, cookie: Cookie)
        ensures
            final(self)@ == put_spec(
                old(self)@,
                EntryKind::Removal,
                (CookieModel {
                    expires: ExpiresModel::Remove,
                    max_age: Some(0u64),
                    value: Seq::empty(),
                    ..cookie@
                }),
            ),
    {
        let removal = cookie.into_remove();
        self.put(EntryKind::Removal, removal);
    }

    /// Adds a cookie to be sent back; an entry with the same name is
    /// replaced.
    pub fn add(&mut self, cookie: Cookie)
        ensures
            final(self)@ == put_spec(old(self)@, EntryKind::New, cookie@),
    {
        self.put(EntryKind::New, cookie);
    }

    fn put(&mut self, kind: EntryKind, cookie: Cookie)
        ensures
            final(self)@ == put_spec(old(self)@, kind, cookie@),
    {
        proof {
            use_type_invariant(&*self);
            lemma_jar_find(self@, cookie@.name);
        }
        let i = self.find_entry(cookie.name());
        let mut v: Vec<JarEntry> = Vec::new();
        core::mem::swap(&mut v, &mut self.entries);
        if i < v.len() {
            v.remove(i);
            v.insert(i, JarEntry { kind, cookie });
            proof {
                assert(Seq::new(v@.len(), |k: int| (v@[k].kind, v@[k].cookie@)) =~= old(
                    self,
                )@.update(i as int, (kind, cookie@)));
            }
        } else {
            v.push(JarEntry { kind, cookie });
            proof {
                assert(Seq::new(v@.len(), |k: int| (v@[k].kind, v@[k].cookie@)) =~= old(
                    self,
                )@.push((kind, cookie@)));
            }
        }
        self.entries = v;
    }
}

/// A jar of original cookies built from a list, left to right.
pub open spec fn spec_from_original(ms: Seq<CookieModel>) -> Seq<(EntryKind, CookieModel)>
    decreases ms.len(),
{
    if ms.len() == 0 {
        Seq::empty()
    } else {
        add_original_spec(spec_from_original(ms.drop_last()), ms.last())
    }
}

/// The headers of the first `i` entries.
pub open spec fn headers_spec_prefix(v: Seq<(EntryKind, CookieModel)>, i: int) -> Seq<
    Result<Seq<char>, Error>,
> {
    headers_spec(v.take(i))
}

proof fn lemma_headers_prefix(v: Seq<(EntryKind, CookieModel)>, i: int)
    requires
        i == 0,
    ensures
        headers_spec_prefix(v, 0) == Seq::<Result<Seq<char>, Error>>::empty(),
{
    assert(v.take(0) =~= Seq::<(EntryKind, CookieModel)>::empty());
}

proof fn lemma_headers_prefix_step(v: Seq<(EntryKind, CookieModel)>, i: int)
    requires
        0 <= i < v.len(),
    ensures
        headers_spec_prefix(v, i + 1) == (if v[i].0 == EntryKind::Original {
            headers_spec_prefix(v, i)
        } else {
            headers_spec_prefix(v, i).push(spec_serialize(v[i].1))
        }),
{
    assert(v.take(i + 1) =~= v.take(i).push(v[i]));
    lemma_headers_snoc(v.take(i), v[i]);
}

proof fn lemma_headers_prefix_all(v: Seq<(EntryKind, CookieModel)>)
    ensures
        headers_spec_prefix(v, v.len() as int) == headers_spec(v),
{
    assert(v.take(v.len() as int) =~= v);
}

} // verus!
