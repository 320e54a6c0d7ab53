//! Character classes of the cookie grammar (RFC 6265 `cookie-octet`,
//! RFC 2616 `token`) and sequence-level helpers: whitespace trimming,
//! ASCII case folding and first-occurrence search.

use vstd::prelude::*;

use crate::util::push_char;

verus! {

/// The whitespace characters that surround cookie names, values and
/// attribute values on the wire: space and horizontal tab.
pub open spec fn is_cookie_ws(c: char) -> bool {
    c == ' ' || c == '\t'
}

/// ASCII control characters: `0x00..=0x1f` and `0x7f`.
pub open spec fn is_ascii_ctl(c: char) -> bool {
    c as u32 <= 0x1f || c as u32 == 0x7f
}

/// A character that may not appear in a cookie value: space, double quote,
/// comma, semicolon, backslash, or an ASCII control character. This is
/// deliberately more permissive than the RFC `cookie-octet` class, to
/// tolerate values seen in the wild.
pub open spec fn is_invalid_value_char(c: char) -> bool {
    c == ' ' || c == '"' || c == ',' || c == ';' || c == '\\' || is_ascii_ctl(c)
}

/// RFC 2616 `token` characters, legal in cookie names: ASCII alphanumerics
/// plus a fixed punctuation set.
pub open spec fn is_token_char(c: char) -> bool {
    ('0' <= c && c <= '9') || ('a' <= c && c <= 'z') || ('A' <= c && c <= 'Z') || c == '!'
        || c == '#' || c == '$' || c == '%' || c == '&' || c == '\'' || c == '*' || c == '+'
        || c == '-' || c == '.' || c == '^' || c == '_' || c == '`' || c == '|' || c == '~'
}

/// Every character of `s` is a `token` character.
pub open spec fn is_token_seq(s: Seq<char>) -> bool {
    forall|i: int| 0 <= i < s.len() ==> is_token_char(#[trigger] s[i])
}

/// The first character of `s` that is not legal in a cookie value, if any.
pub open spec fn first_invalid_value_char(s: Seq<char>) -> Option<char>
    decreases s.len(),
{
    if s.len() == 0 {
        None
    } else if is_invalid_value_char(s[0]) {
        Some(s[0])
    } else {
        first_invalid_value_char(s.drop_first())
    }
}

/// The first character of `s` that is not a `token` character, if any.
pub open spec fn first_non_token_char(s: Seq<char>) -> Option<char>
    decreases s.len(),
{
    if s.len() == 0 {
        None
    } else if !is_token_char(s[0]) {
        Some(s[0])
    } else {
        first_non_token_char(s.drop_first())
    }
}

/// ASCII case folding of one character.
pub open spec fn lower_char(c: char) -> char {
    if 'A' <= c && c <= 'Z' {
        ((c as u32) + 32) as char
    } else {
        c
    }
}

/// ASCII case folding of a whole sequence.
pub open spec fn lower_seq(s: Seq<char>) -> Seq<char> {
    Seq::new(s.len(), |i: int| lower_char(s[i]))
}

/// `s` with leading cookie whitespace removed.
pub open spec fn trim_left(s: Seq<char>) -> Seq<char>
    decreases s.len(),
{
    if s.len() > 0 && is_cookie_ws(s[0]) {
        trim_left(s.drop_first())
    } else {
        s
    }
}

/// `s` with trailing cookie whitespace removed.
pub open spec fn trim_right(s: Seq<char>) -> Seq<char>
    decreases s.len(),
{
    if s.len() > 0 && is_cookie_ws(s[s.len() - 1]) {
        trim_right(s.drop_last())
    } else {
        s
    }
}

/// `s` with leading and trailing cookie whitespace removed.
pub open spec fn trim_seq(s: Seq<char>) -> Seq<char> {
    trim_right(trim_left(s))
}

/// The index of the first occurrence of `c` in `s`, or `s.len()` when `c`
/// does not occur.
pub open spec fn find_char(s: Seq<char>, c: char) -> int
    decreases s.len(),
{
    if s.len() == 0 {
        0
    } else if s[0] == c {
        0
    } else {
        1 + find_char(s.drop_first(), c)
    }
}

pub proof fn lemma_find_char(s: Seq<char>, c: char)
    ensures
        0 <= find_char(s, c) <= s.len(),
        find_char(s, c) < s.len() ==> s[find_char(s, c)] == c,
        forall|j: int| 0 <= j < find_char(s, c) ==> s[j] != c,
    decreases s.len(),
{
    if s.len() > 0 && s[0] != c {
        lemma_find_char(s.drop_first(), c);
        assert forall|j: int| 0 <= j < find_char(s, c) implies s[j] != c by {
            if j > 0 {
                assert(s.drop_first()[j - 1] == s[j]);
            }
        }
    }
}

/// No character of `s` may start a new segment: `s` holds no semicolon.
pub open spec fn no_semi(s: Seq<char>) -> bool {
    forall|i: int| 0 <= i < s.len() ==> #[trigger] s[i] != ';'
}

/// There is no first invalid value character exactly when no character
/// is invalid.
pub proof fn lemma_first_invalid_none(s: Seq<char>)
    ensures
        (first_invalid_value_char(s) is None) <==> (forall|i: int|
            0 <= i < s.len() ==> !is_invalid_value_char(#[trigger] s[i])),
    decreases s.len(),
{
    if s.len() > 0 && !is_invalid_value_char(s[0]) {
        lemma_first_invalid_none(s.drop_first());
        assert(forall|i: int|
            1 <= i < s.len() ==> s.drop_first()[i - 1] == #[trigger] s[i]);
    }
}

/// There is no first non-token character exactly when every character is
/// a token character.
pub proof fn lemma_first_non_token_none(s: Seq<char>)
    ensures
        (first_non_token_char(s) is None) <==> is_token_seq(s),
    decreases s.len(),
{
    if s.len() > 0 && is_token_char(s[0]) {
        lemma_first_non_token_none(s.drop_first());
        assert(forall|i: int|
            1 <= i < s.len() ==> s.drop_first()[i - 1] == #[trigger] s[i]);
    }
}

/// A string whose ends are not whitespace trims to itself.
pub proof fn lemma_trim_id(s: Seq<char>)
    requires
        s.len() > 0 ==> !is_cookie_ws(s[0]) && !is_cookie_ws(s[s.len() - 1]),
    ensures
        trim_seq(s) == s,
{
    assert(trim_left(s) == s);
    assert(trim_right(s) == s);
}

/// A string that starts with one space and otherwise has no whitespace
/// at its edges trims to everything after the space.
pub proof fn lemma_trim_after_space(s: Seq<char>)
    requires
        s.len() > 0,
        s[0] == ' ',
        s.len() > 1 ==> !is_cookie_ws(s[1]) && !is_cookie_ws(s[s.len() - 1]),
    ensures
        trim_seq(s) == s.drop_first(),
{
    let t = s.drop_first();
    if t.len() > 0 {
        assert(t[0] == s[1] && t[t.len() - 1] == s[s.len() - 1]);
        assert(trim_left(t) == t);
        assert(trim_left(s) == trim_left(t));
        assert(trim_right(t) == t);
    } else {
        assert(t =~= Seq::<char>::empty());
        assert(trim_left(t) == t);
        assert(trim_right(t) == t);
    }
}

/// Searching a concatenation whose first part lacks the needle finds it
/// in the second part.
pub proof fn lemma_find_char_app(a: Seq<char>, b: Seq<char>, c: char)
    requires
        forall|i: int| 0 <= i < a.len() ==> #[trigger] a[i] != c,
    ensures
        find_char(a + b, c) == a.len() + find_char(b, c),
    decreases a.len(),
{
    if a.len() == 0 {
        assert(a + b =~= b);
    } else {
        assert((a + b)[0] == a[0]);
        assert((a + b).drop_first() =~= a.drop_first() + b);
        assert(forall|i: int|
            0 <= i < a.drop_first().len() ==> #[trigger] a.drop_first()[i] == a[i + 1]);
        lemma_find_char_app(a.drop_first(), b, c);
    }
}

/// Case folding touches no character of the invalid-value class: a
/// folded string is clean exactly when the original is.
pub proof fn lemma_lower_keeps_invalid(s: Seq<char>)
    ensures
        (first_invalid_value_char(lower_seq(s)) is None) <==> (first_invalid_value_char(
            s,
        ) is None),
{
    lemma_first_invalid_none(s);
    lemma_first_invalid_none(lower_seq(s));
    assert forall|i: int|
        0 <= i < s.len() implies is_invalid_value_char(#[trigger] lower_seq(s)[i])
        == is_invalid_value_char(s[i]) by {
        assert(lower_seq(s)[i] == lower_char(s[i]));
        let c = s[i];
        if 'A' <= c && c <= 'Z' {
            let l = lower_char(c);
            assert(l as u32 == c as u32 + 32);
            assert(!is_invalid_value_char(c) && !is_invalid_value_char(l));
        }
    }
    if first_invalid_value_char(s) is None {
        assert forall|i: int|
            0 <= i < lower_seq(s).len() implies !is_invalid_value_char(
            #[trigger] lower_seq(s)[i],
        ) by {
            assert(!is_invalid_value_char(s[i]));
        }
    }
    if first_invalid_value_char(lower_seq(s)) is None {
        assert forall|i: int| 0 <= i < s.len() implies !is_invalid_value_char(
            #[trigger] s[i],
        ) by {
            assert(!is_invalid_value_char(lower_seq(s)[i]));
        }
    }
}

/// Case folding is idempotent.
pub proof fn lemma_lower_idempotent(s: Seq<char>)
    ensures
        lower_seq(lower_seq(s)) == lower_seq(s),
{
    assert(lower_seq(lower_seq(s)) =~= lower_seq(s));
}

/// Strips one pair of surrounding double quotes, when both are present and
/// the sequence is longer than a single character.
pub open spec fn trim_quotes_seq(s: Seq<char>) -> Seq<char> {
    if s.len() > 1 && s[0] == '"' && s[s.len() - 1] == '"' {
        s.subrange(1, s.len() - 1)
    } else {
        s
    }
}

/// Whitespace test used while trimming names, values and attribute values.
pub fn is_cookie_ws_char(c: char) -> (r: bool)
    ensures
        r == is_cookie_ws(c),
{
    c == ' ' || c == '\t'
}

/// Token-character test, the legality test for one cookie-name character.
pub fn token_char(c: char) -> (r: bool)
    ensures
        r == is_token_char(c),
{
    ('0' <= c && c <= '9') || ('a' <= c && c <= 'z') || ('A' <= c && c <= 'Z') || c == '!'
        || c == '#' || c == '$' || c == '%' || c == '&' || c == '\'' || c == '*' || c == '+'
        || c == '-' || c == '.' || c == '^' || c == '_' || c == '`' || c == '|' || c == '~'
}

/// Test for characters that may not appear in a cookie value.
fn invalid_cookie_value_char(c: char) -> (r: bool)
    ensures
        r == is_invalid_value_char(c),
{
    let n = c as u32;
    c == ' ' || c == '"' || c == ',' || c == ';' || c == '\\' || n <= 0x1f || n == 0x7f
}

/// True when every character of `val` is a `token` character; the legality
/// test for cookie names. The empty string passes.
pub fn is_token(val: &str) -> (r: bool)
    ensures
        r == is_token_seq(val@),
{
    let n = val.unicode_len();
    let mut i: usize = 0;
    while i < n
        invariant
            0 <= i <= n,
            n == val@.len(),
            forall|j: int| 0 <= j < i ==> is_token_char(#[trigger] val@[j]),
        decreases n - i,
    {
        if !token_char(val.get_char(i)) {
            return false;
        }
        i = i + 1;
    }
    true
}

/// The first character of `val` that is not legal in a cookie value, if any.
pub fn find_invalid_cookie_value(val: &str) -> (r: Option<char>)
    ensures
        r == first_invalid_value_char(val@),
{
    let n = val.unicode_len();
    let mut i: usize = 0;
    proof {
        assert(val@.skip(0) =~= val@);
    }
    while i < n
        invariant
            0 <= i <= n,
            n == val@.len(),
            first_invalid_value_char(val@) == first_invalid_value_char(val@.skip(i as int)),
            forall|j: int| 0 <= j < i ==> !is_invalid_value_char(#[trigger] val@[j]),
        decreases n - i,
    {
        let c = val.get_char(i);
        if invalid_cookie_value_char(c) {
            proof {
                assert(val@.skip(i as int)[0] == c);
            }
            return Some(c);
        }
        proof {
            assert(val@.skip(i as int).drop_first() =~= val@.skip(i as int + 1));
            assert(val@.skip(i as int)[0] == val@[i as int]);
        }
        i = i + 1;
    }
    proof {
        assert(val@.skip(i as int) =~= Seq::<char>::empty());
    }
    None
}

/// ASCII case folding of one character.
pub fn lower_char_ex(c: char) -> (r: char)
    ensures
        r == lower_char(c),
{
    if 'A' <= c && c <= 'Z' {
        (((c as u32) + 32) as u8) as char
    } else {
        c
    }
}

/// A freshly allocated ASCII-lowercase copy of `s`.
pub fn lower_str(s: &str) -> (r: String)
    ensures
        r@ == lower_seq(s@),
{
    let n = s.unicode_len();
    let mut out = String::new();
    let mut i: usize = 0;
    while i < n
        invariant
            0 <= i <= n,
            n == s@.len(),
            out@ =~= lower_seq(s@).take(i as int),
        decreases n - i,
    {
        push_char(&mut out, lower_char_ex(s.get_char(i)));
        proof {
            assert(lower_seq(s@).take(i as int).push(lower_char(s@[i as int])) =~= lower_seq(s@)
                .take(i as int + 1));
        }
        i = i + 1;
    }
    proof {
        assert(lower_seq(s@).take(n as int) =~= lower_seq(s@));
    }
    out
}

/// Character-for-character string equality.
pub fn str_eq(a: &str, b: &str) -> (r: bool)
    ensures
        r == (a@ == b@),
{
    let n = a.unicode_len();
    if n != b.unicode_len() {
        proof {
            assert(a@.len() != b@.len());
        }
        return false;
    }
    let mut i: usize = 0;
    while i < n
        invariant
            0 <= i <= n,
            n == a@.len() == b@.len(),
            forall|j: int| 0 <= j < i ==> a@[j] == b@[j],
        decreases n - i,
    {
        if a.get_char(i) != b.get_char(i) {
            return false;
        }
        i = i + 1;
    }
    proof {
        assert(a@ =~= b@);
    }
    true
}

/// String equality up to ASCII case.
pub fn str_eq_ignore_case(a: &str, b: &str) -> (r: bool)
    ensures
        r == (lower_seq(a@) == lower_seq(b@)),
{
    let n = a.unicode_len();
    if n != b.unicode_len() {
        proof {
            assert(lower_seq(a@).len() != lower_seq(b@).len());
        }
        return false;
    }
    let mut i: usize = 0;
    while i < n
        invariant
            0 <= i <= n,
            n == a@.len() == b@.len(),
            forall|j: int| 0 <= j < i ==> lower_seq(a@)[j] == lower_seq(b@)[j],
        decreases n - i,
    {
        if lower_char_ex(a.get_char(i)) != lower_char_ex(b.get_char(i)) {
            proof {
                assert(lower_seq(a@)[i as int] != lower_seq(b@)[i as int]);
            }
            return false;
        }
        i = i + 1;
    }
    proof {
        assert(lower_seq(a@) =~= lower_seq(b@));
    }
    true
}

/// The index of the first occurrence of `c` in `s`, or the length of `s`
/// when `c` does not occur.
pub fn find_char_ex(s: &str, c: char) -> (r: usize)
    ensures
        r == find_char(s@, c),
{
    let n = s.unicode_len();
    let mut i: usize = 0;
    while i < n
        invariant
            0 <= i <= n,
            n == s@.len(),
            forall|j: int| 0 <= j < i ==> s@[j] != c,
        decreases n - i,
    {
        if s.get_char(i) == c {
            proof {
                lemma_find_char(s@, c);
                let f = find_char(s@, c);
                if f < i {
                    assert(s@[f] != c);
                } else if f > i {
                    assert(s@[i as int] != c);
                }
            }
            return i;
        }
        i = i + 1;
    }
    proof {
        lemma_find_char(s@, c);
        if find_char(s@, c) < n {
            assert(s@[find_char(s@, c)] != c);
        }
    }
    n
}

/// The first character of `val` that is not a `token` character, if any.
pub fn find_non_token(val: &str) -> (r: Option<char>)
    ensures
        r == first_non_token_char(val@),
{
    let n = val.unicode_len();
    let mut i: usize = 0;
    proof {
        assert(val@.skip(0) =~= val@);
    }
    while i < n
        invariant
            0 <= i <= n,
            n == val@.len(),
            first_non_token_char(val@) == first_non_token_char(val@.skip(i as int)),
            forall|j: int| 0 <= j < i ==> is_token_char(#[trigger] val@[j]),
        decreases n - i,
    {
        let c = val.get_char(i);
        if !token_char(c) {
            proof {
                assert(val@.skip(i as int)[0] == c);
            }
            return Some(c);
        }
        proof {
            assert(val@.skip(i as int).drop_first() =~= val@.skip(i as int + 1));
            assert(val@.skip(i as int)[0] == val@[i as int]);
        }
        i = i + 1;
    }
    proof {
        assert(val@.skip(i as int) =~= Seq::<char>::empty());
    }
    None
}

/// The bounds of `s` with leading and trailing cookie whitespace removed:
/// `s[lo..hi]` is the trimmed string.
pub fn trim_bounds(s: &str) -> (r: (usize, usize))
    ensures
        r.0 <= r.1 <= s@.len(),
        s@.subrange(r.0 as int, r.1 as int) == trim_seq(s@),
{
    let n = s.unicode_len();
    let mut start: usize = 0;
    proof {
        assert(s@.skip(0) =~= s@);
    }
    while start < n && is_cookie_ws_char(s.get_char(start))
        invariant
            0 <= start <= n,
            n == s@.len(),
            trim_left(s@) == trim_left(s@.skip(start as int)),
        decreases n - start,
    {
        proof {
            assert(s@.skip(start as int)[0] == s@[start as int]);
            assert(s@.skip(start as int).drop_first() =~= s@.skip(start as int + 1));
        }
        start = start + 1;
    }
    proof {
        if start < n {
            assert(!is_cookie_ws(s@.skip(start as int)[0]));
        } else {
            assert(s@.skip(start as int) =~= Seq::<char>::empty());
        }
        assert(trim_left(s@) == s@.skip(start as int));
    }
    let mut end: usize = n;
    proof {
        assert(s@.skip(start as int) =~= s@.subrange(start as int, end as int));
    }
    while end > start && is_cookie_ws_char(s.get_char(end - 1))
        invariant
            start <= end <= n,
            n == s@.len(),
            trim_left(s@) == s@.skip(start as int),
            trim_right(s@.skip(start as int)) == trim_right(
                s@.subrange(start as int, end as int),
            ),
        decreases end,
    {
        proof {
            let t = s@.subrange(start as int, end as int);
            assert(t[t.len() - 1] == s@[end - 1]);
            assert(t.drop_last() =~= s@.subrange(start as int, end as int - 1));
        }
        end = end - 1;
    }
    proof {
        let t = s@.subrange(start as int, end as int);
        if end > start {
            assert(!is_cookie_ws(t[t.len() - 1]));
        } else {
            assert(t =~= Seq::<char>::empty());
        }
        assert(trim_seq(s@) == s@.subrange(start as int, end as int));
    }
    (start, end)
}

/// The given string with leading and trailing cookie whitespace removed.
pub fn trim_str<'a>(s: &'a str) -> (r: &'a str)
    ensures
        r@ == trim_seq(s@),
{
    let (lo, hi) = trim_bounds(s);
    s.substring_char(lo, hi)
}

/// Strips one pair of surrounding double quotes, when both are present.
pub fn trim_quotes<'a>(value: &'a str) -> (r: &'a str)
    ensures
        r@ == trim_quotes_seq(value@),
{
    let n = value.unicode_len();
    if n > 1 && value.get_char(0) == '"' && value.get_char(n - 1) == '"' {
        value.substring_char(1, n - 1)
    } else {
        value
    }
}

} // verus!
