//! Laws of the library, stated over the parsing and serialization
//! specifications and proved once and for all.

use vstd::prelude::*;

use crate::chars::{
    find_char, first_invalid_value_char, is_cookie_ws,
    is_invalid_value_char, is_token_char, is_token_seq, lemma_find_char, lemma_find_char_app,
    lemma_first_invalid_none, lemma_first_non_token_none, lemma_lower_idempotent,
    lemma_lower_keeps_invalid, lemma_trim_after_space, lemma_trim_id, lower_char, lower_seq,
    no_semi, trim_quotes_seq, trim_seq,
};
use crate::date::{DateParts, date_wf};
use crate::digits::{dec_seq, digits_val, is_digit, is_digit_seq, lemma_dec_seq_val};
use crate::expires::ExpiresModel;
use crate::httpdate::{http_date_seq, lemma_http_date_parse_back, parse_http_date_seq};
use crate::max_age::max_age_spec;
use crate::same_site::{SameSite, same_site_name};
use crate::cookie::{empty_model, opt_ieq, opt_strip_dot, sem_eq, strip_dot};
use crate::cookie::CookieModel;
use crate::options::Strictness;
use crate::parse::{
    apply_attr, apply_attrs, lemma_apply_attrs_app, lemma_apply_one, lemma_segs_of_tail,
    lemma_tail_of_app, parse_nv, segs, spec_parse, tail_of,
};
use crate::serialize::{
    attrs_tail, domain_part, expires_part, http_only_part, max_age_part, partitioned_part,
    path_part, same_site_part, secure_part, spec_serialize,
};

verus! {

/// Parsing under the unchecked tier never fails, whatever the input.
pub proof fn lemma_parse_unchecked_total(s: Seq<char>)
    ensures
        spec_parse(s, Strictness::Unchecked) is Ok,
{
}

/// Two cookie models that agree on every field except possibly Max-Age.
pub open spec fn agree_except_max_age(a: CookieModel, b: CookieModel) -> bool {
    b == (CookieModel { max_age: b.max_age, ..a })
}

/// Two cookie models that agree on every field except possibly Path.
pub open spec fn agree_except_path(a: CookieModel, b: CookieModel) -> bool {
    b == (CookieModel { path: b.path, ..a })
}

proof fn lemma_attr_strict_relaxed(a: CookieModel, b: CookieModel, seg: Seq<char>)
    requires
        agree_except_max_age(a, b),
    ensures
        agree_except_max_age(
            apply_attr(a, seg, Strictness::Strict),
            apply_attr(b, seg, Strictness::Relaxed),
        ),
{
}

proof fn lemma_attrs_strict_relaxed(a: CookieModel, b: CookieModel, ss: Seq<Seq<char>>)
    requires
        agree_except_max_age(a, b),
    ensures
        agree_except_max_age(
            apply_attrs(a, ss, Strictness::Strict),
            apply_attrs(b, ss, Strictness::Relaxed),
        ),
    decreases ss.len(),
{
    if ss.len() > 0 {
        lemma_attr_strict_relaxed(a, b, ss.first());
        lemma_attrs_strict_relaxed(
            apply_attr(a, ss.first(), Strictness::Strict),
            apply_attr(b, ss.first(), Strictness::Relaxed),
            ss.drop_first(),
        );
    }
}

proof fn lemma_attr_relaxed_unchecked(a: CookieModel, b: CookieModel, seg: Seq<char>)
    requires
        agree_except_path(a, b),
    ensures
        agree_except_path(
            apply_attr(a, seg, Strictness::Relaxed),
            apply_attr(b, seg, Strictness::Unchecked),
        ),
{
}

proof fn lemma_attrs_relaxed_unchecked(a: CookieModel, b: CookieModel, ss: Seq<Seq<char>>)
    requires
        agree_except_path(a, b),
    ensures
        agree_except_path(
            apply_attrs(a, ss, Strictness::Relaxed),
            apply_attrs(b, ss, Strictness::Unchecked),
        ),
    decreases ss.len(),
{
    if ss.len() > 0 {
        lemma_attr_relaxed_unchecked(a, b, ss.first());
        lemma_attrs_relaxed_unchecked(
            apply_attr(a, ss.first(), Strictness::Relaxed),
            apply_attr(b, ss.first(), Strictness::Unchecked),
            ss.drop_first(),
        );
    }
}

/// Widening the strictness tier never turns success into failure. When
/// the strict tier accepts an input, the relaxed tier accepts it and
/// produces the same cookie up to Max-Age (the relaxed tier also accepts
/// a leading `+` there), and the unchecked tier accepts it and produces
/// the relaxed cookie up to Path (the unchecked tier also accepts paths
/// without a leading slash).
pub proof fn lemma_strictness_widening(s: Seq<char>)
    ensures
        spec_parse(s, Strictness::Strict) is Ok ==> spec_parse(s, Strictness::Relaxed) is Ok
            && agree_except_max_age(
            spec_parse(s, Strictness::Strict)->Ok_0,
            spec_parse(s, Strictness::Relaxed)->Ok_0,
        ),
        spec_parse(s, Strictness::Relaxed) is Ok ==> spec_parse(s, Strictness::Unchecked) is Ok
            && agree_except_path(
            spec_parse(s, Strictness::Relaxed)->Ok_0,
            spec_parse(s, Strictness::Unchecked)->Ok_0,
        ),
{
    let sg = segs(s);
    if spec_parse(s, Strictness::Strict) is Ok {
        let nv = parse_nv(sg[0], Strictness::Strict)->Ok_0;
        assert(parse_nv(sg[0], Strictness::Relaxed) == Ok::<(Seq<char>, Seq<char>), crate::error::Error>(nv));
        lemma_attrs_strict_relaxed(
            crate::cookie::empty_model(nv.0, nv.1),
            crate::cookie::empty_model(nv.0, nv.1),
            sg.drop_first(),
        );
    }
    if spec_parse(s, Strictness::Relaxed) is Ok {
        let nv = parse_nv(sg[0], Strictness::Relaxed)->Ok_0;
        assert(parse_nv(sg[0], Strictness::Unchecked) == Ok::<(Seq<char>, Seq<char>), crate::error::Error>(nv));
        lemma_attrs_relaxed_unchecked(
            crate::cookie::empty_model(nv.0, nv.1),
            crate::cookie::empty_model(nv.0, nv.1),
            sg.drop_first(),
        );
    }
}

/// Attribute names are case-insensitive: two attribute segments with the
/// same `=` position, names equal up to ASCII case, and identical values
/// apply identically to any cookie, under any tier.
pub proof fn lemma_attr_name_case_insensitive(
    m: CookieModel,
    seg1: Seq<char>,
    seg2: Seq<char>,
    st: Strictness,
)
    requires
        crate::chars::find_char(seg1, '=') == crate::chars::find_char(seg2, '='),
        lower_seq(trim_seq(seg1.take(crate::chars::find_char(seg1, '=')))) == lower_seq(
            trim_seq(seg2.take(crate::chars::find_char(seg2, '='))),
        ),
        seg1.len() == seg2.len(),
        crate::chars::find_char(seg1, '=') < seg1.len() ==> seg1.subrange(
            crate::chars::find_char(seg1, '=') + 1,
            seg1.len() as int,
        ) == seg2.subrange(crate::chars::find_char(seg2, '=') + 1, seg2.len() as int),
        crate::chars::find_char(seg1, '=') == seg1.len() ==> lower_seq(trim_seq(seg1))
            == lower_seq(trim_seq(seg2)),
    ensures
        apply_attr(m, seg1, st) == apply_attr(m, seg2, st),
{
    let e = crate::chars::find_char(seg1, '=');
    crate::chars::lemma_find_char(seg1, '=');
    crate::chars::lemma_find_char(seg2, '=');
    if e < seg1.len() {
        assert(seg1.subrange(e + 1, seg1.len() as int) == seg2.subrange(
            e + 1,
            seg2.len() as int,
        ));
        assert(lower_seq(trim_seq(seg1.take(e))) == lower_seq(trim_seq(seg2.take(e))));
    }
}

/// The Domain attribute value is case-insensitive: two Domain segments
/// whose values are equal up to ASCII case store the same normalized,
/// lowercased domain.
pub proof fn lemma_domain_value_case_insensitive(
    m: CookieModel,
    seg1: Seq<char>,
    seg2: Seq<char>,
    st: Strictness,
)
    requires
        find_char(seg1, '=') == find_char(seg2, '='),
        find_char(seg1, '=') < seg1.len(),
        find_char(seg1, '=') < seg2.len(),
        lower_seq(trim_seq(seg1.take(find_char(seg1, '=')))) == "domain"@,
        lower_seq(trim_seq(seg2.take(find_char(seg2, '=')))) == "domain"@,
        lower_seq(trim_seq(seg1.subrange(find_char(seg1, '=') + 1, seg1.len() as int)))
            == lower_seq(trim_seq(seg2.subrange(find_char(seg2, '=') + 1, seg2.len() as int))),
    ensures
        apply_attr(m, seg1, st) == apply_attr(m, seg2, st),
{
    let e = find_char(seg1, '=');
    crate::chars::lemma_find_char(seg1, '=');
    let v1 = trim_seq(seg1.subrange(e + 1, seg1.len() as int));
    let v2 = trim_seq(seg2.subrange(e + 1, seg2.len() as int));
    assert(strip_dot(lower_seq(v1)) == strip_dot(lower_seq(v2)));
}

/// A partitioned cookie always serializes with the Secure attribute: the
/// output contains `; Secure`.
pub proof fn lemma_partitioned_implies_secure(m: CookieModel)
    requires
        m.partitioned,
        spec_serialize(m) is Ok,
    ensures
        exists|i: int|
            0 <= i && i + 8 <= spec_serialize(m)->Ok_0.len() && #[trigger] spec_serialize(
                m,
            )->Ok_0.subrange(i, i + 8) == "; Secure"@,
{
    reveal_strlit("; Secure");
    let nv = crate::serialize::nv_checked(m)->Ok_0;
    let t = attrs_tail(m)->Ok_0;
    let out = spec_serialize(m)->Ok_0;
    let prefix = nv + max_age_part(m) + domain_part(m) + path_part(m)->Ok_0;
    let rest = http_only_part(m) + partitioned_part(m) + same_site_part(m) + expires_part(m);
    assert(secure_part(m) == "; Secure"@);
    assert(out =~= prefix + secure_part(m) + rest);
    let i = prefix.len() as int;
    assert(out.subrange(i, i + 8) =~= "; Secure"@);
    assert(0 <= i && i + 8 <= out.len() && out.subrange(i, i + 8) == "; Secure"@);
}

/// A cookie model whose serialization parses back to a semantically
/// equal cookie: a non-empty token name; a value, domain and path free
/// of illegal characters, the domain non-empty with at most one leading
/// dot, the path starting with a slash; the Secure flag set whenever
/// serialization would force it; and an Expires attribute that is either
/// unset or a well-formed date (the removal sentinel parses back as a
/// date, not as the sentinel, so it is left out).
pub open spec fn round_trippable(m: CookieModel) -> bool {
    &&& m.name.len() > 0
    &&& is_token_seq(m.name)
    &&& first_invalid_value_char(m.value) is None
    &&& (match m.domain {
        Option::Some(d) => {
            let sd = strip_dot(d);
            sd.len() > 0 && first_invalid_value_char(sd) is None && sd[0] != '.'
        },
        Option::None => true,
    })
    &&& (match m.path {
        Option::Some(pth) => pth.len() > 0 && pth[0] == '/' && first_invalid_value_char(
            pth,
        ) is None,
        Option::None => true,
    })
    &&& ((m.partitioned || m.same_site == Some(SameSite::NoneValue)) ==> m.secure)
    &&& (match m.expires {
        ExpiresModel::At(q) => date_wf(q),
        ExpiresModel::Remove => false,
        ExpiresModel::Session => true,
    })
}

/// A clean string: no character of the invalid-value class, hence no
/// semicolon and no whitespace at either end.
proof fn lemma_clean_facts(s: Seq<char>)
    requires
        first_invalid_value_char(s) is None,
    ensures
        no_semi(s),
        s.len() > 0 ==> !is_cookie_ws(s[0]) && !is_cookie_ws(s[s.len() - 1]),
        trim_seq(s) == s,
        trim_quotes_seq(s) == s,
{
    lemma_first_invalid_none(s);
    assert forall|i: int| 0 <= i < s.len() implies #[trigger] s[i] != ';' by {
        assert(!is_invalid_value_char(s[i]));
    }
    if s.len() > 0 {
        assert(!is_invalid_value_char(s[0]) && !is_invalid_value_char(s[s.len() - 1]));
        if s.len() > 1 {
            assert(s[0] != '"');
        }
    }
    lemma_trim_id(s);
}

/// A token string: every character a token character, hence clean edges
/// and no semicolon or equals sign.
proof fn lemma_token_facts(s: Seq<char>)
    requires
        is_token_seq(s),
    ensures
        no_semi(s),
        forall|i: int| 0 <= i < s.len() ==> #[trigger] s[i] != '=',
        s.len() > 0 ==> !is_cookie_ws(s[0]) && !is_cookie_ws(s.last()),
        trim_seq(s) == s,
{
    assert forall|i: int| 0 <= i < s.len() implies #[trigger] s[i] != ';' && s[i] != '=' by {
        assert(is_token_char(s[i]));
    }
    if s.len() > 0 {
        assert(is_token_char(s[0]) && is_token_char(s.last()));
    }
    lemma_trim_id(s);
}

/// Digit strings are clean: no semicolon, no whitespace, no sign.
proof fn lemma_digits_clean(s: Seq<char>)
    requires
        is_digit_seq(s),
    ensures
        no_semi(s),
        s.len() > 0 ==> !is_cookie_ws(s[0]) && !is_cookie_ws(s.last()),
        trim_seq(s) == s,
        s.len() > 0 ==> s[0] != '-' && s[0] != '+',
{
    assert forall|i: int| 0 <= i < s.len() implies #[trigger] s[i] != ';' by {
        assert(is_digit(s[i]));
    }
    if s.len() > 0 {
        assert(is_digit(s[0]) && is_digit(s.last()));
    }
    lemma_trim_id(s);
}

/// Applying the Max-Age wire segment stores the seconds.
proof fn lemma_apply_max_age_seg(cur: CookieModel, n: u64)
    ensures
        apply_attr(cur, " Max-Age="@ + dec_seq(n as nat), Strictness::Relaxed) == (CookieModel {
            max_age: Some(n),
            ..cur
        }),
        no_semi(" Max-Age="@ + dec_seq(n as nat)),
{
    reveal_strlit(" Max-Age=");
    reveal_strlit(" Max-Age");
    reveal_strlit("max-age");
    reveal_strlit("domain");
    reveal_strlit("path");
    lemma_dec_seq_val(n as nat);
    lemma_digits_clean(dec_seq(n as nat));
    let seg = " Max-Age="@ + dec_seq(n as nat);
    assert(seg =~= " Max-Age"@ + (seq!['='] + dec_seq(n as nat)));
    assert forall|i: int| 0 <= i < 8 implies #[trigger] (" Max-Age"@)[i] != '=' by {}
    lemma_find_char_app(" Max-Age"@, seq!['='] + dec_seq(n as nat), '=');
    lemma_find_char(seq!['='] + dec_seq(n as nat), '=');
    assert(find_char(seg, '=') == 8);
    assert(seg.take(8) =~= " Max-Age"@);
    lemma_trim_after_space(" Max-Age"@);
    assert(lower_seq(trim_seq(seg.take(8))) =~= "max-age"@);
    assert("max-age"@ != "domain"@);
    assert("max-age"@ != "path"@);
    let val = trim_seq(seg.subrange(9, seg.len() as int));
    assert(seg.subrange(9, seg.len() as int) =~= dec_seq(n as nat));
    assert(val == dec_seq(n as nat));
    assert(max_age_spec(val, true) == Some(n)) by {
        assert(is_digit(val[0]));
        assert(val[0] != '-' && val[0] != '+');
        assert(digits_val(val) == n as int <= u64::MAX);
    }
    assert forall|i: int| 0 <= i < seg.len() implies #[trigger] seg[i] != ';' by {
        if i >= 9 {
            assert(seg[i] == dec_seq(n as nat)[i - 9]);
        }
    }
}

/// Applying the Domain wire segment stores the folded domain.
proof fn lemma_apply_domain_seg(cur: CookieModel, sd: Seq<char>)
    requires
        sd.len() > 0,
        sd[0] != '.',
        first_invalid_value_char(sd) is None,
    ensures
        apply_attr(cur, " Domain="@ + sd, Strictness::Relaxed) == (CookieModel {
            domain: Some(strip_dot(lower_seq(sd))),
            ..cur
        }),
        no_semi(" Domain="@ + sd),
{
    reveal_strlit(" Domain=");
    reveal_strlit(" Domain");
    reveal_strlit("domain");
    lemma_clean_facts(sd);
    let seg = " Domain="@ + sd;
    assert(seg =~= " Domain"@ + (seq!['='] + sd));
    assert forall|i: int| 0 <= i < 7 implies #[trigger] (" Domain"@)[i] != '=' by {}
    lemma_find_char_app(" Domain"@, seq!['='] + sd, '=');
    lemma_find_char(seq!['='] + sd, '=');
    assert(find_char(seg, '=') == 7);
    assert(seg.take(7) =~= " Domain"@);
    lemma_trim_after_space(" Domain"@);
    assert(lower_seq(trim_seq(seg.take(7))) =~= "domain"@);
    let val = trim_seq(seg.subrange(8, seg.len() as int));
    assert(seg.subrange(8, seg.len() as int) =~= sd);
    assert(val == sd);
    let d = strip_dot(lower_seq(sd));
    lemma_lower_keeps_invalid(sd);
    assert(lower_seq(sd)[0] == lower_char(sd[0]));
    assert(lower_seq(sd).len() == sd.len());
    assert(lower_seq(sd)[0] != '.') by {
        if 'A' <= sd[0] && sd[0] <= 'Z' {
            assert(lower_char(sd[0]) as u32 == sd[0] as u32 + 32);
        }
    }
    assert(d == lower_seq(sd));
    assert(d.len() > 0);
    assert(first_invalid_value_char(d) is None);
    assert forall|i: int| 0 <= i < seg.len() implies #[trigger] seg[i] != ';' by {
        if i >= 8 {
            assert(seg[i] == sd[i - 8]);
        }
    }
}

/// Applying the Path wire segment stores the path.
proof fn lemma_apply_path_seg(cur: CookieModel, pth: Seq<char>)
    requires
        pth.len() > 0,
        pth[0] == '/',
        first_invalid_value_char(pth) is None,
    ensures
        apply_attr(cur, " Path="@ + pth, Strictness::Relaxed) == (CookieModel {
            path: Some(pth),
            ..cur
        }),
        no_semi(" Path="@ + pth),
{
    reveal_strlit(" Path=");
    reveal_strlit(" Path");
    reveal_strlit("path");
    reveal_strlit("domain");
    lemma_clean_facts(pth);
    let seg = " Path="@ + pth;
    assert(seg =~= " Path"@ + (seq!['='] + pth));
    assert forall|i: int| 0 <= i < 5 implies #[trigger] (" Path"@)[i] != '=' by {}
    lemma_find_char_app(" Path"@, seq!['='] + pth, '=');
    lemma_find_char(seq!['='] + pth, '=');
    assert(find_char(seg, '=') == 5);
    assert(seg.take(5) =~= " Path"@);
    lemma_trim_after_space(" Path"@);
    assert(lower_seq(trim_seq(seg.take(5))) =~= "path"@);
    let val = trim_seq(seg.subrange(6, seg.len() as int));
    assert(seg.subrange(6, seg.len() as int) =~= pth);
    assert(val == pth);
    assert forall|i: int| 0 <= i < seg.len() implies #[trigger] seg[i] != ';' by {
        if i >= 6 {
            assert(seg[i] == pth[i - 6]);
        }
    }
}

/// Applying a boolean-flag wire segment sets that flag.
proof fn lemma_apply_flag_segs(cur: CookieModel)
    ensures
        apply_attr(cur, " Secure"@, Strictness::Relaxed) == (CookieModel {
            secure: true,
            ..cur
        }),
        apply_attr(cur, " HttpOnly"@, Strictness::Relaxed) == (CookieModel {
            http_only: true,
            ..cur
        }),
        apply_attr(cur, " Partitioned"@, Strictness::Relaxed) == (CookieModel {
            partitioned: true,
            ..cur
        }),
        no_semi(" Secure"@) && no_semi(" HttpOnly"@) && no_semi(" Partitioned"@),
{
    reveal_strlit(" Secure");
    reveal_strlit(" HttpOnly");
    reveal_strlit(" Partitioned");
    reveal_strlit("secure");
    reveal_strlit("httponly");
    reveal_strlit("partitioned");
    lemma_find_char(" Secure"@, '=');
    lemma_find_char(" HttpOnly"@, '=');
    lemma_find_char(" Partitioned"@, '=');
    assert(find_char(" Secure"@, '=') == 7) by {
        if find_char(" Secure"@, '=') < 7 {
            assert((" Secure"@)[find_char(" Secure"@, '=')] == '=');
        }
    }
    assert(find_char(" HttpOnly"@, '=') == 9) by {
        if find_char(" HttpOnly"@, '=') < 9 {
            assert((" HttpOnly"@)[find_char(" HttpOnly"@, '=')] == '=');
        }
    }
    assert(find_char(" Partitioned"@, '=') == 12) by {
        if find_char(" Partitioned"@, '=') < 12 {
            assert((" Partitioned"@)[find_char(" Partitioned"@, '=')] == '=');
        }
    }
    lemma_trim_after_space(" Secure"@);
    lemma_trim_after_space(" HttpOnly"@);
    lemma_trim_after_space(" Partitioned"@);
    assert(lower_seq(trim_seq(" Secure"@)) =~= "secure"@);
    assert(lower_seq(trim_seq(" HttpOnly"@)) =~= "httponly"@);
    assert(lower_seq(trim_seq(" Partitioned"@)) =~= "partitioned"@);
    assert("httponly"@ != "secure"@);
    assert("partitioned"@ != "secure"@ && "partitioned"@ != "httponly"@);
}

/// Applying the SameSite wire segment stores the value.
proof fn lemma_apply_same_site_seg(cur: CookieModel, ss: SameSite)
    ensures
        apply_attr(cur, " SameSite="@ + same_site_name(ss), Strictness::Relaxed) == (CookieModel {
            same_site: Some(ss),
            ..cur
        }),
        no_semi(" SameSite="@ + same_site_name(ss)),
{
    reveal_strlit(" SameSite=");
    reveal_strlit(" SameSite");
    reveal_strlit("samesite");
    reveal_strlit("domain");
    reveal_strlit("path");
    reveal_strlit("max-age");
    reveal_strlit("expires");
    reveal_strlit("Strict");
    reveal_strlit("Lax");
    reveal_strlit("None");
    reveal_strlit("strict");
    reveal_strlit("lax");
    reveal_strlit("none");
    let nm = same_site_name(ss);
    let seg = " SameSite="@ + nm;
    assert(seg =~= " SameSite"@ + (seq!['='] + nm));
    assert forall|i: int| 0 <= i < 9 implies #[trigger] (" SameSite"@)[i] != '=' by {}
    lemma_find_char_app(" SameSite"@, seq!['='] + nm, '=');
    lemma_find_char(seq!['='] + nm, '=');
    assert(find_char(seg, '=') == 9);
    assert(seg.take(9) =~= " SameSite"@);
    lemma_trim_after_space(" SameSite"@);
    assert(lower_seq(trim_seq(seg.take(9))) =~= "samesite"@);
    assert("samesite"@ != "max-age"@ && "samesite"@ != "expires"@);
    let val = trim_seq(seg.subrange(10, seg.len() as int));
    assert(seg.subrange(10, seg.len() as int) =~= nm);
    match ss {
        SameSite::Strict => {
            assert(nm[0] == 'S' && nm[5] == 't' && !is_cookie_ws(nm[0]) && !is_cookie_ws(nm[5]));
            lemma_trim_id(nm);
            assert(lower_seq(nm) =~= "strict"@);
        },
        SameSite::Lax => {
            lemma_trim_id(nm);
            assert(lower_seq(nm) =~= "lax"@);
            assert("lax"@ != "strict"@);
        },
        SameSite::NoneValue => {
            lemma_trim_id(nm);
            assert(lower_seq(nm) =~= "none"@);
            assert("none"@ != "strict"@ && "none"@ != "lax"@);
        },
    }
    assert forall|i: int| 0 <= i < seg.len() implies #[trigger] seg[i] != ';' by {
        if i >= 10 {
            assert(seg[i] == nm[i - 10]);
            match ss {
                SameSite::Strict => {},
                SameSite::Lax => {},
                SameSite::NoneValue => {},
            }
        }
    }
}

/// Applying the Expires wire segment stores the parsed date.
#[verifier::rlimit(100)]
#[verifier::spinoff_prover]
proof fn lemma_apply_expires_seg(cur: CookieModel, q: DateParts)
    requires
        date_wf(q),
    ensures
        apply_attr(cur, " Expires="@ + http_date_seq(q), Strictness::Relaxed) == (CookieModel {
            expires: ExpiresModel::At(q),
            ..cur
        }),
        no_semi(" Expires="@ + http_date_seq(q)),
{
    reveal_strlit(" Expires=");
    reveal_strlit(" Expires");
    reveal_strlit("expires");
    reveal_strlit("domain");
    reveal_strlit("path");
    reveal_strlit("max-age");
    lemma_http_date_parse_back(q);
    let h = http_date_seq(q);
    let seg = " Expires="@ + h;
    assert(seg =~= " Expires"@ + (seq!['='] + h));
    assert forall|i: int| 0 <= i < 8 implies #[trigger] (" Expires"@)[i] != '=' by {}
    lemma_find_char_app(" Expires"@, seq!['='] + h, '=');
    lemma_find_char(seq!['='] + h, '=');
    assert(find_char(seg, '=') == 8);
    assert(seg.take(8) =~= " Expires"@);
    lemma_trim_after_space(" Expires"@);
    assert(lower_seq(trim_seq(seg.take(8))) =~= "expires"@);
    assert("expires"@ != "max-age"@) by {
        assert(("expires"@)[0] != ("max-age"@)[0]);
    }
    let val = trim_seq(seg.subrange(9, seg.len() as int));
    assert(seg.subrange(9, seg.len() as int) =~= h);
    assert(h.len() > 0 && !is_cookie_ws(h[0]) && !is_cookie_ws(h[h.len() - 1]));
    lemma_trim_id(h);
    assert(val == h);
    assert(parse_http_date_seq(val) == Some(q));
    assert forall|i: int| 0 <= i < seg.len() implies #[trigger] seg[i] != ';' by {
        if i >= 9 {
            assert(seg[i] == h[i - 9]);
        }
    }
}

/// Every segment of the list is free of semicolons.
pub open spec fn all_no_semi(ps: Seq<Seq<char>>) -> bool {
    forall|i: int| 0 <= i < ps.len() ==> no_semi(#[trigger] ps[i])
}

proof fn lemma_all_no_semi_app(p: Seq<Seq<char>>, q: Seq<Seq<char>>)
    requires
        all_no_semi(p),
        all_no_semi(q),
    ensures
        all_no_semi(p + q),
{
    assert forall|i: int| 0 <= i < (p + q).len() implies no_semi(#[trigger] (p + q)[i]) by {
        if i < p.len() {
            assert((p + q)[i] == p[i]);
        } else {
            assert((p + q)[i] == q[i - p.len()]);
        }
    }
}

proof fn lemma_tail_of_single(x: Seq<char>)
    ensures
        tail_of(seq![x]) == seq![';'] + x,
{
    assert(seq![x].first() == x);
    assert(seq![x].drop_first() =~= Seq::<Seq<char>>::empty());
    assert(tail_of(Seq::<Seq<char>>::empty()) =~= Seq::<char>::empty());
    assert(seq![';'] + x + Seq::<char>::empty() =~= seq![';'] + x);
}

/// The attribute segments that serializing `m` writes after
/// `name=value`, without their leading semicolons.
pub open spec fn rt_parts(m: CookieModel) -> Seq<Seq<char>> {
    (match m.max_age {
        Option::Some(n) => seq![" Max-Age="@ + dec_seq(n as nat)],
        Option::None => Seq::<Seq<char>>::empty(),
    }) + (match m.domain {
        Option::Some(d) => seq![" Domain="@ + strip_dot(d)],
        Option::None => Seq::<Seq<char>>::empty(),
    }) + (match m.path {
        Option::Some(pth) => seq![" Path="@ + pth],
        Option::None => Seq::<Seq<char>>::empty(),
    }) + (if m.secure {
        seq![" Secure"@]
    } else {
        Seq::<Seq<char>>::empty()
    }) + (if m.http_only {
        seq![" HttpOnly"@]
    } else {
        Seq::<Seq<char>>::empty()
    }) + (if m.partitioned {
        seq![" Partitioned"@]
    } else {
        Seq::<Seq<char>>::empty()
    }) + (match m.same_site {
        Option::Some(ss) => seq![" SameSite="@ + same_site_name(ss)],
        Option::None => Seq::<Seq<char>>::empty(),
    }) + (match m.expires {
        ExpiresModel::At(q) => seq![" Expires="@ + http_date_seq(q)],
        _ => Seq::<Seq<char>>::empty(),
    })
}

/// Serializing a round-trippable cookie succeeds, and the output splits
/// into the `name=value` segment followed by the attribute segments.
#[verifier::rlimit(100)]
#[verifier::spinoff_prover]
proof fn lemma_round_trip_serialize(m: CookieModel)
    requires
        round_trippable(m),
    ensures
        spec_serialize(m) is Ok,
        spec_serialize(m)->Ok_0 == (m.name + seq!['='] + m.value) + tail_of(rt_parts(m)),
        segs(spec_serialize(m)->Ok_0) == seq![m.name + seq!['='] + m.value] + rt_parts(m),
{
    reveal_strlit("; Max-Age=");
    reveal_strlit("; Domain=");
    reveal_strlit("; Path=");
    reveal_strlit("; Secure");
    reveal_strlit("; HttpOnly");
    reveal_strlit("; Partitioned");
    reveal_strlit("; SameSite=");
    reveal_strlit("; Expires=");
    lemma_token_facts(m.name);
    lemma_clean_facts(m.value);
    lemma_first_non_token_none(m.name);
    let nv = m.name + seq!['='] + m.value;
    assert(crate::serialize::nv_checked(m) == Ok::<Seq<char>, crate::error::Error>(nv));
    assert(crate::serialize::path_part(m) is Ok);
    let l_ma: Seq<Seq<char>> = match m.max_age {
        Option::Some(n) => seq![" Max-Age="@ + dec_seq(n as nat)],
        Option::None => Seq::empty(),
    };
    let l_dom: Seq<Seq<char>> = match m.domain {
        Option::Some(d) => seq![" Domain="@ + strip_dot(d)],
        Option::None => Seq::empty(),
    };
    let l_path: Seq<Seq<char>> = match m.path {
        Option::Some(pth) => seq![" Path="@ + pth],
        Option::None => Seq::empty(),
    };
    let l_sec: Seq<Seq<char>> = if m.secure {
        seq![" Secure"@]
    } else {
        Seq::empty()
    };
    let l_ho: Seq<Seq<char>> = if m.http_only {
        seq![" HttpOnly"@]
    } else {
        Seq::empty()
    };
    let l_par: Seq<Seq<char>> = if m.partitioned {
        seq![" Partitioned"@]
    } else {
        Seq::empty()
    };
    let l_ss: Seq<Seq<char>> = match m.same_site {
        Option::Some(ss) => seq![" SameSite="@ + same_site_name(ss)],
        Option::None => Seq::empty(),
    };
    let l_exp: Seq<Seq<char>> = match m.expires {
        ExpiresModel::At(q) => seq![" Expires="@ + http_date_seq(q)],
        _ => Seq::empty(),
    };
    assert(tail_of(Seq::<Seq<char>>::empty()) =~= Seq::<char>::empty());
    assert(crate::serialize::max_age_part(m) == tail_of(l_ma) && all_no_semi(l_ma)) by {
        match m.max_age {
            Option::Some(n) => {
                lemma_tail_of_single(" Max-Age="@ + dec_seq(n as nat));
                reveal_strlit(" Max-Age=");
                assert("; Max-Age="@ + dec_seq(n as nat) =~= seq![';'] + (" Max-Age="@ + dec_seq(
                    n as nat,
                )));
                lemma_apply_max_age_seg(empty_model(m.name, m.value), n);
            },
            Option::None => {},
        }
    }
    assert(crate::serialize::domain_part(m) == tail_of(l_dom) && all_no_semi(l_dom)) by {
        match m.domain {
            Option::Some(d) => {
                lemma_tail_of_single(" Domain="@ + strip_dot(d));
                reveal_strlit(" Domain=");
                assert("; Domain="@ + strip_dot(d) =~= seq![';'] + (" Domain="@ + strip_dot(d)));
                lemma_apply_domain_seg(empty_model(m.name, m.value), strip_dot(d));
            },
            Option::None => {},
        }
    }
    assert(crate::serialize::path_part(m)->Ok_0 == tail_of(l_path) && all_no_semi(l_path)) by {
        match m.path {
            Option::Some(pth) => {
                lemma_tail_of_single(" Path="@ + pth);
                reveal_strlit(" Path=");
                assert("; Path="@ + pth =~= seq![';'] + (" Path="@ + pth));
                lemma_apply_path_seg(empty_model(m.name, m.value), pth);
            },
            Option::None => {},
        }
    }
    assert(crate::serialize::secure_part(m) == tail_of(l_sec) && all_no_semi(l_sec)) by {
        if m.secure {
            lemma_tail_of_single(" Secure"@);
            reveal_strlit(" Secure");
            assert("; Secure"@ =~= seq![';'] + " Secure"@);
            lemma_apply_flag_segs(empty_model(m.name, m.value));
        }
    }
    assert(crate::serialize::http_only_part(m) == tail_of(l_ho) && all_no_semi(l_ho)) by {
        if m.http_only {
            lemma_tail_of_single(" HttpOnly"@);
            reveal_strlit(" HttpOnly");
            assert("; HttpOnly"@ =~= seq![';'] + " HttpOnly"@);
            lemma_apply_flag_segs(empty_model(m.name, m.value));
        }
    }
    assert(crate::serialize::partitioned_part(m) == tail_of(l_par) && all_no_semi(l_par)) by {
        if m.partitioned {
            lemma_tail_of_single(" Partitioned"@);
            reveal_strlit(" Partitioned");
            assert("; Partitioned"@ =~= seq![';'] + " Partitioned"@);
            lemma_apply_flag_segs(empty_model(m.name, m.value));
        }
    }
    assert(crate::serialize::same_site_part(m) == tail_of(l_ss) && all_no_semi(l_ss)) by {
        match m.same_site {
            Option::Some(ss) => {
                lemma_tail_of_single(" SameSite="@ + same_site_name(ss));
                reveal_strlit(" SameSite=");
                assert("; SameSite="@ + same_site_name(ss) =~= seq![';'] + (" SameSite="@
                    + same_site_name(ss)));
                lemma_apply_same_site_seg(empty_model(m.name, m.value), ss);
            },
            Option::None => {},
        }
    }
    assert(crate::serialize::expires_part(m) == tail_of(l_exp) && all_no_semi(l_exp)) by {
        match m.expires {
            ExpiresModel::At(q) => {
                lemma_tail_of_single(" Expires="@ + http_date_seq(q));
                reveal_strlit(" Expires=");
                assert("; Expires="@ + http_date_seq(q) =~= seq![';'] + (" Expires="@
                    + http_date_seq(q)));
                lemma_apply_expires_seg(empty_model(m.name, m.value), q);
            },
            ExpiresModel::Session => {},
            ExpiresModel::Remove => {},
        }
    }
    let p2 = l_ma + l_dom;
    let p3 = p2 + l_path;
    let p4 = p3 + l_sec;
    let p5 = p4 + l_ho;
    let p6 = p5 + l_par;
    let p7 = p6 + l_ss;
    let parts = p7 + l_exp;
    assert(parts == rt_parts(m));
    lemma_tail_of_app(l_ma, l_dom);
    lemma_tail_of_app(p2, l_path);
    lemma_tail_of_app(p3, l_sec);
    lemma_tail_of_app(p4, l_ho);
    lemma_tail_of_app(p5, l_par);
    lemma_tail_of_app(p6, l_ss);
    lemma_tail_of_app(p7, l_exp);
    assert(crate::serialize::attrs_tail(m)->Ok_0 == tail_of(parts));
    lemma_all_no_semi_app(l_ma, l_dom);
    lemma_all_no_semi_app(p2, l_path);
    lemma_all_no_semi_app(p3, l_sec);
    lemma_all_no_semi_app(p4, l_ho);
    lemma_all_no_semi_app(p5, l_par);
    lemma_all_no_semi_app(p6, l_ss);
    lemma_all_no_semi_app(p7, l_exp);
    assert(no_semi(nv)) by {
        assert forall|i: int| 0 <= i < nv.len() implies #[trigger] nv[i] != ';' by {
            if i < m.name.len() {
                assert(nv[i] == m.name[i]);
            } else if i == m.name.len() {
                assert(nv[i] == '=');
            } else {
                assert(nv[i] == m.value[i - m.name.len() - 1]);
            }
        }
    }
    lemma_segs_of_tail(nv, parts);
}

/// The attribute segments of a round-trippable cookie, applied in order
/// to a fresh cookie with its name and value, rebuild it up to semantic
/// equality.
#[verifier::rlimit(100)]
#[verifier::spinoff_prover]
proof fn lemma_round_trip_apply(m: CookieModel)
    requires
        round_trippable(m),
    ensures
        sem_eq(
            apply_attrs(empty_model(m.name, m.value), rt_parts(m), Strictness::Relaxed),
            m,
        ),
{
    let m0 = empty_model(m.name, m.value);
    let l_ma: Seq<Seq<char>> = match m.max_age {
        Option::Some(n) => seq![" Max-Age="@ + dec_seq(n as nat)],
        Option::None => Seq::empty(),
    };
    let l_dom: Seq<Seq<char>> = match m.domain {
        Option::Some(d) => seq![" Domain="@ + strip_dot(d)],
        Option::None => Seq::empty(),
    };
    let l_path: Seq<Seq<char>> = match m.path {
        Option::Some(pth) => seq![" Path="@ + pth],
        Option::None => Seq::empty(),
    };
    let l_sec: Seq<Seq<char>> = if m.secure {
        seq![" Secure"@]
    } else {
        Seq::empty()
    };
    let l_ho: Seq<Seq<char>> = if m.http_only {
        seq![" HttpOnly"@]
    } else {
        Seq::empty()
    };
    let l_par: Seq<Seq<char>> = if m.partitioned {
        seq![" Partitioned"@]
    } else {
        Seq::empty()
    };
    let l_ss: Seq<Seq<char>> = match m.same_site {
        Option::Some(ss) => seq![" SameSite="@ + same_site_name(ss)],
        Option::None => Seq::empty(),
    };
    let l_exp: Seq<Seq<char>> = match m.expires {
        ExpiresModel::At(q) => seq![" Expires="@ + http_date_seq(q)],
        _ => Seq::empty(),
    };
    let p2 = l_ma + l_dom;
    let p3 = p2 + l_path;
    let p4 = p3 + l_sec;
    let p5 = p4 + l_ho;
    let p6 = p5 + l_par;
    let p7 = p6 + l_ss;
    let parts = p7 + l_exp;
    assert(parts == rt_parts(m));
    assert(apply_attrs(m0, Seq::<Seq<char>>::empty(), Strictness::Relaxed) == m0);
    let c1 = apply_attrs(m0, l_ma, Strictness::Relaxed);
    assert(c1 == (match m.max_age {
        Option::Some(n) => (CookieModel { max_age: Some(n), ..m0 }),
        Option::None => m0,
    })) by {
        match m.max_age {
            Option::Some(n) => {
                lemma_apply_one(m0, " Max-Age="@ + dec_seq(n as nat), Strictness::Relaxed);
                lemma_apply_max_age_seg(m0, n);
            },
            Option::None => {},
        }
    }
    let c2 = apply_attrs(c1, l_dom, Strictness::Relaxed);
    assert(c2 == (match m.domain {
        Option::Some(d) => (CookieModel { domain: Some(lower_seq(strip_dot(d))), ..c1 }),
        Option::None => c1,
    })) by {
        match m.domain {
            Option::Some(d) => {
                lemma_apply_one(c1, " Domain="@ + strip_dot(d), Strictness::Relaxed);
                lemma_apply_domain_seg(c1, strip_dot(d));
                let sd = strip_dot(d);
                assert(lower_seq(sd)[0] == lower_char(sd[0]));
                if 'A' <= sd[0] && sd[0] <= 'Z' {
                    assert(lower_char(sd[0]) as u32 == sd[0] as u32 + 32);
                }
                assert(strip_dot(lower_seq(sd)) == lower_seq(sd));
            },
            Option::None => {},
        }
    }
    let c3 = apply_attrs(c2, l_path, Strictness::Relaxed);
    assert(c3 == (match m.path {
        Option::Some(pth) => (CookieModel { path: Some(pth), ..c2 }),
        Option::None => c2,
    })) by {
        match m.path {
            Option::Some(pth) => {
                lemma_apply_one(c2, " Path="@ + pth, Strictness::Relaxed);
                lemma_apply_path_seg(c2, pth);
            },
            Option::None => {},
        }
    }
    let c4 = apply_attrs(c3, l_sec, Strictness::Relaxed);
    assert(c4 == (if m.secure {
        (CookieModel { secure: true, ..c3 })
    } else {
        c3
    })) by {
        if m.secure {
            lemma_apply_one(c3, " Secure"@, Strictness::Relaxed);
            lemma_apply_flag_segs(c3);
        }
    }
    let c5 = apply_attrs(c4, l_ho, Strictness::Relaxed);
    assert(c5 == (if m.http_only {
        (CookieModel { http_only: true, ..c4 })
    } else {
        c4
    })) by {
        if m.http_only {
            lemma_apply_one(c4, " HttpOnly"@, Strictness::Relaxed);
            lemma_apply_flag_segs(c4);
        }
    }
    let c6 = apply_attrs(c5, l_par, Strictness::Relaxed);
    assert(c6 == (if m.partitioned {
        (CookieModel { partitioned: true, ..c5 })
    } else {
        c5
    })) by {
        if m.partitioned {
            lemma_apply_one(c5, " Partitioned"@, Strictness::Relaxed);
            lemma_apply_flag_segs(c5);
        }
    }
    let c7 = apply_attrs(c6, l_ss, Strictness::Relaxed);
    assert(c7 == (match m.same_site {
        Option::Some(ss) => (CookieModel { same_site: Some(ss), ..c6 }),
        Option::None => c6,
    })) by {
        match m.same_site {
            Option::Some(ss) => {
                lemma_apply_one(c6, " SameSite="@ + same_site_name(ss), Strictness::Relaxed);
                lemma_apply_same_site_seg(c6, ss);
            },
            Option::None => {},
        }
    }
    let c8 = apply_attrs(c7, l_exp, Strictness::Relaxed);
    assert(c8 == (match m.expires {
        ExpiresModel::At(q) => (CookieModel { expires: ExpiresModel::At(q), ..c7 }),
        _ => c7,
    })) by {
        match m.expires {
            ExpiresModel::At(q) => {
                lemma_apply_one(c7, " Expires="@ + http_date_seq(q), Strictness::Relaxed);
                lemma_apply_expires_seg(c7, q);
            },
            ExpiresModel::Session => {},
            ExpiresModel::Remove => {},
        }
    }
    lemma_apply_attrs_app(m0, l_ma, l_dom, Strictness::Relaxed);
    lemma_apply_attrs_app(m0, p2, l_path, Strictness::Relaxed);
    lemma_apply_attrs_app(m0, p3, l_sec, Strictness::Relaxed);
    lemma_apply_attrs_app(m0, p4, l_ho, Strictness::Relaxed);
    lemma_apply_attrs_app(m0, p5, l_par, Strictness::Relaxed);
    lemma_apply_attrs_app(m0, p6, l_ss, Strictness::Relaxed);
    lemma_apply_attrs_app(m0, p7, l_exp, Strictness::Relaxed);
    assert(apply_attrs(m0, parts, Strictness::Relaxed) == c8);
    assert(sem_eq(c8, m)) by {
        match m.domain {
            Option::Some(d) => {
                let sd = strip_dot(d);
                lemma_lower_idempotent(sd);
                assert(c8.domain == Some(lower_seq(sd)));
                assert(lower_seq(sd)[0] == lower_char(sd[0]));
                if 'A' <= sd[0] && sd[0] <= 'Z' {
                    assert(lower_char(sd[0]) as u32 == sd[0] as u32 + 32);
                }
                assert(strip_dot(lower_seq(sd)) == lower_seq(sd));
                assert(opt_ieq(opt_strip_dot(c8.domain), opt_strip_dot(m.domain)));
            },
            Option::None => {},
        }
    }
}

/// Round trip: serializing a round-trippable cookie succeeds, the output
/// parses under the relaxed tier, and the parsed cookie is semantically
/// equal to the one serialized.
#[verifier::rlimit(100)]
#[verifier::spinoff_prover]
pub proof fn lemma_round_trip(m: CookieModel)
    requires
        round_trippable(m),
    ensures
        spec_serialize(m) is Ok,
        spec_parse(spec_serialize(m)->Ok_0, Strictness::Relaxed) is Ok,
        sem_eq(spec_parse(spec_serialize(m)->Ok_0, Strictness::Relaxed)->Ok_0, m),
{
    lemma_round_trip_serialize(m);
    lemma_round_trip_apply(m);
    lemma_token_facts(m.name);
    lemma_clean_facts(m.value);
    lemma_first_non_token_none(m.name);
    lemma_first_invalid_none(m.value);
    let nv = m.name + seq!['='] + m.value;
    let out = spec_serialize(m)->Ok_0;
    assert(segs(out)[0] == nv);
    assert(segs(out).drop_first() =~= rt_parts(m));
    assert(parse_nv(nv, Strictness::Relaxed) == Ok::<(Seq<char>, Seq<char>), crate::error::Error>(
        (m.name, m.value),
    )) by {
        assert(nv =~= m.name + (seq!['='] + m.value));
        lemma_find_char_app(m.name, seq!['='] + m.value, '=');
        lemma_find_char(seq!['='] + m.value, '=');
        assert((seq!['='] + m.value)[0] == '=');
        assert(find_char(seq!['='] + m.value, '=') == 0) by {
            lemma_find_char(seq!['='] + m.value, '=');
            if find_char(seq!['='] + m.value, '=') > 0 {
                assert((seq!['='] + m.value)[0] != '=');
            }
        }
        let e = find_char(nv, '=');
        assert(find_char(m.name + (seq!['='] + m.value), '=') == m.name.len());
        assert(e == m.name.len());
        assert(nv.take(e) =~= m.name);
        assert(nv.subrange(e + 1, nv.len() as int) =~= m.value);
    }
    assert(spec_parse(out, Strictness::Relaxed) == Ok::<CookieModel, crate::error::Error>(
        apply_attrs(empty_model(m.name, m.value), rt_parts(m), Strictness::Relaxed),
    ));
}

} // verus!