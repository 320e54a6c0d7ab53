//! The wire format of the Expires attribute: formatting a date as
//! `Wed, 21 Oct 2015 07:28:00 GMT`, and parsing the date formats that
//! servers emit — RFC 1123, RFC 850 with a two-digit year, asctime, and a
//! two-digit-year dash variant. The first matching format wins. Two-digit
//! years 0 through 68 mean 20xx, 69 through 99 mean 19xx.

use vstd::prelude::*;

use crate::chars::{
    find_char, find_char_ex, is_token_char, lemma_find_char, lemma_find_char_app, no_semi,
};
use crate::date::{DateParts, ExpVal, date_wf, day_number, days_in_month, days_in_month_ex};
use crate::digits::{dec_digit, dec_seq, digit_val, is_digit, pad2, pad2_seq, u64_to_dec};

verus! {

/// The three-letter name of a month, 1 through 12.
pub open spec fn month_name(m: int) -> Seq<char> {
    if m == 1 {
        "Jan"@
    } else if m == 2 {
        "Feb"@
    } else if m == 3 {
        "Mar"@
    } else if m == 4 {
        "Apr"@
    } else if m == 5 {
        "May"@
    } else if m == 6 {
        "Jun"@
    } else if m == 7 {
        "Jul"@
    } else if m == 8 {
        "Aug"@
    } else if m == 9 {
        "Sep"@
    } else if m == 10 {
        "Oct"@
    } else if m == 11 {
        "Nov"@
    } else {
        "Dec"@
    }
}

/// The month whose three-letter name is `s`, if any.
pub open spec fn month_of_name(s: Seq<char>) -> Option<int> {
    if s == "Jan"@ {
        Some(1int)
    } else if s == "Feb"@ {
        Some(2int)
    } else if s == "Mar"@ {
        Some(3int)
    } else if s == "Apr"@ {
        Some(4int)
    } else if s == "May"@ {
        Some(5int)
    } else if s == "Jun"@ {
        Some(6int)
    } else if s == "Jul"@ {
        Some(7int)
    } else if s == "Aug"@ {
        Some(8int)
    } else if s == "Sep"@ {
        Some(9int)
    } else if s == "Oct"@ {
        Some(10int)
    } else if s == "Nov"@ {
        Some(11int)
    } else if s == "Dec"@ {
        Some(12int)
    } else {
        None
    }
}

/// The three-letter name of a weekday, with 0 standing for Monday.
/// 1601-01-01, day zero of the calendar, was a Monday.
pub open spec fn weekday_name(w: int) -> Seq<char> {
    if w == 0 {
        "Mon"@
    } else if w == 1 {
        "Tue"@
    } else if w == 2 {
        "Wed"@
    } else if w == 3 {
        "Thu"@
    } else if w == 4 {
        "Fri"@
    } else if w == 5 {
        "Sat"@
    } else {
        "Sun"@
    }
}

/// A three-letter weekday name.
pub open spec fn is_short_weekday(s: Seq<char>) -> bool {
    s == "Mon"@ || s == "Tue"@ || s == "Wed"@ || s == "Thu"@ || s == "Fri"@ || s == "Sat"@ || s
        == "Sun"@
}

/// A full weekday name, as RFC 850 dates carry.
pub open spec fn is_long_weekday(s: Seq<char>) -> bool {
    s == "Monday"@ || s == "Tuesday"@ || s == "Wednesday"@ || s == "Thursday"@ || s == "Friday"@
        || s == "Saturday"@ || s == "Sunday"@
}

/// The fixed output format of the Expires attribute:
/// `Wed, 21 Oct 2015 07:28:00 GMT`.
pub open spec fn http_date_seq(p: DateParts) -> Seq<char> {
    weekday_name(day_number(p) % 7) + ", "@ + pad2_seq(p.day) + " "@ + month_name(p.month) + " "@
        + dec_seq(p.year as nat) + " "@ + pad2_seq(p.hour) + ":"@ + pad2_seq(p.minute) + ":"@
        + pad2_seq(p.second) + " GMT"@
}

/// The value of the two digits at `i`, when both are digits.
pub open spec fn read2(s: Seq<char>, i: int) -> Option<int> {
    if 0 <= i && i + 2 <= s.len() && is_digit(s[i]) && is_digit(s[i + 1]) {
        Some(digit_val(s[i]) * 10 + digit_val(s[i + 1]))
    } else {
        None
    }
}

/// The value of the four digits at `i`, when all four are digits.
pub open spec fn read4(s: Seq<char>, i: int) -> Option<int> {
    if 0 <= i && i + 4 <= s.len() && is_digit(s[i]) && is_digit(s[i + 1]) && is_digit(s[i + 2])
        && is_digit(s[i + 3]) {
        Some(
            digit_val(s[i]) * 1000 + digit_val(s[i + 1]) * 100 + digit_val(s[i + 2]) * 10
                + digit_val(s[i + 3]),
        )
    } else {
        None
    }
}

/// Two-digit year disambiguation: 0 through 68 mean 20xx, 69 through 99
/// mean 19xx.
pub open spec fn resolve_two_digit_year(y: int) -> int {
    if y <= 68 {
        2000 + y
    } else {
        1900 + y
    }
}

/// The date fields read at offset `i` of `s`, laid out as
/// `DD<sep>Mon<sep>YEAR HH:MM:SS GMT` and ending the string. `y4` selects
/// a four-digit year; a two-digit year is disambiguated. `None` when the
/// layout does not match or the fields are not a representable date.
pub open spec fn tail_date(s: Seq<char>, i: int, sep: char, y4: bool) -> Option<DateParts> {
    let ylen: int = if y4 {
        4
    } else {
        2
    };
    let j = i + 7 + ylen;
    if s.len() == i + 20 + ylen && read2(s, i) is Some && s[i + 2] == sep && month_of_name(
        s.subrange(i + 3, i + 6),
    ) is Some && s[i + 6] == sep && (if y4 {
        read4(s, i + 7) is Some
    } else {
        read2(s, i + 7) is Some
    }) && s[j] == ' ' && read2(s, j + 1) is Some && s[j + 3] == ':' && read2(s, j + 4) is Some
        && s[j + 6] == ':' && read2(s, j + 7) is Some && s.subrange(j + 9, j + 13) == " GMT"@ {
        let p = DateParts {
            year: if y4 {
                read4(s, i + 7)->0
            } else {
                resolve_two_digit_year(read2(s, i + 7)->0)
            },
            month: month_of_name(s.subrange(i + 3, i + 6))->0,
            day: read2(s, i)->0,
            hour: read2(s, j + 1)->0,
            minute: read2(s, j + 4)->0,
            second: read2(s, j + 7)->0,
        };
        if date_wf(p) {
            Some(p)
        } else {
            None
        }
    } else {
        None
    }
}

/// An asctime date: `Wed Oct 21 07:28:00 2015`, with a space-padded day.
pub open spec fn asctime_date(s: Seq<char>) -> Option<DateParts> {
    if s.len() == 24 && is_short_weekday(s.take(3)) && s[3] == ' ' && month_of_name(
        s.subrange(4, 7),
    ) is Some && s[7] == ' ' && (s[8] == ' ' || is_digit(s[8])) && is_digit(s[9]) && s[10] == ' '
        && read2(s, 11) is Some && s[13] == ':' && read2(s, 14) is Some && s[16] == ':' && read2(
        s,
        17,
    ) is Some && s[19] == ' ' && read4(s, 20) is Some {
        let p = DateParts {
            year: read4(s, 20)->0,
            month: month_of_name(s.subrange(4, 7))->0,
            day: (if s[8] == ' ' {
                0
            } else {
                digit_val(s[8]) * 10
            }) + digit_val(s[9]),
            hour: read2(s, 11)->0,
            minute: read2(s, 14)->0,
            second: read2(s, 17)->0,
        };
        if date_wf(p) {
            Some(p)
        } else {
            None
        }
    } else {
        None
    }
}

/// The date denoted by an Expires attribute value. Formats with a comma —
/// RFC 1123 (`Wed, 21 Oct 2015 07:28:00 GMT`), RFC 850
/// (`Wednesday, 21-Oct-15 07:28:00 GMT`) and the short-weekday dash
/// variant (`Wed, 21-Oct-15 07:28:00 GMT`) — are recognized by the
/// weekday before the comma, then by the separator and year width;
/// asctime has no comma. The first matching format wins.
pub open spec fn parse_http_date_seq(s: Seq<char>) -> Option<DateParts> {
    let c = find_char(s, ',');
    if c < s.len() {
        if (is_short_weekday(s.take(c)) || is_long_weekday(s.take(c))) && c + 2 <= s.len() && s[c
            + 1] == ' ' {
            if tail_date(s, c + 2, ' ', true) is Some {
                tail_date(s, c + 2, ' ', true)
            } else {
                tail_date(s, c + 2, '-', false)
            }
        } else {
            None
        }
    } else {
        asctime_date(s)
    }
}

/// A short weekday name is three token characters.
pub proof fn lemma_weekday_name_facts(w: int)
    requires
        0 <= w < 7,
    ensures
        is_short_weekday(weekday_name(w)),
        weekday_name(w).len() == 3,
        forall|i: int| 0 <= i < 3 ==> is_token_char(#[trigger] weekday_name(w)[i]),
{
    reveal_strlit("Mon");
    reveal_strlit("Tue");
    reveal_strlit("Wed");
    reveal_strlit("Thu");
    reveal_strlit("Fri");
    reveal_strlit("Sat");
    reveal_strlit("Sun");
}

/// A month name is three token characters and reads back as its month.
pub proof fn lemma_month_name_facts(m: int)
    requires
        1 <= m <= 12,
    ensures
        month_name(m).len() == 3,
        month_of_name(month_name(m)) == Some(m),
        forall|i: int| 0 <= i < 3 ==> is_token_char(#[trigger] month_name(m)[i]),
{
    reveal_strlit("Jan");
    reveal_strlit("Feb");
    reveal_strlit("Mar");
    reveal_strlit("Apr");
    reveal_strlit("May");
    reveal_strlit("Jun");
    reveal_strlit("Jul");
    reveal_strlit("Aug");
    reveal_strlit("Sep");
    reveal_strlit("Oct");
    reveal_strlit("Nov");
    reveal_strlit("Dec");
    if m == 1 {
        // first name in the chain
    }
    if m == 2 {
        assert("Feb"@ != "Jan"@) by { assert(("Feb"@)[0] != ("Jan"@)[0]); }
    }
    if m == 3 {
        assert("Mar"@ != "Jan"@) by { assert(("Mar"@)[0] != ("Jan"@)[0]); }
        assert("Mar"@ != "Feb"@) by { assert(("Mar"@)[0] != ("Feb"@)[0]); }
    }
    if m == 4 {
        assert("Apr"@ != "Jan"@) by { assert(("Apr"@)[0] != ("Jan"@)[0]); }
        assert("Apr"@ != "Feb"@) by { assert(("Apr"@)[0] != ("Feb"@)[0]); }
        assert("Apr"@ != "Mar"@) by { assert(("Apr"@)[0] != ("Mar"@)[0]); }
    }
    if m == 5 {
        assert("May"@ != "Jan"@) by { assert(("May"@)[0] != ("Jan"@)[0]); }
        assert("May"@ != "Feb"@) by { assert(("May"@)[0] != ("Feb"@)[0]); }
        assert("May"@ != "Mar"@) by { assert(("May"@)[2] != ("Mar"@)[2]); }
        assert("May"@ != "Apr"@) by { assert(("May"@)[0] != ("Apr"@)[0]); }
    }
    if m == 6 {
        assert("Jun"@ != "Jan"@) by { assert(("Jun"@)[1] != ("Jan"@)[1]); }
        assert("Jun"@ != "Feb"@) by { assert(("Jun"@)[0] != ("Feb"@)[0]); }
        assert("Jun"@ != "Mar"@) by { assert(("Jun"@)[0] != ("Mar"@)[0]); }
        assert("Jun"@ != "Apr"@) by { assert(("Jun"@)[0] != ("Apr"@)[0]); }
        assert("Jun"@ != "May"@) by { assert(("Jun"@)[0] != ("May"@)[0]); }
    }
    if m == 7 {
        assert("Jul"@ != "Jan"@) by { assert(("Jul"@)[1] != ("Jan"@)[1]); }
        assert("Jul"@ != "Feb"@) by { assert(("Jul"@)[0] != ("Feb"@)[0]); }
        assert("Jul"@ != "Mar"@) by { assert(("Jul"@)[0] != ("Mar"@)[0]); }
        assert("Jul"@ != "Apr"@) by { assert(("Jul"@)[0] != ("Apr"@)[0]); }
        assert("Jul"@ != "May"@) by { assert(("Jul"@)[0] != ("May"@)[0]); }
        assert("Jul"@ != "Jun"@) by { assert(("Jul"@)[2] != ("Jun"@)[2]); }
    }
    if m == 8 {
        assert("Aug"@ != "Jan"@) by { assert(("Aug"@)[0] != ("Jan"@)[0]); }
        assert("Aug"@ != "Feb"@) by { assert(("Aug"@)[0] != ("Feb"@)[0]); }
        assert("Aug"@ != "Mar"@) by { assert(("Aug"@)[0] != ("Mar"@)[0]); }
        assert("Aug"@ != "Apr"@) by { assert(("Aug"@)[1] != ("Apr"@)[1]); }
        assert("Aug"@ != "May"@) by { assert(("Aug"@)[0] != ("May"@)[0]); }
        assert("Aug"@ != "Jun"@) by { assert(("Aug"@)[0] != ("Jun"@)[0]); }
        assert("Aug"@ != "Jul"@) by { assert(("Aug"@)[0] != ("Jul"@)[0]); }
    }
    if m == 9 {
        assert("Sep"@ != "Jan"@) by { assert(("Sep"@)[0] != ("Jan"@)[0]); }
        assert("Sep"@ != "Feb"@) by { assert(("Sep"@)[0] != ("Feb"@)[0]); }
        assert("Sep"@ != "Mar"@) by { assert(("Sep"@)[0] != ("Mar"@)[0]); }
        assert("Sep"@ != "Apr"@) by { assert(("Sep"@)[0] != ("Apr"@)[0]); }
        assert("Sep"@ != "May"@) by { assert(("Sep"@)[0] != ("May"@)[0]); }
        assert("Sep"@ != "Jun"@) by { assert(("Sep"@)[0] != ("Jun"@)[0]); }
        assert("Sep"@ != "Jul"@) by { assert(("Sep"@)[0] != ("Jul"@)[0]); }
        assert("Sep"@ != "Aug"@) by { assert(("Sep"@)[0] != ("Aug"@)[0]); }
    }
    if m == 10 {
        assert("Oct"@ != "Jan"@) by { assert(("Oct"@)[0] != ("Jan"@)[0]); }
        assert("Oct"@ != "Feb"@) by { assert(("Oct"@)[0] != ("Feb"@)[0]); }
        assert("Oct"@ != "Mar"@) by { assert(("Oct"@)[0] != ("Mar"@)[0]); }
        assert("Oct"@ != "Apr"@) by { assert(("Oct"@)[0] != ("Apr"@)[0]); }
        assert("Oct"@ != "May"@) by { assert(("Oct"@)[0] != ("May"@)[0]); }
        assert("Oct"@ != "Jun"@) by { assert(("Oct"@)[0] != ("Jun"@)[0]); }
        assert("Oct"@ != "Jul"@) by { assert(("Oct"@)[0] != ("Jul"@)[0]); }
        assert("Oct"@ != "Aug"@) by { assert(("Oct"@)[0] != ("Aug"@)[0]); }
        assert("Oct"@ != "Sep"@) by { assert(("Oct"@)[0] != ("Sep"@)[0]); }
    }
    if m == 11 {
        assert("Nov"@ != "Jan"@) by { assert(("Nov"@)[0] != ("Jan"@)[0]); }
        assert("Nov"@ != "Feb"@) by { assert(("Nov"@)[0] != ("Feb"@)[0]); }
        assert("Nov"@ != "Mar"@) by { assert(("Nov"@)[0] != ("Mar"@)[0]); }
        assert("Nov"@ != "Apr"@) by { assert(("Nov"@)[0] != ("Apr"@)[0]); }
        assert("Nov"@ != "May"@) by { assert(("Nov"@)[0] != ("May"@)[0]); }
        assert("Nov"@ != "Jun"@) by { assert(("Nov"@)[0] != ("Jun"@)[0]); }
        assert("Nov"@ != "Jul"@) by { assert(("Nov"@)[0] != ("Jul"@)[0]); }
        assert("Nov"@ != "Aug"@) by { assert(("Nov"@)[0] != ("Aug"@)[0]); }
        assert("Nov"@ != "Sep"@) by { assert(("Nov"@)[0] != ("Sep"@)[0]); }
        assert("Nov"@ != "Oct"@) by { assert(("Nov"@)[0] != ("Oct"@)[0]); }
    }
    if m == 12 {
        assert("Dec"@ != "Jan"@) by { assert(("Dec"@)[0] != ("Jan"@)[0]); }
        assert("Dec"@ != "Feb"@) by { assert(("Dec"@)[0] != ("Feb"@)[0]); }
        assert("Dec"@ != "Mar"@) by { assert(("Dec"@)[0] != ("Mar"@)[0]); }
        assert("Dec"@ != "Apr"@) by { assert(("Dec"@)[0] != ("Apr"@)[0]); }
        assert("Dec"@ != "May"@) by { assert(("Dec"@)[0] != ("May"@)[0]); }
        assert("Dec"@ != "Jun"@) by { assert(("Dec"@)[0] != ("Jun"@)[0]); }
        assert("Dec"@ != "Jul"@) by { assert(("Dec"@)[0] != ("Jul"@)[0]); }
        assert("Dec"@ != "Aug"@) by { assert(("Dec"@)[0] != ("Aug"@)[0]); }
        assert("Dec"@ != "Sep"@) by { assert(("Dec"@)[0] != ("Sep"@)[0]); }
        assert("Dec"@ != "Oct"@) by { assert(("Dec"@)[0] != ("Oct"@)[0]); }
        assert("Dec"@ != "Nov"@) by { assert(("Dec"@)[0] != ("Nov"@)[0]); }
    }
}

/// A zero-padded pair of digits reads back as its value.
pub proof fn lemma_pad2_facts(n: int)
    requires
        0 <= n < 100,
    ensures
        pad2_seq(n).len() == 2,
        is_digit(pad2_seq(n)[0]) && is_digit(pad2_seq(n)[1]),
        digit_val(pad2_seq(n)[0]) * 10 + digit_val(pad2_seq(n)[1]) == n,
{
    assert((n / 10) * 10 + n % 10 == n) by (nonlinear_arith)
        requires
            0 <= n < 100,
    ;
}

/// The decimal spelling of a four-digit number is four digits and reads
/// back as its value.
pub proof fn lemma_dec4_facts(y: int)
    requires
        1000 <= y <= 9999,
    ensures
        dec_seq(y as nat).len() == 4,
        crate::digits::is_digit_seq(dec_seq(y as nat)),
        crate::digits::digits_val(dec_seq(y as nat)) == y,
{
    crate::digits::lemma_dec_seq_val(y as nat);
    let a = y / 10;
    let b = a / 10;
    let c = b / 10;
    assert(100 <= a <= 999 && 10 <= b <= 99 && 1 <= c <= 9);
    assert(dec_seq(c as nat).len() == 1);
    assert(dec_seq(b as nat) == dec_seq(c as nat).push(dec_digit(b % 10)));
    assert(dec_seq(a as nat) == dec_seq(b as nat).push(dec_digit(a % 10)));
    assert(dec_seq(y as nat) == dec_seq(a as nat).push(dec_digit(y % 10)));
}

/// Formatting a well-formed date and parsing the result gives the date
/// back: the output format is the first recognized format.
pub proof fn lemma_http_date_parse_back(p: DateParts)
    requires
        date_wf(p),
    ensures
        parse_http_date_seq(http_date_seq(p)) == Some(p),
        http_date_seq(p).len() == 29,
        no_semi(http_date_seq(p)),
        !crate::chars::is_cookie_ws(http_date_seq(p)[0]),
        !crate::chars::is_cookie_ws(http_date_seq(p)[28]),
{
    reveal_strlit(", ");
    reveal_strlit(" ");
    reveal_strlit(":");
    reveal_strlit(" GMT");
    crate::date::lemma_day_number_bounds(p);
    let wd = day_number(p) % 7;
    assert(0 <= wd < 7);
    lemma_weekday_name_facts(wd);
    lemma_month_name_facts(p.month);
    lemma_pad2_facts(p.day);
    lemma_pad2_facts(p.hour);
    lemma_pad2_facts(p.minute);
    lemma_pad2_facts(p.second);
    lemma_dec4_facts(p.year);
    let w = weekday_name(wd);
    let dd = pad2_seq(p.day);
    let mon = month_name(p.month);
    let y = dec_seq(p.year as nat);
    let hh = pad2_seq(p.hour);
    let mm = pad2_seq(p.minute);
    let ss = pad2_seq(p.second);
    let h = http_date_seq(p);
    assert(h.len() == 29);
    assert(h.take(3) =~= w);
    assert(h[3] == ',' && h[4] == ' ');
    assert(h[5] == dd[0] && h[6] == dd[1]);
    assert(h[7] == ' ');
    assert(h.subrange(8, 11) =~= mon);
    assert(h[11] == ' ');
    assert(h[12] == y[0] && h[13] == y[1] && h[14] == y[2] && h[15] == y[3]);
    assert(h[16] == ' ');
    assert(h[17] == hh[0] && h[18] == hh[1]);
    assert(h[19] == ':');
    assert(h[20] == mm[0] && h[21] == mm[1]);
    assert(h[22] == ':');
    assert(h[23] == ss[0] && h[24] == ss[1]);
    assert(h.subrange(25, 29) =~= " GMT"@);
    // The comma after the weekday is the first one: weekday letters are
    // token characters and the date fields are digits, spaces and colons.
    assert(find_char(h, ',') == 3) by {
        lemma_find_char(h, ',');
        let f = find_char(h, ',');
        if f < 3 {
            assert(h[f] == w[f] && is_token_char(w[f]));
        }
        if f > 3 {
            assert(h[3] == ',');
        }
    }
    assert(is_digit(y[0]) && is_digit(y[1]) && is_digit(y[2]) && is_digit(y[3]));
    assert(read2(h, 5) == Some(p.day));
    assert(read4(h, 12) == Some(p.year)) by {
        let v = digit_val(y[0]) * 1000 + digit_val(y[1]) * 100 + digit_val(y[2]) * 10 + digit_val(
            y[3],
        );
        assert(y.drop_last() =~= y.take(3));
        assert(y.take(3).drop_last() =~= y.take(2));
        assert(y.take(2).drop_last() =~= y.take(1));
        assert(y.take(1).drop_last() =~= y.take(0));
        assert(y.take(0) =~= Seq::<char>::empty());
        assert(crate::digits::digits_val(y.take(0)) == 0);
        assert(crate::digits::digits_val(y.take(1)) == digit_val(y[0]));
        assert(crate::digits::digits_val(y.take(2)) == digit_val(y[0]) * 10 + digit_val(y[1]));
        assert(crate::digits::digits_val(y.take(3)) == (digit_val(y[0]) * 10 + digit_val(y[1]))
            * 10 + digit_val(y[2]));
        assert(crate::digits::digits_val(y) == v);
    }
    assert(read2(h, 17) == Some(p.hour));
    assert(read2(h, 20) == Some(p.minute));
    assert(read2(h, 23) == Some(p.second));
    assert(tail_date(h, 5, ' ', true) == Some(p));
    assert(parse_http_date_seq(h) == Some(p));
    // No character of the output is a semicolon, and the ends are not
    // whitespace.
    assert forall|i: int| 0 <= i < h.len() implies #[trigger] h[i] != ';' by {
        if i < 3 {
            assert(h[i] == w[i] && is_token_char(w[i]));
        } else if i == 8 || i == 9 || i == 10 {
            assert(h[i] == mon[i - 8] && is_token_char(mon[i - 8]));
        } else if 25 <= i {
            assert(h[i] == " GMT"@[i - 25]);
        }
    }
    assert(h[0] == w[0] && is_token_char(w[0]));
    assert(h[28] == " GMT"@[3]);
}

/// The three-letter name of the weekday of a date.
fn weekday_str(v: &ExpVal) -> (r: &'static str)
    ensures
        r@ == weekday_name(day_number(v@) % 7),
{
    let w: u64 = v.day_number_ex() % 7;
    if w == 0 {
        "Mon"
    } else if w == 1 {
        "Tue"
    } else if w == 2 {
        "Wed"
    } else if w == 3 {
        "Thu"
    } else if w == 4 {
        "Fri"
    } else if w == 5 {
        "Sat"
    } else {
        "Sun"
    }
}

/// The three-letter name of a month, 1 through 12.
fn month_str(m: u8) -> (r: &'static str)
    requires
        1 <= m <= 12,
    ensures
        r@ == month_name(m as int),
{
    if m == 1 {
        "Jan"
    } else if m == 2 {
        "Feb"
    } else if m == 3 {
        "Mar"
    } else if m == 4 {
        "Apr"
    } else if m == 5 {
        "May"
    } else if m == 6 {
        "Jun"
    } else if m == 7 {
        "Jul"
    } else if m == 8 {
        "Aug"
    } else if m == 9 {
        "Sep"
    } else if m == 10 {
        "Oct"
    } else if m == 11 {
        "Nov"
    } else {
        "Dec"
    }
}

/// Formats a date in the fixed output format of the Expires attribute.
pub fn fmt_http_date(v: &ExpVal) -> (r: String)
    ensures
        r@ == http_date_seq(v@),
{
    let year = v.year();
    let mut out = String::new();
    out.append(weekday_str(v));
    out.append(", ");
    let day_s = pad2(v.day());
    out.append(day_s.as_str());
    out.append(" ");
    out.append(month_str(v.month()));
    out.append(" ");
    let year_s = u64_to_dec(year as u64);
    out.append(year_s.as_str());
    out.append(" ");
    let hour_s = pad2(v.hour());
    out.append(hour_s.as_str());
    out.append(":");
    let minute_s = pad2(v.minute());
    out.append(minute_s.as_str());
    out.append(":");
    let second_s = pad2(v.second());
    out.append(second_s.as_str());
    out.append(" GMT");
    proof {
        assert(out@ =~= http_date_seq(v@));
    }
    out
}

/// Reads the two-digit number at `i`.
fn read2_ex(s: &str, i: usize) -> (r: Option<u8>)
    requires
        i + 2 <= usize::MAX,
    ensures
        match r {
            Some(v) => read2(s@, i as int) == Some(v as int),
            None => read2(s@, i as int) is None,
        },
{
    let n = s.unicode_len();
    if i + 2 > n {
        return None;
    }
    let a = s.get_char(i);
    let b = s.get_char(i + 1);
    if '0' <= a && a <= '9' && '0' <= b && b <= '9' {
        let av: u8 = ((a as u32) - 48) as u8;
        let bv: u8 = ((b as u32) - 48) as u8;
        Some(av * 10 + bv)
    } else {
        None
    }
}

/// Reads the four-digit number at `i`.
fn read4_ex(s: &str, i: usize) -> (r: Option<u16>)
    requires
        i + 4 <= usize::MAX,
    ensures
        match r {
            Some(v) => read4(s@, i as int) == Some(v as int),
            None => read4(s@, i as int) is None,
        },
{
    let n = s.unicode_len();
    if i + 4 > n {
        return None;
    }
    let a = s.get_char(i);
    let b = s.get_char(i + 1);
    let c = s.get_char(i + 2);
    let d = s.get_char(i + 3);
    if '0' <= a && a <= '9' && '0' <= b && b <= '9' && '0' <= c && c <= '9' && '0' <= d && d
        <= '9' {
        let av: u16 = ((a as u32) - 48) as u16;
        let bv: u16 = ((b as u32) - 48) as u16;
        let cv: u16 = ((c as u32) - 48) as u16;
        let dv: u16 = ((d as u32) - 48) as u16;
        Some(av * 1000 + bv * 100 + cv * 10 + dv)
    } else {
        None
    }
}

/// The month whose three-letter name starts at `i`, if any.
fn month_at(s: &str, i: usize) -> (r: Option<u8>)
    requires
        i + 3 <= s@.len(),
        s@.len() <= usize::MAX,
    ensures
        match r {
            Some(m) => month_of_name(s@.subrange(i as int, i as int + 3)) == Some(m as int) && 1
                <= m <= 12,
            None => month_of_name(s@.subrange(i as int, i as int + 3)) is None,
        },
{
    let t = s.substring_char(i, i + 3);
    let names: [&'static str; 12] = [
        "Jan",
        "Feb",
        "Mar",
        "Apr",
        "May",
        "Jun",
        "Jul",
        "Aug",
        "Sep",
        "Oct",
        "Nov",
        "Dec",
    ];
    let mut m: u8 = 0;
    while m < 12
        invariant
            0 <= m <= 12,
            t@ == s@.subrange(i as int, i as int + 3),
            names@.len() == 12,
            names@[0]@ == "Jan"@ && names@[1]@ == "Feb"@ && names@[2]@ == "Mar"@ && names@[3]@
                == "Apr"@ && names@[4]@ == "May"@ && names@[5]@ == "Jun"@ && names@[6]@ == "Jul"@
                && names@[7]@ == "Aug"@ && names@[8]@ == "Sep"@ && names@[9]@ == "Oct"@
                && names@[10]@ == "Nov"@ && names@[11]@ == "Dec"@,
            forall|k: int| 0 <= k < m ==> t@ != names@[k]@,
        decreases 12 - m,
    {
        if crate::chars::str_eq(t, names[m as usize]) {
            return Some(m + 1);
        }
        m = m + 1;
    }
    None
}

/// Whether the first three characters of `s` are a short weekday name.
fn short_weekday_at_start(s: &str) -> (r: bool)
    requires
        3 <= s@.len(),
    ensures
        r == is_short_weekday(s@.take(3)),
{
    let t = s.substring_char(0, 3);
    proof {
        assert(s@.subrange(0, 3) =~= s@.take(3));
    }
    crate::chars::str_eq(t, "Mon") || crate::chars::str_eq(t, "Tue") || crate::chars::str_eq(
        t,
        "Wed",
    ) || crate::chars::str_eq(t, "Thu") || crate::chars::str_eq(t, "Fri") || crate::chars::str_eq(
        t,
        "Sat",
    ) || crate::chars::str_eq(t, "Sun")
}

/// Whether the prefix of `s` up to `c` is a weekday name, short or long.
fn weekday_prefix_ok(s: &str, c: usize) -> (r: bool)
    requires
        c <= s@.len(),
    ensures
        r == (is_short_weekday(s@.take(c as int)) || is_long_weekday(s@.take(c as int))),
{
    let t = s.substring_char(0, c);
    proof {
        assert(s@.subrange(0, c as int) =~= s@.take(c as int));
    }
    crate::chars::str_eq(t, "Mon") || crate::chars::str_eq(t, "Tue") || crate::chars::str_eq(
        t,
        "Wed",
    ) || crate::chars::str_eq(t, "Thu") || crate::chars::str_eq(t, "Fri") || crate::chars::str_eq(
        t,
        "Sat",
    ) || crate::chars::str_eq(t, "Sun") || crate::chars::str_eq(t, "Monday")
        || crate::chars::str_eq(t, "Tuesday") || crate::chars::str_eq(t, "Wednesday")
        || crate::chars::str_eq(t, "Thursday") || crate::chars::str_eq(t, "Friday")
        || crate::chars::str_eq(t, "Saturday") || crate::chars::str_eq(t, "Sunday")
}

/// Reads the `DD<sep>Mon<sep>YEAR HH:MM:SS GMT` layout at offset `i`.
fn tail_date_ex(s: &str, i: usize, sep: char, y4: bool) -> (r: Option<ExpVal>)
    requires
        i <= s@.len(),
    ensures
        match r {
            Some(v) => tail_date(s@, i as int, sep, y4) == Some(v@),
            None => tail_date(s@, i as int, sep, y4) is None,
        },
{
    let ylen: usize = if y4 {
        4
    } else {
        2
    };
    let n = s.unicode_len();
    if n < 20 + ylen || i != n - 20 - ylen {
        return None;
    }
    let j = i + 7 + ylen;
    let day = match read2_ex(s, i) {
        Some(d) => d,
        None => {
            return None;
        },
    };
    if s.get_char(i + 2) != sep {
        return None;
    }
    let month = match month_at(s, i + 3) {
        Some(m) => m,
        None => {
            return None;
        },
    };
    if s.get_char(i + 6) != sep {
        return None;
    }
    let year: u16 = if y4 {
        match read4_ex(s, i + 7) {
            Some(y) => y,
            None => {
                return None;
            },
        }
    } else {
        match read2_ex(s, i + 7) {
            Some(y) => if y <= 68 {
                2000 + y as u16
            } else {
                1900 + y as u16
            },
            None => {
                return None;
            },
        }
    };
    if s.get_char(j) != ' ' {
        return None;
    }
    let hour = match read2_ex(s, j + 1) {
        Some(h) => h,
        None => {
            return None;
        },
    };
    if s.get_char(j + 3) != ':' {
        return None;
    }
    let minute = match read2_ex(s, j + 4) {
        Some(m) => m,
        None => {
            return None;
        },
    };
    if s.get_char(j + 6) != ':' {
        return None;
    }
    let second = match read2_ex(s, j + 7) {
        Some(x) => x,
        None => {
            return None;
        },
    };
    let gmt = s.substring_char(j + 9, j + 13);
    if !crate::chars::str_eq(gmt, " GMT") {
        return None;
    }
    ExpVal::new(year, month, day, hour, minute, second)
}

/// Reads an asctime date.
fn asctime_ex(s: &str) -> (r: Option<ExpVal>)
    ensures
        match r {
            Some(v) => asctime_date(s@) == Some(v@),
            None => asctime_date(s@) is None,
        },
{
    let n = s.unicode_len();
    if n != 24 {
        return None;
    }
    if !short_weekday_at_start(s) {
        return None;
    }
    if s.get_char(3) != ' ' {
        return None;
    }
    let month = match month_at(s, 4) {
        Some(m) => m,
        None => {
            return None;
        },
    };
    if s.get_char(7) != ' ' {
        return None;
    }
    let c8 = s.get_char(8);
    let c9 = s.get_char(9);
    if !(c8 == ' ' || ('0' <= c8 && c8 <= '9')) {
        return None;
    }
    if !('0' <= c9 && c9 <= '9') {
        return None;
    }
    let tens: u8 = if c8 == ' ' {
        0
    } else {
        (((c8 as u32) - 48) * 10) as u8
    };
    let day: u8 = tens + (((c9 as u32) - 48) as u8);
    if s.get_char(10) != ' ' {
        return None;
    }
    let hour = match read2_ex(s, 11) {
        Some(h) => h,
        None => {
            return None;
        },
    };
    if s.get_char(13) != ':' {
        return None;
    }
    let minute = match read2_ex(s, 14) {
        Some(m) => m,
        None => {
            return None;
        },
    };
    if s.get_char(16) != ':' {
        return None;
    }
    let second = match read2_ex(s, 17) {
        Some(x) => x,
        None => {
            return None;
        },
    };
    if s.get_char(19) != ' ' {
        return None;
    }
    let year = match read4_ex(s, 20) {
        Some(y) => y,
        None => {
            return None;
        },
    };
    ExpVal::new(year, month, day, hour, minute, second)
}

/// Parses an Expires attribute value against the recognized date formats.
pub fn parse_http_date(s: &str) -> (r: Option<ExpVal>)
    ensures
        match r {
            Some(v) => parse_http_date_seq(s@) == Some(v@),
            None => parse_http_date_seq(s@) is None,
        },
{
    let n = s.unicode_len();
    let c = find_char_ex(s, ',');
    proof {
        lemma_find_char(s@, ',');
    }
    if c < n {
        if !weekday_prefix_ok(s, c) {
            return None;
        }
        if n - c < 2 || s.get_char(c + 1) != ' ' {
            return None;
        }
        let first = tail_date_ex(s, c + 2, ' ', true);
        match first {
            Some(v) => Some(v),
            None => tail_date_ex(s, c + 2, '-', false),
        }
    } else {
        asctime_ex(s)
    }
}

} // verus!
