//! Percent-encoding of cookie names and values. The value set of
//! forbidden characters is controls, space, double quote, comma,
//! semicolon and backslash; the name set adds the separators that RFC
//! 2616 keeps out of tokens. The `%` character itself is not escaped.

use vstd::prelude::*;

use vstd::string::StringSliceAdditionalSpecFns;
use vstd::utf8::{decode_utf8, encode_utf8, valid_utf8};

use crate::chars::is_invalid_value_char;
use crate::digits::{digit_val, is_digit};
use crate::error::Error;
use crate::util::push_char;

verus! {

/// The uppercase hexadecimal digit of a value between 0 and 15.
pub open spec fn hex_digit(d: int) -> char {
    if d == 0 {
        '0'
    } else if d == 1 {
        '1'
    } else if d == 2 {
        '2'
    } else if d == 3 {
        '3'
    } else if d == 4 {
        '4'
    } else if d == 5 {
        '5'
    } else if d == 6 {
        '6'
    } else if d == 7 {
        '7'
    } else if d == 8 {
        '8'
    } else if d == 9 {
        '9'
    } else if d == 10 {
        'A'
    } else if d == 11 {
        'B'
    } else if d == 12 {
        'C'
    } else if d == 13 {
        'D'
    } else if d == 14 {
        'E'
    } else {
        'F'
    }
}

/// The three-character escape of a byte: `%` and two uppercase
/// hexadecimal digits.
pub open spec fn pct_triplet(b: int) -> Seq<char> {
    seq!['%', hex_digit(b / 16), hex_digit(b % 16)]
}

/// Characters escaped in a cookie value: exactly those that may not
/// appear in one.
pub open spec fn in_value_enc_set(c: char) -> bool {
    is_invalid_value_char(c)
}

/// Characters escaped in a cookie name: the value set plus the RFC 2616
/// separators.
pub open spec fn in_name_enc_set(c: char) -> bool {
    is_invalid_value_char(c) || c == '(' || c == ')' || c == '<' || c == '>' || c == '@' || c
        == ':' || c == '/' || c == '[' || c == ']' || c == '?' || c == '=' || c == '{' || c == '}'
}

/// One character of percent-encoded output. Every escaped character is
/// ASCII, so escaping bytes and escaping characters agree.
pub open spec fn enc_char(c: char, name_set: bool) -> Seq<char> {
    if (if name_set {
        in_name_enc_set(c)
    } else {
        in_value_enc_set(c)
    }) {
        pct_triplet(c as int)
    } else {
        seq![c]
    }
}

/// The percent-encoding of a string against the chosen set.
pub open spec fn enc_seq(s: Seq<char>, name_set: bool) -> Seq<char>
    decreases s.len(),
{
    if s.len() == 0 {
        Seq::empty()
    } else {
        enc_char(s[0], name_set) + enc_seq(s.drop_first(), name_set)
    }
}

/// Encoding a string one character longer appends that character's
/// encoding.
pub proof fn lemma_enc_snoc(s: Seq<char>, x: char, name_set: bool)
    ensures
        enc_seq(s.push(x), name_set) == enc_seq(s, name_set) + enc_char(x, name_set),
    decreases s.len(),
{
    if s.len() == 0 {
        assert(s.push(x).drop_first() =~= Seq::<char>::empty());
        assert(s.push(x)[0] == x);
        assert(enc_seq(Seq::<char>::empty(), name_set) =~= Seq::<char>::empty());
        assert(enc_seq(s.push(x), name_set) =~= enc_char(x, name_set));
        assert(enc_seq(s, name_set) + enc_char(x, name_set) =~= enc_char(x, name_set));
    } else {
        assert(s.push(x).drop_first() =~= s.drop_first().push(x));
        assert(s.push(x)[0] == s[0]);
        lemma_enc_snoc(s.drop_first(), x, name_set);
        assert(enc_char(s[0], name_set) + (enc_seq(s.drop_first(), name_set) + enc_char(
            x,
            name_set,
        )) =~= (enc_char(s[0], name_set) + enc_seq(s.drop_first(), name_set)) + enc_char(
            x,
            name_set,
        ));
    }
}

/// A hexadecimal digit byte, upper or lower case.
pub open spec fn is_hex_byte(b: u8) -> bool {
    (48 <= b && b <= 57) || (65 <= b && b <= 70) || (97 <= b && b <= 102)
}

/// The value of a hexadecimal digit byte.
pub open spec fn hex_byte_val(b: u8) -> int {
    if 48 <= b && b <= 57 {
        b - 48
    } else if 65 <= b && b <= 70 {
        b - 55
    } else {
        b - 87
    }
}

/// Percent-decoding of bytes: every `%` followed by two hexadecimal
/// digits becomes that byte; any other byte, `%` included, passes
/// through.
pub open spec fn pct_decoded_bytes(b: Seq<u8>) -> Seq<u8>
    decreases b.len(),
{
    if b.len() == 0 {
        Seq::empty()
    } else if b[0] == 37 && b.len() >= 3 && is_hex_byte(b[1]) && is_hex_byte(b[2]) {
        seq![(hex_byte_val(b[1]) * 16 + hex_byte_val(b[2])) as u8] + pct_decoded_bytes(
            b.subrange(3, b.len() as int),
        )
    } else {
        seq![b[0]] + pct_decoded_bytes(b.drop_first())
    }
}

/// Whether the percent-decoding of a string is well-formed UTF-8.
pub open spec fn decode_ok(s: Seq<char>) -> bool {
    valid_utf8(pct_decoded_bytes(encode_utf8(s)))
}

/// The percent-decoding of a string, when `decode_ok` holds.
pub open spec fn decoded_chars(s: Seq<char>) -> Seq<char> {
    decode_utf8(pct_decoded_bytes(encode_utf8(s)))
}

/// Relies on `percent_encoding::percent_encode_byte`: the `%XX` escape of
/// a byte, with uppercase hexadecimal digits.
#[verifier::external_body]
fn encode_byte(b: u8) -> (r: &'static str)
    ensures
        r@ == pct_triplet(b as int),
{
    percent_encoding::percent_encode_byte(b)
}

/// Relies on `percent_encoding::percent_decode` and its `decode_utf8`:
/// every `%` followed by two hexadecimal digits becomes that byte, any
/// other byte passes through, and the result is `None` exactly when the
/// decoded bytes are not well-formed UTF-8.
#[verifier::external_body]
fn pct_decode_str(s: &str) -> (r: Option<String>)
    ensures
        match r {
            Some(t) => valid_utf8(pct_decoded_bytes(s.spec_bytes())) && t@ == decode_utf8(
                pct_decoded_bytes(s.spec_bytes()),
            ),
            None => !valid_utf8(pct_decoded_bytes(s.spec_bytes())),
        },
{
    match percent_encoding::percent_decode(s.as_bytes()).decode_utf8() {
        Ok(cow) => Some(cow.into_owned()),
        Err(_) => None,
    }
}

/// Whether this character is escaped when encoding against the chosen
/// set.
fn enc_set_has(c: char, name_set: bool) -> (r: bool)
    ensures
        r == (if name_set {
            in_name_enc_set(c)
        } else {
            in_value_enc_set(c)
        }),
{
    let n = c as u32;
    let in_value = c == ' ' || c == '"' || c == ',' || c == ';' || c == '\\' || n <= 0x1f || n
        == 0x7f;
    if name_set {
        in_value || c == '(' || c == ')' || c == '<' || c == '>' || c == '@' || c == ':' || c
            == '/' || c == '[' || c == ']' || c == '?' || c == '=' || c == '{' || c == '}'
    } else {
        in_value
    }
}

/// The percent-encoding of a string against the chosen set.
fn encode_with(s: &str, name_set: bool) -> (r: String)
    ensures
        r@ == enc_seq(s@, name_set),
{
    let n = s.unicode_len();
    let mut out = String::new();
    let mut i: usize = 0;
    proof {
        assert(s@.take(0) =~= Seq::<char>::empty());
    }
    while i < n
        invariant
            0 <= i <= n,
            n == s@.len(),
            out@ == enc_seq(s@.take(i as int), name_set),
        decreases n - i,
    {
        let c = s.get_char(i);
        proof {
            assert(s@.take(i as int + 1).drop_last() =~= s@.take(i as int));
            assert(s@.take(i as int + 1) =~= s@.take(i as int).push(s@[i as int]));
            lemma_enc_snoc(s@.take(i as int), s@[i as int], name_set);
        }
        if enc_set_has(c, name_set) {
            let b: u8 = (c as u32) as u8;
            out.append(encode_byte(b));
        } else {
            push_char(&mut out, c);
            proof {
                assert(out@ =~= enc_seq(s@.take(i as int), name_set) + enc_char(
                    s@[i as int],
                    name_set,
                ));
            }
        }
        i = i + 1;
    }
    proof {
        assert(s@.take(n as int) =~= s@);
    }
    out
}

/// The percent-encoding of a cookie name.
pub fn encode_name(string: &str) -> (r: String)
    ensures
        r@ == enc_seq(string@, true),
{
    encode_with(string, true)
}

/// The percent-encoding of a cookie value.
pub fn encode_value(string: &str) -> (r: String)
    ensures
        r@ == enc_seq(string@, false),
{
    encode_with(string, false)
}

/// Percent-decodes a parsed name and value; the error reports whichever
/// of the two failed to decode to well-formed UTF-8.
pub fn decode_name_value(name: &str, val: &str) -> (r: Result<(String, String), Error>)
    ensures
        match r {
            Ok(pair) => decode_ok(name@) && decode_ok(val@) && pair.0@ == decoded_chars(name@)
                && pair.1@ == decoded_chars(val@),
            Err(e) => e == Error::PercentDecodeError && (!decode_ok(name@) || !decode_ok(val@)),
        },
{
    let n = match pct_decode_str(name) {
        Some(n) => n,
        None => {
            return Err(Error::PercentDecodeError);
        },
    };
    let v = match pct_decode_str(val) {
        Some(v) => v,
        None => {
            return Err(Error::PercentDecodeError);
        },
    };
    Ok((n, v))
}

} // verus!
