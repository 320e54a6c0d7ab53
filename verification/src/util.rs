//! `TinyStr`: a string representation that is either a static literal, an
//! owned allocation, or a `(start, end)` character range into an external
//! buffer. A range only means something next to the buffer it was cut from,
//! so every reading operation takes the owning buffer as an argument.

use vstd::prelude::*;

verus! {

/// Appends one character to a string.
///
/// Relies on `String::push`, which appends the given `char` to the end of
/// the string.
#[verifier::external_body]
pub fn push_char(s: &mut String, c: char)
    ensures
        final(s)@ == old(s)@.push(c),
{
    s.push(c);
}

/// The view of an optional borrowed buffer.
pub open spec fn opt_buf_view(buf: Option<&String>) -> Option<Seq<char>> {
    match buf {
        Some(b) => Some(b@),
        None => None,
    }
}

/// A compact string: a static literal, an owned string, or a character
/// range into an external buffer.
#[derive(Debug)]
pub enum TinyStr {
    Stat(&'static str),
    Owned(String),
    Indexed(usize, usize),
}

impl Clone for TinyStr {
    /// An exact copy.
    fn clone(&self) -> (r: Self)
        ensures
            r == self,
    {
        match self {
            TinyStr::Stat(s) => TinyStr::Stat(s),
            TinyStr::Owned(s) => TinyStr::Owned(s.clone()),
            TinyStr::Indexed(a, b) => TinyStr::Indexed(*a, *b),
        }
    }
}

impl TinyStr {
    /// An `Indexed` range must lie inside the buffer it is resolved
    /// against; the other forms carry their own characters.
    pub open spec fn wf(self, raw: Option<Seq<char>>) -> bool {
        match self {
            TinyStr::Indexed(start, end) => match raw {
                Some(r) => start <= end <= r.len(),
                None => false,
            },
            _ => true,
        }
    }

    /// The characters this `TinyStr` stands for, next to the buffer `raw`.
    /// An out-of-range or buffer-less `Indexed` resolves to the empty
    /// sequence; well-formed values never hit that case.
    pub open spec fn resolved(self, raw: Option<Seq<char>>) -> Seq<char> {
        match self {
            TinyStr::Stat(s) => s@,
            TinyStr::Owned(s) => s@,
            TinyStr::Indexed(start, end) => match raw {
                Some(r) => if start <= end <= r.len() {
                    r.subrange(start as int, end as int)
                } else {
                    Seq::empty()
                },
                None => Seq::empty(),
            },
        }
    }

    /// Resolves to the string this value stands for, next to its buffer.
    pub fn as_str<'a>(&'a self, buf: Option<&'a String>) -> (r: &'a str)
        requires
            self.wf(opt_buf_view(buf)),
        ensures
            r@ == self.resolved(opt_buf_view(buf)),
    {
        match self {
            TinyStr::Stat(s) => s,
            TinyStr::Owned(s) => s.as_str(),
            TinyStr::Indexed(start, end) => match buf {
                Some(b) => b.as_str().substring_char(*start, *end),
                None => "",
            },
        }
    }

    /// A character range into an external buffer.
    pub fn index(start: usize, end: usize) -> (r: TinyStr)
        ensures
            r == TinyStr::Indexed(start, end),
    {
        TinyStr::Indexed(start, end)
    }

    /// The empty string, without a buffer and without an allocation.
    pub fn empty() -> (r: TinyStr)
        ensures
            forall|raw: Option<Seq<char>>| r.resolved(raw) == Seq::<char>::empty() && r.wf(raw),
    {
        proof {
            reveal_strlit("");
            assert(""@ =~= Seq::<char>::empty());
        }
        TinyStr::Stat("")
    }

    /// An owned copy of the given string.
    pub fn from_str_copy(s: &str) -> (r: TinyStr)
        ensures
            forall|raw: Option<Seq<char>>| r.resolved(raw) == s@ && r.wf(raw),
    {
        TinyStr::Owned(String::from_str(s))
    }

    /// Takes ownership of the given string.
    pub fn from_string(s: String) -> (r: TinyStr)
        ensures
            forall|raw: Option<Seq<char>>| r.resolved(raw) == s@ && r.wf(raw),
    {
        TinyStr::Owned(s)
    }
}

} // verus!
