//! The strictness policy threaded through every parsing and serialization
//! decision point.

use vstd::prelude::*;

verus! {

/// How forgiving parsing and serialization are.
///
/// * `Strict` holds the input to the RFC grammar.
/// * `Relaxed` accepts common real-world deviations (a leading `+` on
///   Max-Age); malformed required fields still fail.
/// * `Unchecked` never fails; malformed input passes through.
#[derive(Debug, Clone, Copy, PartialEq, Eq)]
pub enum Strictness {
    Strict,
    Relaxed,
    Unchecked,
}

/// Options for parsing and serializing a cookie: a strictness tier, and
/// whether names and values are percent-encoded on the wire.
#[derive(Debug, Clone, Copy)]
pub struct CookieOptions {
    strictness: Strictness,
    encode: bool,
}

impl CookieOptions {
    /// The strictness tier of these options.
    pub closed spec fn spec_strictness(self) -> Strictness {
        self.strictness
    }

    /// Whether names and values are percent-encoded on the wire.
    pub closed spec fn spec_encode(self) -> bool {
        self.encode
    }

    /// Options that hold the input to the RFC grammar.
    pub fn strict() -> (r: Self)
        ensures
            r.spec_strictness() == Strictness::Strict,
            !r.spec_encode(),
    {
        Self { strictness: Strictness::Strict, encode: false }
    }

    /// Options that accept common real-world deviations.
    pub fn relaxed() -> (r: Self)
        ensures
            r.spec_strictness() == Strictness::Relaxed,
            !r.spec_encode(),
    {
        Self { strictness: Strictness::Relaxed, encode: false }
    }

    /// Options that never fail: malformed input passes through.
    pub fn unchecked() -> (r: Self)
        ensures
            r.spec_strictness() == Strictness::Unchecked,
            !r.spec_encode(),
    {
        Self { strictness: Strictness::Unchecked, encode: false }
    }

    /// The strictness tier of these options.
    pub fn strictness(&self) -> (r: &Strictness)
        ensures
            *r == self.spec_strictness(),
    {
        &self.strictness
    }

    /// Turns on percent-encoding of names and values.
    pub(crate) fn encode(self) -> (r: Self)
        ensures
            r.spec_strictness() == self.spec_strictness(),
            r.spec_encode(),
    {
        let mut r = self;
        r.encode = true;
        r
    }

    /// Whether names and values are percent-encoded on the wire.
    pub(crate) fn encoded_flag(&self) -> (r: bool)
        ensures
            r == self.spec_encode(),
    {
        self.encode
    }

    /// Whether these options never fail.
    pub fn is_unchecked(&self) -> (r: bool)
        ensures
            r == (self.spec_strictness() == Strictness::Unchecked),
    {
        matches!(self.strictness, Strictness::Unchecked)
    }

    /// Whether these options hold the input to the RFC grammar.
    pub fn is_strict(&self) -> (r: bool)
        ensures
            r == (self.spec_strictness() == Strictness::Strict),
    {
        matches!(self.strictness, Strictness::Strict)
    }
}

} // verus!
