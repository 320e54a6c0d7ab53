//! The `SameSite` cookie attribute.

use vstd::prelude::*;

verus! {

/// The value of the SameSite attribute.
#[derive(Debug, Clone, Copy, PartialEq, Eq)]
pub enum SameSite {
    Strict,
    Lax,
    /// Serialized as `SameSite=None`: the cookie is sent on cross-site
    /// requests as well.
    NoneValue,
}

/// The canonical wire spelling of a SameSite value.
pub open spec fn same_site_name(ss: SameSite) -> Seq<char> {
    match ss {
        SameSite::Strict => "Strict"@,
        SameSite::Lax => "Lax"@,
        SameSite::NoneValue => "None"@,
    }
}

impl SameSite {
    /// The canonical wire spelling of this value.
    pub fn as_str(&self) -> (r: &'static str)
        ensures
            r@ == same_site_name(*self),
    {
        match self {
            SameSite::Strict => "Strict",
            SameSite::Lax => "Lax",
            SameSite::NoneValue => "None",
        }
    }
}

} // verus!
