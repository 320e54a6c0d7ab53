//! The Expires attribute: unset (a session cookie), the removal sentinel
//! that serializes as a fixed past date, or an explicit date.

use vstd::prelude::*;

use crate::date::{DateParts, ExpVal};

verus! {

/// The Expires attribute of a cookie.
#[derive(Debug, Clone, Copy, PartialEq, Eq)]
pub enum Expires {
    /// The fixed past date `Thu, 01 Jan 1970 00:00:00 GMT`, used to make
    /// a user-agent drop the cookie.
    Remove,
    /// No expiry: the cookie lives as long as the session.
    Session,
    /// An explicit expiry date.
    Exp(ExpVal),
}

impl Default for Expires {
    /// A cookie without an Expires attribute is a session cookie.
    fn default() -> (r: Self)
        ensures
            r == Expires::Session,
    {
        Expires::Session
    }
}

/// The mathematical value of an Expires attribute.
pub enum ExpiresModel {
    Remove,
    Session,
    At(DateParts),
}

impl View for Expires {
    type V = ExpiresModel;

    open spec fn view(&self) -> ExpiresModel {
        match self {
            Expires::Remove => ExpiresModel::Remove,
            Expires::Session => ExpiresModel::Session,
            Expires::Exp(v) => ExpiresModel::At(v@),
        }
    }
}

impl Expires {
    /// The removal sentinel: an Expires attribute in the past.
    pub fn remove() -> (r: Self)
        ensures
            r == Expires::Remove,
    {
        Expires::Remove
    }
}

/// Equality of two Expires attributes: same state, and for explicit
/// expiry dates the same date.
pub fn expires_eq(a: &Expires, b: &Expires) -> (r: bool)
    ensures
        r == (a@ == b@),
{
    match (a, b) {
        (Expires::Remove, Expires::Remove) => true,
        (Expires::Session, Expires::Session) => true,
        (Expires::Exp(x), Expires::Exp(y)) => x.same_date(y),
        _ => false,
    }
}

} // verus!
