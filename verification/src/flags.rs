//! A bit-packed representation of the boolean cookie attributes and the
//! SameSite value, kept in one byte.

use vstd::prelude::*;

use crate::same_site::SameSite;

verus! {

/// The byte with bit `index` set to `value` and every other bit unchanged.
pub open spec fn with_bit(bits: u8, index: u8, value: bool) -> u8 {
    if value {
        bits | (1u8 << index)
    } else {
        bits & !(1u8 << index)
    }
}

/// Whether bit `index` of `bits` is set.
pub open spec fn bit_set(bits: u8, index: u8) -> bool {
    bits & (1u8 << index) != 0
}

/// One byte of cookie flags.
///
/// * bit 0: Secure
/// * bit 1: HttpOnly
/// * bit 2: Partitioned
/// * bit 5: SameSite=Strict
/// * bit 6: SameSite=Lax
/// * bit 7: SameSite=None
///
/// The three SameSite bits are kept mutually exclusive by `set_same_site`;
/// when several are set anyway, the lowest one wins on reading.
#[derive(Debug, Clone, Copy, Default)]
pub struct BitFlags(u8);

impl BitFlags {
    /// The raw byte of flags.
    pub closed spec fn bits(self) -> u8 {
        self.0
    }

    /// A byte with no flag set.
    pub fn empty() -> (r: Self)
        ensures
            r.bits() == 0,
    {
        BitFlags(0)
    }

    /// Whether the given bit is set.
    pub fn get<const INDEX: u8>(&self) -> (r: bool)
        requires
            INDEX < 8,
        ensures
            r == bit_set(self.bits(), INDEX),
    {
        (self.0 & (1u8 << INDEX)) != 0
    }

    /// Sets or clears the given bit.
    pub fn set<const INDEX: u8>(&mut self, value: bool)
        requires
            INDEX < 8,
        ensures
            final(self).bits() == with_bit(old(self).bits(), INDEX, value),
    {
        if value {
            self.0 = self.0 | (1u8 << INDEX);
        } else {
            self.0 = self.0 & !(1u8 << INDEX);
        }
    }

    /// Whether the Secure flag is set.
    pub fn secure(&self) -> (r: bool)
        ensures
            r == bit_set(self.bits(), 0),
    {
        self.get::<0>()
    }

    /// Sets the Secure flag.
    pub fn set_secure(&mut self, secure: bool)
        ensures
            final(self).bits() == with_bit(old(self).bits(), 0, secure),
    {
        self.set::<0>(secure);
    }

    /// Whether the HttpOnly flag is set.
    pub fn http_only(&self) -> (r: bool)
        ensures
            r == bit_set(self.bits(), 1),
    {
        self.get::<1>()
    }

    /// Sets the HttpOnly flag.
    pub fn set_http_only(&mut self, http_only: bool)
        ensures
            final(self).bits() == with_bit(old(self).bits(), 1, http_only),
    {
        self.set::<1>(http_only);
    }

    /// Whether the Partitioned flag is set.
    pub fn partitioned(&self) -> (r: bool)
        ensures
            r == bit_set(self.bits(), 2),
    {
        self.get::<2>()
    }

    /// Sets the Partitioned flag.
    pub fn set_partitioned(&mut self, partitioned: bool)
        ensures
            final(self).bits() == with_bit(old(self).bits(), 2, partitioned),
    {
        self.set::<2>(partitioned);
    }

    /// The stored SameSite value, read from bits 5 to 7.
    pub fn same_site(&self) -> (r: Option<SameSite>)
        ensures
            r == (if bit_set(self.bits(), 5) {
                Some(SameSite::Strict)
            } else if bit_set(self.bits(), 6) {
                Some(SameSite::Lax)
            } else if bit_set(self.bits(), 7) {
                Some(SameSite::NoneValue)
            } else {
                None::<SameSite>
            }),
    {
        if self.get::<5>() {
            Some(SameSite::Strict)
        } else if self.get::<6>() {
            Some(SameSite::Lax)
        } else if self.get::<7>() {
            Some(SameSite::NoneValue)
        } else {
            None
        }
    }

    /// Stores a SameSite value in bits 5 to 7, clearing the other two.
    pub fn set_same_site(&mut self, same_site: Option<SameSite>)
        ensures
            final(self).bits() == (match same_site {
                Some(SameSite::Strict) => with_bit(old(self).bits() & 0x1f, 5, true),
                Some(SameSite::Lax) => with_bit(old(self).bits() & 0x1f, 6, true),
                Some(SameSite::NoneValue) => with_bit(old(self).bits() & 0x1f, 7, true),
                None => old(self).bits() & 0x1f,
            }),
    {
        self.0 = self.0 & 0x1f;
        match same_site {
            Some(SameSite::Strict) => self.set::<5>(true),
            Some(SameSite::Lax) => self.set::<6>(true),
            Some(SameSite::NoneValue) => self.set::<7>(true),
            None => (),
        }
    }
}

} // verus!
