//! An HTTP cookie library: parsing, validation, mutation and serialization
//! of `Cookie`/`Set-Cookie` header values, and jars that track per-session
//! cookie changes.
//!
//! Parsing follows the RFC 6265 grammar with real-world leniency, under
//! three strictness tiers (strict, relaxed, unchecked). Every operation
//! carries a contract against a mathematical model of the cookie, and the
//! laws of the library — round-tripping, strictness widening,
//! case-insensitivity of attribute names, the Secure attribute forced on
//! partitioned cookies — are proved in [`props`].

use vstd::prelude::*;

verus! {

pub mod builder;
pub mod chars;
pub mod cookie;
pub mod date;
pub mod digits;
pub mod duration;
pub mod encoding;
pub mod error;
pub mod expires;
pub mod flags;
pub mod httpdate;
pub mod jar;
pub mod max_age;
pub mod options;
pub mod parse;
pub mod props;
pub mod same_site;
pub mod serialize;
pub mod util;

pub use builder::CookieBuilder;
pub use chars::{find_invalid_cookie_value, is_token, trim_quotes};
pub use cookie::{Cookie, opt_str_eq};
pub use date::{ExpVal, MAX_UNIX, MIN_UNIX};
pub use encoding::{decode_name_value, encode_name, encode_value};
pub use error::Error;
pub use expires::Expires;
pub use flags::BitFlags;
pub use jar::{CookieJar, EntryKind};
pub use max_age::parse_max_age;
pub use options::{CookieOptions, Strictness};
pub use parse::SplitMut;
pub use same_site::SameSite;
pub use util::TinyStr;

} // verus!
