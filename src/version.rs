//! The version that a locator asks for.
use crate::errors::{AmuriError, ErrorView};
use crate::text::{parse_u16, str_is, u16_of};
use vstd::prelude::*;

verus! {

/// A version: a keyword or an explicit number.
#[derive(Debug, PartialEq, Eq, Clone, Copy, Structural)]
pub enum Version {
    Current,
    Latest,
    Next,
    Number(u16),
}

/// The version that the text `t` writes, if any.
pub open spec fn version_of(t: Seq<char>) -> Option<Version> {
    if t == seq!['c', 'u', 'r', 'r', 'e', 'n', 't'] {
        Some(Version::Current)
    } else if t == seq!['l', 'a', 't', 'e', 's', 't'] {
        Some(Version::Latest)
    } else if t == seq!['n', 'e', 'x', 't'] {
        Some(Version::Next)
    } else {
        match u16_of(t) {
            Some(n) => Some(Version::Number(n)),
            None => None,
        }
    }
}

impl Version {
    /// Reads a version: `current`, `latest`, `next` or a decimal number.
    pub fn from_str(input: &str) -> (r: Result<Self, AmuriError>)
        ensures
            match version_of(input@) {
                Some(v) => r == Ok::<Version, AmuriError>(v),
                None => r is Err && r->Err_0@ == ErrorView::StrToInt(input@),
            },
    {
        proof {
            reveal_strlit("current");
            reveal_strlit("latest");
            reveal_strlit("next");
            assert("current"@ =~= seq!['c', 'u', 'r', 'r', 'e', 'n', 't']);
            assert("latest"@ =~= seq!['l', 'a', 't', 'e', 's', 't']);
            assert("next"@ =~= seq!['n', 'e', 'x', 't']);
        }
        if str_is(input, "current") {
            Ok(Version::Current)
        } else if str_is(input, "latest") {
            Ok(Version::Latest)
        } else if str_is(input, "next") {
            Ok(Version::Next)
        } else {
            match parse_u16(input) {
                Some(n) => Ok(Version::Number(n)),
                None => Err(AmuriError::StrToIntError { target: String::from_str(input) }),
            }
        }
    }
}

} // verus!
