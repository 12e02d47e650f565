//! The resource, the segment shape that most of the grammar is made of.
use crate::parse::utils::{finish, matched_as, scan_token, token_at, SegmentError, TokenRule};
use crate::text::chars_of;
use vstd::prelude::*;

verus! {

/// Parse a component of a resource. This must start with a letter
/// contain zero or more valid body chars, and not end in an underscore
pub fn parse_resource(input: &str) -> (r: Result<(&str, &str), SegmentError>)
    ensures
        matched_as(r, input@, 0, token_at(input@, 0, TokenRule::Resource), 0),
{
    let s = chars_of(input);
    let g = scan_token(&s, 0, TokenRule::Resource);
    finish(input, s.len(), 0, g, 0)
}

} // verus!
