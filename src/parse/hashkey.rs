//! The fragment `#key` that ends a locator.
use crate::text::chars_of;
use crate::parse::utils::{
    char_at, fail, finish, is_char_at, matched_as, scan_token, span, span_in, token_at, FailKind, SegmentError, Span,
    TokenRule,
};
use vstd::prelude::*;

verus! {

/// From position `i`: an optional `#key`, then the end of the input.
pub open spec fn fragment_end(s: Seq<char>, i: int) -> Result<Option<Span>, SegmentError> {
    if char_at(s, i, '#') {
        match token_at(s, i + 1, TokenRule::Resource) {
            Err(f) => Err(f),
            Ok(e) => if e == s.len() {
                Ok(Some(span(i + 1, e)))
            } else {
                Err(fail(FailKind::Eof, e as int))
            },
        }
    } else if i == s.len() {
        Ok(None)
    } else {
        Err(fail(FailKind::Eof, i))
    }
}

/// Parses an optional fragment at `i` and checks that the input ends there.
pub fn scan_fragment_end(s: &Vec<char>, i: usize) -> (r: Result<Option<Span>, SegmentError>)
    requires
        i <= s.len(),
    ensures
        r == fragment_end(s@, i as int),
        r matches Ok(Some(k)) ==> span_in(k, s.len() as int),
        r is Err ==> r->Err_0.pos <= s.len(),
{
    if is_char_at(s, i, '#') {
        let e = scan_token(s, i + 1, TokenRule::Resource)?;
        if e == s.len() {
            Ok(Some(Span { start: i + 1, end: e }))
        } else {
            Err(SegmentError { kind: FailKind::Eof, pos: e })
        }
    } else if i == s.len() {
        Ok(None)
    } else {
        Err(SegmentError { kind: FailKind::Eof, pos: i })
    }
}

} // verus!

verus! {

/// The key of a fragment `#key`.
pub open spec fn hashtag_at(s: Seq<char>) -> Result<usize, SegmentError> {
    if char_at(s, 0, '#') {
        token_at(s, 1, TokenRule::Resource)
    } else {
        Err(fail(FailKind::Tag, 0))
    }
}

/// parse hashtag from str, which should generally take the form
/// ```#key```
pub fn parse_hashtag(input: &str) -> (r: Result<(&str, &str), SegmentError>)
    ensures
        matched_as(r, input@, 1, hashtag_at(input@), 0),
{
    let s = chars_of(input);
    let g = if is_char_at(&s, 0, '#') {
        scan_token(&s, 1, TokenRule::Resource)
    } else {
        Err(SegmentError { kind: FailKind::Tag, pos: 0 })
    };
    finish(input, s.len(), 1, g, 0)
}

} // verus!
