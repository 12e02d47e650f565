//! The flat segments: name, department, subcontext and snapshot type.
use crate::text::chars_of;
use crate::parse::utils::{
    char_at, fail, finish, is_char_at, matched_as, span, scan_token, span_in, FailKind, SegmentError,
    Span, TokenRule, token_at,
};
use vstd::prelude::*;

verus! {

/// A segment at `i` under `rule` followed by `/`; the segment's end.
pub open spec fn named_at(s: Seq<char>, i: int, rule: TokenRule) -> Result<usize, SegmentError> {
    match token_at(s, i, rule) {
        Err(f) => Err(f),
        Ok(e) => if char_at(s, e as int, '/') {
            Ok(e)
        } else {
            Err(fail(FailKind::Tag, e as int))
        },
    }
}

/// Parses a segment followed by `/`.
pub fn scan_named(s: &Vec<char>, i: usize, rule: TokenRule) -> (r: Result<usize, SegmentError>)
    requires
        i <= s.len(),
    ensures
        r == named_at(s@, i as int, rule),
        r is Ok ==> i < r->Ok_0 < s.len(),
        r is Err ==> i <= r->Err_0.pos <= s.len(),
{
    let e = scan_token(s, i, rule)?;
    if is_char_at(s, e, '/') {
        Ok(e)
    } else {
        Err(SegmentError { kind: FailKind::Tag, pos: e })
    }
}

/// The name, department and subcontext (each followed by `/`) and the
/// snapshot type, from position `i`.
pub open spec fn segments_at(s: Seq<char>, i: int) -> Result<(Span, Span, Span, Span), SegmentError> {
    match named_at(s, i, TokenRule::Resource) {
        Err(f) => Err(f),
        Ok(a) => match named_at(s, a + 1, TokenRule::Resource) {
            Err(f) => Err(f),
            Ok(b) => match named_at(s, b + 1, TokenRule::Resource) {
                Err(f) => Err(f),
                Ok(c) => match token_at(s, c + 1, TokenRule::Resource) {
                    Err(f) => Err(f),
                    Ok(d) => Ok((span(i, a), span(a + 1, b), span(b + 1, c), span(c + 1, d))),
                },
            },
        },
    }
}

/// Parses the four flat segments from position `i`.
pub fn scan_segments(s: &Vec<char>, i: usize) -> (r: Result<(Span, Span, Span, Span), SegmentError>)
    requires
        i <= s.len(),
    ensures
        r == segments_at(s@, i as int),
        r is Ok ==> span_in(r->Ok_0.0, s.len() as int) && span_in(r->Ok_0.1, s.len() as int)
            && span_in(r->Ok_0.2, s.len() as int) && span_in(r->Ok_0.3, s.len() as int),
        r is Err ==> i <= r->Err_0.pos <= s.len(),
{
    let a = scan_named(s, i, TokenRule::Resource)?;
    let b = scan_named(s, a + 1, TokenRule::Resource)?;
    let c = scan_named(s, b + 1, TokenRule::Resource)?;
    let d = scan_token(s, c + 1, TokenRule::Resource)?;
    Ok(
        (
            Span { start: i, end: a },
            Span { start: a + 1, end: b },
            Span { start: b + 1, end: c },
            Span { start: c + 1, end: d },
        ),
    )
}

} // verus!

verus! {

fn parse_named(input: &str, rule: TokenRule) -> (r: Result<(&str, &str), SegmentError>)
    ensures
        matched_as(r, input@, 0, named_at(input@, 0, rule), 1),
{
    let s = chars_of(input);
    let g = scan_named(&s, 0, rule);
    finish(input, s.len(), 0, g, 1)
}

/// An asset name (a resource that does not end in a digit) and its `/`.
pub fn parse_asset_name(input: &str) -> (r: Result<(&str, &str), SegmentError>)
    ensures
        matched_as(r, input@, 0, named_at(input@, 0, TokenRule::AssetName), 1),
{
    parse_named(input, TokenRule::AssetName)
}

/// An instance name (a letter, then body characters, ending in a digit) and
/// its `/`.
pub fn parse_instance_name(input: &str) -> (r: Result<(&str, &str), SegmentError>)
    ensures
        matched_as(r, input@, 0, named_at(input@, 0, TokenRule::InstanceName), 1),
{
    parse_named(input, TokenRule::InstanceName)
}

/// A less retrictive parser that doesnt care whether the last character is a
/// number or a letter.
pub fn parse_name(input: &str) -> (r: Result<(&str, &str), SegmentError>)
    ensures
        matched_as(r, input@, 0, named_at(input@, 0, TokenRule::Resource), 1),
{
    parse_named(input, TokenRule::Resource)
}

/// Retrieve the department name given an input str
pub fn parse_department(input: &str) -> (r: Result<(&str, &str), SegmentError>)
    ensures
        matched_as(r, input@, 0, named_at(input@, 0, TokenRule::Resource), 1),
{
    parse_named(input, TokenRule::Resource)
}

/// Retrieve the subcontext name given an input str
pub fn parse_subcontext(input: &str) -> (r: Result<(&str, &str), SegmentError>)
    ensures
        matched_as(r, input@, 0, named_at(input@, 0, TokenRule::Resource), 1),
{
    parse_named(input, TokenRule::Resource)
}

/// Retrieve the snapshot type given an input str; no `/` follows it.
pub fn parse_snapshot_type(input: &str) -> (r: Result<(&str, &str), SegmentError>)
    ensures
        matched_as(r, input@, 0, token_at(input@, 0, TokenRule::Resource), 0),
{
    let s = chars_of(input);
    let g = scan_token(&s, 0, TokenRule::Resource);
    finish(input, s.len(), 0, g, 0)
}

} // verus!
