//! The level: `show`, `show.seq` or `show.seq.shot`.
//!
//! The three shapes are tried in the order shot, sequence, show, and the first
//! one that is followed by the level's terminator wins.
use crate::parse::utils::{
    char_at, fail, is_char_at, scan_token, span, span_in, span_str, text,
    token_at, FailKind, SegmentError, Span, TokenRule,
};
use crate::level::{Level, LevelView};
use crate::parse::utils::{finish, matched_as};
use crate::text::chars_of;
use vstd::prelude::*;

verus! {

/// Where the parts of a level lie in the input.
#[derive(Debug, PartialEq, Eq, Clone, Copy, Structural)]
pub enum LevelSpans {
    Show(Span),
    Sequence(Span, Span),
    Shot(Span, Span, Span),
}

/// The position just after a level.
pub open spec fn level_end(l: LevelSpans) -> usize {
    match l {
        LevelSpans::Show(a) => a.end,
        LevelSpans::Sequence(_, b) => b.end,
        LevelSpans::Shot(_, _, c) => c.end,
    }
}

/// Every span of the level lies within an input of length `n`.
pub open spec fn level_spans_in(l: LevelSpans, n: int) -> bool {
    match l {
        LevelSpans::Show(a) => span_in(a, n),
        LevelSpans::Sequence(a, b) => span_in(a, n) && span_in(b, n),
        LevelSpans::Shot(a, b, c) => span_in(a, n) && span_in(b, n) && span_in(c, n),
    }
}

/// The level that the spans mark in `s`.
pub open spec fn level_view_of(s: Seq<char>, l: LevelSpans) -> LevelView {
    match l {
        LevelSpans::Show(a) => LevelView::Show(text(s, a)),
        LevelSpans::Sequence(a, b) => LevelView::Sequence(text(s, a), text(s, b)),
        LevelSpans::Shot(a, b, c) => LevelView::Shot(text(s, a), text(s, b), text(s, c)),
    }
}

/// A show at `i`: one resource.
pub open spec fn show_at(s: Seq<char>, i: int) -> Result<LevelSpans, SegmentError> {
    match token_at(s, i, TokenRule::Resource) {
        Err(f) => Err(f),
        Ok(a) => Ok(LevelSpans::Show(span(i, a))),
    }
}

/// A sequence at `i`: two resources joined by `.`.
pub open spec fn seq_at(s: Seq<char>, i: int) -> Result<LevelSpans, SegmentError> {
    match token_at(s, i, TokenRule::Resource) {
        Err(f) => Err(f),
        Ok(a) => if !char_at(s, a as int, '.') {
            Err(fail(FailKind::Tag, a as int))
        } else {
            match token_at(s, a + 1, TokenRule::Resource) {
                Err(f) => Err(f),
                Ok(b) => Ok(LevelSpans::Sequence(span(i, a), span(a + 1, b))),
            }
        },
    }
}

/// A shot at `i`: a resource and two level items, joined by `.`.
pub open spec fn shot_at(s: Seq<char>, i: int) -> Result<LevelSpans, SegmentError> {
    match token_at(s, i, TokenRule::Resource) {
        Err(f) => Err(f),
        Ok(a) => if !char_at(s, a as int, '.') {
            Err(fail(FailKind::Tag, a as int))
        } else {
            match token_at(s, a + 1, TokenRule::LevelItem) {
                Err(f) => Err(f),
                Ok(b) => if !char_at(s, b as int, '.') {
                    Err(fail(FailKind::Tag, b as int))
                } else {
                    match token_at(s, b + 1, TokenRule::LevelItem) {
                        Err(f) => Err(f),
                        Ok(c) => Ok(LevelSpans::Shot(span(i, a), span(a + 1, b), span(b + 1, c))),
                    }
                },
            }
        },
    }
}

/// A level shape followed by its terminator: `/` when `slash`, else the end
/// of the input.
pub open spec fn closed(s: Seq<char>, r: Result<LevelSpans, SegmentError>, slash: bool) -> Result<
    LevelSpans,
    SegmentError,
> {
    match r {
        Err(f) => Err(f),
        Ok(l) => {
            let e = level_end(l) as int;
            if slash {
                if char_at(s, e, '/') {
                    Ok(l)
                } else {
                    Err(fail(FailKind::Tag, e))
                }
            } else {
                if e == s.len() {
                    Ok(l)
                } else {
                    Err(fail(FailKind::Eof, e))
                }
            }
        },
    }
}

/// Of two failures, the one found further into the input; the first on a tie.
pub open spec fn further(a: SegmentError, b: SegmentError) -> SegmentError {
    if b.pos > a.pos {
        b
    } else {
        a
    }
}

/// The level at `i`: shot, then sequence, then show, the first that is
/// followed by the terminator. When none is, the failure found furthest into
/// the input.
pub open spec fn level_at(s: Seq<char>, i: int, slash: bool) -> Result<LevelSpans, SegmentError> {
    let r1 = closed(s, shot_at(s, i), slash);
    let r2 = closed(s, seq_at(s, i), slash);
    let r3 = closed(s, show_at(s, i), slash);
    if r1 is Ok {
        r1
    } else if r2 is Ok {
        r2
    } else if r3 is Ok {
        r3
    } else {
        Err(further(further(r1->Err_0, r2->Err_0), r3->Err_0))
    }
}

/// The level that the whole of `t` writes, if any.
pub open spec fn level_of(t: Seq<char>) -> Option<LevelView> {
    match level_at(t, 0, false) {
        Ok(l) => Some(level_view_of(t, l)),
        Err(_) => None,
    }
}

/// Parses a show at `i`.
pub fn scan_show(s: &Vec<char>, i: usize) -> (r: Result<LevelSpans, SegmentError>)
    requires
        i <= s.len(),
    ensures
        r == show_at(s@, i as int),
        r is Ok ==> level_spans_in(r->Ok_0, s.len() as int) && i < level_end(r->Ok_0),
        r is Err ==> i <= r->Err_0.pos <= s.len(),
{
    let a = scan_token(s, i, TokenRule::Resource)?;
    Ok(LevelSpans::Show(Span { start: i, end: a }))
}

/// Parses a sequence at `i`.
pub fn scan_seq(s: &Vec<char>, i: usize) -> (r: Result<LevelSpans, SegmentError>)
    requires
        i <= s.len(),
    ensures
        r == seq_at(s@, i as int),
        r is Ok ==> level_spans_in(r->Ok_0, s.len() as int) && i < level_end(r->Ok_0),
        r is Err ==> i <= r->Err_0.pos <= s.len(),
{
    let a = scan_token(s, i, TokenRule::Resource)?;
    if !is_char_at(s, a, '.') {
        return Err(SegmentError { kind: FailKind::Tag, pos: a });
    }
    let b = scan_token(s, a + 1, TokenRule::Resource)?;
    Ok(LevelSpans::Sequence(Span { start: i, end: a }, Span { start: a + 1, end: b }))
}

/// Parses a shot at `i`.
pub fn scan_shot(s: &Vec<char>, i: usize) -> (r: Result<LevelSpans, SegmentError>)
    requires
        i <= s.len(),
    ensures
        r == shot_at(s@, i as int),
        r is Ok ==> level_spans_in(r->Ok_0, s.len() as int) && i < level_end(r->Ok_0),
        r is Err ==> i <= r->Err_0.pos <= s.len(),
{
    let a = scan_token(s, i, TokenRule::Resource)?;
    if !is_char_at(s, a, '.') {
        return Err(SegmentError { kind: FailKind::Tag, pos: a });
    }
    let b = scan_token(s, a + 1, TokenRule::LevelItem)?;
    if !is_char_at(s, b, '.') {
        return Err(SegmentError { kind: FailKind::Tag, pos: b });
    }
    let c = scan_token(s, b + 1, TokenRule::LevelItem)?;
    Ok(
        LevelSpans::Shot(
            Span { start: i, end: a },
            Span { start: a + 1, end: b },
            Span { start: b + 1, end: c },
        ),
    )
}

fn close(s: &Vec<char>, r: Result<LevelSpans, SegmentError>, slash: bool) -> (c: Result<
    LevelSpans,
    SegmentError,
>)
    requires
        r is Ok ==> level_spans_in(r->Ok_0, s.len() as int),
    ensures
        c == closed(s@, r, slash),
{
    match r {
        Err(f) => Err(f),
        Ok(l) => {
            let e = match l {
                LevelSpans::Show(a) => a.end,
                LevelSpans::Sequence(_, b) => b.end,
                LevelSpans::Shot(_, _, c) => c.end,
            };
            if slash {
                if is_char_at(s, e, '/') {
                    Ok(l)
                } else {
                    Err(SegmentError { kind: FailKind::Tag, pos: e })
                }
            } else {
                if e == s.len() {
                    Ok(l)
                } else {
                    Err(SegmentError { kind: FailKind::Eof, pos: e })
                }
            }
        },
    }
}

/// Parses the level that starts at `i`, with its terminator.
pub fn scan_level(s: &Vec<char>, i: usize, slash: bool) -> (r: Result<LevelSpans, SegmentError>)
    requires
        i <= s.len(),
    ensures
        r == level_at(s@, i as int, slash),
        r is Ok ==> level_spans_in(r->Ok_0, s.len() as int) && i < level_end(r->Ok_0) && (slash
            ==> level_end(r->Ok_0) < s.len()),
        r is Err ==> i <= r->Err_0.pos <= s.len(),
{
    let r1 = close(s, scan_shot(s, i), slash);
    if r1.is_ok() {
        return r1;
    }
    let r2 = close(s, scan_seq(s, i), slash);
    if r2.is_ok() {
        return r2;
    }
    let r3 = close(s, scan_show(s, i), slash);
    if r3.is_ok() {
        return r3;
    }
    match (r1, r2, r3) {
        (Err(e1), Err(e2), Err(e3)) => {
            let e12 = if e2.pos > e1.pos {
                e2
            } else {
                e1
            };
            Err(
                if e3.pos > e12.pos {
                    e3
                } else {
                    e12
                },
            )
        },
        (_, _, r3) => r3,
    }
}

/// Builds the level that the spans mark in `input`.
pub fn level_from_spans<'a>(input: &'a str, l: LevelSpans) -> (r: Level<'a>)
    requires
        level_spans_in(l, input@.len() as int),
    ensures
        r@ == level_view_of(input@, l),
{
    match l {
        LevelSpans::Show(a) => Level::Show(span_str(input, a)),
        LevelSpans::Sequence(a, b) => Level::Sequence {
            show: span_str(input, a),
            sequence: span_str(input, b),
        },
        LevelSpans::Shot(a, b, c) => Level::Shot {
            show: span_str(input, a),
            sequence: span_str(input, b),
            shot: span_str(input, c),
        },
    }
}

} // verus!

verus! {

/// `r` is what a level parser returns when the scan gave `g`: on success the
/// rest of the input after the level and `after` more characters, then the
/// level.
pub open spec fn level_matched_as(
    r: Result<(&str, Level), SegmentError>,
    s: Seq<char>,
    g: Result<LevelSpans, SegmentError>,
    after: int,
) -> bool {
    match g {
        Ok(l) => r is Ok && r->Ok_0.1@ == level_view_of(s, l) && r->Ok_0.0@ == s.subrange(
            level_end(l) + after,
            s.len() as int,
        ),
        Err(f) => r is Err && r->Err_0 == f,
    }
}

fn level_result<'a>(input: &'a str, n: usize, g: Result<LevelSpans, SegmentError>, after: usize) -> (r:
    Result<(&'a str, Level<'a>), SegmentError>)
    requires
        n == input@.len(),
        g is Ok ==> level_spans_in(g->Ok_0, n as int) && level_end(g->Ok_0) + after <= n,
    ensures
        level_matched_as(r, input@, g, after as int),
{
    match g {
        Ok(l) => {
            let e = match l {
                LevelSpans::Show(a) => a.end,
                LevelSpans::Sequence(_, b) => b.end,
                LevelSpans::Shot(_, _, c) => c.end,
            };
            Ok((input.substring_char(e + after, n), level_from_spans(input, l)))
        },
        Err(f) => Err(f),
    }
}

/// A level item: a letter or a digit, body characters, not ending in `_`.
pub fn parse_level_item(input: &str) -> (r: Result<(&str, &str), SegmentError>)
    ensures
        matched_as(r, input@, 0, token_at(input@, 0, TokenRule::LevelItem), 0),
{
    let s = chars_of(input);
    let g = scan_token(&s, 0, TokenRule::LevelItem);
    finish(input, s.len(), 0, g, 0)
}

/// given a valid show string, return a show and whatever is left over
pub fn parse_show(input: &str) -> (r: Result<(&str, Level), SegmentError>)
    ensures
        level_matched_as(r, input@, show_at(input@, 0), 0),
{
    let s = chars_of(input);
    let g = scan_show(&s, 0);
    level_result(input, s.len(), g, 0)
}

/// given a valid seq str, return a Level::Sequence and whatever is left over
pub fn parse_seq(input: &str) -> (r: Result<(&str, Level), SegmentError>)
    ensures
        level_matched_as(r, input@, seq_at(input@, 0), 0),
{
    let s = chars_of(input);
    let g = scan_seq(&s, 0);
    level_result(input, s.len(), g, 0)
}

/// For those who prefer the full name
pub fn parse_sequence(input: &str) -> (r: Result<(&str, Level), SegmentError>)
    ensures
        level_matched_as(r, input@, seq_at(input@, 0), 0),
{
    parse_seq(input)
}

/// parse a shot returning a Level::Shot instance
pub fn parse_shot(input: &str) -> (r: Result<(&str, Level), SegmentError>)
    ensures
        level_matched_as(r, input@, shot_at(input@, 0), 0),
{
    let s = chars_of(input);
    let g = scan_shot(&s, 0);
    level_result(input, s.len(), g, 0)
}

/// Parse a simplified levelspec string, which may be show, show.seq, or
/// show.seq.shot, followed by `/`.
pub fn parse_level(input: &str) -> (r: Result<(&str, Level), SegmentError>)
    ensures
        level_matched_as(r, input@, level_at(input@, 0, true), 1),
{
    let s = chars_of(input);
    let g = scan_level(&s, 0, true);
    level_result(input, s.len(), g, 1)
}

} // verus!
