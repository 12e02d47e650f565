//! Character classes and the scanners that every segment parser is built
//! from.
use vstd::prelude::*;

verus! {

/// An ASCII letter.
pub open spec fn is_alpha(c: char) -> bool {
    ('a' <= c && c <= 'z') || ('A' <= c && c <= 'Z')
}

/// An ASCII decimal digit.
pub open spec fn is_digit(c: char) -> bool {
    '0' <= c && c <= '9'
}

/// A character that may stand in the body of a segment: a letter, a digit
/// or `_`.
pub open spec fn is_body(c: char) -> bool {
    is_alpha(c) || is_digit(c) || c == '_'
}

/// The byte form of `is_body`.
pub open spec fn is_body_byte(b: u8) -> bool {
    (0x61 <= b && b <= 0x7a) || (0x41 <= b && b <= 0x5a) || (0x30 <= b && b <= 0x39) || b == 0x5f
}

/// Tests if byte is ascii '_'
pub fn is_underscore(chr: u8) -> (r: bool)
    ensures
        r == (chr == 0x5f),
{
    chr == 0x5f
}

/// Tests if byte is a valid ascii character for the body of a segment,
/// that is a letter, a digit or an underscore.
pub fn is_valid_body_char(chr: u8) -> (r: bool)
    ensures
        r == is_body_byte(chr),
{
    (0x61 <= chr && chr <= 0x7a) || (0x41 <= chr && chr <= 0x5a) || (0x30 <= chr && chr <= 0x39)
        || is_underscore(chr)
}

/// Tests if a character is an ASCII letter.
pub fn is_alpha_char(c: char) -> (r: bool)
    ensures
        r == is_alpha(c),
{
    ('a' <= c && c <= 'z') || ('A' <= c && c <= 'Z')
}

/// Tests if a character is an ASCII digit.
pub fn is_digit_char(c: char) -> (r: bool)
    ensures
        r == is_digit(c),
{
    '0' <= c && c <= '9'
}

/// Tests if a character may stand in the body of a segment.
pub fn is_body_char(c: char) -> (r: bool)
    ensures
        r == is_body(c),
{
    is_alpha_char(c) || is_digit_char(c) || c == '_'
}

/// The end of the longest run of body characters in `s` that starts at `i`.
pub open spec fn body_end(s: Seq<char>, i: int) -> int
    decreases s.len() - i,
{
    if 0 <= i < s.len() && is_body(s[i]) {
        body_end(s, i + 1)
    } else {
        i
    }
}

/// The run that `body_end` measures consists of body characters and stops at
/// the end of `s` or at a character that is not one.
pub proof fn lemma_body_end(s: Seq<char>, i: int)
    requires
        0 <= i <= s.len(),
    ensures
        i <= body_end(s, i) <= s.len(),
        forall|k: int| i <= k < body_end(s, i) ==> is_body(#[trigger] s[k]),
        body_end(s, i) == s.len() || !is_body(s[body_end(s, i)]),
    decreases s.len() - i,
{
    if i < s.len() && is_body(s[i]) {
        lemma_body_end(s, i + 1);
    }
}

/// A run of body characters from `i` to `j`, followed by the end of `s` or by
/// another character, is the run that `body_end` measures.
pub proof fn lemma_body_end_at(s: Seq<char>, i: int, j: int)
    requires
        0 <= i <= j <= s.len(),
        forall|k: int| i <= k < j ==> is_body(#[trigger] s[k]),
        j == s.len() || !is_body(s[j]),
    ensures
        body_end(s, i) == j,
    decreases j - i,
{
    if i < j {
        lemma_body_end_at(s, i + 1, j);
    }
}

/// Scans the run of body characters that starts at `i`.
pub fn scan_body(s: &Vec<char>, i: usize) -> (e: usize)
    requires
        i <= s.len(),
    ensures
        e == body_end(s@, i as int),
        i <= e <= s.len(),
{
    let mut j = i;
    while j < s.len() && is_body_char(s[j])
        invariant
            i <= j <= s.len(),
            body_end(s@, j as int) == body_end(s@, i as int),
        decreases s.len() - j,
    {
        j = j + 1;
    }
    j
}

/// How a segment parser failed.
#[derive(Debug, PartialEq, Eq, Clone, Copy, Structural)]
pub enum FailKind {
    /// The first character of a segment is not one that may begin it.
    Start,
    /// The last character of a segment is not one that may end it.
    Tail,
    /// A delimiter or a keyword was expected and is not there.
    Tag,
    /// Input is left over where the locator should end.
    Eof,
}

/// A failure and the position (in characters) where it was found.
#[derive(Debug, PartialEq, Eq, Clone, Copy, Structural)]
pub struct SegmentError {
    pub kind: FailKind,
    pub pos: usize,
}

/// A failure of kind `kind` at position `pos`.
pub open spec fn fail(kind: FailKind, pos: int) -> SegmentError {
    SegmentError { kind, pos: pos as usize }
}

/// The rules that a single segment obeys.
#[derive(Debug, PartialEq, Eq, Clone, Copy, Structural)]
pub enum TokenRule {
    /// Begins with a letter, does not end in `_`.
    Resource,
    /// Begins with a letter or a digit, does not end in `_`.
    LevelItem,
    /// A resource that does not end in a digit.
    AssetName,
    /// Begins with a letter, ends in a digit.
    InstanceName,
}

/// Whether `c` may begin a segment under `rule`.
pub open spec fn first_ok(rule: TokenRule, c: char) -> bool {
    match rule {
        TokenRule::LevelItem => is_alpha(c) || is_digit(c),
        _ => is_alpha(c),
    }
}

/// Whether `c` may end a segment under `rule`.
pub open spec fn last_ok(rule: TokenRule, c: char) -> bool {
    match rule {
        TokenRule::AssetName => c != '_' && !is_digit(c),
        TokenRule::InstanceName => is_digit(c),
        _ => c != '_',
    }
}

/// The segment that starts at `i` under `rule`: the longest run of body
/// characters there, given that its first and last characters are allowed.
/// Its end on success; otherwise where and how it failed.
#[verifier::opaque]
pub open spec fn token_at(s: Seq<char>, i: int, rule: TokenRule) -> Result<usize, SegmentError> {
    if 0 <= i < s.len() && first_ok(rule, s[i]) {
        let e = body_end(s, i);
        if last_ok(rule, s[e - 1]) {
            Ok(e as usize)
        } else {
            Err(fail(FailKind::Tail, e - 1))
        }
    } else {
        Err(fail(FailKind::Start, i))
    }
}

/// A segment that succeeds ends after it starts, within `s`.
pub proof fn lemma_token_bounds(s: Seq<char>, i: int, rule: TokenRule)
    requires
        0 <= i <= s.len(),
        s.len() <= usize::MAX,
    ensures
        token_at(s, i, rule) is Ok ==> i < token_at(s, i, rule)->Ok_0 <= s.len(),
        token_at(s, i, rule) is Err ==> i <= token_at(s, i, rule)->Err_0.pos <= s.len(),
{
    reveal(token_at);
    if i < s.len() {
        lemma_body_end(s, i);
        if first_ok(rule, s[i]) {
            lemma_body_end(s, i + 1);
            assert(body_end(s, i) == body_end(s, i + 1));
        }
    }
}

/// Parses the segment that starts at `i` under `rule`.
pub fn scan_token(s: &Vec<char>, i: usize, rule: TokenRule) -> (r: Result<usize, SegmentError>)
    requires
        i <= s.len(),
    ensures
        r == token_at(s@, i as int, rule),
        r is Ok ==> i < r->Ok_0 <= s.len(),
        r is Err ==> i <= r->Err_0.pos <= s.len(),
{
    proof {
        reveal(token_at);
        lemma_token_bounds(s@, i as int, rule);
    }
    if i >= s.len() {
        return Err(SegmentError { kind: FailKind::Start, pos: i });
    }
    let c = s[i];
    let first = match rule {
        TokenRule::LevelItem => is_alpha_char(c) || is_digit_char(c),
        _ => is_alpha_char(c),
    };
    if !first {
        return Err(SegmentError { kind: FailKind::Start, pos: i });
    }
    let e = scan_body(s, i);
    proof {
        lemma_body_end(s@, i as int);
        assert(body_end(s@, i as int) == body_end(s@, i + 1));
    }
    let l = s[e - 1];
    let last = match rule {
        TokenRule::AssetName => l != '_' && !is_digit_char(l),
        TokenRule::InstanceName => is_digit_char(l),
        _ => l != '_',
    };
    if last {
        Ok(e)
    } else {
        Err(SegmentError { kind: FailKind::Tail, pos: e - 1 })
    }
}

/// True when `s` holds the character `c` at position `i`.
pub open spec fn char_at(s: Seq<char>, i: int, c: char) -> bool {
    0 <= i < s.len() && s[i] == c
}

/// Tests whether `s` holds the character `c` at position `i`.
pub fn is_char_at(s: &Vec<char>, i: usize, c: char) -> (r: bool)
    ensures
        r == char_at(s@, i as int, c),
{
    i < s.len() && s[i] == c
}

} // verus!

verus! {

/// A stretch of the input, from `start` up to but not including `end`.
#[derive(Debug, PartialEq, Eq, Clone, Copy, Structural)]
pub struct Span {
    pub start: usize,
    pub end: usize,
}

/// The span from `start` to `end`.
pub open spec fn span(start: int, end: usize) -> Span {
    Span { start: start as usize, end }
}

/// The text of a span.
pub open spec fn text(s: Seq<char>, sp: Span) -> Seq<char> {
    s.subrange(sp.start as int, sp.end as int)
}

/// The span lies within an input of length `n`.
pub open spec fn span_in(sp: Span, n: int) -> bool {
    sp.start <= sp.end <= n
}

/// The text of a span, as a slice of the input.
pub fn span_str<'a>(input: &'a str, sp: Span) -> (r: &'a str)
    requires
        span_in(sp, input@.len() as int),
    ensures
        r@ == text(input@, sp),
{
    input.substring_char(sp.start, sp.end)
}

} // verus!

verus! {

/// `r` is what a segment parser returns when its segment starts at `start`
/// and the scan gave `g`: on success the rest of the input after the segment
/// and `after` more characters (a delimiter), then the segment itself.
pub open spec fn matched_as(
    r: Result<(&str, &str), SegmentError>,
    s: Seq<char>,
    start: int,
    g: Result<usize, SegmentError>,
    after: int,
) -> bool {
    match g {
        Ok(e) => r is Ok && r->Ok_0.1@ == s.subrange(start, e as int) && r->Ok_0.0@ == s.subrange(
            e + after,
            s.len() as int,
        ),
        Err(f) => r == Err::<(&str, &str), SegmentError>(f),
    }
}

/// The result of a segment parser, from the result `g` of its scan.
pub fn finish<'a>(
    input: &'a str,
    n: usize,
    start: usize,
    g: Result<usize, SegmentError>,
    after: usize,
) -> (r: Result<(&'a str, &'a str), SegmentError>)
    requires
        n == input@.len(),
        g is Ok ==> start <= g->Ok_0 && g->Ok_0 + after <= n,
    ensures
        matched_as(r, input@, start as int, g, after as int),
{
    match g {
        Ok(e) => Ok((input.substring_char(e + after, n), input.substring_char(start, e))),
        Err(f) => Err(f),
    }
}

/// parse one or more chars in a supplied str and return the portion that
/// is alpha numeric or underscore
pub fn valid_body1_parser(input: &str) -> (r: Result<(&str, &str), SegmentError>)
    ensures
        matched_as(
            r,
            input@,
            0,
            if body_end(input@, 0) > 0 {
                Ok(body_end(input@, 0) as usize)
            } else {
                Err(fail(FailKind::Start, 0))
            },
            0,
        ),
{
    let s = crate::text::chars_of(input);
    let e = scan_body(&s, 0);
    let g = if e > 0 {
        Ok(e)
    } else {
        Err(SegmentError { kind: FailKind::Start, pos: 0 })
    };
    finish(input, s.len(), 0, g, 0)
}

/// parse zero or more chars in a supplied str and return the portion that
/// is alpha numeric or underscore
pub fn valid_body0_parser(input: &str) -> (r: Result<(&str, &str), SegmentError>)
    ensures
        matched_as(r, input@, 0, Ok(body_end(input@, 0) as usize), 0),
{
    let s = crate::text::chars_of(input);
    let e = scan_body(&s, 0);
    finish(input, s.len(), 0, Ok(e), 0)
}

} // verus!
