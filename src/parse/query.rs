//! The query: `?key=value` followed by any number of `&key=value`.
use crate::errors::AmuriError;
use crate::parse::utils::{
    char_at, fail, is_char_at, lemma_token_bounds, scan_token, span, span_in, span_str, text,
    token_at, FailKind, SegmentError, Span, TokenRule,
};
use crate::text::{chars_of, str_is};
use crate::version::{version_of, Version};
use vstd::prelude::*;

verus! {

/// One `key=value` pair of a query, borrowing its texts.
#[derive(Debug, PartialEq, Eq)]
pub struct QueryPair<'a> {
    pub key: &'a str,
    pub value: &'a str,
}

impl<'a> QueryPair<'a> {
/// A pair of the given key and value.
    pub fn from(key: &'a str, value: &'a str) -> (r: Self)
        ensures
            r.key@ == key@,
            r.value@ == value@,
    {
        Self { key, value }
    }

    /// The same pair, owning its texts.
    pub fn to_owned(&self) -> (r: OwnedQueryPair)
        ensures
            r.key@ == self.key@,
            r.value@ == self.value@,
    {
        OwnedQueryPair { key: String::from_str(self.key), value: String::from_str(self.value) }
    }
}

/// One `key=value` pair of a query, owning its texts.
#[derive(Debug, PartialEq, Eq)]
pub struct OwnedQueryPair {
    pub key: String,
    pub value: String,
}

impl OwnedQueryPair {
/// The owned form of a borrowed pair.
    pub fn from(input: QueryPair<'_>) -> (r: Self)
        ensures
            r.key@ == input.key@,
            r.value@ == input.value@,
    {
        input.to_owned()
    }
}

/// Where the key and the value of a pair lie in the input.
#[derive(Debug, PartialEq, Eq, Clone, Copy, Structural)]
pub struct PairSpans {
    pub key: Span,
    pub value: Span,
}

/// A pair at `i`: a resource, `=`, and a value that may begin with a digit so
/// that a version can be a number.
pub open spec fn pair_at(s: Seq<char>, i: int) -> Result<PairSpans, SegmentError> {
    match token_at(s, i, TokenRule::Resource) {
        Err(f) => Err(f),
        Ok(k) => if !char_at(s, k as int, '=') {
            Err(fail(FailKind::Tag, k as int))
        } else {
            match token_at(s, k + 1, TokenRule::LevelItem) {
                Err(f) => Err(f),
                Ok(v) => Ok(PairSpans { key: span(i, k), value: span(k + 1, v) }),
            }
        },
    }
}

/// The pairs `&key=value` that follow position `i`, and where they end.
pub open spec fn pairs_from(s: Seq<char>, i: int) -> Result<(Seq<PairSpans>, int), SegmentError>
    decreases s.len() - i,
    when 0 <= i <= s.len() <= usize::MAX
{
    if char_at(s, i, '&') {
        match pair_at(s, i + 1) {
            Err(f) => Err(f),
            Ok(p) => {
                proof {
                    lemma_pair_bounds(s, i + 1);
                }
                match pairs_from(s, p.value.end as int) {
                    Err(f) => Err(f),
                    Ok((rest, e)) => Ok((seq![p] + rest, e)),
                }
            },
        }
    } else {
        Ok((seq![], i))
    }
}

/// The query whose first pair starts at `i` (just after `?`), and where it
/// ends.
pub open spec fn query_at(s: Seq<char>, i: int) -> Result<(Seq<PairSpans>, int), SegmentError> {
    match pair_at(s, i) {
        Err(f) => Err(f),
        Ok(p) => match pairs_from(s, p.value.end as int) {
            Err(f) => Err(f),
            Ok((rest, e)) => Ok((seq![p] + rest, e)),
        },
    }
}

/// Both spans of the pair lie within an input of length `n`.
pub open spec fn pair_in(p: PairSpans, n: int) -> bool {
    span_in(p.key, n) && span_in(p.value, n)
}

/// A pair that succeeds ends after it starts, within `s`; a failure lies within `s`.
pub proof fn lemma_pair_bounds(s: Seq<char>, i: int)
    requires
        0 <= i <= s.len() <= usize::MAX,
    ensures
        pair_at(s, i) is Ok ==> i < pair_at(s, i)->Ok_0.value.end <= s.len() && pair_in(
            pair_at(s, i)->Ok_0,
            s.len() as int,
        ),
        pair_at(s, i) is Err ==> i <= pair_at(s, i)->Err_0.pos <= s.len(),
{
    lemma_token_bounds(s, i, TokenRule::Resource);
    if token_at(s, i, TokenRule::Resource) is Ok {
        let k = token_at(s, i, TokenRule::Resource)->Ok_0;
        if char_at(s, k as int, '=') {
            lemma_token_bounds(s, k + 1, TokenRule::LevelItem);
        }
    }
}

fn scan_pair(s: &Vec<char>, i: usize) -> (r: Result<PairSpans, SegmentError>)
    requires
        i <= s.len(),
    ensures
        r == pair_at(s@, i as int),
        r is Ok ==> i < r->Ok_0.value.end <= s.len() && pair_in(r->Ok_0, s.len() as int),
        r is Err ==> i <= r->Err_0.pos <= s.len(),
{
    proof {
        lemma_pair_bounds(s@, i as int);
    }
    let k = scan_token(s, i, TokenRule::Resource)?;
    if !is_char_at(s, k, '=') {
        return Err(SegmentError { kind: FailKind::Tag, pos: k });
    }
    let v = scan_token(s, k + 1, TokenRule::LevelItem)?;
    Ok(PairSpans { key: Span { start: i, end: k }, value: Span { start: k + 1, end: v } })
}

/// Puts `acc` in front of the pairs of a result.
pub open spec fn prepend(acc: Seq<PairSpans>, r: Result<(Seq<PairSpans>, int), SegmentError>) -> Result<
    (Seq<PairSpans>, int),
    SegmentError,
> {
    match r {
        Err(f) => Err(f),
        Ok((rest, e)) => Ok((acc + rest, e)),
    }
}

/// Parses the query whose first pair starts at `i`.
pub fn scan_query(s: &Vec<char>, i: usize) -> (r: Result<(Vec<PairSpans>, usize), SegmentError>)
    requires
        i <= s.len(),
    ensures
        match query_at(s@, i as int) {
            Ok((ps, e)) => r is Ok && r->Ok_0.0@ == ps && r->Ok_0.1 == e,
            Err(f) => r == Err::<(Vec<PairSpans>, usize), SegmentError>(f),
        },
        r is Ok ==> i < r->Ok_0.1 <= s.len() && forall|k: int|
            0 <= k < r->Ok_0.0@.len() ==> pair_in(#[trigger] r->Ok_0.0@[k], s.len() as int),
        r is Err ==> i <= r->Err_0.pos <= s.len(),
{
    let first = scan_pair(s, i)?;
    let mut acc: Vec<PairSpans> = Vec::new();
    acc.push(first);
    let mut cur = first.value.end;
    assert(acc@ =~= seq![first]);
    while is_char_at(s, cur, '&')
        invariant
            i < cur <= s.len(),
            query_at(s@, i as int) == prepend(acc@, pairs_from(s@, cur as int)),
            forall|k: int| 0 <= k < acc@.len() ==> pair_in(#[trigger] acc@[k], s.len() as int),
        decreases s.len() - cur,
    {
        let p = match scan_pair(s, cur + 1) {
            Ok(p) => p,
            Err(f) => {
                return Err(f);
            },
        };
        let ghost old_acc = acc@;
        acc.push(p);
        proof {
            match pairs_from(s@, p.value.end as int) {
                Ok((rest, e)) => {
                    assert(old_acc + (seq![p] + rest) =~= acc@ + rest);
                },
                Err(_) => {},
            }
        }
        cur = p.value.end;
    }
    Ok((acc, cur))
}

/// What the pairs of a query set: the version of the last `version` pair and
/// whether the last `create` pair says `true`. A `version` value that is not
/// a version fails, with that value; the first such value is the one reported.
pub open spec fn settings(s: Seq<char>, pairs: Seq<PairSpans>) -> Result<
    (Option<Version>, bool),
    Seq<char>,
>
    decreases pairs.len(),
{
    if pairs.len() == 0 {
        Ok((None, false))
    } else {
        match settings(s, pairs.drop_last()) {
            Err(t) => Err(t),
            Ok((v, c)) => {
                let k = text(s, pairs.last().key);
                let x = text(s, pairs.last().value);
                if k == seq!['v', 'e', 'r', 's', 'i', 'o', 'n'] {
                    match version_of(x) {
                        Some(n) => Ok((Some(n), c)),
                        None => Err(x),
                    }
                } else if k == seq!['c', 'r', 'e', 'a', 't', 'e'] {
                    Ok((v, x == seq!['t', 'r', 'u', 'e']))
                } else {
                    Ok((v, c))
                }
            },
        }
    }
}

/// A failure in some prefix of the pairs is the failure of all of them.
proof fn lemma_settings_failure_stays(s: Seq<char>, pairs: Seq<PairSpans>, j: int)
    requires
        0 <= j <= pairs.len(),
        settings(s, pairs.take(j)) is Err,
    ensures
        settings(s, pairs) == settings(s, pairs.take(j)),
    decreases pairs.len() - j,
{
    if j < pairs.len() {
        assert(pairs.take(j + 1).drop_last() =~= pairs.take(j));
        lemma_settings_failure_stays(s, pairs, j + 1);
    } else {
        assert(pairs.take(j) =~= pairs);
    }
}

/// Reads the settings that the pairs of a query carry.
pub fn read_settings(input: &str, pairs: &Vec<PairSpans>) -> (r: Result<
    (Option<Version>, bool),
    AmuriError,
>)
    requires
        forall|k: int| 0 <= k < pairs@.len() ==> pair_in(#[trigger] pairs@[k], input@.len() as int),
    ensures
        match settings(input@, pairs@) {
            Ok(x) => r == Ok::<(Option<Version>, bool), AmuriError>(x),
            Err(t) => r is Err && r->Err_0@ == crate::errors::ErrorView::StrToInt(t),
        },
{
    let mut version: Option<Version> = None;
    let mut create = false;
    let mut i: usize = 0;
    while i < pairs.len()
        invariant
            i <= pairs.len(),
            forall|k: int| 0 <= k < pairs@.len() ==> pair_in(#[trigger] pairs@[k], input@.len() as int),
            settings(input@, pairs@.take(i as int)) == Ok::<(Option<Version>, bool), Seq<char>>((version, create)),
        decreases pairs.len() - i,
    {
        let p = pairs[i];
        proof {
            reveal_strlit("version");
            reveal_strlit("create");
            reveal_strlit("true");
            assert("version"@ =~= seq!['v', 'e', 'r', 's', 'i', 'o', 'n']);
            assert("create"@ =~= seq!['c', 'r', 'e', 'a', 't', 'e']);
            assert("true"@ =~= seq!['t', 'r', 'u', 'e']);
        }
        assert(pairs@.take(i + 1).drop_last() =~= pairs@.take(i as int));
        assert(pairs@.take(i + 1).last() == p);
        let key = span_str(input, p.key);
        let value = span_str(input, p.value);
        if str_is(key, "version") {
            match Version::from_str(value) {
                Ok(v) => {
                    version = Some(v);
                },
                Err(e) => {
                    proof {
                        assert(key@ == seq!['v', 'e', 'r', 's', 'i', 'o', 'n']);
                        assert(text(input@, pairs@.take(i + 1).last().key) == key@);
                        assert(settings(input@, pairs@.take(i + 1)) == Err::<(Option<Version>, bool), Seq<char>>(value@));
                        lemma_settings_failure_stays(input@, pairs@, i + 1);
                    }
                    return Err(e);
                },
            }
        } else if str_is(key, "create") {
            create = str_is(value, "true");
        }
        i = i + 1;
    }
    assert(pairs@.take(i as int) =~= pairs@);
    Ok((version, create))
}

} // verus!

verus! {

/// A pair `&key=value`.
pub open spec fn and_at(s: Seq<char>) -> Result<PairSpans, SegmentError> {
    if char_at(s, 0, '&') {
        pair_at(s, 1)
    } else {
        Err(fail(FailKind::Tag, 0))
    }
}

/// The pair of a query that the spans mark in `s`.
pub open spec fn pair_matches(q: QueryPair, s: Seq<char>, p: PairSpans) -> bool {
    q.key@ == text(s, p.key) && q.value@ == text(s, p.value)
}

fn pair_from_spans<'a>(input: &'a str, p: PairSpans) -> (r: QueryPair<'a>)
    requires
        pair_in(p, input@.len() as int),
    ensures
        pair_matches(r, input@, p),
{
    QueryPair { key: span_str(input, p.key), value: span_str(input, p.value) }
}

/// Parses one pair `&key=value`.
pub fn parse_and<'a>(input: &'a str) -> (r: Result<(&'a str, QueryPair<'a>), SegmentError>)
    ensures
        match and_at(input@) {
            Ok(p) => r is Ok && pair_matches(r->Ok_0.1, input@, p) && r->Ok_0.0@ == input@.subrange(
                p.value.end as int,
                input@.len() as int,
            ),
            Err(f) => r is Err && r->Err_0 == f,
        },
{
    let s = chars_of(input);
    if !is_char_at(&s, 0, '&') {
        return Err(SegmentError { kind: FailKind::Tag, pos: 0 });
    }
    let p = scan_pair(&s, 1)?;
    Ok((input.substring_char(p.value.end, s.len()), pair_from_spans(input, p)))
}

/// Parses a query `?key=value&key=value...`.
pub fn parse_query<'a>(input: &'a str) -> (r: Result<(&'a str, Vec<QueryPair<'a>>), SegmentError>)
    ensures
        match (if char_at(input@, 0, '?') {
            query_at(input@, 1)
        } else {
            Err(fail(FailKind::Tag, 0))
        }) {
            Ok((ps, e)) => r is Ok && r->Ok_0.1@.len() == ps.len() && (forall|k: int|
                0 <= k < ps.len() ==> pair_matches(#[trigger] r->Ok_0.1@[k], input@, ps[k]))
                && r->Ok_0.0@ == input@.subrange(e, input@.len() as int),
            Err(f) => r is Err && r->Err_0 == f,
        },
{
    let s = chars_of(input);
    if !is_char_at(&s, 0, '?') {
        return Err(SegmentError { kind: FailKind::Tag, pos: 0 });
    }
    let (spans, e) = scan_query(&s, 1)?;
    let mut pairs: Vec<QueryPair<'a>> = Vec::new();
    let mut i: usize = 0;
    while i < spans.len()
        invariant
            i <= spans.len(),
            s@ == input@,
            forall|k: int| 0 <= k < spans@.len() ==> pair_in(#[trigger] spans@[k], s.len() as int),
            pairs@.len() == i,
            forall|k: int| 0 <= k < i ==> pair_matches(#[trigger] pairs@[k], input@, spans@[k]),
        decreases spans.len() - i,
    {
        pairs.push(pair_from_spans(input, spans[i]));
        i = i + 1;
    }
    Ok((input.substring_char(e, s.len()), pairs))
}

} // verus!
