//! The canonical text of a model, and what parsing it gives back.
use crate::assetmodel::AssetModelView;
use crate::errors::ErrorView;
use crate::level::{level_text, LevelView};
use crate::parse::container_name::{named_at, segments_at};
use crate::parse::hashkey::fragment_end;
use crate::parse::level::{level_at, level_end, level_view_of, seq_at, shot_at, show_at, LevelSpans};
use crate::parse::query::{pair_at, pairs_from, query_at, settings, PairSpans};
use crate::parse::scheme::{scheme_at, scheme_prefix};
use crate::parse::uri::{query_settings, tail_at, uri_cuts, uri_result, UriCuts};
use crate::parse::utils::{
    char_at, first_ok, span, SegmentError, Span, is_alpha, is_body, is_digit, last_ok, lemma_body_end_at, text,
    token_at, TokenRule,
};
use crate::scheme::{scheme_token, Scheme};
use crate::text::{decimal_text, decimal_value, digit_char, digit_value, has_lit, is_decimal};
use crate::version::{version_of, Version};
use vstd::prelude::*;

verus! {

/// `t` is a whole segment under `rule`.
#[verifier::opaque]
pub open spec fn is_token(rule: TokenRule, t: Seq<char>) -> bool {
    &&& t.len() > 0
    &&& first_ok(rule, t[0])
    &&& forall|k: int| 0 <= k < t.len() ==> is_body(#[trigger] t[k])
    &&& last_ok(rule, t.last())
}

/// A resource: a letter, body characters, not ending in `_`.
pub open spec fn is_resource(t: Seq<char>) -> bool {
    is_token(TokenRule::Resource, t)
}

/// A level whose parts obey the grammar.
pub open spec fn valid_level(l: LevelView) -> bool {
    match l {
        LevelView::Show(a) => is_resource(a),
        LevelView::Sequence(a, b) => is_resource(a) && is_resource(b),
        LevelView::Shot(a, b, c) => is_resource(a) && is_token(TokenRule::LevelItem, b) && is_token(
            TokenRule::LevelItem,
            c,
        ),
    }
}

/// The text that writes a version in a query.
pub open spec fn version_text(v: Version) -> Seq<char> {
    match v {
        Version::Current => seq!['c', 'u', 'r', 'r', 'e', 'n', 't'],
        Version::Latest => seq!['l', 'a', 't', 'e', 's', 't'],
        Version::Next => seq!['n', 'e', 'x', 't'],
        Version::Number(n) => decimal_text(n as nat),
    }
}

/// The query part of the canonical text: `?version=...` or nothing.
pub open spec fn query_text(version: Option<Version>) -> Seq<char> {
    match version {
        Some(v) => seq!['?', 'v', 'e', 'r', 's', 'i', 'o', 'n', '='] + version_text(v),
        None => seq![],
    }
}

/// The fragment part of the canonical text: `#key` or nothing.
pub open spec fn key_text(key: Option<Seq<char>>) -> Seq<char> {
    match key {
        Some(k) => seq!['#'] + k,
        None => seq![],
    }
}

/// The canonical text of a locator.
#[verifier::opaque]
pub open spec fn uri_text(
    scheme: Scheme,
    level: LevelView,
    name: Seq<char>,
    department: Seq<char>,
    subcontext: Seq<char>,
    snapshot_type: Seq<char>,
    version: Option<Version>,
    key: Option<Seq<char>>,
) -> Seq<char> {
    scheme_token(scheme) + seq![':', '/', '/'] + level_text(level) + seq!['/'] + name + seq!['/']
        + department + seq!['/'] + subcontext + seq!['/'] + snapshot_type + query_text(version)
        + key_text(key)
}

/// A segment written at position `h.len()` of `s`, and followed by the end or
/// by a character that cannot continue it, is found there.
proof fn lemma_part(s: Seq<char>, h: Seq<char>, t: Seq<char>, rest: Seq<char>, rule: TokenRule)
    requires
        s == h + t + rest,
        is_token(rule, t),
        rest.len() == 0 || !is_body(rest[0]),
        s.len() <= usize::MAX,
    ensures
        token_at(s, h.len() as int, rule) == Ok::<usize, SegmentError>(
            (h.len() + t.len()) as usize,
        ),
        text(s, span(h.len() as int, (h.len() + t.len()) as usize)) == t,
        rest.len() > 0 ==> s[h.len() + t.len() as int] == rest[0],
{
    reveal(token_at);
    reveal(is_token);
    let i = h.len() as int;
    let j = i + t.len();
    assert forall|k: int| i <= k < j implies is_body(#[trigger] s[k]) by {
        assert(s[k] == t[k - i]);
    }
    if rest.len() > 0 {
        assert(s[j] == rest[0]);
    }
    lemma_body_end_at(s, i, j);
    assert(s[i] == t[0]);
    assert(s[j - 1] == t.last());
    assert(s.subrange(i, j) =~= t);
}

proof fn lemma_show_part(s: Seq<char>, h: Seq<char>, a: Seq<char>, rest: Seq<char>)
    requires
        s == h + a + rest,
        is_resource(a),
        rest.len() > 0 && rest[0] == '/',
        s.len() <= usize::MAX,
    ensures
        shot_at(s, h.len() as int) is Err,
        seq_at(s, h.len() as int) is Err,
        show_at(s, h.len() as int) == Ok::<LevelSpans, SegmentError>(
            LevelSpans::Show(span(h.len() as int, (h.len() + a.len()) as usize)),
        ),
        text(s, span(h.len() as int, (h.len() + a.len()) as usize)) == a,
{
    lemma_part(s, h, a, rest, TokenRule::Resource);
}

proof fn lemma_seq_part(s: Seq<char>, h: Seq<char>, a: Seq<char>, b: Seq<char>, rest: Seq<char>)
    requires
        s == h + (a + seq!['.'] + b) + rest,
        is_resource(a),
        is_resource(b),
        rest.len() > 0 && rest[0] == '/',
        s.len() <= usize::MAX,
    ensures
        shot_at(s, h.len() as int) is Err,
        seq_at(s, h.len() as int) == Ok::<LevelSpans, SegmentError>(
            LevelSpans::Sequence(
                span(h.len() as int, (h.len() + a.len()) as usize),
                span((h.len() + a.len() + 1) as int, (h.len() + a.len() + 1 + b.len()) as usize),
            ),
        ),
        text(s, span(h.len() as int, (h.len() + a.len()) as usize)) == a,
        text(s, span((h.len() + a.len() + 1) as int, (h.len() + a.len() + 1 + b.len()) as usize)) == b,
{
    let r1 = seq!['.'] + b + rest;
    assert(s =~= h + a + r1);
    lemma_part(s, h, a, r1, TokenRule::Resource);
    let h2 = h + a + seq!['.'];
    assert(s =~= h2 + b + rest);
    lemma_part(s, h2, b, rest, TokenRule::Resource);
    lemma_resource_is_item(b);
    lemma_part(s, h2, b, rest, TokenRule::LevelItem);
}

proof fn lemma_resource_is_item(t: Seq<char>)
    requires
        is_resource(t),
    ensures
        is_token(TokenRule::LevelItem, t),
{
    reveal(is_token);
}

#[verifier::rlimit(100)]
proof fn lemma_shot_part(
    s: Seq<char>,
    h: Seq<char>,
    a: Seq<char>,
    b: Seq<char>,
    c: Seq<char>,
    rest: Seq<char>,
)
    requires
        s == h + (a + seq!['.'] + b + seq!['.'] + c) + rest,
        is_resource(a),
        is_token(TokenRule::LevelItem, b),
        is_token(TokenRule::LevelItem, c),
        rest.len() > 0 && rest[0] == '/',
        s.len() <= usize::MAX,
    ensures
        shot_at(s, h.len() as int) == Ok::<LevelSpans, SegmentError>(
            LevelSpans::Shot(
                span(h.len() as int, (h.len() + a.len()) as usize),
                span((h.len() + a.len() + 1) as int, (h.len() + a.len() + 1 + b.len()) as usize),
                span(
                    (h.len() + a.len() + 1 + b.len() + 1) as int,
                    (h.len() + a.len() + 1 + b.len() + 1 + c.len()) as usize,
                ),
            ),
        ),
        text(s, span(h.len() as int, (h.len() + a.len()) as usize)) == a,
        text(s, span((h.len() + a.len() + 1) as int, (h.len() + a.len() + 1 + b.len()) as usize)) == b,
        text(
            s,
            span(
                (h.len() + a.len() + 1 + b.len() + 1) as int,
                (h.len() + a.len() + 1 + b.len() + 1 + c.len()) as usize,
            ),
        ) == c,
{
    let r1 = seq!['.'] + b + seq!['.'] + c + rest;
    assert(s =~= h + a + r1);
    lemma_part(s, h, a, r1, TokenRule::Resource);
    let h2 = h + a + seq!['.'];
    let r2 = seq!['.'] + c + rest;
    assert(s =~= h2 + b + r2);
    lemma_part(s, h2, b, r2, TokenRule::LevelItem);
    let h3 = h2 + b + seq!['.'];
    assert(s =~= h3 + c + rest);
    lemma_part(s, h3, c, rest, TokenRule::LevelItem);
}

/// A valid level written at `h.len()` and followed by `/` is parsed back.
#[verifier::rlimit(100)]
proof fn lemma_level_part(s: Seq<char>, h: Seq<char>, l: LevelView, rest: Seq<char>)
    requires
        s == h + level_text(l) + rest,
        valid_level(l),
        rest.len() > 0 && rest[0] == '/',
        s.len() <= usize::MAX,
    ensures
        level_at(s, h.len() as int, true) is Ok,
        level_view_of(s, level_at(s, h.len() as int, true)->Ok_0) == l,
        level_end(level_at(s, h.len() as int, true)->Ok_0) == h.len() + level_text(l).len(),
{
    let i = h.len() as int;
    let e = (h.len() + level_text(l).len()) as int;
    assert(s[e] == '/') by {
        assert(s[e] == rest[0]);
    }
    match l {
        LevelView::Show(a) => {
            lemma_show_part(s, h, a, rest);
        },
        LevelView::Sequence(a, b) => {
            lemma_seq_part(s, h, a, b, rest);
        },
        LevelView::Shot(a, b, c) => {
            lemma_shot_part(s, h, a, b, c, rest);
        },
    }
}

#[verifier::rlimit(100)]
proof fn lemma_segments_part(
    s: Seq<char>,
    h: Seq<char>,
    n: Seq<char>,
    d: Seq<char>,
    c: Seq<char>,
    t: Seq<char>,
    rest: Seq<char>,
)
    requires
        s == h + (n + seq!['/'] + d + seq!['/'] + c + seq!['/'] + t) + rest,
        is_resource(n),
        is_resource(d),
        is_resource(c),
        is_resource(t),
        rest.len() == 0 || !is_body(rest[0]),
        s.len() <= usize::MAX,
    ensures
        segments_at(s, h.len() as int) is Ok,
        text(s, segments_at(s, h.len() as int)->Ok_0.0) == n,
        text(s, segments_at(s, h.len() as int)->Ok_0.1) == d,
        text(s, segments_at(s, h.len() as int)->Ok_0.2) == c,
        text(s, segments_at(s, h.len() as int)->Ok_0.3) == t,
        segments_at(s, h.len() as int)->Ok_0.3.end == s.len() - rest.len(),
{
    let r1 = seq!['/'] + d + seq!['/'] + c + seq!['/'] + t + rest;
    assert(s =~= h + n + r1);
    lemma_part(s, h, n, r1, TokenRule::Resource);
    let h2 = h + n + seq!['/'];
    let r2 = seq!['/'] + c + seq!['/'] + t + rest;
    assert(s =~= h2 + d + r2);
    lemma_part(s, h2, d, r2, TokenRule::Resource);
    let h3 = h2 + d + seq!['/'];
    let r3 = seq!['/'] + t + rest;
    assert(s =~= h3 + c + r3);
    lemma_part(s, h3, c, r3, TokenRule::Resource);
    let h4 = h3 + c + seq!['/'];
    assert(s =~= h4 + t + rest);
    lemma_part(s, h4, t, rest, TokenRule::Resource);
}

/// The decimal writing of a number is a run of digits with that value.
pub proof fn lemma_decimal_text(n: nat)
    ensures
        is_decimal(decimal_text(n)),
        decimal_value(decimal_text(n)) == n,
    decreases n,
{
    let d = (n % 10) as nat;
    let t = decimal_text(n);
    assert(is_digit(digit_char(d)) && digit_value(digit_char(d)) == d);
    assert((n / 10) * 10 + n % 10 == n) by (nonlinear_arith);
    if n < 10 {
        assert(d == n);
        assert(t.drop_last() =~= seq![]);
        assert(decimal_value(t) == decimal_value(t.drop_last()) * 10 + digit_value(t.last()));
    } else {
        lemma_decimal_text(n / 10);
        assert(t.drop_last() =~= decimal_text(n / 10));
        assert(t.last() == digit_char(d));
        assert(decimal_value(t) == decimal_value(t.drop_last()) * 10 + digit_value(t.last()));
        assert forall|k: int| 0 <= k < t.len() implies is_digit(#[trigger] t[k]) by {
            if k < t.len() - 1 {
                assert(t[k] == decimal_text(n / 10)[k]);
            }
        }
    }
}

/// The text of a version is a level item that reads back as that version.
proof fn lemma_version_text(v: Version)
    ensures
        is_token(TokenRule::LevelItem, version_text(v)),
        version_of(version_text(v)) == Some(v),
{
    reveal(is_token);
    match v {
        Version::Number(n) => {
            lemma_decimal_text(n as nat);
            let t = decimal_text(n as nat);
            assert(is_digit(t[0]));
            assert(t != seq!['c', 'u', 'r', 'r', 'e', 'n', 't']);
            assert(t != seq!['l', 'a', 't', 'e', 's', 't']);
            assert(t != seq!['n', 'e', 'x', 't']);
            assert(is_digit(t.last()));
        },
        _ => {
            assert(version_text(v)[0] != '_');
        },
    }
}

proof fn lemma_fragment_part(s: Seq<char>, h: Seq<char>, key: Option<Seq<char>>)
    requires
        s == h + key_text(key),
        key is Some ==> is_resource(key->Some_0),
        s.len() <= usize::MAX,
    ensures
        fragment_end(s, h.len() as int) is Ok,
        match key {
            Some(k) => fragment_end(s, h.len() as int)->Ok_0 is Some && text(
                s,
                fragment_end(s, h.len() as int)->Ok_0->Some_0,
            ) == k,
            None => fragment_end(s, h.len() as int)->Ok_0 is None,
        },
{
    match key {
        Some(k) => {
            let h2 = h + seq!['#'];
            assert(s =~= h2 + k + seq![]);
            lemma_part(s, h2, k, seq![], TokenRule::Resource);
            assert(s[h.len() as int] == '#');
        },
        None => {
            assert(s =~= h);
        },
    }
}

proof fn lemma_tail_plain(s: Seq<char>, h: Seq<char>, key: Option<Seq<char>>)
    requires
        s == h + key_text(key),
        key is Some ==> is_resource(key->Some_0),
        s.len() <= usize::MAX,
    ensures
        tail_at(s, h.len() as int) is Ok,
        tail_at(s, h.len() as int)->Ok_0.0 is None,
        tail_at(s, h.len() as int)->Ok_0.1 == fragment_end(s, h.len() as int)->Ok_0,
{
    lemma_fragment_part(s, h, key);
    if key is Some {
        assert(s[h.len() as int] == '#');
    } else {
        assert(s =~= h);
    }
    assert(!char_at(s, h.len() as int, '?'));
}

#[verifier::rlimit(100)]
proof fn lemma_tail_query(s: Seq<char>, h: Seq<char>, v: Version, key: Option<Seq<char>>)
    requires
        s == h + query_text(Some(v)) + key_text(key),
        key is Some ==> is_resource(key->Some_0),
        s.len() <= usize::MAX,
    ensures
        tail_at(s, h.len() as int) is Ok,
        tail_at(s, h.len() as int)->Ok_0.0 is Some,
        settings(s, tail_at(s, h.len() as int)->Ok_0.0->Some_0) == Ok::<(Option<Version>, bool), Seq<char>>((Some(v), false)),
        tail_at(s, h.len() as int)->Ok_0.1 == fragment_end(s, (s.len() - key_text(key).len()) as int)->Ok_0,
        fragment_end(s, (s.len() - key_text(key).len()) as int) is Ok,
{
    reveal(is_token);
    let kt = key_text(key);
    let vt = version_text(v);
    let word = seq!['v', 'e', 'r', 's', 'i', 'o', 'n'];
    lemma_version_text(v);
    let h1 = h + seq!['?'];
    let r1 = seq!['='] + vt + kt;
    assert(s =~= h1 + word + r1);
    lemma_part(s, h1, word, r1, TokenRule::Resource);
    let h2 = h1 + word + seq!['='];
    assert(s =~= h2 + vt + kt);
    assert(kt.len() == 0 || kt[0] == '#');
    lemma_part(s, h2, vt, kt, TokenRule::LevelItem);
    let e = h2.len() + vt.len();
    let p = PairSpans {
        key: span(h1.len() as int, (h1.len() + word.len()) as usize),
        value: span(h2.len() as int, e as usize),
    };
    assert(s[h.len() as int] == '?');
    assert(pair_at(s, h1.len() as int) == Ok::<PairSpans, SegmentError>(p));
    let hk = h2 + vt;
    assert(s =~= hk + kt);
    lemma_fragment_part(s, hk, key);
    assert(!char_at(s, e as int, '&'));
    assert(pairs_from(s, e as int) == Ok::<(Seq<PairSpans>, int), SegmentError>((seq![], e as int)));
    assert(seq![p] + seq![] =~= seq![p]);
    assert(seq![p].drop_last() =~= seq![]);
    assert(query_at(s, h1.len() as int) == Ok::<(Seq<PairSpans>, int), SegmentError>((seq![p], e as int)));
    assert(settings(s, seq![]) == Ok::<(Option<Version>, bool), Seq<char>>((None, false)));
    assert(seq![p].last() == p);
    assert(text(s, p.key) == word);
    assert(text(s, p.value) == vt);
    assert(settings(s, seq![p]) == Ok::<(Option<Version>, bool), Seq<char>>((Some(v), false)));
}

#[verifier::rlimit(100)]
proof fn lemma_tail_part(s: Seq<char>, h: Seq<char>, version: Option<Version>, key: Option<Seq<char>>)
    requires
        s == h + query_text(version) + key_text(key),
        key is Some ==> is_resource(key->Some_0),
        s.len() <= usize::MAX,
    ensures
        tail_at(s, h.len() as int) is Ok,
        query_settings(s, tail_at(s, h.len() as int)->Ok_0.0) == Ok::<(Option<Version>, bool), Seq<char>>((version, false)),
        match key {
            Some(k) => tail_at(s, h.len() as int)->Ok_0.1 is Some && text(
                s,
                tail_at(s, h.len() as int)->Ok_0.1->Some_0,
            ) == k,
            None => tail_at(s, h.len() as int)->Ok_0.1 is None,
        },
{
    let kt = key_text(key);
    match version {
        None => {
            assert(s =~= h + kt);
            lemma_tail_plain(s, h, key);
            lemma_fragment_part(s, h, key);
        },
        Some(v) => {
            lemma_tail_query(s, h, v, key);
            let hk = s.subrange(0, s.len() - kt.len());
            assert(s =~= hk + kt);
            lemma_fragment_part(s, hk, key);
        },
    }
}

proof fn lemma_not_lit(s: Seq<char>, t: Seq<char>)
    requires
        t.len() > 0,
        s.len() > 0,
        s[0] != t[0],
    ensures
        !has_lit(s, 0, t),
{
    if has_lit(s, 0, t) {
        assert(s.subrange(0, t.len() as int)[0] == s[0]);
    }
}

proof fn lemma_scheme_part(s: Seq<char>, sc: Scheme, rest: Seq<char>)
    requires
        s == scheme_token(sc) + seq![':', '/', '/'] + rest,
    ensures
        scheme_at(s) == Ok::<(Scheme, int), SegmentError>((sc, scheme_token(sc).len() + 3 as int)),
{
    let tok = scheme_token(sc);
    assert(s[0] == tok[0]);
    assert(s.subrange(0, tok.len() as int) =~= tok);
    assert(s.subrange(tok.len() as int, tok.len() + 3 as int) =~= seq![':', '/', '/']);
    if sc != Scheme::Asset {
        lemma_not_lit(s, scheme_token(Scheme::Asset));
    }
    if sc != Scheme::Instance {
        lemma_not_lit(s, scheme_token(Scheme::Instance));
    }
    if sc != Scheme::Render {
        lemma_not_lit(s, scheme_token(Scheme::Render));
    }
    assert(scheme_prefix(s) == Some(sc));
}

proof fn lemma_cuts(
    s: Seq<char>,
    scheme: Scheme,
    e0: int,
    lv: LevelSpans,
    segs: (Span, Span, Span, Span),
    tl: (Option<Seq<PairSpans>>, Option<Span>),
)
    requires
        scheme_at(s) == Ok::<(Scheme, int), SegmentError>((scheme, e0)),
        level_at(s, e0, true) == Ok::<LevelSpans, SegmentError>(lv),
        segments_at(s, level_end(lv) + 1) == Ok::<(Span, Span, Span, Span), SegmentError>(segs),
        tail_at(s, segs.3.end as int) == Ok::<(Option<Seq<PairSpans>>, Option<Span>), SegmentError>(tl),
    ensures
        uri_cuts(s) == Ok::<UriCuts, SegmentError>(
            UriCuts {
                scheme,
                level: lv,
                name: segs.0,
                department: segs.1,
                subcontext: segs.2,
                snapshot_type: segs.3,
                query: tl.0,
                key: tl.1,
            },
        ),
{
}

proof fn lemma_result_of_cuts(s: Seq<char>, c: UriCuts, v: Option<Version>, cr: bool)
    requires
        uri_cuts(s) == Ok::<UriCuts, SegmentError>(c),
        query_settings(s, c.query) == Ok::<(Option<Version>, bool), Seq<char>>((v, cr)),
    ensures
        uri_result(s) == Ok::<AssetModelView, ErrorView>(
            AssetModelView {
                container_type: c.scheme,
                level: level_view_of(s, c.level),
                name: text(s, c.name),
                department: text(s, c.department),
                subcontext: text(s, c.subcontext),
                snapshot_type: text(s, c.snapshot_type),
                version: v,
                key: match c.key {
                    Some(k) => Some(text(s, k)),
                    None => None,
                },
                create_missing: cr,
            },
        ),
{
}

/// Round trip: the canonical text of any valid model parses back to exactly
/// that model (with the `create` flag unset, as the text carries none).
#[verifier::rlimit(100)]
#[verifier::spinoff_prover]
pub proof fn lemma_round_trip(
    scheme: Scheme,
    level: LevelView,
    name: Seq<char>,
    department: Seq<char>,
    subcontext: Seq<char>,
    snapshot_type: Seq<char>,
    version: Option<Version>,
    key: Option<Seq<char>>,
)
    requires
        valid_level(level),
        is_resource(name),
        is_resource(department),
        is_resource(subcontext),
        is_resource(snapshot_type),
        key is Some ==> is_resource(key->Some_0),
        uri_text(scheme, level, name, department, subcontext, snapshot_type, version, key).len()
            <= usize::MAX,
    ensures
        uri_result(uri_text(scheme, level, name, department, subcontext, snapshot_type, version, key))
            == Ok::<AssetModelView, ErrorView>(
            AssetModelView {
                container_type: scheme,
                level,
                name,
                department,
                subcontext,
                snapshot_type,
                version,
                key,
                create_missing: false,
            },
        ),
{
    let s = uri_text(scheme, level, name, department, subcontext, snapshot_type, version, key);
    let tok = scheme_token(scheme);
    let slashes = seq![':', '/', '/'];
    let lt = level_text(level);
    let mid = name + seq!['/'] + department + seq!['/'] + subcontext + seq!['/'] + snapshot_type;
    let tail = query_text(version) + key_text(key);
    let h0 = tok + slashes;
    let r0 = seq!['/'] + mid + tail;
    let h1 = h0 + lt + seq!['/'];
    let h5 = h1 + mid;
    assert(s =~= h0 + lt + r0) by {
        reveal(uri_text);
    }
    assert(scheme_at(s) == Ok::<(Scheme, int), SegmentError>((scheme, h0.len() as int))) by {
        assert(s =~= tok + slashes + (lt + r0));
        lemma_scheme_part(s, scheme, lt + r0);
    }
    let lv = level_at(s, h0.len() as int, true)->Ok_0;
    assert(level_at(s, h0.len() as int, true) == Ok::<LevelSpans, SegmentError>(lv)
        && level_view_of(s, lv) == level && level_end(lv) + 1 == h1.len()) by {
        lemma_level_part(s, h0, level, r0);
    }
    let segs = segments_at(s, h1.len() as int)->Ok_0;
    assert(segments_at(s, h1.len() as int) == Ok::<(Span, Span, Span, Span), SegmentError>(segs)
        && text(s, segs.0) == name && text(s, segs.1) == department && text(s, segs.2) == subcontext
        && text(s, segs.3) == snapshot_type && segs.3.end == h5.len()) by {
        assert(s =~= h1 + mid + tail);
        assert(tail.len() == 0 || tail[0] == '?' || tail[0] == '#');
        lemma_segments_part(s, h1, name, department, subcontext, snapshot_type, tail);
    }
    let tl = tail_at(s, h5.len() as int)->Ok_0;
    assert(tail_at(s, h5.len() as int) == Ok::<(Option<Seq<PairSpans>>, Option<Span>), SegmentError>(tl)
        && query_settings(s, tl.0) == Ok::<(Option<Version>, bool), Seq<char>>((version, false))
        && match key {
            Some(k) => tl.1 is Some && text(s, tl.1->Some_0) == k,
            None => tl.1 is None,
        }) by {
        assert(s =~= h5 + query_text(version) + key_text(key));
        lemma_tail_part(s, h5, version, key);
    }
    lemma_cuts(s, scheme, h0.len() as int, lv, segs, tl);
    lemma_result_of_cuts(s, uri_cuts(s)->Ok_0, version, false);
}

/// The flat segments `prev`, each followed by `/`.
pub open spec fn slashed(prev: Seq<Seq<char>>) -> Seq<char>
    decreases prev.len(),
{
    if prev.len() == 0 {
        seq![]
    } else {
        slashed(prev.drop_last()) + prev.last() + seq!['/']
    }
}

/// The text of a locator up to its flat segment number `prev.len()`: the
/// scheme, the level and the flat segments `prev`, each with its `/`.
pub open spec fn head_text(scheme: Scheme, level: LevelView, prev: Seq<Seq<char>>) -> Seq<char> {
    scheme_token(scheme) + seq![':', '/', '/'] + level_text(level) + seq!['/'] + slashed(prev)
}

proof fn lemma_slashed_unroll(prev: Seq<Seq<char>>)
    requires
        1 <= prev.len() <= 3,
    ensures
        slashed(prev) == prev[0] + seq!['/'] + slashed(prev.drop_first()),
{
    reveal_with_fuel(slashed, 4);
    if prev.len() == 1 {
        assert(prev.drop_last() =~= seq![]);
        assert(prev.drop_first() =~= seq![]);
        assert(slashed(prev) =~= prev[0] + seq!['/'] + slashed(prev.drop_first()));
    } else if prev.len() == 2 {
        assert(prev.drop_last().drop_last() =~= seq![]);
        assert(prev.drop_first().drop_last() =~= seq![]);
        assert(slashed(prev) =~= prev[0] + seq!['/'] + slashed(prev.drop_first()));
    } else {
        assert(prev.drop_last().drop_last().drop_last() =~= seq![]);
        assert(prev.drop_first().drop_last().drop_last() =~= seq![]);
        assert(prev.drop_last().drop_last() =~= seq![prev[0]]);
        assert(prev.drop_first().drop_last() =~= seq![prev[1]]);
        assert(slashed(prev) =~= prev[0] + seq!['/'] + slashed(prev.drop_first()));
    }
}

/// The flat segments `prev` are parsed, and the next one fails with `f`:
/// then the flat segments fail with `f`.
#[verifier::rlimit(100)]
proof fn lemma_segments_fail(
    s: Seq<char>,
    h: Seq<char>,
    prev: Seq<Seq<char>>,
    rest: Seq<char>,
    f: SegmentError,
)
    requires
        s == h + slashed(prev) + rest,
        prev.len() <= 3,
        forall|k: int| 0 <= k < prev.len() ==> is_resource(#[trigger] prev[k]),
        token_at(s, (h.len() + slashed(prev).len()) as int, TokenRule::Resource) == Err::<usize, SegmentError>(f),
        s.len() <= usize::MAX,
    ensures
        segments_at(s, h.len() as int) == Err::<(Span, Span, Span, Span), SegmentError>(f),
    decreases prev.len(),
{
    if prev.len() == 0 {
        assert(slashed(prev).len() == 0);
    } else {
        lemma_slashed_unroll(prev);
        let p0 = prev[0];
        let tailp = prev.drop_first();
        let h1 = h + p0 + seq!['/'];
        assert(s =~= h + p0 + (seq!['/'] + slashed(tailp) + rest));
        lemma_part(s, h, p0, seq!['/'] + slashed(tailp) + rest, TokenRule::Resource);
        assert(s =~= h1 + slashed(tailp) + rest);
        assert(named_at(s, h.len() as int, TokenRule::Resource) == Ok::<usize, SegmentError>((h.len() + p0.len()) as usize));
        lemma_segments_fail_from(s, h1, tailp, rest, f, (prev.len() - 1) as nat);
    }
}

/// The rest of `lemma_segments_fail`, from the flat segment number `3 - left`.
proof fn lemma_segments_fail_from(
    s: Seq<char>,
    h: Seq<char>,
    prev: Seq<Seq<char>>,
    rest: Seq<char>,
    f: SegmentError,
    left: nat,
)
    requires
        s == h + slashed(prev) + rest,
        prev.len() == left,
        left <= 2,
        forall|k: int| 0 <= k < prev.len() ==> is_resource(#[trigger] prev[k]),
        token_at(s, (h.len() + slashed(prev).len()) as int, TokenRule::Resource) == Err::<usize, SegmentError>(f),
        s.len() <= usize::MAX,
    ensures
        left == 2 ==> named_at(s, h.len() as int, TokenRule::Resource) is Ok && named_at(
            s,
            named_at(s, h.len() as int, TokenRule::Resource)->Ok_0 + 1,
            TokenRule::Resource,
        ) is Ok && token_at(
            s,
            named_at(
                s,
                named_at(s, h.len() as int, TokenRule::Resource)->Ok_0 + 1,
                TokenRule::Resource,
            )->Ok_0 + 1,
            TokenRule::Resource,
        ) == Err::<usize, SegmentError>(f),
        left == 1 ==> named_at(s, h.len() as int, TokenRule::Resource) is Ok && named_at(
            s,
            named_at(s, h.len() as int, TokenRule::Resource)->Ok_0 + 1,
            TokenRule::Resource,
        ) == Err::<usize, SegmentError>(f) && token_at(
            s,
            named_at(s, h.len() as int, TokenRule::Resource)->Ok_0 + 1,
            TokenRule::Resource,
        ) == Err::<usize, SegmentError>(f),
        left == 0 ==> named_at(s, h.len() as int, TokenRule::Resource) == Err::<usize, SegmentError>(f)
            && token_at(s, h.len() as int, TokenRule::Resource) == Err::<usize, SegmentError>(f),
    decreases left,
{
    if left == 0 {
        assert(slashed(prev).len() == 0);
    } else {
        lemma_slashed_unroll(prev);
        let p0 = prev[0];
        let tailp = prev.drop_first();
        let h1 = h + p0 + seq!['/'];
        assert(s =~= h + p0 + (seq!['/'] + slashed(tailp) + rest));
        lemma_part(s, h, p0, seq!['/'] + slashed(tailp) + rest, TokenRule::Resource);
        assert(s =~= h1 + slashed(tailp) + rest);
        lemma_segments_fail_from(s, h1, tailp, rest, f, (left - 1) as nat);
    }
}

/// A locator whose head is valid fails where its next flat segment fails.
#[verifier::rlimit(100)]
proof fn lemma_fail_after_head(
    s: Seq<char>,
    scheme: Scheme,
    level: LevelView,
    prev: Seq<Seq<char>>,
    tail: Seq<char>,
    f: SegmentError,
)
    requires
        s == head_text(scheme, level, prev) + tail,
        valid_level(level),
        prev.len() <= 3,
        forall|k: int| 0 <= k < prev.len() ==> is_resource(#[trigger] prev[k]),
        token_at(s, head_text(scheme, level, prev).len() as int, TokenRule::Resource) == Err::<
            usize,
            SegmentError,
        >(f),
        s.len() <= usize::MAX,
    ensures
        uri_cuts(s) == Err::<UriCuts, SegmentError>(f),
{
    let tok = scheme_token(scheme);
    let slashes = seq![':', '/', '/'];
    let lt = level_text(level);
    let h0 = tok + slashes;
    let r0 = seq!['/'] + slashed(prev) + tail;
    assert(s =~= tok + slashes + (lt + r0));
    lemma_scheme_part(s, scheme, lt + r0);
    assert(s =~= h0 + lt + r0);
    lemma_level_part(s, h0, level, r0);
    let h1 = h0 + lt + seq!['/'];
    assert(s =~= h1 + slashed(prev) + tail);
    lemma_segments_fail(s, h1, prev, tail, f);
}

/// Leading character: when the show of the level starts with a digit or an
/// underscore, parsing fails with the non-alphabetic error, which reports
/// that character and the text up to it.
#[verifier::rlimit(100)]
pub proof fn lemma_leading_char_level(scheme: Scheme, c: char, rest: Seq<char>)
    requires
        is_digit(c) || c == '_',
        (scheme_token(scheme) + seq![':', '/', '/'] + seq![c] + rest).len() <= usize::MAX,
    ensures
        uri_result(scheme_token(scheme) + seq![':', '/', '/'] + seq![c] + rest) == Err::<
            AssetModelView,
            ErrorView,
        >(ErrorView::UriNonAlpha(seq![c], scheme_token(scheme) + seq![':', '/', '/'] + seq![c])),
{
    reveal(token_at);
    let h = scheme_token(scheme) + seq![':', '/', '/'];
    let s = h + seq![c] + rest;
    let p = h.len() as int;
    assert(s =~= scheme_token(scheme) + seq![':', '/', '/'] + (seq![c] + rest));
    lemma_scheme_part(s, scheme, seq![c] + rest);
    assert(s[p] == c);
    assert(level_at(s, p, true) == Err::<LevelSpans, SegmentError>(
        crate::parse::utils::fail(crate::parse::utils::FailKind::Start, p),
    ));
    assert(s.subrange(p, p + 1) =~= seq![c]);
    assert(s.subrange(0, p + 1) =~= h + seq![c]);
}

/// Leading character: when a flat segment (name, department, subcontext or
/// snapshot type) of an otherwise valid locator starts with a digit or an
/// underscore, parsing fails with the non-alphabetic error, which reports
/// that character and the text up to it.
#[verifier::rlimit(100)]
pub proof fn lemma_leading_char(
    scheme: Scheme,
    level: LevelView,
    prev: Seq<Seq<char>>,
    c: char,
    rest: Seq<char>,
)
    requires
        valid_level(level),
        prev.len() <= 3,
        forall|k: int| 0 <= k < prev.len() ==> is_resource(#[trigger] prev[k]),
        is_digit(c) || c == '_',
        (head_text(scheme, level, prev) + seq![c] + rest).len() <= usize::MAX,
    ensures
        uri_result(head_text(scheme, level, prev) + seq![c] + rest) == Err::<
            AssetModelView,
            ErrorView,
        >(ErrorView::UriNonAlpha(seq![c], head_text(scheme, level, prev) + seq![c])),
{
    reveal(token_at);
    let h = head_text(scheme, level, prev);
    let s = h + seq![c] + rest;
    let p = h.len() as int;
    assert(s[p] == c);
    let f = crate::parse::utils::fail(crate::parse::utils::FailKind::Start, p);
    assert(token_at(s, p, TokenRule::Resource) == Err::<usize, SegmentError>(f));
    assert(s =~= h + (seq![c] + rest));
    lemma_fail_after_head(s, scheme, level, prev, seq![c] + rest, f);
    assert(s.subrange(p, p + 1) =~= seq![c]);
    assert(s.subrange(0, p + 1) =~= h + seq![c]);
}

/// Tail constraint: when a flat segment of an otherwise valid locator is a
/// letter and body characters ending in `_`, parsing fails with the
/// trailing-underscore error, which splits the text just before that `_`;
/// the segment is never cut short.
#[verifier::rlimit(100)]
pub proof fn lemma_trailing_underscore(
    scheme: Scheme,
    level: LevelView,
    prev: Seq<Seq<char>>,
    r: Seq<char>,
    rest: Seq<char>,
)
    requires
        valid_level(level),
        prev.len() <= 3,
        forall|k: int| 0 <= k < prev.len() ==> is_resource(#[trigger] prev[k]),
        r.len() > 0,
        is_alpha(r[0]),
        forall|k: int| 0 <= k < r.len() ==> is_body(#[trigger] r[k]),
        r.last() == '_',
        rest.len() == 0 || !is_body(rest[0]),
        (head_text(scheme, level, prev) + r + rest).len() <= usize::MAX,
    ensures
        uri_result(head_text(scheme, level, prev) + r + rest) == Err::<AssetModelView, ErrorView>(
            ErrorView::UriUnderscore(head_text(scheme, level, prev) + r.drop_last(), seq!['_'] + rest),
        ),
{
    reveal(token_at);
    let h = head_text(scheme, level, prev);
    let s = h + r + rest;
    let p = h.len() as int;
    let e = p + r.len();
    assert forall|k: int| p <= k < e implies is_body(#[trigger] s[k]) by {
        assert(s[k] == r[k - p]);
    }
    if rest.len() > 0 {
        assert(s[e] == rest[0]);
    }
    lemma_body_end_at(s, p, e);
    assert(s[p] == r[0]);
    assert(s[e - 1] == '_');
    let f = crate::parse::utils::fail(crate::parse::utils::FailKind::Tail, e - 1);
    assert(token_at(s, p, TokenRule::Resource) == Err::<usize, SegmentError>(f));
    assert(s =~= h + (r + rest));
    lemma_fail_after_head(s, scheme, level, prev, r + rest, f);
    assert(s.subrange(0, e - 1) =~= h + r.drop_last());
    assert(s.subrange(e - 1, s.len() as int) =~= seq!['_'] + rest);
}

/// The canonical text without query and fragment, followed by a tail that
/// starts with a character that cannot continue the snapshot type: the parts
/// up to the tail are parsed, and what happens next is up to the tail.
#[verifier::rlimit(100)]
#[verifier::spinoff_prover]
proof fn lemma_bare_head(
    s: Seq<char>,
    scheme: Scheme,
    level: LevelView,
    name: Seq<char>,
    department: Seq<char>,
    subcontext: Seq<char>,
    snapshot_type: Seq<char>,
    tail: Seq<char>,
)
    requires
        valid_level(level),
        is_resource(name),
        is_resource(department),
        is_resource(subcontext),
        is_resource(snapshot_type),
        tail.len() > 0 && !is_body(tail[0]),
        s == uri_text(scheme, level, name, department, subcontext, snapshot_type, None, None) + tail,
        s.len() <= usize::MAX,
    ensures
        forall|f: SegmentError|
            #![auto]
            tail_at(
                s,
                uri_text(scheme, level, name, department, subcontext, snapshot_type, None, None).len() as int,
            ) == Err::<(Option<Seq<PairSpans>>, Option<Span>), SegmentError>(f) ==> uri_cuts(s)
                == Err::<UriCuts, SegmentError>(f),
{
    let u = uri_text(scheme, level, name, department, subcontext, snapshot_type, None, None);
    let tok = scheme_token(scheme);
    let slashes = seq![':', '/', '/'];
    let lt = level_text(level);
    let mid = name + seq!['/'] + department + seq!['/'] + subcontext + seq!['/'] + snapshot_type;
    let h0 = tok + slashes;
    let r0 = seq!['/'] + mid + tail;
    let h1 = h0 + lt + seq!['/'];
    assert(u =~= h0 + lt + seq!['/'] + mid) by {
        reveal(uri_text);
    }
    assert(s =~= h0 + lt + r0);
    assert(scheme_at(s) == Ok::<(Scheme, int), SegmentError>((scheme, h0.len() as int))) by {
        assert(s =~= tok + slashes + (lt + r0));
        lemma_scheme_part(s, scheme, lt + r0);
    }
    let lv = level_at(s, h0.len() as int, true)->Ok_0;
    assert(level_at(s, h0.len() as int, true) == Ok::<LevelSpans, SegmentError>(lv)
        && level_end(lv) + 1 == h1.len()) by {
        lemma_level_part(s, h0, level, r0);
    }
    let segs = segments_at(s, h1.len() as int)->Ok_0;
    assert(segments_at(s, h1.len() as int) == Ok::<(Span, Span, Span, Span), SegmentError>(segs)
        && segs.3.end == u.len()) by {
        assert(s =~= h1 + mid + tail);
        lemma_segments_part(s, h1, name, department, subcontext, snapshot_type, tail);
    }
}

/// Leading character: when the first key of a query, or the key of the
/// fragment, of an otherwise valid locator starts with a digit or an
/// underscore, parsing fails with the non-alphabetic error, which reports
/// that character and the text up to it.
#[verifier::rlimit(100)]
#[verifier::spinoff_prover]
pub proof fn lemma_leading_char_key(
    scheme: Scheme,
    level: LevelView,
    name: Seq<char>,
    department: Seq<char>,
    subcontext: Seq<char>,
    snapshot_type: Seq<char>,
    mark: char,
    c: char,
    rest: Seq<char>,
)
    requires
        valid_level(level),
        is_resource(name),
        is_resource(department),
        is_resource(subcontext),
        is_resource(snapshot_type),
        mark == '?' || mark == '#',
        is_digit(c) || c == '_',
        (uri_text(scheme, level, name, department, subcontext, snapshot_type, None, None) + seq![
            mark,
            c,
        ] + rest).len() <= usize::MAX,
    ensures
        uri_result(
            uri_text(scheme, level, name, department, subcontext, snapshot_type, None, None) + seq![
                mark,
                c,
            ] + rest,
        ) == Err::<AssetModelView, ErrorView>(
            ErrorView::UriNonAlpha(
                seq![c],
                uri_text(scheme, level, name, department, subcontext, snapshot_type, None, None)
                    + seq![mark, c],
            ),
        ),
{
    reveal(token_at);
    let u = uri_text(scheme, level, name, department, subcontext, snapshot_type, None, None);
    let s = u + seq![mark, c] + rest;
    let p = u.len() + 1 as int;
    assert(s =~= u + (seq![mark, c] + rest));
    lemma_bare_head(s, scheme, level, name, department, subcontext, snapshot_type, seq![mark, c] + rest);
    let f = crate::parse::utils::fail(crate::parse::utils::FailKind::Start, p);
    assert(uri_cuts(s) == Err::<UriCuts, SegmentError>(f)) by {
        assert(s[u.len() as int] == mark);
        assert(s[p] == c);
        assert(token_at(s, p, TokenRule::Resource) == Err::<usize, SegmentError>(f));
        assert(tail_at(s, u.len() as int) == Err::<(Option<Seq<PairSpans>>, Option<Span>), SegmentError>(f));
    }
    assert(uri_result(s) == Err::<AssetModelView, ErrorView>(crate::parse::uri::uri_error(s, f)));
    assert(s.subrange(p, p + 1) =~= seq![c]);
    assert(s.subrange(0, p + 1) =~= u + seq![mark, c]);
}

/// Tail constraint: when the first key of a query, or the key of the
/// fragment, of an otherwise valid locator is a letter and body characters
/// ending in `_`, parsing fails with the trailing-underscore error, which
/// splits the text just before that `_`.
#[verifier::rlimit(100)]
#[verifier::spinoff_prover]
pub proof fn lemma_trailing_underscore_key(
    scheme: Scheme,
    level: LevelView,
    name: Seq<char>,
    department: Seq<char>,
    subcontext: Seq<char>,
    snapshot_type: Seq<char>,
    mark: char,
    r: Seq<char>,
    rest: Seq<char>,
)
    requires
        valid_level(level),
        is_resource(name),
        is_resource(department),
        is_resource(subcontext),
        is_resource(snapshot_type),
        mark == '?' || mark == '#',
        r.len() > 0,
        is_alpha(r[0]),
        forall|k: int| 0 <= k < r.len() ==> is_body(#[trigger] r[k]),
        r.last() == '_',
        rest.len() == 0 || !is_body(rest[0]),
        (uri_text(scheme, level, name, department, subcontext, snapshot_type, None, None) + seq![mark]
            + r + rest).len() <= usize::MAX,
    ensures
        uri_result(
            uri_text(scheme, level, name, department, subcontext, snapshot_type, None, None) + seq![mark]
                + r + rest,
        ) == Err::<AssetModelView, ErrorView>(
            ErrorView::UriUnderscore(
                uri_text(scheme, level, name, department, subcontext, snapshot_type, None, None)
                    + seq![mark] + r.drop_last(),
                seq!['_'] + rest,
            ),
        ),
{
    reveal(token_at);
    let u = uri_text(scheme, level, name, department, subcontext, snapshot_type, None, None);
    let s = u + seq![mark] + r + rest;
    let p = u.len() + 1 as int;
    let e = p + r.len();
    assert(s =~= u + (seq![mark] + r + rest));
    lemma_bare_head(s, scheme, level, name, department, subcontext, snapshot_type, seq![mark] + r + rest);
    let f = crate::parse::utils::fail(crate::parse::utils::FailKind::Tail, e - 1);
    assert(token_at(s, p, TokenRule::Resource) == Err::<usize, SegmentError>(f)) by {
        assert forall|k: int| p <= k < e implies is_body(#[trigger] s[k]) by {
            assert(s[k] == r[k - p]);
        }
        if rest.len() > 0 {
            assert(s[e] == rest[0]);
        }
        lemma_body_end_at(s, p, e);
        assert(s[p] == r[0]);
        assert(s[e - 1] == '_');
    }
    assert(uri_cuts(s) == Err::<UriCuts, SegmentError>(f)) by {
        assert(s[u.len() as int] == mark);
        assert(tail_at(s, u.len() as int) == Err::<(Option<Seq<PairSpans>>, Option<Span>), SegmentError>(f));
    }
    assert(uri_result(s) == Err::<AssetModelView, ErrorView>(crate::parse::uri::uri_error(s, f)));
    assert(s.subrange(0, e - 1) =~= u + seq![mark] + r.drop_last());
    assert(s.subrange(e - 1, s.len() as int) =~= seq!['_'] + rest);
}

/// Level priority: a level written with one, two or three parts and followed
/// by `/` is parsed as the shape it was written in, with those parts; the
/// deepest shape is tried first, so a level is never read as a shallower one.
#[verifier::rlimit(100)]
pub proof fn lemma_level_priority(l: LevelView, rest: Seq<char>)
    requires
        valid_level(l),
        (level_text(l) + seq!['/'] + rest).len() <= usize::MAX,
    ensures
        level_at(level_text(l) + seq!['/'] + rest, 0, true) is Ok,
        level_view_of(
            level_text(l) + seq!['/'] + rest,
            level_at(level_text(l) + seq!['/'] + rest, 0, true)->Ok_0,
        ) == l,
        level_end(level_at(level_text(l) + seq!['/'] + rest, 0, true)->Ok_0) == level_text(l).len(),
{
    let s = level_text(l) + seq!['/'] + rest;
    assert(s =~= seq![] + level_text(l) + (seq!['/'] + rest));
    lemma_level_part(s, seq![], l, seq!['/'] + rest);
}

/// A segment `r` under `rule` whose last character is `_`, written at
/// `h.len()` and followed by a character that cannot continue it, fails
/// there with its last character.
proof fn lemma_tail_fail(s: Seq<char>, h: Seq<char>, r: Seq<char>, rest: Seq<char>, rule: TokenRule)
    requires
        s == h + r + rest,
        r.len() > 0,
        first_ok(rule, r[0]),
        rule == TokenRule::Resource || rule == TokenRule::LevelItem,
        forall|k: int| 0 <= k < r.len() ==> is_body(#[trigger] r[k]),
        r.last() == '_',
        rest.len() == 0 || !is_body(rest[0]),
        s.len() <= usize::MAX,
    ensures
        token_at(s, h.len() as int, rule) == Err::<usize, SegmentError>(
            crate::parse::utils::fail(crate::parse::utils::FailKind::Tail, h.len() + r.len() - 1),
        ),
{
    reveal(token_at);
    let p = h.len() as int;
    let e = p + r.len();
    assert forall|k: int| p <= k < e implies is_body(#[trigger] s[k]) by {
        assert(s[k] == r[k - p]);
    }
    if rest.len() > 0 {
        assert(s[e] == rest[0]);
    }
    lemma_body_end_at(s, p, e);
    assert(s[p] == r[0]);
    assert(s[e - 1] == '_');
}

/// A level with one part `r` ending in `_`: the parts before it valid, `r`
/// a letter (or, in a shot, a letter or a digit) and body characters.
pub open spec fn level_with_bad_part(l: LevelView, bad: int) -> bool {
    match l {
        LevelView::Show(r) => bad == 0 && bad_tail(TokenRule::Resource, r),
        LevelView::Sequence(a, r) => bad == 1 && is_resource(a) && bad_tail(TokenRule::Resource, r),
        LevelView::Shot(a, b, c) => is_resource(a) && ((bad == 1 && bad_tail(
            TokenRule::LevelItem,
            b,
        ) && is_token(TokenRule::LevelItem, c)) || (bad == 2 && is_token(TokenRule::LevelItem, b)
            && bad_tail(TokenRule::LevelItem, c))),
    }
}

/// `r` begins as a segment under `rule` may begin, holds body characters
/// only, and ends in `_`.
pub open spec fn bad_tail(rule: TokenRule, r: Seq<char>) -> bool {
    &&& r.len() > 0
    &&& first_ok(rule, r[0])
    &&& forall|k: int| 0 <= k < r.len() ==> is_body(#[trigger] r[k])
    &&& r.last() == '_'
}

/// Where the bad part of such a level ends, counted from the level's start.
pub open spec fn bad_part_end(l: LevelView, bad: int) -> int {
    match l {
        LevelView::Show(r) => r.len() as int,
        LevelView::Sequence(a, r) => (a.len() + 1 + r.len()) as int,
        LevelView::Shot(a, b, c) => if bad == 1 {
            (a.len() + 1 + b.len()) as int
        } else {
            (a.len() + 1 + b.len() + 1 + c.len()) as int
        },
    }
}

/// A level with a bad part, written at `h.len()` and followed by `/`, fails
/// with the last character of that part.
#[verifier::rlimit(100)]
#[verifier::spinoff_prover]
proof fn lemma_level_tail_fail(s: Seq<char>, h: Seq<char>, l: LevelView, bad: int, rest: Seq<char>)
    requires
        s == h + level_text(l) + rest,
        level_with_bad_part(l, bad),
        rest.len() > 0 && rest[0] == '/',
        s.len() <= usize::MAX,
    ensures
        level_at(s, h.len() as int, true) == Err::<LevelSpans, SegmentError>(
            crate::parse::utils::fail(
                crate::parse::utils::FailKind::Tail,
                h.len() + bad_part_end(l, bad) - 1,
            ),
        ),
{
    let i = h.len() as int;
    let q = h.len() + bad_part_end(l, bad) - 1;
    let f = crate::parse::utils::fail(crate::parse::utils::FailKind::Tail, q);
    match l {
        LevelView::Show(r) => {
            lemma_tail_fail(s, h, r, rest, TokenRule::Resource);
        },
        LevelView::Sequence(a, r) => {
            let r1 = seq!['.'] + r + rest;
            assert(s =~= h + a + r1);
            lemma_part(s, h, a, r1, TokenRule::Resource);
            let h2 = h + a + seq!['.'];
            assert(s =~= h2 + r + rest);
            lemma_tail_fail(s, h2, r, rest, TokenRule::Resource);
            assert(is_alpha(r[0]) || is_digit(r[0]));
            lemma_tail_fail(s, h2, r, rest, TokenRule::LevelItem);
            assert(shot_at(s, i) == Err::<LevelSpans, SegmentError>(f));
            assert(seq_at(s, i) == Err::<LevelSpans, SegmentError>(f));
        },
        LevelView::Shot(a, b, c) => {
            let r1 = seq!['.'] + b + seq!['.'] + c + rest;
            assert(s =~= h + a + r1);
            lemma_part(s, h, a, r1, TokenRule::Resource);
            let h2 = h + a + seq!['.'];
            let r2 = seq!['.'] + c + rest;
            assert(s =~= h2 + b + r2);
            let h3 = h2 + b + seq!['.'];
            assert(s =~= h3 + c + rest);
            if bad == 1 {
                lemma_tail_fail(s, h2, b, r2, TokenRule::LevelItem);
                if is_alpha(b[0]) {
                    lemma_tail_fail(s, h2, b, r2, TokenRule::Resource);
                } else {
                    reveal(token_at);
                    assert(s[h2.len() as int] == b[0]);
                }
                assert(shot_at(s, i) == Err::<LevelSpans, SegmentError>(f));
            } else {
                lemma_part(s, h2, b, r2, TokenRule::LevelItem);
                lemma_tail_fail(s, h3, c, rest, TokenRule::LevelItem);
                if is_alpha(b[0]) {
                    assert(is_resource(b)) by {
                        reveal(is_token);
                    }
                    lemma_part(s, h2, b, r2, TokenRule::Resource);
                } else {
                    reveal(token_at);
                    assert(s[h2.len() as int] == b[0]);
                }
                assert(shot_at(s, i) == Err::<LevelSpans, SegmentError>(f));
            }
        },
    }
}

/// Tail constraint: when a part of the level (show, sequence or shot) of an
/// otherwise canonical locator ends in `_`, parsing fails with the
/// trailing-underscore error, which splits the text just before that `_`.
#[verifier::rlimit(100)]
#[verifier::spinoff_prover]
pub proof fn lemma_trailing_underscore_level(scheme: Scheme, l: LevelView, bad: int, rest: Seq<char>)
    requires
        level_with_bad_part(l, bad),
        (scheme_token(scheme) + seq![':', '/', '/'] + level_text(l) + seq!['/'] + rest).len()
            <= usize::MAX,
    ensures
        uri_result(scheme_token(scheme) + seq![':', '/', '/'] + level_text(l) + seq!['/'] + rest)
            == Err::<AssetModelView, ErrorView>(
            ErrorView::UriUnderscore(
                (scheme_token(scheme) + seq![':', '/', '/'] + level_text(l) + seq!['/'] + rest).take(
                    scheme_token(scheme).len() + 3 + bad_part_end(l, bad) - 1,
                ),
                (scheme_token(scheme) + seq![':', '/', '/'] + level_text(l) + seq!['/'] + rest).skip(
                    scheme_token(scheme).len() + 3 + bad_part_end(l, bad) - 1,
                ),
            ),
        ),
{
    let h = scheme_token(scheme) + seq![':', '/', '/'];
    let s = h + level_text(l) + (seq!['/'] + rest);
    assert(s =~= scheme_token(scheme) + seq![':', '/', '/'] + level_text(l) + seq!['/'] + rest);
    assert(s =~= scheme_token(scheme) + seq![':', '/', '/'] + (level_text(l) + seq!['/'] + rest));
    lemma_scheme_part(s, scheme, level_text(l) + seq!['/'] + rest);
    lemma_level_tail_fail(s, h, l, bad, seq!['/'] + rest);
    let q = h.len() + bad_part_end(l, bad) - 1;
    assert(q < s.len()) by {
        match l {
            LevelView::Show(r) => {},
            LevelView::Sequence(a, r) => {},
            LevelView::Shot(a, b, c) => {},
        }
    }
    assert(s.subrange(0, q) =~= s.take(q));
    assert(s.subrange(q, s.len() as int) =~= s.skip(q));
}

/// Tail constraint: when the value of the first query pair of an otherwise
/// canonical locator ends in `_`, parsing fails with the trailing-underscore
/// error, which splits the text just before that `_`.
#[verifier::rlimit(100)]
#[verifier::spinoff_prover]
pub proof fn lemma_trailing_underscore_value(
    scheme: Scheme,
    level: LevelView,
    name: Seq<char>,
    department: Seq<char>,
    subcontext: Seq<char>,
    snapshot_type: Seq<char>,
    key: Seq<char>,
    r: Seq<char>,
    rest: Seq<char>,
)
    requires
        valid_level(level),
        is_resource(name),
        is_resource(department),
        is_resource(subcontext),
        is_resource(snapshot_type),
        is_resource(key),
        bad_tail(TokenRule::LevelItem, r),
        rest.len() == 0 || !is_body(rest[0]),
        (uri_text(scheme, level, name, department, subcontext, snapshot_type, None, None) + seq!['?']
            + key + seq!['='] + r + rest).len() <= usize::MAX,
    ensures
        uri_result(
            uri_text(scheme, level, name, department, subcontext, snapshot_type, None, None) + seq!['?']
                + key + seq!['='] + r + rest,
        ) == Err::<AssetModelView, ErrorView>(
            ErrorView::UriUnderscore(
                uri_text(scheme, level, name, department, subcontext, snapshot_type, None, None)
                    + seq!['?'] + key + seq!['='] + r.drop_last(),
                seq!['_'] + rest,
            ),
        ),
{
    let u = uri_text(scheme, level, name, department, subcontext, snapshot_type, None, None);
    let s = u + seq!['?'] + key + seq!['='] + r + rest;
    let hk = u + seq!['?'];
    let hv = hk + key + seq!['='];
    let e = hv.len() + r.len();
    assert(s =~= u + (seq!['?'] + key + seq!['='] + r + rest));
    lemma_bare_head(s, scheme, level, name, department, subcontext, snapshot_type, seq!['?'] + key + seq!['='] + r + rest);
    let f = crate::parse::utils::fail(crate::parse::utils::FailKind::Tail, e - 1);
    assert(pair_at(s, hk.len() as int) == Err::<PairSpans, SegmentError>(f)) by {
        assert(s =~= hk + key + (seq!['='] + r + rest));
        lemma_part(s, hk, key, seq!['='] + r + rest, TokenRule::Resource);
        assert(s =~= hv + r + rest);
        lemma_tail_fail(s, hv, r, rest, TokenRule::LevelItem);
    }
    assert(uri_cuts(s) == Err::<UriCuts, SegmentError>(f)) by {
        assert(s[u.len() as int] == '?');
        assert(tail_at(s, u.len() as int) == Err::<(Option<Seq<PairSpans>>, Option<Span>), SegmentError>(f));
    }
    assert(uri_result(s) == Err::<AssetModelView, ErrorView>(crate::parse::uri::uri_error(s, f)));
    assert(s.subrange(0, e - 1) =~= u + seq!['?'] + key + seq!['='] + r.drop_last());
    assert(s.subrange(e - 1, s.len() as int) =~= seq!['_'] + rest);
}

} // verus!
