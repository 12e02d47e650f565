//! The whole locator: scheme, level, the flat segments, then an optional
//! query and an optional fragment, with nothing left over.
use crate::assetmodel::{AssetModel, AssetModelView};
use crate::errors::{AmuriError, ErrorView};
use crate::parse::container_name::{scan_segments, segments_at};
use crate::parse::hashkey::{fragment_end, scan_fragment_end};
use crate::parse::level::{level_end, level_from_spans, level_at, level_view_of, scan_level, LevelSpans};
use crate::parse::query::{query_at, read_settings, scan_query, settings, PairSpans};
use crate::parse::scheme::{scan_scheme, scheme_at};
use crate::parse::utils::{char_at, is_char_at, span_str, text, FailKind, SegmentError, Span};
use crate::scheme::Scheme;
use crate::text::chars_of;
use crate::version::Version;
use vstd::prelude::*;

verus! {

/// Where the parts of a locator lie in it.
pub struct UriCuts {
    pub scheme: Scheme,
    pub level: LevelSpans,
    pub name: Span,
    pub department: Span,
    pub subcontext: Span,
    pub snapshot_type: Span,
    pub query: Option<Seq<PairSpans>>,
    pub key: Option<Span>,
}

/// From position `i`, just after the snapshot type: an optional query, an
/// optional fragment, then the end of the input.
pub open spec fn tail_at(s: Seq<char>, i: int) -> Result<
    (Option<Seq<PairSpans>>, Option<Span>),
    SegmentError,
> {
    if char_at(s, i, '?') {
        match query_at(s, i + 1) {
            Err(f) => Err(f),
            Ok((ps, e)) => match fragment_end(s, e) {
                Err(f) => Err(f),
                Ok(k) => Ok((Some(ps), k)),
            },
        }
    } else {
        match fragment_end(s, i) {
            Err(f) => Err(f),
            Ok(k) => Ok((None, k)),
        }
    }
}

/// Splits a locator into its parts, or the first failure.
pub open spec fn uri_cuts(s: Seq<char>) -> Result<UriCuts, SegmentError> {
    match scheme_at(s) {
        Err(f) => Err(f),
        Ok((sc, e0)) => match level_at(s, e0, true) {
            Err(f) => Err(f),
            Ok(lv) => match segments_at(s, level_end(lv) + 1) {
                Err(f) => Err(f),
                Ok((n, d, c, t)) => match tail_at(s, t.end as int) {
                    Err(f) => Err(f),
                    Ok((q, k)) => Ok(
                        UriCuts {
                            scheme: sc,
                            level: lv,
                            name: n,
                            department: d,
                            subcontext: c,
                            snapshot_type: t,
                            query: q,
                            key: k,
                        },
                    ),
                },
            },
        },
    }
}

/// The name under which a failure is described.
pub open spec fn kind_name(k: FailKind) -> Seq<char> {
    match k {
        FailKind::Start => "Alpha"@,
        FailKind::Tail => "Verify"@,
        FailKind::Tag => "Tag"@,
        FailKind::Eof => "Eof"@,
    }
}

/// The error that a failure at `f` in the locator `s` becomes: a bad first
/// character reports that character and the input up to it; a bad last
/// character reports the input before it and from it; anything else
/// describes the rest of the input and the kind of failure.
pub open spec fn uri_error(s: Seq<char>, f: SegmentError) -> ErrorView {
    let p = f.pos as int;
    if f.kind == FailKind::Start && p < s.len() {
        ErrorView::UriNonAlpha(s.subrange(p, p + 1), s.subrange(0, p + 1))
    } else if f.kind == FailKind::Tail && p < s.len() {
        ErrorView::UriUnderscore(s.subrange(0, p), s.subrange(p, s.len() as int))
    } else {
        ErrorView::UriParsing(
            "Error((\""@ + s.subrange(p, s.len() as int) + "\", "@ + kind_name(f.kind) + "))"@,
        )
    }
}

/// The settings of an optional query.
pub open spec fn query_settings(s: Seq<char>, q: Option<Seq<PairSpans>>) -> Result<
    (Option<Version>, bool),
    Seq<char>,
> {
    match q {
        None => Ok((None, false)),
        Some(ps) => settings(s, ps),
    }
}

/// What parsing the locator `s` gives.
pub open spec fn uri_result(s: Seq<char>) -> Result<AssetModelView, ErrorView> {
    match uri_cuts(s) {
        Err(f) => Err(uri_error(s, f)),
        Ok(c) => match query_settings(s, c.query) {
            Err(t) => Err(ErrorView::StrToInt(t)),
            Ok((v, cr)) => Ok(
                AssetModelView {
                    container_type: c.scheme,
                    level: level_view_of(s, c.level),
                    name: text(s, c.name),
                    department: text(s, c.department),
                    subcontext: text(s, c.subcontext),
                    snapshot_type: text(s, c.snapshot_type),
                    version: v,
                    key: match c.key {
                        Some(k) => Some(text(s, k)),
                        None => None,
                    },
                    create_missing: cr,
                },
            ),
        },
    }
}

fn kind_str(k: FailKind) -> (r: &'static str)
    ensures
        r@ == kind_name(k),
{
    match k {
        FailKind::Start => "Alpha",
        FailKind::Tail => "Verify",
        FailKind::Tag => "Tag",
        FailKind::Eof => "Eof",
    }
}

/// Turns a failure at `f` in `input` into the error it is reported as.
fn uri_failure(input: &str, f: SegmentError) -> (r: AmuriError)
    requires
        f.pos <= input@.len(),
    ensures
        r@ == uri_error(input@, f),
{
    let n = input.unicode_len();
    if f.kind == FailKind::Start && f.pos < n {
        AmuriError::UriNonAlphaParsingError {
            problem: String::from_str(input.substring_char(f.pos, f.pos + 1)),
            location: String::from_str(input.substring_char(0, f.pos + 1)),
        }
    } else if f.kind == FailKind::Tail && f.pos < n {
        AmuriError::UriUnexpectedUnderscoreParsingError {
            processed: String::from_str(input.substring_char(0, f.pos)),
            remaining: String::from_str(input.substring_char(f.pos, n)),
        }
    } else {
        let mut cause = String::from_str("Error((\"");
        cause.append(input.substring_char(f.pos, n));
        cause.append("\", ");
        cause.append(kind_str(f.kind));
        cause.append("))");
        AmuriError::UriParsingError { cause }
    }
}

/// Parses a locator into the model it describes.
///
/// When several `version` pairs are present the last one counts, after every
/// one of them has been read; `create` sets the flag only with the value
/// `true`, and never fails.
pub fn parse_uri(input: &str) -> (r: Result<AssetModel<'_>, AmuriError>)
    ensures
        match uri_result(input@) {
            Ok(m) => r is Ok && r->Ok_0@ == m,
            Err(e) => r is Err && r->Err_0@ == e,
        },
{
    let s = chars_of(input);
    let (scheme, e0) = match scan_scheme(&s) {
        Ok(x) => x,
        Err(f) => {
            return Err(uri_failure(input, f));
        },
    };
    let lv = match scan_level(&s, e0, true) {
        Ok(x) => x,
        Err(f) => {
            return Err(uri_failure(input, f));
        },
    };
    let e1 = match lv {
        LevelSpans::Show(a) => a.end,
        LevelSpans::Sequence(_, b) => b.end,
        LevelSpans::Shot(_, _, c) => c.end,
    } + 1;
    let (n, d, c, t) = match scan_segments(&s, e1) {
        Ok(x) => x,
        Err(f) => {
            return Err(uri_failure(input, f));
        },
    };
    let (pairs, e2) = if is_char_at(&s, t.end, '?') {
        match scan_query(&s, t.end + 1) {
            Ok((ps, e)) => (Some(ps), e),
            Err(f) => {
                return Err(uri_failure(input, f));
            },
        }
    } else {
        (None, t.end)
    };
    let key = match scan_fragment_end(&s, e2) {
        Ok(k) => k,
        Err(f) => {
            return Err(uri_failure(input, f));
        },
    };
    let (version, create_missing) = match &pairs {
        Some(ps) => read_settings(input, ps)?,
        None => (None, false),
    };
    let key = match key {
        Some(k) => Some(span_str(input, k)),
        None => None,
    };
    Ok(
        AssetModel {
            container_type: scheme,
            level: level_from_spans(input, lv),
            name: span_str(input, n),
            department: span_str(input, d),
            subcontext: span_str(input, c),
            snapshot_type: span_str(input, t),
            version,
            key,
            create_missing,
        },
    )
}

} // verus!
