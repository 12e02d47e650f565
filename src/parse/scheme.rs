//! The scheme segment: one of the scheme tokens, then `://`.
use crate::parse::utils::{fail, FailKind, SegmentError};
use crate::scheme::{scheme_token, Scheme};
use crate::text::{chars_of, has_lit, lit_at};
use vstd::prelude::*;

verus! {

/// The scheme whose token starts the input, if any.
pub open spec fn scheme_prefix(s: Seq<char>) -> Option<Scheme> {
    if has_lit(s, 0, scheme_token(Scheme::Asset)) {
        Some(Scheme::Asset)
    } else if has_lit(s, 0, scheme_token(Scheme::Instance)) {
        Some(Scheme::Instance)
    } else if has_lit(s, 0, scheme_token(Scheme::Render)) {
        Some(Scheme::Render)
    } else if has_lit(s, 0, scheme_token(Scheme::Plate)) {
        Some(Scheme::Plate)
    } else {
        None
    }
}

/// The scheme at the start of the input and the position after its `://`.
pub open spec fn scheme_at(s: Seq<char>) -> Result<(Scheme, int), SegmentError> {
    match scheme_prefix(s) {
        None => Err(fail(FailKind::Tag, 0)),
        Some(sc) => {
            let e = scheme_token(sc).len() as int;
            if has_lit(s, e, seq![':', '/', '/']) {
                Ok((sc, e + 3))
            } else {
                Err(fail(FailKind::Tag, e))
            }
        },
    }
}

/// Parses the scheme at the start of the input.
pub fn scan_scheme(s: &Vec<char>) -> (r: Result<(Scheme, usize), SegmentError>)
    ensures
        match scheme_at(s@) {
            Ok((sc, e)) => r is Ok && r->Ok_0.0 == sc && r->Ok_0.1 == e,
            Err(f) => r == Err::<(Scheme, usize), SegmentError>(f),
        },
        r is Ok ==> r->Ok_0.1 <= s.len(),
        r is Err ==> r->Err_0.pos <= s.len(),
{
    proof {
        reveal_strlit("asset");
        reveal_strlit("instance");
        reveal_strlit("render");
        reveal_strlit("plate");
        reveal_strlit("://");
        assert("asset"@ =~= scheme_token(Scheme::Asset));
        assert("instance"@ =~= scheme_token(Scheme::Instance));
        assert("render"@ =~= scheme_token(Scheme::Render));
        assert("plate"@ =~= scheme_token(Scheme::Plate));
        assert("://"@ =~= seq![':', '/', '/']);
    }
    let (sc, e): (Scheme, usize) = if lit_at(s, 0, "asset") {
        (Scheme::Asset, 5)
    } else if lit_at(s, 0, "instance") {
        (Scheme::Instance, 8)
    } else if lit_at(s, 0, "render") {
        (Scheme::Render, 6)
    } else if lit_at(s, 0, "plate") {
        (Scheme::Plate, 5)
    } else {
        return Err(SegmentError { kind: FailKind::Tag, pos: 0 });
    };
    if lit_at(s, e, "://") {
        Ok((sc, e + 3))
    } else {
        Err(SegmentError { kind: FailKind::Tag, pos: e })
    }
}

} // verus!

verus! {

/// Parse the scheme for the set of asset manager routes: the token and what
/// follows its `://`.
pub fn scheme_parser(input: &str) -> (r: Result<(&str, &str), SegmentError>)
    ensures
        match scheme_at(input@) {
            Ok((sc, e)) => r is Ok && r->Ok_0.1@ == scheme_token(sc) && r->Ok_0.0@ == input@.subrange(
                e,
                input@.len() as int,
            ),
            Err(f) => r == Err::<(&str, &str), SegmentError>(f),
        },
{
    let s = chars_of(input);
    let (sc, e) = scan_scheme(&s)?;
    Ok((input.substring_char(e, s.len()), sc.as_str()))
}

/// Generate a Scheme instance from an input string
pub fn parse_scheme(input: &str) -> (r: Result<(&str, Scheme), SegmentError>)
    ensures
        match scheme_at(input@) {
            Ok((sc, e)) => r is Ok && r->Ok_0.1 == sc && r->Ok_0.0@ == input@.subrange(
                e,
                input@.len() as int,
            ),
            Err(f) => r == Err::<(&str, Scheme), SegmentError>(f),
        },
{
    let s = chars_of(input);
    let (sc, e) = scan_scheme(&s)?;
    Ok((input.substring_char(e, s.len()), sc))
}

} // verus!
