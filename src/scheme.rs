//! The scheme, the first segment of a locator.
use crate::errors::AmuriError;
use crate::text::str_is;
use vstd::prelude::*;

verus! {

/// The category of an asset.
#[derive(Debug, PartialEq, Eq, Clone, Copy, Structural)]
pub enum Scheme {
    Asset,
    Instance,
    Render,
    Plate,
}

/// The token that writes a scheme.
pub open spec fn scheme_token(s: Scheme) -> Seq<char> {
    match s {
        Scheme::Asset => seq!['a', 's', 's', 'e', 't'],
        Scheme::Instance => seq!['i', 'n', 's', 't', 'a', 'n', 'c', 'e'],
        Scheme::Render => seq!['r', 'e', 'n', 'd', 'e', 'r'],
        Scheme::Plate => seq!['p', 'l', 'a', 't', 'e'],
    }
}

/// The scheme that the text `t` writes, if any.
pub open spec fn scheme_of(t: Seq<char>) -> Option<Scheme> {
    if t == scheme_token(Scheme::Asset) {
        Some(Scheme::Asset)
    } else if t == scheme_token(Scheme::Instance) {
        Some(Scheme::Instance)
    } else if t == scheme_token(Scheme::Render) {
        Some(Scheme::Render)
    } else if t == scheme_token(Scheme::Plate) {
        Some(Scheme::Plate)
    } else {
        None
    }
}

impl Scheme {
    /// The token of this scheme.
    pub fn as_str(&self) -> (r: &'static str)
        ensures
            r@ == scheme_token(*self),
    {
        proof {
            reveal_strlit("asset");
            reveal_strlit("instance");
            reveal_strlit("render");
            reveal_strlit("plate");
            assert("asset"@ =~= scheme_token(Scheme::Asset));
            assert("instance"@ =~= scheme_token(Scheme::Instance));
            assert("render"@ =~= scheme_token(Scheme::Render));
            assert("plate"@ =~= scheme_token(Scheme::Plate));
        }
        match self {
            Scheme::Asset => "asset",
            Scheme::Instance => "instance",
            Scheme::Render => "render",
            Scheme::Plate => "plate",
        }
    }

    /// The token of this scheme, as an owned string.
    pub fn to_string(&self) -> (r: String)
        ensures
            r@ == scheme_token(*self),
    {
        String::from_str(self.as_str())
    }

    /// Every scheme, in declaration order.
    pub fn iter() -> (r: Vec<Scheme>)
        ensures
            r@ == seq![Scheme::Asset, Scheme::Instance, Scheme::Render, Scheme::Plate],
    {
        let r = vec![Scheme::Asset, Scheme::Instance, Scheme::Render, Scheme::Plate];
        assert(r@ =~= seq![Scheme::Asset, Scheme::Instance, Scheme::Render, Scheme::Plate]);
        r
    }

    /// The scheme whose token is exactly `input`.
    pub fn from_str(input: &str) -> (r: Result<Scheme, AmuriError>)
        ensures
            match scheme_of(input@) {
                Some(s) => r == Ok::<Scheme, AmuriError>(s),
                None => r is Err && r->Err_0@ == crate::errors::ErrorView::Parse(input@),
            },
    {
        proof {
            reveal_strlit("asset");
            reveal_strlit("instance");
            reveal_strlit("render");
            reveal_strlit("plate");
            assert("asset"@ =~= scheme_token(Scheme::Asset));
            assert("instance"@ =~= scheme_token(Scheme::Instance));
            assert("render"@ =~= scheme_token(Scheme::Render));
            assert("plate"@ =~= scheme_token(Scheme::Plate));
        }
        if str_is(input, "asset") {
            Ok(Scheme::Asset)
        } else if str_is(input, "instance") {
            Ok(Scheme::Instance)
        } else if str_is(input, "render") {
            Ok(Scheme::Render)
        } else if str_is(input, "plate") {
            Ok(Scheme::Plate)
        } else {
            Err(AmuriError::ParseError(String::from_str(input)))
        }
    }
}

} // verus!
