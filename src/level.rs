//! The level of a locator, in a borrowed and an owned form.
use crate::errors::{AmuriError, ErrorView};
use crate::parse::level::{level_from_spans, level_of, scan_level};
use crate::text::chars_of;
use vstd::prelude::*;

verus! {

/// The production context of an asset, borrowing its texts.
#[derive(Debug, PartialOrd, Ord, PartialEq, Eq, Clone)]
pub enum Level<'a> {
    Show(&'a str),
    Sequence { show: &'a str, sequence: &'a str },
    Shot { show: &'a str, sequence: &'a str, shot: &'a str },
}

/// What a level holds, as character sequences.
pub enum LevelView {
    Show(Seq<char>),
    Sequence(Seq<char>, Seq<char>),
    Shot(Seq<char>, Seq<char>, Seq<char>),
}

/// The text that writes a level: its parts joined by `.`.
pub open spec fn level_text(l: LevelView) -> Seq<char> {
    match l {
        LevelView::Show(a) => a,
        LevelView::Sequence(a, b) => a + seq!['.'] + b,
        LevelView::Shot(a, b, c) => a + seq!['.'] + b + seq!['.'] + c,
    }
}

impl<'a> View for Level<'a> {
    type V = LevelView;

    open spec fn view(&self) -> LevelView {
        match self {
            Level::Show(a) => LevelView::Show(a@),
            Level::Sequence { show, sequence } => LevelView::Sequence(show@, sequence@),
            Level::Shot { show, sequence, shot } => LevelView::Shot(show@, sequence@, shot@),
        }
    }
}

impl<'a> Level<'a> {
    /// constructor function
    pub fn show(name: &'a str) -> (r: Self)
        ensures
            r@ == LevelView::Show(name@),
    {
        Level::Show(name)
    }

    /// constructor function
    pub fn seq(show: &'a str, sequence: &'a str) -> (r: Self)
        ensures
            r@ == LevelView::Sequence(show@, sequence@),
    {
        Level::Sequence { show, sequence }
    }

    /// constructor function
    pub fn sequence(show: &'a str, sequence: &'a str) -> (r: Self)
        ensures
            r@ == LevelView::Sequence(show@, sequence@),
    {
        Level::Sequence { show, sequence }
    }

    /// constructor function
    pub fn shot(show: &'a str, sequence: &'a str, shot: &'a str) -> (r: Self)
        ensures
            r@ == LevelView::Shot(show@, sequence@, shot@),
    {
        Level::Shot { show, sequence, shot }
    }

    /// Parses a level that makes up the whole of `input`.
    pub fn from_str(input: &'a str) -> (r: Result<Self, AmuriError>)
        ensures
            match level_of(input@) {
                Some(l) => r is Ok && r->Ok_0@ == l,
                None => r is Err && r->Err_0@ == ErrorView::LevelParsing(input@),
            },
    {
        let s = chars_of(input);
        match scan_level(&s, 0, false) {
            Ok(l) => Ok(level_from_spans(input, l)),
            Err(_) => Err(AmuriError::LevelParsingFailure(String::from_str(input))),
        }
    }

    /// Create an LevelOwned from a level
    pub fn to_owned(&self) -> (r: LevelOwned)
        ensures
            r@ == self@,
    {
        match self {
            Level::Show(show) => LevelOwned::show(show),
            Level::Sequence { show, sequence } => LevelOwned::seq(show, sequence),
            Level::Shot { show, sequence, shot } => LevelOwned::shot(show, sequence, shot),
        }
    }
}

/// The production context of an asset, owning its texts.
#[derive(Debug, PartialOrd, Ord, PartialEq, Eq, Clone)]
pub enum LevelOwned {
    Show(String),
    Sequence { show: String, sequence: String },
    Shot { show: String, sequence: String, shot: String },
}

impl View for LevelOwned {
    type V = LevelView;

    open spec fn view(&self) -> LevelView {
        match self {
            LevelOwned::Show(a) => LevelView::Show(a@),
            LevelOwned::Sequence { show, sequence } => LevelView::Sequence(show@, sequence@),
            LevelOwned::Shot { show, sequence, shot } => LevelView::Shot(show@, sequence@, shot@),
        }
    }
}

impl LevelOwned {
    /// The owned form of a borrowed level.
    pub fn from(input: Level<'_>) -> (r: Self)
        ensures
            r@ == input@,
    {
        input.to_owned()
    }

    /// Show constructor function
    pub fn show(name: &str) -> (r: Self)
        ensures
            r@ == LevelView::Show(name@),
    {
        LevelOwned::Show(String::from_str(name))
    }

    /// Seq constructor function
    pub fn seq(show: &str, sequence: &str) -> (r: Self)
        ensures
            r@ == LevelView::Sequence(show@, sequence@),
    {
        LevelOwned::Sequence { show: String::from_str(show), sequence: String::from_str(sequence) }
    }

    /// Sequence constructor function
    pub fn sequence(show: &str, sequence: &str) -> (r: Self)
        ensures
            r@ == LevelView::Sequence(show@, sequence@),
    {
        LevelOwned::seq(show, sequence)
    }

    /// Shot constructor function
    pub fn shot(show: &str, sequence: &str, shot: &str) -> (r: Self)
        ensures
            r@ == LevelView::Shot(show@, sequence@, shot@),
    {
        LevelOwned::Shot {
            show: String::from_str(show),
            sequence: String::from_str(sequence),
            shot: String::from_str(shot),
        }
    }

    /// Generate a levelspec String
    pub fn to_string(&self) -> (r: String)
        ensures
            r@ == level_text(self@),
    {
        proof {
            reveal_strlit(".");
        }
        match self {
            LevelOwned::Show(show) => show.clone(),
            LevelOwned::Sequence { show, sequence } => {
                let mut r = show.clone();
                r.append(".");
                r.append(sequence.as_str());
                r
            },
            LevelOwned::Shot { show, sequence, shot } => {
                let mut r = show.clone();
                r.append(".");
                r.append(sequence.as_str());
                r.append(".");
                r.append(shot.as_str());
                r
            },
        }
    }
}

} // verus!
