//! The errors of parsing and resolution.
use vstd::prelude::*;

verus! {

/// Every failure of the library, each with the text that explains it.
#[derive(Debug, PartialEq, Eq, Clone)]
pub enum AmuriError {
    /// A version was neither a keyword nor a number of at most 16 bits.
    StrToIntError { target: String },
    /// A level was not of the form `show`, `show.seq` or `show.seq.shot`.
    LevelParsingFailure(String),
    /// The locator does not follow the grammar; `cause` describes where.
    UriParsingError { cause: String },
    /// A segment began with a character that may not begin it.
    UriNonAlphaParsingError { problem: String, location: String },
    /// A segment ended in `_`.
    UriUnexpectedUnderscoreParsingError { processed: String, remaining: String },
    /// The text names no scheme.
    ParseError(String),
    /// A setting that the environment must provide is missing.
    EnvVarError { cause: String },
    /// A directory that resolution must read does not exist.
    NonExtantPath(String),
    /// A directory that resolution must read holds no version.
    EmptyDirectory(String),
    /// The snapshot type has no file extension.
    UnknownSnapshotType(String),
    /// The file system refused an operation.
    IoError(String),
}

/// What an `AmuriError` says, with its texts as character sequences.
pub enum ErrorView {
    StrToInt(Seq<char>),
    LevelParsing(Seq<char>),
    UriParsing(Seq<char>),
    UriNonAlpha(Seq<char>, Seq<char>),
    UriUnderscore(Seq<char>, Seq<char>),
    Parse(Seq<char>),
    EnvVar(Seq<char>),
    NonExtantPath(Seq<char>),
    EmptyDirectory(Seq<char>),
    UnknownSnapshotType(Seq<char>),
    Io(Seq<char>),
}

impl View for AmuriError {
    type V = ErrorView;

    open spec fn view(&self) -> ErrorView {
        match self {
            AmuriError::StrToIntError { target } => ErrorView::StrToInt(target@),
            AmuriError::LevelParsingFailure(t) => ErrorView::LevelParsing(t@),
            AmuriError::UriParsingError { cause } => ErrorView::UriParsing(cause@),
            AmuriError::UriNonAlphaParsingError { problem, location } => ErrorView::UriNonAlpha(
                problem@,
                location@,
            ),
            AmuriError::UriUnexpectedUnderscoreParsingError { processed, remaining } =>
                ErrorView::UriUnderscore(processed@, remaining@),
            AmuriError::ParseError(t) => ErrorView::Parse(t@),
            AmuriError::EnvVarError { cause } => ErrorView::EnvVar(cause@),
            AmuriError::NonExtantPath(t) => ErrorView::NonExtantPath(t@),
            AmuriError::EmptyDirectory(t) => ErrorView::EmptyDirectory(t@),
            AmuriError::UnknownSnapshotType(t) => ErrorView::UnknownSnapshotType(t@),
            AmuriError::IoError(t) => ErrorView::Io(t@),
        }
    }
}

} // verus!
