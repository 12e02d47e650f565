//! The structured form of a locator.
use crate::errors::{AmuriError, ErrorView};
use crate::level::{Level, LevelOwned, LevelView};
use crate::parse::level::level_of;
use crate::scheme::{scheme_of, Scheme};
use crate::version::{version_of, Version};
use crate::text::str_is;
use vstd::prelude::*;

verus! {

/// A parsed locator, borrowing its texts from the string it was read from.
#[derive(Debug, PartialEq, Eq, Clone)]
pub struct AssetModel<'a> {
    pub container_type: Scheme,
    pub level: Level<'a>,
    pub name: &'a str,
    pub department: &'a str,
    pub subcontext: &'a str,
    pub snapshot_type: &'a str,
    pub version: Option<Version>,
    /// The particular filetype we are interested in
    pub key: Option<&'a str>,
    /// Whether resolution may create a missing version directory.
    pub create_missing: bool,
}

/// What a model holds, with its texts as character sequences.
pub struct AssetModelView {
    pub container_type: Scheme,
    pub level: LevelView,
    pub name: Seq<char>,
    pub department: Seq<char>,
    pub subcontext: Seq<char>,
    pub snapshot_type: Seq<char>,
    pub version: Option<Version>,
    pub key: Option<Seq<char>>,
    pub create_missing: bool,
}

/// The text of an optional borrowed string.
pub open spec fn opt_view(k: Option<&str>) -> Option<Seq<char>> {
    match k {
        Some(t) => Some(t@),
        None => None,
    }
}

/// The text of an optional owned string.
pub open spec fn opt_string_view(k: Option<String>) -> Option<Seq<char>> {
    match k {
        Some(t) => Some(t@),
        None => None,
    }
}

impl<'a> View for AssetModel<'a> {
    type V = AssetModelView;

    open spec fn view(&self) -> AssetModelView {
        AssetModelView {
            container_type: self.container_type,
            level: self.level@,
            name: self.name@,
            department: self.department@,
            subcontext: self.subcontext@,
            snapshot_type: self.snapshot_type@,
            version: self.version,
            key: opt_view(self.key),
            create_missing: self.create_missing,
        }
    }
}

/// The flag that the text of a `create` setting gives: only `true` sets it.
pub open spec fn create_flag(t: Seq<char>) -> bool {
    t == seq!['t', 'r', 'u', 'e']
}

/// The model that `from_strs` builds from its texts, or the first of its
/// errors: the scheme, then the level, then the version.
pub open spec fn model_from_strs(
    container_type: Seq<char>,
    level: Seq<char>,
    name: Seq<char>,
    department: Seq<char>,
    subcontext: Seq<char>,
    snapshot_type: Seq<char>,
    version: Option<Seq<char>>,
    key: Option<Seq<char>>,
    create: Seq<char>,
) -> Result<AssetModelView, ErrorView> {
    match scheme_of(container_type) {
        None => Err(ErrorView::Parse(container_type)),
        Some(sc) => match level_of(level) {
            None => Err(ErrorView::LevelParsing(level)),
            Some(lv) => {
                let v = match version {
                    None => Ok(None),
                    Some(t) => match version_of(t) {
                        Some(x) => Ok(Some(x)),
                        None => Err(ErrorView::StrToInt(t)),
                    },
                };
                match v {
                    Err(e) => Err(e),
                    Ok(v) => Ok(
                        AssetModelView {
                            container_type: sc,
                            level: lv,
                            name,
                            department,
                            subcontext,
                            snapshot_type,
                            version: v,
                            key,
                            create_missing: create_flag(create),
                        },
                    ),
                }
            },
        },
    }
}

impl<'a> AssetModel<'a> {
    /// A model of the given parts.
    pub fn new(
        container_type: Scheme,
        level: Level<'a>,
        name: &'a str,
        department: &'a str,
        subcontext: &'a str,
        snapshot_type: &'a str,
        version: Option<Version>,
        key: Option<&'a str>,
        create_missing: bool,
    ) -> (r: Self)
        ensures
            r@ == (AssetModelView {
                container_type,
                level: level@,
                name: name@,
                department: department@,
                subcontext: subcontext@,
                snapshot_type: snapshot_type@,
                version,
                key: opt_view(key),
                create_missing,
            }),
    {
        Self {
            container_type,
            level,
            name,
            department,
            subcontext,
            snapshot_type,
            version,
            key,
            create_missing,
        }
    }

    /// Builds a model from the texts of its parts. The scheme, the level and
    /// the version are read as the parser reads them; `create` sets the flag
    /// when it is `true`.
    pub fn from_strs(
        container_type: &'a str,
        level: &'a str,
        name: &'a str,
        department: &'a str,
        subcontext: &'a str,
        snapshot_type: &'a str,
        version: Option<&'a str>,
        key: Option<&'a str>,
        create: &'a str,
    ) -> (r: Result<AssetModel<'a>, AmuriError>)
        ensures
            match model_from_strs(
                container_type@,
                level@,
                name@,
                department@,
                subcontext@,
                snapshot_type@,
                opt_view(version),
                opt_view(key),
                create@,
            ) {
                Ok(m) => r is Ok && r->Ok_0@ == m,
                Err(e) => r is Err && r->Err_0@ == e,
            },
    {
        let container_type = Scheme::from_str(container_type)?;
        let level = Level::from_str(level)?;
        let version = match version {
            Some(t) => Some(Version::from_str(t)?),
            None => None,
        };
        proof {
            reveal_strlit("true");
            assert("true"@ =~= seq!['t', 'r', 'u', 'e']);
        }
        let create_missing = str_is(create, "true");
        Ok(
            AssetModel::new(
                container_type,
                level,
                name,
                department,
                subcontext,
                snapshot_type,
                version,
                key,
                create_missing,
            ),
        )
    }

    /// The same model, owning its texts.
    pub fn to_owned(&self) -> (r: OwnedAssetModel)
        ensures
            r@ == self@,
    {
        let key = match self.key {
            Some(k) => Some(String::from_str(k)),
            None => None,
        };
        OwnedAssetModel {
            container_type: self.container_type,
            level: self.level.to_owned(),
            name: String::from_str(self.name),
            department: String::from_str(self.department),
            subcontext: String::from_str(self.subcontext),
            snapshot_type: String::from_str(self.snapshot_type),
            version: self.version,
            key,
            create_missing: self.create_missing,
        }
    }
}

/// A parsed locator that owns its texts.
#[derive(Debug, PartialEq, Eq, Clone)]
pub struct OwnedAssetModel {
    pub container_type: Scheme,
    pub level: LevelOwned,
    pub name: String,
    pub department: String,
    pub subcontext: String,
    pub snapshot_type: String,
    pub version: Option<Version>,
    /// The particular filetype we are interested in
    pub key: Option<String>,
    /// Whether resolution may create a missing version directory.
    pub create_missing: bool,
}

impl View for OwnedAssetModel {
    type V = AssetModelView;

    open spec fn view(&self) -> AssetModelView {
        AssetModelView {
            container_type: self.container_type,
            level: self.level@,
            name: self.name@,
            department: self.department@,
            subcontext: self.subcontext@,
            snapshot_type: self.snapshot_type@,
            version: self.version,
            key: opt_string_view(self.key),
            create_missing: self.create_missing,
        }
    }
}

impl OwnedAssetModel {
    /// The owned form of a borrowed model.
    pub fn from(input: AssetModel<'_>) -> (r: Self)
        ensures
            r@ == input@,
    {
        input.to_owned()
    }
}

} // verus!
