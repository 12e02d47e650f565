//! Resolution of a model into the path of the file it names, under a
//! repository root laid out as
//! `<root>/<show>[/<sequence>[/<shot>]]/<name>/<department>/<subcontext>/<snapshot_type>/<version>/<key>.<ext>`.
//!
//! Reading the version directory and creating it are left to the caller:
//! `Client::begin` says which directory to read, if any, and
//! `Client::resolve` takes what was read and says which directory, if any, to
//! create.
use crate::assetmodel::{AssetModelView, OwnedAssetModel};
use crate::errors::{AmuriError, ErrorView};
use crate::level::{LevelOwned, LevelView};
use crate::snapshot_type::{lookup_ext, SnapshotTypeMap};
use crate::text::{chars_of, pad4, padded4, parse_u16, str_is, u16_of};
use crate::version::Version;
use vstd::prelude::*;

verus! {

/// A file record of the remote service.
#[derive(Debug, PartialEq, Eq)]
pub struct FileRecord {
    pub file_type: String,
    pub source_path: String,
}

/// The file records of the remote service.
#[derive(Debug, PartialEq, Eq)]
pub struct Files {
    pub files: Vec<FileRecord>,
}

/// Resolves models under a repository root.
pub struct Client {
    base_dir: String,
}

/// What the caller found when it read a version directory.
pub enum DirListing {
    /// Nothing exists at the path.
    Missing,
    /// Something that is not a directory exists at the path.
    NotADirectory,
    /// The names of the directory's entries, in any order.
    Entries(Vec<String>),
}

/// What a `DirListing` holds, with the names as character sequences.
pub enum ListingView {
    Missing,
    NotADirectory,
    Entries(Seq<Seq<char>>),
}

impl View for DirListing {
    type V = ListingView;

    open spec fn view(&self) -> ListingView {
        match self {
            DirListing::Missing => ListingView::Missing,
            DirListing::NotADirectory => ListingView::NotADirectory,
            DirListing::Entries(v) => ListingView::Entries(v@.map_values(|e: String| e@)),
        }
    }
}

/// The outcome of a resolution: the path of the file, and the version
/// directory that the caller must create first, if any.
pub struct Resolution {
    pub path: String,
    pub create_dir: Option<String>,
}

/// What a `Resolution` holds, with its paths as character sequences.
pub struct ResolutionView {
    pub path: Seq<char>,
    pub create_dir: Option<Seq<char>>,
}

impl View for Resolution {
    type V = ResolutionView;

    open spec fn view(&self) -> ResolutionView {
        ResolutionView {
            path: self.path@,
            create_dir: match self.create_dir {
                Some(d) => Some(d@),
                None => None,
            },
        }
    }
}

/// The next step of a resolution.
pub enum Step {
    /// Read this directory and hand what was found to `Client::resolve`.
    List(String),
    /// The resolution is complete.
    Done(Resolution),
}

/// `comp` appended to the path `base` as one more component.
pub open spec fn join(base: Seq<char>, comp: Seq<char>) -> Seq<char> {
    if base.len() == 0 {
        comp
    } else if base.last() == '/' {
        base + comp
    } else {
        base + seq!['/'] + comp
    }
}

/// Each component of `comps` appended to `base` in turn.
pub open spec fn join_all(base: Seq<char>, comps: Seq<Seq<char>>) -> Seq<char>
    decreases comps.len(),
{
    if comps.len() == 0 {
        base
    } else {
        join(join_all(base, comps.drop_last()), comps.last())
    }
}

/// The parts of a level, outermost first.
pub open spec fn level_parts(l: LevelView) -> Seq<Seq<char>> {
    match l {
        LevelView::Show(a) => seq![a],
        LevelView::Sequence(a, b) => seq![a, b],
        LevelView::Shot(a, b, c) => seq![a, b, c],
    }
}

/// The directory that holds the versions of a model.
pub open spec fn version_dir(root: Seq<char>, m: AssetModelView) -> Seq<char> {
    join_all(
        root,
        level_parts(m.level) + seq![m.name, m.department, m.subcontext, m.snapshot_type],
    )
}

/// The name of the file: the key, or `main`, then `.` and the extension.
pub open spec fn file_name(m: AssetModelView, ext: Seq<char>) -> Seq<char> {
    let key = match m.key {
        Some(k) => k,
        None => seq!['m', 'a', 'i', 'n'],
    };
    key + seq!['.'] + ext
}

/// Whether `a` comes strictly before `b` in the order of their characters,
/// comparing from position `i` on.
pub open spec fn lex_less_from(a: Seq<char>, b: Seq<char>, i: int) -> bool
    decreases a.len() - i,
{
    if i < 0 || i >= a.len() {
        i >= 0 && i < b.len()
    } else if i >= b.len() {
        false
    } else if a[i] != b[i] {
        a[i] < b[i]
    } else {
        lex_less_from(a, b, i + 1)
    }
}

/// The order of strings: `a` comes strictly before `b`.
pub open spec fn lex_less(a: Seq<char>, b: Seq<char>) -> bool {
    lex_less_from(a, b, 0)
}

/// The name of the version that is always current.
pub open spec fn current_name() -> Seq<char> {
    seq!['c', 'u', 'r', 'r', 'e', 'n', 't']
}

/// The greatest entry in the order of strings, `current` left out.
pub open spec fn latest_of(entries: Seq<Seq<char>>) -> Option<Seq<char>>
    decreases entries.len(),
{
    if entries.len() == 0 {
        None
    } else {
        let prev = latest_of(entries.drop_last());
        let x = entries.last();
        if x == current_name() {
            prev
        } else {
            match prev {
                None => Some(x),
                Some(p) => if lex_less(p, x) {
                    Some(x)
                } else {
                    Some(p)
                },
            }
        }
    }
}

/// The latest version in the directory `dir`, as read: a missing path or one
/// that is not a directory, and a directory with no version, are errors.
pub open spec fn latest_in(dir: Seq<char>, l: ListingView) -> Result<Seq<char>, ErrorView> {
    match l {
        ListingView::Entries(e) => match latest_of(e) {
            Some(x) => Ok(x),
            None => Err(ErrorView::EmptyDirectory(dir)),
        },
        _ => Err(ErrorView::NonExtantPath(dir)),
    }
}

/// The version after the latest, four digits at least. Where there is no
/// latest, the error of `latest_in`; a latest that is not a number of 16 bits
/// is an error.
pub open spec fn next_in(dir: Seq<char>, l: ListingView) -> Result<Seq<char>, ErrorView> {
    match latest_in(dir, l) {
        Err(e) => Err(e),
        Ok(x) => match u16_of(x) {
            Some(n) => Ok(pad4((n + 1) as nat)),
            None => Err(ErrorView::StrToInt(x)),
        },
    }
}

/// The version that `next` resolves to: that of `next_in`, or `0001` when
/// the directory is missing, is not a directory, or holds no version.
pub open spec fn next_version(dir: Seq<char>, l: ListingView) -> Result<Seq<char>, ErrorView> {
    match next_in(dir, l) {
        Err(ErrorView::NonExtantPath(_)) => Ok(seq!['0', '0', '0', '1']),
        Err(ErrorView::EmptyDirectory(_)) => Ok(seq!['0', '0', '0', '1']),
        r => r,
    }
}

/// Whether resolving `v` reads the version directory.
pub open spec fn reads_listing(v: Option<Version>) -> bool {
    v == Some(Version::Latest) || v == Some(Version::Next)
}

/// The resolution of the model `m` under `root`, with the table `table`,
/// given what reading the version directory found (consulted for `latest`
/// and `next` only).
pub open spec fn resolve_spec(
    root: Seq<char>,
    m: AssetModelView,
    table: Seq<(Seq<char>, Seq<char>)>,
    l: ListingView,
) -> Result<ResolutionView, ErrorView> {
    match lookup_ext(table, m.snapshot_type) {
        None => Err(ErrorView::UnknownSnapshotType(m.snapshot_type)),
        Some(ext) => {
            let dir = version_dir(root, m);
            let file = file_name(m, ext);
            let v = match m.version {
                Some(v) => v,
                None => Version::Current,
            };
            match v {
                Version::Current => Ok(
                    ResolutionView { path: join(join(dir, current_name()), file), create_dir: None },
                ),
                Version::Number(n) => Ok(
                    ResolutionView { path: join(join(dir, pad4(n as nat)), file), create_dir: None },
                ),
                Version::Latest => match latest_in(dir, l) {
                    Err(e) => Err(e),
                    Ok(x) => Ok(ResolutionView { path: join(join(dir, x), file), create_dir: None }),
                },
                Version::Next => match next_version(dir, l) {
                    Err(e) => Err(e),
                    Ok(x) => Ok(
                        ResolutionView {
                            path: join(join(dir, x), file),
                            create_dir: if m.create_missing {
                                Some(join(dir, x))
                            } else {
                                None
                            },
                        },
                    ),
                },
            }
        },
    }
}

proof fn lemma_join_all_push(base: Seq<char>, comps: Seq<Seq<char>>, c: Seq<char>)
    ensures
        join_all(base, comps.push(c)) == join(join_all(base, comps), c),
{
    assert(comps.push(c).drop_last() =~= comps);
}

/// Appends `comp` to the path `path` as one more component.
pub fn push_component(path: &mut String, comp: &str)
    ensures
        final(path)@ == join(old(path)@, comp@),
{
    proof {
        reveal_strlit("/");
    }
    let n = path.as_str().unicode_len();
    if n == 0 {
        path.append(comp);
    } else if path.as_str().get_char(n - 1) == '/' {
        path.append(comp);
    } else {
        path.append("/");
        path.append(comp);
    }
}

/// Tells whether `a` comes strictly before `b` in the order of strings.
pub fn str_less(a: &str, b: &str) -> (r: bool)
    ensures
        r == lex_less(a@, b@),
{
    let x = chars_of(a);
    let y = chars_of(b);
    let mut i: usize = 0;
    while i < x.len() && i < y.len() && x[i] == y[i]
        invariant
            i <= x.len(),
            i <= y.len(),
            lex_less_from(x@, y@, i as int) == lex_less_from(x@, y@, 0),
        decreases x.len() - i,
    {
        i = i + 1;
    }
    if i >= x.len() {
        i < y.len()
    } else if i >= y.len() {
        false
    } else {
        x[i] < y[i]
    }
}

/// The latest version in the directory at `path`, from what reading it
/// found.
pub fn get_latest(path: &str, listing: &DirListing) -> (r: Result<String, AmuriError>)
    ensures
        match latest_in(path@, listing@) {
            Ok(x) => r is Ok && r->Ok_0@ == x,
            Err(e) => r is Err && r->Err_0@ == e,
        },
        r is Ok ==> (listing@ matches ListingView::Entries(e) && e.contains(r->Ok_0@) && r->Ok_0@
            != current_name() && forall|k: int|
            0 <= k < e.len() && e[k] != current_name() ==> !lex_less(r->Ok_0@, #[trigger] e[k])),
{
    proof {
        if let ListingView::Entries(e) = listing@ {
            lemma_latest_of(e);
        }
    }
    let entries = match listing {
        DirListing::Entries(v) => v,
        _ => {
            return Err(AmuriError::NonExtantPath(String::from_str(path)));
        },
    };
    let ghost ev = entries@.map_values(|e: String| e@);
    proof {
        reveal_strlit("current");
        assert("current"@ =~= current_name());
    }
    let mut best: Option<usize> = None;
    let mut i: usize = 0;
    while i < entries.len()
        invariant
            i <= entries.len(),
            ev == entries@.map_values(|e: String| e@),
            "current"@ == current_name(),
            match latest_of(ev.take(i as int)) {
                None => best is None,
                Some(x) => best is Some && best->Some_0 < i && entries@[best->Some_0 as int]@ == x,
            },
        decreases entries.len() - i,
    {
        assert(ev.take(i + 1).drop_last() =~= ev.take(i as int));
        assert(ev.take(i + 1).last() == entries@[i as int]@);
        let name = entries[i].as_str();
        if !str_is(name, "current") {
            match best {
                None => {
                    best = Some(i);
                },
                Some(b) => {
                    if str_less(entries[b].as_str(), name) {
                        best = Some(i);
                    }
                },
            }
        }
        i = i + 1;
    }
    assert(ev.take(i as int) =~= ev);
    match best {
        Some(b) => Ok(entries[b].clone()),
        None => Err(AmuriError::EmptyDirectory(String::from_str(path))),
    }
}

/// The version after the latest in the directory at `path`, from what
/// reading it found; where there is no latest, the error that says why.
pub fn get_next(path: &str, listing: &DirListing) -> (r: Result<String, AmuriError>)
    ensures
        match next_in(path@, listing@) {
            Ok(x) => r is Ok && r->Ok_0@ == x,
            Err(e) => r is Err && r->Err_0@ == e,
        },
{
    match get_latest(path, listing) {
        Err(e) => Err(e),
        Ok(latest) => match parse_u16(latest.as_str()) {
            Some(n) => Ok(padded4(n as u32 + 1)),
            None => Err(AmuriError::StrToIntError { target: latest }),
        },
    }
}

impl Client {
    /// New up a client given the base directory
    pub fn new(base_dir: &str) -> (r: Self)
        ensures
            r.root() == base_dir@,
    {
        Self { base_dir: String::from_str(base_dir) }
    }

    /// The repository root.
    pub closed spec fn root(&self) -> Seq<char> {
        self.base_dir@
    }

    /// Retrieve the base directory
    pub fn get_root(&self) -> (r: &str)
        ensures
            r@ == self.root(),
    {
        self.base_dir.as_str()
    }

    /// The directory that holds the versions of `m`.
    pub fn version_dir(&self, m: &OwnedAssetModel) -> (r: String)
        ensures
            r@ == version_dir(self.root(), m@),
    {
        let mut path = self.base_dir.clone();
        let ghost root = path@;
        let ghost mut done: Seq<Seq<char>> = seq![];
        match &m.level {
            LevelOwned::Show(a) => {
                push_component(&mut path, a.as_str());
                proof { lemma_join_all_push(root, done, a@); done = done.push(a@); }
            },
            LevelOwned::Sequence { show, sequence } => {
                push_component(&mut path, show.as_str());
                proof { lemma_join_all_push(root, done, show@); done = done.push(show@); }
                push_component(&mut path, sequence.as_str());
                proof { lemma_join_all_push(root, done, sequence@); done = done.push(sequence@); }
            },
            LevelOwned::Shot { show, sequence, shot } => {
                push_component(&mut path, show.as_str());
                proof { lemma_join_all_push(root, done, show@); done = done.push(show@); }
                push_component(&mut path, sequence.as_str());
                proof { lemma_join_all_push(root, done, sequence@); done = done.push(sequence@); }
                push_component(&mut path, shot.as_str());
                proof { lemma_join_all_push(root, done, shot@); done = done.push(shot@); }
            },
        }
        assert(done =~= level_parts(m@.level));
        push_component(&mut path, m.name.as_str());
        proof { lemma_join_all_push(root, done, m.name@); done = done.push(m.name@); }
        push_component(&mut path, m.department.as_str());
        proof { lemma_join_all_push(root, done, m.department@); done = done.push(m.department@); }
        push_component(&mut path, m.subcontext.as_str());
        proof { lemma_join_all_push(root, done, m.subcontext@); done = done.push(m.subcontext@); }
        push_component(&mut path, m.snapshot_type.as_str());
        proof { lemma_join_all_push(root, done, m.snapshot_type@); done = done.push(m.snapshot_type@); }
        assert(done =~= level_parts(m@.level) + seq![m@.name, m@.department, m@.subcontext, m@.snapshot_type]);
        path
    }

    /// The file name of `m`, with extension `ext`.
    fn file_name(m: &OwnedAssetModel, ext: &str) -> (r: String)
        ensures
            r@ == file_name(m@, ext@),
    {
        proof {
            reveal_strlit("main");
            reveal_strlit(".");
            assert("main"@ =~= seq!['m', 'a', 'i', 'n']);
        }
        let mut name = match &m.key {
            Some(k) => k.clone(),
            None => String::from_str("main"),
        };
        name.append(".");
        name.append(ext);
        name
    }

    /// The first step of resolving `m`: an error for a snapshot type that
    /// `table` does not know, before anything is read; the directory to read
    /// for `latest` and `next`; the finished resolution otherwise.
    pub fn begin(&self, m: &OwnedAssetModel, table: &SnapshotTypeMap) -> (r: Result<Step, AmuriError>)
        ensures
            lookup_ext(table@, m@.snapshot_type) is None ==> r is Err && r->Err_0@
                == ErrorView::UnknownSnapshotType(m@.snapshot_type),
            lookup_ext(table@, m@.snapshot_type) is Some && reads_listing(m@.version) ==> (r matches Ok(
                Step::List(d),
            ) && d@ == version_dir(self.root(), m@)),
            lookup_ext(table@, m@.snapshot_type) is Some && !reads_listing(m@.version) ==> (r matches Ok(
                Step::Done(res),
            ) && resolve_spec(self.root(), m@, table@, ListingView::Missing) == Ok::<
                ResolutionView,
                ErrorView,
            >(res@)),
    {
        if table.get(m.snapshot_type.as_str()).is_none() {
            return Err(AmuriError::UnknownSnapshotType(m.snapshot_type.clone()));
        }
        match m.version {
            Some(Version::Latest) | Some(Version::Next) => Ok(Step::List(self.version_dir(m))),
            _ => {
                let res = self.resolve(m, table, &DirListing::Missing)?;
                Ok(Step::Done(res))
            },
        }
    }

    /// Resolves `m` with the table `table`, given what reading its version
    /// directory found (consulted for `latest` and `next` only).
    pub fn resolve(&self, m: &OwnedAssetModel, table: &SnapshotTypeMap, listing: &DirListing) -> (r:
        Result<Resolution, AmuriError>)
        ensures
            match resolve_spec(self.root(), m@, table@, listing@) {
                Ok(x) => r is Ok && r->Ok_0@ == x,
                Err(e) => r is Err && r->Err_0@ == e,
            },
    {
        let ext = match table.get(m.snapshot_type.as_str()) {
            Some(x) => x,
            None => {
                return Err(AmuriError::UnknownSnapshotType(m.snapshot_type.clone()));
            },
        };
        proof {
            reveal_strlit("current");
            assert("current"@ =~= current_name());
        }
        let dir = self.version_dir(m);
        let file = Self::file_name(m, ext);
        let mut path = dir.clone();
        let mut create_dir: Option<String> = None;
        match m.version {
            None | Some(Version::Current) => {
                push_component(&mut path, "current");
            },
            Some(Version::Number(n)) => {
                let v = padded4(n as u32);
                push_component(&mut path, v.as_str());
            },
            Some(Version::Latest) => {
                let v = get_latest(dir.as_str(), listing)?;
                push_component(&mut path, v.as_str());
            },
            Some(Version::Next) => {
                proof {
                    reveal_strlit("0001");
                    assert("0001"@ =~= seq!['0', '0', '0', '1']);
                }
                let v = match get_next(dir.as_str(), listing) {
                    Ok(v) => v,
                    Err(AmuriError::NonExtantPath(_)) => String::from_str("0001"),
                    Err(AmuriError::EmptyDirectory(_)) => String::from_str("0001"),
                    Err(e) => {
                        return Err(e);
                    },
                };
                push_component(&mut path, v.as_str());
                if m.create_missing {
                    create_dir = Some(path.clone());
                }
            },
        }
        push_component(&mut path, file.as_str());
        Ok(Resolution { path, create_dir })
    }
}

/// Of two different texts, one comes before the other.
proof fn lemma_lex_total(a: Seq<char>, b: Seq<char>, i: int)
    requires
        0 <= i <= a.len(),
        i <= b.len(),
        a.skip(i) != b.skip(i),
    ensures
        lex_less_from(a, b, i) || lex_less_from(b, a, i),
    decreases a.len() - i,
{
    if i < a.len() && i < b.len() && a[i] == b[i] {
        assert(a.skip(i + 1) != b.skip(i + 1)) by {
            if a.skip(i + 1) == b.skip(i + 1) {
                assert(a.skip(i) =~= seq![a[i]] + a.skip(i + 1));
                assert(b.skip(i) =~= seq![b[i]] + b.skip(i + 1));
            }
        }
        lemma_lex_total(a, b, i + 1);
    } else if i == a.len() && i == b.len() {
        assert(a.skip(i) =~= b.skip(i));
    }
}

/// The order of texts is transitive.
proof fn lemma_lex_trans(a: Seq<char>, b: Seq<char>, c: Seq<char>, i: int)
    requires
        0 <= i,
        lex_less_from(a, b, i),
        lex_less_from(b, c, i),
    ensures
        lex_less_from(a, c, i),
    decreases a.len() - i,
{
    if i < a.len() && i < b.len() && i < c.len() && a[i] == b[i] && b[i] == c[i] {
        lemma_lex_trans(a, b, c, i + 1);
    }
}

/// The order of texts is irreflexive.
proof fn lemma_lex_irreflexive(a: Seq<char>, i: int)
    requires
        0 <= i,
    ensures
        !lex_less_from(a, a, i),
    decreases a.len() - i,
{
    if i < a.len() {
        lemma_lex_irreflexive(a, i + 1);
    }
}

/// What `latest_of` picks: nothing when every entry is `current`, else an
/// entry other than `current` that no other such entry comes after.
pub proof fn lemma_latest_of(e: Seq<Seq<char>>)
    ensures
        latest_of(e) is None <==> (forall|k: int| 0 <= k < e.len() ==> e[k] == current_name()),
        latest_of(e) matches Some(x) ==> e.contains(x) && x != current_name() && (forall|k: int|
            0 <= k < e.len() && e[k] != current_name() ==> !lex_less(x, #[trigger] e[k])),
    decreases e.len(),
{
    if e.len() > 0 {
        let init = e.drop_last();
        let x = e.last();
        lemma_latest_of(init);
        assert(forall|k: int| 0 <= k < init.len() ==> init[k] == #[trigger] e[k]);
        match latest_of(init) {
            None => {
                if x != current_name() {
                    assert(e[e.len() - 1] == x);
                    lemma_lex_irreflexive(x, 0);
                }
            },
            Some(p) => {
                let k0 = choose|k: int| 0 <= k < init.len() && init[k] == p;
                assert(e[k0] == p);
                if x != current_name() {
                    if lex_less(p, x) {
                        assert(e[e.len() - 1] == x);
                        assert forall|k: int| 0 <= k < e.len() && e[k] != current_name() implies !lex_less(
                            x,
                            #[trigger] e[k],
                        ) by {
                            if k < init.len() && lex_less(x, e[k]) {
                                lemma_lex_trans(p, x, e[k], 0);
                            }
                            if k == e.len() - 1 {
                                lemma_lex_irreflexive(x, 0);
                            }
                        }
                    }
                }
            },
        }
    }
}

/// The entry that `latest_of` picks depends on which entries there are, not
/// on their order or repetition.
proof fn lemma_latest_of_same_entries(e1: Seq<Seq<char>>, e2: Seq<Seq<char>>)
    requires
        forall|x: Seq<char>| e1.contains(x) <==> e2.contains(x),
    ensures
        latest_of(e1) == latest_of(e2),
{
    lemma_latest_of(e1);
    lemma_latest_of(e2);
    if latest_of(e1) is None && latest_of(e2) is Some {
        let x = latest_of(e2)->Some_0;
        assert(e1.contains(x));
    } else if latest_of(e2) is None && latest_of(e1) is Some {
        let x = latest_of(e1)->Some_0;
        assert(e2.contains(x));
    } else if latest_of(e1) is Some {
        let x1 = latest_of(e1)->Some_0;
        let x2 = latest_of(e2)->Some_0;
        assert(e2.contains(x1));
        assert(e1.contains(x2));
        let k1 = choose|k: int| 0 <= k < e2.len() && e2[k] == x1;
        let k2 = choose|k: int| 0 <= k < e1.len() && e1[k] == x2;
        assert(!lex_less(x2, e2[k1]));
        assert(!lex_less(x1, e1[k2]));
        if x1 != x2 {
            assert(x1.skip(0) =~= x1);
            assert(x2.skip(0) =~= x2);
            lemma_lex_total(x1, x2, 0);
        }
    }
}

/// Resolving the same model twice against an unchanged directory gives the
/// same result: the result depends on which entries the version directory
/// holds, not on the order in which they were listed.
pub proof fn lemma_resolution_stable(
    root: Seq<char>,
    m: AssetModelView,
    table: Seq<(Seq<char>, Seq<char>)>,
    e1: Seq<Seq<char>>,
    e2: Seq<Seq<char>>,
)
    requires
        forall|x: Seq<char>| e1.contains(x) <==> e2.contains(x),
    ensures
        resolve_spec(root, m, table, ListingView::Entries(e1)) == resolve_spec(
            root,
            m,
            table,
            ListingView::Entries(e2),
        ),
{
    lemma_latest_of_same_entries(e1, e2);
}

/// Resolution asks for a directory to be created only for `next` with the
/// `create` flag set; every other resolution leaves the directory tree as it
/// was.
pub proof fn lemma_creates_only_for_next(
    root: Seq<char>,
    m: AssetModelView,
    table: Seq<(Seq<char>, Seq<char>)>,
    l: ListingView,
)
    ensures
        resolve_spec(root, m, table, l) matches Ok(r) && r.create_dir is Some ==> m.version == Some(
            Version::Next,
        ) && m.create_missing,
{
}

} // verus!
