//! The table from snapshot type to file extension.
use crate::text::str_is;
use vstd::prelude::*;

verus! {

/// A read-only lookup from snapshot type to the extension of its files.
pub struct SnapshotTypeMap {
    entries: Vec<(String, String)>,
}

/// The extension of the first entry whose type is `t`.
pub open spec fn lookup_ext(entries: Seq<(Seq<char>, Seq<char>)>, t: Seq<char>) -> Option<Seq<char>>
    decreases entries.len(),
{
    if entries.len() == 0 {
        None
    } else if entries[0].0 == t {
        Some(entries[0].1)
    } else {
        lookup_ext(entries.drop_first(), t)
    }
}

/// The texts of a pair of type and extension.
pub open spec fn pair_view(p: (String, String)) -> (Seq<char>, Seq<char>) {
    (p.0@, p.1@)
}

/// The table that the library knows by default.
pub open spec fn standard_entries() -> Seq<(Seq<char>, Seq<char>)> {
    seq![
        ("maya_model"@, "mb"@),
        ("alembic_model"@, "abc"@),
        ("alembic_cache"@, "abc"@),
        ("usd_model"@, "usd"@),
        ("usd_scene"@, "usda"@),
    ]
}

impl View for SnapshotTypeMap {
    type V = Seq<(Seq<char>, Seq<char>)>;

    closed spec fn view(&self) -> Seq<(Seq<char>, Seq<char>)> {
        self.entries@.map_values(|p: (String, String)| pair_view(p))
    }
}

fn entry(t: &str, ext: &str) -> (r: (String, String))
    ensures
        pair_view(r) == (t@, ext@),
{
    (String::from_str(t), String::from_str(ext))
}

impl SnapshotTypeMap {
    /// The standard table: `maya_model` to `mb`, `alembic_model` and
    /// `alembic_cache` to `abc`, `usd_model` to `usd`, `usd_scene` to `usda`.
    pub fn standard() -> (r: Self)
        ensures
            r@ == standard_entries(),
    {
        let mut entries: Vec<(String, String)> = Vec::new();
        entries.push(entry("maya_model", "mb"));
        entries.push(entry("alembic_model", "abc"));
        entries.push(entry("alembic_cache", "abc"));
        entries.push(entry("usd_model", "usd"));
        entries.push(entry("usd_scene", "usda"));
        let r = SnapshotTypeMap { entries };
        assert(r@ =~= standard_entries());
        r
    }

    /// A table of the given pairs of type and extension; where a type occurs
    /// twice its first pair counts.
    pub fn from_pairs(entries: Vec<(String, String)>) -> (r: Self)
        ensures
            r@ == entries@.map_values(|p: (String, String)| pair_view(p)),
    {
        SnapshotTypeMap { entries }
    }

    /// The extension of the files of snapshot type `t`.
    pub fn get(&self, t: &str) -> (r: Option<&str>)
        ensures
            match lookup_ext(self@, t@) {
                Some(x) => r is Some && r->Some_0@ == x,
                None => r is None,
            },
    {
        let mut i: usize = 0;
        assert(self@.subrange(0, self@.len() as int) =~= self@);
        while i < self.entries.len()
            invariant
                i <= self.entries@.len(),
                self@.len() == self.entries@.len(),
                lookup_ext(self@, t@) == lookup_ext(self@.subrange(i as int, self@.len() as int), t@),
            decreases self.entries.len() - i,
        {
            let ghost rest = self@.subrange(i as int, self@.len() as int);
            assert(rest.drop_first() =~= self@.subrange(i + 1, self@.len() as int));
            assert(rest[0] == pair_view(self.entries@[i as int]));
            if str_is(self.entries[i].0.as_str(), t) {
                return Some(self.entries[i].1.as_str());
            }
            i = i + 1;
        }
        None
    }
}

} // verus!
