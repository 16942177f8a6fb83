//! Path settings and what the file system made of them.
//!
//! A path setting is either `@{RockGlob(P)}`, which stands for the files that
//! the glob pattern `P` matches, or a plain path.  Finding those files is file
//! system work done outside the library; its answers come back in a
//! `PathTable`, and the library reads them from there.
use vstd::prelude::*;
use crate::json::views;
use crate::keyed::{find_key, keyed_value};
use crate::pattern::{rock_glob_pattern, rock_glob_pattern_spec};

verus! {

/// What a path setting asks of the file system.
pub enum PathRequest {
    /// All paths that match this glob pattern, made absolute.
    Glob(String),
    /// This one path, made absolute.
    Plain(String),
}

/// Classifies a path setting.
pub fn path_request(setting: &str) -> (r: PathRequest)
    ensures
        match r {
            PathRequest::Glob(p) => rock_glob_pattern_spec(setting@) == Some(p@),
            PathRequest::Plain(p) => rock_glob_pattern_spec(setting@) is None && p@ == setting@,
        },
{
    match rock_glob_pattern(setting) {
        Some(p) => PathRequest::Glob(p),
        None => PathRequest::Plain(setting.to_owned()),
    }
}

/// The paths found for each path setting, in the order the settings were
/// resolved.  A setting stands for its first entry.
pub struct PathTable {
    pub entries: Vec<(String, Vec<String>)>,
}

/// The paths recorded for `setting`; none when it was not resolved.
pub open spec fn table_paths(entries: Seq<(String, Vec<String>)>, setting: Seq<char>) -> Seq<Seq<char>> {
    match keyed_value(entries, setting) {
        Some(paths) => views(paths@),
        None => Seq::empty(),
    }
}

impl PathTable {
    /// A table with no entries.
    pub fn new() -> (r: PathTable)
        ensures
            r.entries@.len() == 0,
    {
        PathTable { entries: Vec::new() }
    }

    /// Records the paths found for a setting.
    pub fn add(&mut self, setting: String, paths: Vec<String>)
        ensures
            final(self).entries@ == old(self).entries@.push((setting, paths)),
    {
        self.entries.push((setting, paths));
    }

    /// The paths recorded for `setting`.
    pub fn paths(&self, setting: &str) -> (r: Vec<String>)
        ensures
            views(r@) == table_paths(self.entries@, setting@),
    {
        match find_key(&self.entries, setting) {
            Some(i) => {
                let r = self.entries[i].1.clone();
                assert(r@ == self.entries@[i as int].1@);
                r
            },
            None => {
                let r: Vec<String> = Vec::new();
                assert(views(r@) =~= Seq::<Seq<char>>::empty());
                r
            },
        }
    }
}

} // verus!
