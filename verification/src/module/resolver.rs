//! Module path resolution: which files may hold a module, and where the
//! resolver looks for them.  Whether a file exists is for the caller to
//! find out.

use vstd::prelude::*;
use crate::util::text::str_eq;

verus! {

/// `dir` and `rest` joined by a path separator.
pub open spec fn joined(dir: Seq<char>, rest: Seq<char>) -> Seq<char> {
    dir + "/"@ + rest
}

/// The files that may hold module `name` in directory `dir`, in the order
/// they are tried: `dir/name.box`, `dir/mod.box`, `dir/name/mod.box`.
pub open spec fn candidate_files(dir: Seq<char>, name: Seq<char>) -> Seq<Seq<char>> {
    seq![joined(dir, name + ".box"@), joined(dir, "mod.box"@), joined(dir, name + "/mod.box"@)]
}

fn join_str(dir: &str, rest: &str) -> (s: String)
    ensures
        s@ == joined(dir@, rest@),
{
    let mut s = dir.to_owned();
    s.append("/");
    s.append(rest);
    s
}

/// The files that may hold module `name` in directory `dir`, in order.
pub fn candidates(dir: &str, name: &str) -> (r: Vec<String>)
    ensures
        r@.map_values(|s: String| s@) == candidate_files(dir@, name@),
{
    let mut file = name.to_owned();
    file.append(".box");
    let mut nested = name.to_owned();
    nested.append("/mod.box");
    let mut r = Vec::new();
    r.push(join_str(dir, file.as_str()));
    r.push(join_str(dir, "mod.box"));
    r.push(join_str(dir, nested.as_str()));
    proof {
        assert(r@.map_values(|s: String| s@) =~= candidate_files(dir@, name@));
    }
    r
}

/// Where modules are looked for: the standard library's root, if known,
/// and the search paths, each listed once.
pub struct ModuleResolver {
    std_path: Option<String>,
    search_paths: Vec<String>,
}

impl ModuleResolver {
    pub closed spec fn std_root(&self) -> Option<Seq<char>> {
        match self.std_path {
            Some(p) => Some(p@),
            None => None,
        }
    }

    pub closed spec fn paths(&self) -> Seq<Seq<char>> {
        self.search_paths@.map_values(|s: String| s@)
    }

    /// A resolver that searches the current directory `.`; the process's
    /// working directory is added by the caller with `add_search_path`.
    pub fn new() -> (r: Self)
        ensures
            r.std_root() is None,
            r.paths() == seq!["."@],
    {
        let mut search_paths = Vec::new();
        search_paths.push(".".to_owned());
        let r = ModuleResolver { std_path: None, search_paths };
        proof {
            assert(r.paths() =~= seq!["."@]);
        }
        r
    }

    pub fn set_std_path(&mut self, path: String)
        ensures
            final(self).std_root() == Some(path@),
            final(self).paths() == old(self).paths(),
    {
        self.std_path = Some(path);
    }

    /// Adds a search path unless it is already listed.
    pub fn add_search_path(&mut self, path: String)
        ensures
            final(self).std_root() == old(self).std_root(),
            final(self).paths() == (if old(self).paths().contains(path@) {
                old(self).paths()
            } else {
                old(self).paths().push(path@)
            }),
    {
        let mut i: usize = 0;
        while i < self.search_paths.len()
            invariant
                i <= self.search_paths@.len(),
                self.search_paths == old(self).search_paths,
                self.std_path == old(self).std_path,
                forall|k: int| 0 <= k < i ==> #[trigger] self.paths()[k] != path@,
            decreases self.search_paths@.len() - i,
        {
            proof {
                assert(self.paths()[i as int] == self.search_paths@[i as int]@);
            }
            if str_eq(self.search_paths[i].as_str(), path.as_str()) {
                proof {
                    assert(self.paths().contains(path@));
                }
                return;
            }
            i = i + 1;
        }
        proof {
            assert(!self.paths().contains(path@));
        }
        self.search_paths.push(path);
        proof {
            assert(self.paths() =~= old(self).paths().push(path@));
        }
    }

    /// The standard library's root, if set.
    pub fn std_path(&self) -> (r: Option<&str>)
        ensures
            match r {
                Some(p) => self.std_root() == Some(p@),
                None => self.std_root() is None,
            },
    {
        match &self.std_path {
            Some(p) => Some(p.as_str()),
            None => None,
        }
    }

    /// The search paths, in the order they are tried.
    pub fn search_paths(&self) -> (r: &[String])
        ensures
            r@.map_values(|s: String| s@) == self.paths(),
    {
        self.search_paths.as_slice()
    }
}

impl Default for ModuleResolver {
    fn default() -> (r: Self)
        ensures
            r.std_root() is None,
            r.paths() == seq!["."@],
    {
        ModuleResolver::new()
    }
}

} // verus!
