//! Bookkeeping of the standard library modules that were loaded.  Reading
//! and parsing the files is for the caller.

use vstd::prelude::*;
use crate::util::text::str_eq;

verus! {

/// Remembers sources by path.
pub struct ModuleLoader {
    cache: Vec<(String, String)>,
}

impl ModuleLoader {
    pub closed spec fn cached(&self) -> nat {
        self.cache@.len()
    }

    pub fn new() -> (l: Self)
        ensures
            l.cached() == 0,
    {
        ModuleLoader { cache: Vec::new() }
    }
}

impl Default for ModuleLoader {
    fn default() -> (l: Self)
        ensures
            l.cached() == 0,
    {
        ModuleLoader::new()
    }
}

/// The names of the standard library modules loaded so far, each once, in
/// load order.
pub struct StdLoader {
    loader: ModuleLoader,
    loaded_modules: Vec<String>,
}

impl StdLoader {
    pub closed spec fn loaded(&self) -> Seq<Seq<char>> {
        self.loaded_modules@.map_values(|s: String| s@)
    }

    pub fn new() -> (l: Self)
        ensures
            l.loaded() == Seq::<Seq<char>>::empty(),
    {
        let l = StdLoader { loader: ModuleLoader::new(), loaded_modules: Vec::new() };
        proof {
            assert(l.loaded() =~= Seq::<Seq<char>>::empty());
        }
        l
    }

    /// The loaded module names, in load order.
    pub fn loaded_modules(&self) -> (r: &[String])
        ensures
            r@.map_values(|s: String| s@) == self.loaded(),
    {
        self.loaded_modules.as_slice()
    }

    /// Whether module `module_name` was loaded.
    pub fn is_loaded(&self, module_name: &str) -> (b: bool)
        ensures
            b == self.loaded().contains(module_name@),
    {
        let mut i: usize = 0;
        while i < self.loaded_modules.len()
            invariant
                i <= self.loaded_modules@.len(),
                forall|k: int| 0 <= k < i ==> #[trigger] self.loaded()[k] != module_name@,
            decreases self.loaded_modules@.len() - i,
        {
            proof {
                assert(self.loaded()[i as int] == self.loaded_modules@[i as int]@);
            }
            if str_eq(self.loaded_modules[i].as_str(), module_name) {
                return true;
            }
            i = i + 1;
        }
        false
    }

    /// Records that module `module_name` was loaded; returns whether it was
    /// new, in which case the caller loads it.
    pub fn mark_loaded(&mut self, module_name: String) -> (fresh: bool)
        ensures
            fresh == !old(self).loaded().contains(module_name@),
            final(self).loaded() == (if fresh {
                old(self).loaded().push(module_name@)
            } else {
                old(self).loaded()
            }),
    {
        if self.is_loaded(module_name.as_str()) {
            false
        } else {
            self.loaded_modules.push(module_name);
            proof {
                assert(self.loaded() =~= old(self).loaded().push(module_name@));
            }
            true
        }
    }
}

impl Default for StdLoader {
    fn default() -> (l: Self)
        ensures
            l.loaded() == Seq::<Seq<char>>::empty(),
    {
        StdLoader::new()
    }
}

} // verus!
