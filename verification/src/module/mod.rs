//! Module identifiers, the module dependency graph and path resolution.

pub mod graph;
pub mod resolver;
pub mod loader;

use vstd::prelude::*;
use crate::util::path::{join_sep, split_sep, split_path, join_path, lemma_join_split};
use crate::util::text::{join_with, lemma_join_push, push_quoted, quoted, str_eq};
use crate::ast::Module;
use crate::module::graph::ModuleGraph;
use crate::module::loader::ModuleLoader;
use crate::module::resolver::ModuleResolver;

verus! {

/// A module path such as `std::io`.
#[derive(Debug, PartialEq)]
pub struct ModuleId {
    pub path: Vec<String>,
}

impl View for ModuleId {
    type V = Seq<Seq<char>>;

    open spec fn view(&self) -> Seq<Seq<char>> {
        self.path@.map_values(|s: String| s@)
    }
}

impl Clone for ModuleId {
    fn clone(&self) -> (r: Self)
        ensures
            r@ == self@,
    {
        let mut path: Vec<String> = Vec::new();
        let mut i: usize = 0;
        while i < self.path.len()
            invariant
                i <= self.path@.len(),
                path@.map_values(|s: String| s@) == self@.take(i as int),
            decreases self.path.len() - i,
        {
            let ghost prev = path@.map_values(|s: String| s@);
            path.push(self.path[i].clone());
            proof {
                assert(path@.map_values(|s: String| s@) =~= prev.push(self@[i as int]));
                assert(self@.take(i + 1) =~= self@.take(i as int).push(self@[i as int]));
            }
            i += 1;
        }
        proof { assert(self@.take(self@.len() as int) =~= self@); }
        ModuleId { path }
    }
}

/// The key under which a module is known: its segments joined with `::`.
pub open spec fn module_key(id: Seq<Seq<char>>) -> Seq<char> {
    join_sep(id)
}

/// Whether the first segment of `id` is `root`.
pub open spec fn has_root(id: Seq<Seq<char>>, root: Seq<char>) -> bool {
    id.len() > 0 && id[0] == root
}

pub open spec fn std_chars() -> Seq<char> { seq!['s', 't', 'd'] }
pub open spec fn core_chars() -> Seq<char> { seq!['c', 'o', 'r', 'e'] }
pub open spec fn boxos_chars() -> Seq<char> { seq!['b', 'o', 'x', 'o', 's'] }

/// Whether `id` names a module of the standard library (`std`, `core` or `boxos`).
pub open spec fn is_std_module(id: Seq<Seq<char>>) -> bool {
    has_root(id, std_chars()) || has_root(id, core_chars()) || has_root(id, boxos_chars())
}

impl ModuleId {
    pub fn new(path: Vec<String>) -> (id: ModuleId)
        ensures
            id.path == path,
    {
        ModuleId { path }
    }

    /// Parses a `::`-separated path.
    pub fn from_str(s: &str) -> (id: ModuleId)
        ensures
            id@ == split_sep(s@),
    {
        ModuleId { path: split_path(s) }
    }

    /// The single-segment path `name`.
    pub fn root(name: &str) -> (id: ModuleId)
        ensures
            id@ == seq![name@],
    {
        let mut path = Vec::new();
        path.push(name.to_owned());
        proof { assert(path@.map_values(|s: String| s@) =~= seq![name@]); }
        ModuleId { path }
    }

    fn first_is(&self, root: &str) -> (b: bool)
        ensures
            b == has_root(self@, root@),
    {
        if self.path.len() == 0 {
            false
        } else {
            let r = root.to_owned();
            proof { assert(self@[0] == self.path@[0]@); }
            self.path[0] == r
        }
    }

    pub fn is_std(&self) -> (b: bool)
        ensures
            b == has_root(self@, std_chars()),
    {
        proof {
            reveal_strlit("std");
            assert("std"@ =~= std_chars());
        }
        self.first_is("std")
    }

    pub fn is_core(&self) -> (b: bool)
        ensures
            b == has_root(self@, core_chars()),
    {
        proof {
            reveal_strlit("core");
            assert("core"@ =~= core_chars());
        }
        self.first_is("core")
    }

    pub fn is_boxos(&self) -> (b: bool)
        ensures
            b == has_root(self@, boxos_chars()),
    {
        proof {
            reveal_strlit("boxos");
            assert("boxos"@ =~= boxos_chars());
        }
        self.first_is("boxos")
    }

    /// The enclosing module, for paths of two or more segments.
    pub fn parent(&self) -> (p: Option<ModuleId>)
        ensures
            match p {
                Some(q) => self@.len() > 1 && q@ == self@.drop_last(),
                None => self@.len() <= 1,
            },
    {
        if self.path.len() > 1 {
            let n = self.path.len() - 1;
            let mut path: Vec<String> = Vec::new();
            let mut i: usize = 0;
            while i < n
                invariant
                    n == self.path@.len() - 1,
                    i <= n,
                    path@.map_values(|s: String| s@) == self@.take(i as int),
                decreases n - i,
            {
                let ghost prev = path@.map_values(|s: String| s@);
                path.push(self.path[i].clone());
                proof {
                    assert(path@.map_values(|s: String| s@) =~= prev.push(self@[i as int]));
                    assert(self@.take(i + 1) =~= self@.take(i as int).push(self@[i as int]));
                }
                i += 1;
            }
            proof { assert(self@.take(n as int) =~= self@.drop_last()); }
            Some(ModuleId { path })
        } else {
            None
        }
    }

    /// The last segment, or the empty string for an empty path.
    pub fn name(&self) -> (s: &str)
        ensures
            s@ == (if self@.len() > 0 { self@.last() } else { Seq::<char>::empty() }),
    {
        if self.path.len() > 0 {
            proof { assert(self@.last() == self.path@[self.path@.len() - 1]@); }
            self.path[self.path.len() - 1].as_str()
        } else {
            proof { reveal_strlit(""); }
            ""
        }
    }

    /// The path joined with `::`.
    pub fn to_string_path(&self) -> (s: String)
        ensures
            s@ == module_key(self@),
    {
        join_path(&self.path)
    }
}

/// Printing a parsed path gives back the text it was parsed from.
pub proof fn law_parse_print_round_trip(s: Seq<char>)
    ensures
        module_key(split_sep(s)) == s,
{
    lemma_join_split(s);
}

/// Errors of the module system.
#[derive(Debug, Clone, PartialEq)]
pub enum ModuleError {
    NotFound { module: String },
    ParseError { module: String, error: String },
    IoError { path: String, error: String },
    CyclicDependency { modules: Vec<String> },
    InvalidPath { path: String },
}

/// The message of a module system error.
pub open spec fn module_error_text(e: ModuleError) -> Seq<char> {
    match e {
        ModuleError::NotFound { module } => "module "@ + quoted(module@) + " not found"@,
        ModuleError::ParseError { module, error } => "failed to parse module "@ + quoted(module@) + ": "@ + error@,
        ModuleError::IoError { path, error } => "I/O error for "@ + quoted(path@) + ": "@ + error@,
        ModuleError::CyclicDependency { modules } => "cyclic dependency detected: "@ + join_with(
            modules@.map_values(|m: String| m@),
            " -> "@,
        ),
        ModuleError::InvalidPath { path } => "invalid module path: "@ + quoted(path@),
    }
}

impl ModuleError {
    /// The message that describes the error.
    pub fn message(&self) -> (s: String)
        ensures
            s@ == module_error_text(*self),
    {
        let mut s = String::new();
        match self {
            ModuleError::NotFound { module } => {
                s.append("module ");
                push_quoted(&mut s, module.as_str());
                s.append(" not found");
            },
            ModuleError::ParseError { module, error } => {
                s.append("failed to parse module ");
                push_quoted(&mut s, module.as_str());
                s.append(": ");
                s.append(error.as_str());
            },
            ModuleError::IoError { path, error } => {
                s.append("I/O error for ");
                push_quoted(&mut s, path.as_str());
                s.append(": ");
                s.append(error.as_str());
            },
            ModuleError::CyclicDependency { modules } => {
                s.append("cyclic dependency detected: ");
                let ghost start = s@;
                let ghost names = modules@.map_values(|m: String| m@);
                let mut i: usize = 0;
                while i < modules.len()
                    invariant
                        i <= modules@.len(),
                        names == modules@.map_values(|m: String| m@),
                        s@ == start + join_with(names.take(i as int), " -> "@),
                    decreases modules@.len() - i,
                {
                    proof {
                        assert(names.take(i as int + 1) =~= names.take(i as int).push(names[i as int]));
                        lemma_join_push(names.take(i as int), " -> "@, names[i as int]);
                    }
                    if i > 0 {
                        s.append(" -> ");
                    }
                    s.append(modules[i].as_str());
                    proof {
                        assert(s@ =~= start + join_with(names.take(i as int + 1), " -> "@));
                    }
                    i = i + 1;
                }
                proof {
                    assert(names.take(i as int) =~= names);
                }
            },
            ModuleError::InvalidPath { path } => {
                s.append("invalid module path: ");
                push_quoted(&mut s, path.as_str());
            },
        }
        proof {
            assert(s@ =~= module_error_text(*self));
        }
        s
    }
}

/// A module known to the module system.
#[derive(Debug)]
pub struct ModuleInfo {
    pub id: ModuleId,
    pub file_path: String,
    pub ast: Option<Module>,
    pub is_loaded: bool,
    pub is_std: bool,
}

impl ModuleInfo {
    /// A module found at `file_path`, not loaded yet.
    pub fn new(id: ModuleId, file_path: String) -> (m: ModuleInfo)
        ensures
            m.id@ == id@,
            m.file_path@ == file_path@,
            m.ast is None,
            !m.is_loaded,
            m.is_std == is_std_module(id@),
    {
        let is_std = id.is_std() || id.is_core() || id.is_boxos();
        ModuleInfo { id, file_path, ast: None, is_loaded: false, is_std }
    }
}

/// The modules of a compilation: where they are, which are loaded, and
/// how they depend on each other.
pub struct ModuleSystem {
    resolver: ModuleResolver,
    loader: ModuleLoader,
    graph: ModuleGraph,
    modules: Vec<ModuleInfo>,
    std_path: Option<String>,
}

impl ModuleSystem {
    /// The keys of the known modules, in the order they became known.
    pub closed spec fn keys(&self) -> Seq<Seq<char>> {
        self.modules@.map_values(|m: ModuleInfo| module_key(m.id@))
    }

    pub closed spec fn infos(&self) -> Seq<ModuleInfo> {
        self.modules@
    }

    pub closed spec fn dependency_graph(&self) -> ModuleGraph {
        self.graph
    }

    pub closed spec fn std_root(&self) -> Option<Seq<char>> {
        match self.std_path {
            Some(p) => Some(p@),
            None => None,
        }
    }

    pub closed spec fn wf(&self) -> bool {
        &&& self.keys().no_duplicates()
        &&& self.graph.wf()
        &&& self.std_path is Some ==> self.resolver.std_root() == self.std_root()
    }

    pub fn new() -> (s: Self)
        ensures
            s.wf(),
            s.keys() == Seq::<Seq<char>>::empty(),
            s.dependency_graph().keys() == Seq::<Seq<char>>::empty(),
            s.std_root() is None,
    {
        let s = ModuleSystem {
            resolver: ModuleResolver::new(),
            loader: ModuleLoader::new(),
            graph: ModuleGraph::new(),
            modules: Vec::new(),
            std_path: None,
        };
        proof {
            assert(s.keys() =~= Seq::<Seq<char>>::empty());
        }
        s
    }

    /// The same system, with the standard library at `path`.
    pub fn with_std_path(self, path: String) -> (s: Self)
        requires
            self.wf(),
        ensures
            s.wf(),
            s.std_root() == Some(path@),
            s.keys() == self.keys(),
            s.dependency_graph() == self.dependency_graph(),
    {
        let mut s = self;
        s.resolver.set_std_path(path.clone());
        s.std_path = Some(path);
        s
    }

    /// The resolver, for finding module files.
    pub fn resolver(&self) -> (r: &ModuleResolver)
        requires
            self.wf(),
        ensures
            self.std_root() is Some ==> r.std_root() == self.std_root(),
    {
        &self.resolver
    }

    fn index_of_key(&self, key: &str) -> (r: Option<usize>)
        ensures
            match r {
                Some(i) => i < self.keys().len() && self.keys()[i as int] == key@,
                None => !self.keys().contains(key@),
            },
    {
        let mut i: usize = 0;
        while i < self.modules.len()
            invariant
                i <= self.modules@.len(),
                forall|k: int| 0 <= k < i ==> #[trigger] self.keys()[k] != key@,
            decreases self.modules@.len() - i,
        {
            let k = self.modules[i].id.to_string_path();
            if str_eq(k.as_str(), key) {
                return Some(i);
            }
            i = i + 1;
        }
        None
    }

    /// The module with the given id, if known.
    pub fn get_module(&self, module_id: &ModuleId) -> (r: Option<&ModuleInfo>)
        ensures
            r is Some <==> self.keys().contains(module_key(module_id@)),
            r matches Some(m) ==> module_key(m.id@) == module_key(module_id@) && self.infos().contains(*m),
    {
        let key = module_id.to_string_path();
        match self.index_of_key(key.as_str()) {
            Some(i) => {
                proof {
                    assert(self.infos()[i as int] == self.modules@[i as int]);
                }
                Some(&self.modules[i])
            },
            None => None,
        }
    }

    /// The module with the given id, for changing, if known.
    pub fn get_module_mut(&mut self, module_id: &ModuleId) -> (r: Option<&mut ModuleInfo>)
        ensures
            r is Some <==> old(self).keys().contains(module_key(module_id@)),
    {
        let key = module_id.to_string_path();
        match self.index_of_key(key.as_str()) {
            Some(i) => Some(&mut self.modules[i]),
            None => None,
        }
    }

    /// Every known module, in the order they became known.
    pub fn all_modules(&self) -> (r: &[ModuleInfo])
        ensures
            r@ == self.infos(),
    {
        self.modules.as_slice()
    }

    /// Whether the module is known and loaded.
    pub fn is_loaded(&self, module_id: &ModuleId) -> (b: bool)
        requires
            self.wf(),
        ensures
            b == (self.keys().contains(module_key(module_id@)) && exists|i: int|
                0 <= i < self.keys().len() && self.keys()[i] == module_key(module_id@) && self.infos()[i].is_loaded),
    {
        let key = module_id.to_string_path();
        match self.index_of_key(key.as_str()) {
            Some(i) => {
                let b = self.modules[i].is_loaded;
                proof {
                    if !b {
                        assert forall|j: int| 0 <= j < self.keys().len() && self.keys()[j] == module_key(module_id@)
                            implies !self.infos()[j].is_loaded by {
                            assert(self.keys()[i as int] == self.keys()[j]);
                        }
                    }
                }
                b
            },
            None => false,
        }
    }

    /// Whether the module must still be read and parsed.
    pub fn needs_load(&self, module_id: &ModuleId) -> (b: bool)
        requires
            self.wf(),
        ensures
            b == !(self.keys().contains(module_key(module_id@)) && exists|i: int|
                0 <= i < self.keys().len() && self.keys()[i] == module_key(module_id@) && self.infos()[i].is_loaded),
    {
        !self.is_loaded(module_id)
    }

    /// Records that `module_id` was read from `file_path` and parsed to
    /// `ast`: the module becomes known and loaded (replacing what was known
    /// of it) and joins the dependency graph.
    pub fn record_loaded(&mut self, module_id: &ModuleId, file_path: String, ast: Module) -> (r: &ModuleInfo)
        requires
            old(self).wf(),
            old(self).dependency_graph().keys().len() < usize::MAX,
        ensures
            final(self).wf(),
            final(self).keys() == (if old(self).keys().contains(module_key(module_id@)) {
                old(self).keys()
            } else {
                old(self).keys().push(module_key(module_id@))
            }),
            final(self).dependency_graph().keys().contains(module_key(module_id@)),
            r.is_loaded && r.ast is Some && r.file_path@ == file_path@ && r.id@ == module_id@,
    {
        let mut info = ModuleInfo::new(module_id.clone(), file_path);
        info.ast = Some(ast);
        info.is_loaded = true;
        let key = module_id.to_string_path();
        let idx = match self.index_of_key(key.as_str()) {
            Some(i) => {
                self.modules.set(i, info);
                proof {
                    assert(self.keys() =~= old(self).keys().update(i as int, module_key(module_id@)));
                    assert(self.keys() =~= old(self).keys());
                }
                i
            },
            None => {
                self.modules.push(info);
                proof {
                    assert(self.keys() =~= old(self).keys().push(module_key(module_id@)));
                }
                self.modules.len() - 1
            },
        };
        let ghost gk = self.graph.keys();
        self.graph.add_module(module_id.clone());
        proof {
            let k = module_key(module_id@);
            if !gk.contains(k) {
                assert(self.graph.keys()[gk.len() as int] == k);
            }
        }
        &self.modules[idx]
    }

    /// Records that `from` depends on `to`.
    pub fn add_dependency(&mut self, from: &ModuleId, to: &ModuleId)
        requires
            old(self).wf(),
            old(self).dependency_graph().keys().len() + 2 < usize::MAX,
        ensures
            final(self).wf(),
            final(self).keys() == old(self).keys(),
            final(self).dependency_graph().keys().contains(module_key(from@)),
            final(self).dependency_graph().keys().contains(module_key(to@)),
            ({
                let g0 = old(self).dependency_graph();
                let k1 = if g0.keys().contains(module_key(from@)) {
                    g0.keys()
                } else {
                    g0.keys().push(module_key(from@))
                };
                final(self).dependency_graph().keys() == (if k1.contains(module_key(to@)) {
                    k1
                } else {
                    k1.push(module_key(to@))
                })
            }),
            forall|i: int, j: int| #[trigger] final(self).dependency_graph().edge(i, j) == (old(self).dependency_graph().edge(i, j) || (
                i == final(self).dependency_graph().index_of(module_key(from@)) && j == final(self).dependency_graph().index_of(module_key(to@)))),
    {
        let ghost gk = self.graph.keys();
        self.graph.add_dependency(from.clone(), to.clone());
        proof {
            let kf = module_key(from@);
            let kt = module_key(to@);
            let k1 = if gk.contains(kf) { gk } else { gk.push(kf) };
            if !gk.contains(kf) {
                assert(k1[gk.len() as int] == kf);
            }
            assert(k1.contains(kf));
            if !k1.contains(kt) {
                assert(k1.push(kt)[k1.len() as int] == kt);
                let j = choose|j: int| 0 <= j < k1.len() && k1[j] == kf;
                assert(k1.push(kt)[j] == kf);
            }
        }
    }

    /// The modules, each after the modules it depends on; with a cycle,
    /// the modules on or behind it are left out.
    pub fn get_load_order(&self) -> (r: Vec<ModuleId>)
        requires
            self.wf(),
        ensures
            exists|ord: Seq<int>| {
                &&& self.dependency_graph().deps_first(ord)
                &&& ord.len() == r@.len()
                &&& forall|p: int| 0 <= p < ord.len() ==> #[trigger] r@[p]@ == split_sep(self.dependency_graph().keys()[ord[p]])
            },
            r@.len() <= self.dependency_graph().keys().len(),
            (r@.len() == self.dependency_graph().keys().len()) == self.dependency_graph().acyclic(),
            forall|p: int, q: int| 0 <= p < q < r@.len() ==> r@[p]@ != r@[q]@,
    {
        let r = self.graph.topological_sort();
        proof {
            let g = self.graph;
            let ord = choose|ord: Seq<int>| {
                &&& g.deps_first(ord)
                &&& ord.len() == r@.len()
                &&& forall|p: int| 0 <= p < ord.len() ==> #[trigger] r@[p]@ == split_sep(g.keys()[ord[p]])
            };
            assert(self.dependency_graph().deps_first(ord));
        }
        r
    }
}

impl Default for ModuleSystem {
    fn default() -> (s: Self)
        ensures
            s.wf(),
            s.keys() == Seq::<Seq<char>>::empty(),
    {
        ModuleSystem::new()
    }
}

} // verus!
