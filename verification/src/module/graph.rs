//! The module dependency graph: which module depends on which, cycle
//! detection and a dependencies-first load order.

use vstd::prelude::*;
use vstd::set_lib::*;
use super::{ModuleId, module_key};
use crate::util::path::split_sep;

verus! {

/// Dependency graph over module keys (paths joined with `::`).
pub struct ModuleGraph {
    /// Module keys, distinct, in the order they were first seen.
    modules: Vec<String>,
    /// For each module, the indices of the modules it depends on (distinct).
    dependencies: Vec<Vec<usize>>,
    /// For each module, the indices of the modules that depend on it (distinct).
    dependents: Vec<Vec<usize>>,
    /// Whether the module has a dependency entry (it was added, or was the source of an edge).
    dep_entry: Vec<bool>,
    /// Whether the module has a dependents entry (it was added, or was the target of an edge).
    dependents_entry: Vec<bool>,
}

/// A sequence of distinct integers in `[0, n)` has at most `n` elements.
pub proof fn lemma_distinct_in_range_len(s: Seq<int>, n: int)
    requires
        s.no_duplicates(),
        0 <= n,
        forall|k: int| 0 <= k < s.len() ==> 0 <= #[trigger] s[k] < n,
    ensures
        s.len() <= n,
{
    s.unique_seq_to_set();
    lemma_int_range(0, n);
    assert(s.to_set().subset_of(set_int_range(0, n)));
    lemma_len_subset(s.to_set(), set_int_range(0, n));
}

proof fn lemma_push_contains<A>(s: Seq<A>, x: A, y: A)
    ensures
        s.push(x).contains(y) == (s.contains(y) || y == x),
{
    if s.contains(y) {
        let k = choose|k: int| 0 <= k < s.len() && s[k] == y;
        assert(s.push(x)[k] == y);
    }
    if y == x {
        assert(s.push(x)[s.len() as int] == y);
    }
    if s.push(x).contains(y) {
        let k = choose|k: int| 0 <= k < s.len() + 1 && s.push(x)[k] == y;
        if k < s.len() {
            assert(s[k] == y);
        }
    }
}

fn vec_contains(v: &Vec<usize>, x: usize) -> (b: bool)
    ensures
        b == v@.contains(x),
{
    let mut k: usize = 0;
    while k < v.len()
        invariant
            k <= v@.len(),
            forall|j: int| 0 <= j < k ==> v@[j] != x,
        decreases v.len() - k,
    {
        if v[k] == x {
            return true;
        }
        k += 1;
    }
    false
}

impl ModuleGraph {
    /// Module keys in first-seen order.
    pub closed spec fn keys(&self) -> Seq<Seq<char>> {
        self.modules@.map_values(|s: String| s@)
    }

    /// The modules that module `i` depends on, in the order the edges were added.
    pub closed spec fn succs(&self, i: int) -> Seq<usize> {
        self.dependencies@[i]@
    }

    /// The modules that depend on module `j`, in the order the edges were added.
    pub closed spec fn preds(&self, j: int) -> Seq<usize> {
        self.dependents@[j]@
    }

    /// Whether module `i` has a dependency entry.
    pub closed spec fn has_dep_entry(&self, i: int) -> bool {
        self.dep_entry@[i]
    }

    /// Whether module `j` has a dependents entry.
    pub closed spec fn has_dependents_entry(&self, j: int) -> bool {
        self.dependents_entry@[j]
    }

    /// Module `i` depends on module `j`.
    pub open spec fn edge(&self, i: int, j: int) -> bool {
        0 <= i < self.keys().len() && 0 <= j < self.keys().len() && self.succs(i).contains(j as usize)
    }

    /// `c` is a closed walk along dependency edges.
    pub open spec fn is_cycle(&self, c: Seq<int>) -> bool {
        &&& c.len() >= 2
        &&& c[0] == c.last()
        &&& forall|k: int| 0 <= k < c.len() - 1 ==> self.edge(#[trigger] c[k], c[k + 1])
    }

    /// No closed walk exists.
    pub open spec fn acyclic(&self) -> bool {
        forall|c: Seq<int>| !self.is_cycle(c)
    }

    /// `ord` lists distinct modules, each after every module it depends on.
    pub open spec fn deps_first(&self, ord: Seq<int>) -> bool {
        &&& ord.no_duplicates()
        &&& forall|p: int| 0 <= p < ord.len() ==> 0 <= #[trigger] ord[p] < self.keys().len()
        &&& forall|p: int, j: int| 0 <= p < ord.len() && self.edge(ord[p], j)
            ==> exists|q: int| 0 <= q < p && #[trigger] ord[q] == j
    }

    /// The index of `key` among the module keys, if present.
    pub open spec fn index_of(&self, key: Seq<char>) -> int {
        choose|i: int| 0 <= i < self.keys().len() && self.keys()[i] == key
    }

    pub closed spec fn wf(&self) -> bool {
        let n = self.modules@.len();
        &&& self.dependencies@.len() == n
        &&& self.dependents@.len() == n
        &&& self.dep_entry@.len() == n
        &&& self.dependents_entry@.len() == n
        &&& self.keys().no_duplicates()
        &&& forall|i: int| 0 <= i < n ==> self.dependencies@[i]@.no_duplicates()
        &&& forall|i: int| 0 <= i < n ==> self.dependents@[i]@.no_duplicates()
        &&& forall|i: int, k: int| 0 <= i < n && 0 <= k < self.dependencies@[i]@.len()
            ==> self.dependencies@[i]@[k] < n
        &&& forall|i: int, k: int| 0 <= i < n && 0 <= k < self.dependents@[i]@.len()
            ==> self.dependents@[i]@[k] < n
        &&& forall|i: int, j: int| 0 <= i < n && 0 <= j < n
            ==> (self.dependencies@[i]@.contains(j as usize) <==> self.dependents@[j]@.contains(i as usize))
    }

    pub fn new() -> (g: ModuleGraph)
        ensures
            g.wf(),
            g.keys() == Seq::<Seq<char>>::empty(),
    {
        ModuleGraph {
            modules: Vec::new(),
            dependencies: Vec::new(),
            dependents: Vec::new(),
            dep_entry: Vec::new(),
            dependents_entry: Vec::new(),
        }
    }

    fn find(&self, key: &String) -> (r: Option<usize>)
        requires
            self.wf(),
        ensures
            match r {
                Some(i) => i < self.keys().len() && self.keys()[i as int] == key@,
                None => !self.keys().contains(key@),
            },
    {
        let mut i: usize = 0;
        while i < self.modules.len()
            invariant
                i <= self.modules@.len(),
                forall|k: int| 0 <= k < i ==> self.keys()[k] != key@,
            decreases self.modules.len() - i,
        {
            proof { assert(self.keys()[i as int] == self.modules@[i as int]@); }
            if self.modules[i] == *key {
                return Some(i);
            }
            i += 1;
        }
        None
    }

    /// Adds `key` if it is new; returns its index.
    fn intern(&mut self, key: String) -> (idx: usize)
        requires
            old(self).wf(),
            old(self).keys().len() < usize::MAX,
        ensures
            final(self).wf(),
            final(self).keys() == (if old(self).keys().contains(key@) { old(self).keys() } else { old(self).keys().push(key@) }),
            idx < final(self).keys().len(),
            final(self).keys()[idx as int] == key@,
            forall|i: int| 0 <= i < old(self).keys().len() ==> final(self).succs(i) == old(self).succs(i),
            forall|i: int| 0 <= i < old(self).keys().len() ==> final(self).preds(i) == old(self).preds(i),
            forall|i: int| 0 <= i < old(self).keys().len() ==> final(self).has_dep_entry(i) == old(self).has_dep_entry(i),
            forall|i: int| 0 <= i < old(self).keys().len() ==> final(self).has_dependents_entry(i) == old(self).has_dependents_entry(i),
            !old(self).keys().contains(key@) ==> {
                &&& final(self).succs(idx as int) == Seq::<usize>::empty()
                &&& final(self).preds(idx as int) == Seq::<usize>::empty()
                &&& !final(self).has_dep_entry(idx as int)
                &&& !final(self).has_dependents_entry(idx as int)
            },
    {
        match self.find(&key) {
            Some(i) => i,
            None => {
                let ghost old_keys = self.keys();
                let i = self.modules.len();
                self.modules.push(key);
                self.dependencies.push(Vec::new());
                self.dependents.push(Vec::new());
                self.dep_entry.push(false);
                self.dependents_entry.push(false);
                proof {
                    assert(self.keys() =~= old_keys.push(key@));
                    assert forall|a: int, b: int| 0 <= a < b < self.keys().len()
                        implies self.keys()[a] != self.keys()[b] by {
                        if b == i {
                            assert(old_keys[a] == self.keys()[a]);
                            assert(!old_keys.contains(key@));
                        }
                    }
                }
                i
            },
        }
    }

    /// Registers a module.
    pub fn add_module(&mut self, module_id: ModuleId)
        requires
            old(self).wf(),
            old(self).keys().len() < usize::MAX,
        ensures
            final(self).wf(),
            final(self).keys() == (if old(self).keys().contains(module_key(module_id@)) {
                old(self).keys()
            } else {
                old(self).keys().push(module_key(module_id@))
            }),
            forall|i: int, j: int| final(self).edge(i, j) == old(self).edge(i, j),
            final(self).has_dep_entry(final(self).index_of(module_key(module_id@))),
            final(self).has_dependents_entry(final(self).index_of(module_key(module_id@))),
    {
        let key = module_id.to_string_path();
        let ghost k = key@;
        let i = self.intern(key);
        self.dep_entry.set(i, true);
        self.dependents_entry.set(i, true);
        proof {
            assert(self.keys()[i as int] == k);
            assert(self.keys().no_duplicates());
            let j = self.index_of(k);
            assert(0 <= j < self.keys().len() && self.keys()[j] == k);
            assert(j == i);
        }
    }

    /// Records that `from` depends on `to`.
    pub fn add_dependency(&mut self, from: ModuleId, to: ModuleId)
        requires
            old(self).wf(),
            old(self).keys().len() + 2 < usize::MAX,
        ensures
            final(self).wf(),
            ({
                let k1 = if old(self).keys().contains(module_key(from@)) {
                    old(self).keys()
                } else {
                    old(self).keys().push(module_key(from@))
                };
                final(self).keys() == (if k1.contains(module_key(to@)) { k1 } else { k1.push(module_key(to@)) })
            }),
            forall|i: int, j: int| final(self).edge(i, j) == (old(self).edge(i, j) || (
                i == final(self).index_of(module_key(from@)) && j == final(self).index_of(module_key(to@)))),
            final(self).has_dep_entry(final(self).index_of(module_key(from@))),
            final(self).has_dependents_entry(final(self).index_of(module_key(to@))),
    {
        let fk = from.to_string_path();
        let tk = to.to_string_path();
        let ghost fkv = fk@;
        let ghost tkv = tk@;
        let ghost g0 = *self;
        let fi = self.intern(fk);
        let ghost g1 = *self;
        let ti = self.intern(tk);
        let ghost g2 = *self;
        proof {
            assert(self.keys()[fi as int] == fkv);
        }
        let n = self.modules.len();
        // dependencies[fi] gains ti
        let contains = vec_contains(&self.dependencies[fi], ti);
        if !contains {
            let mut d = self.dependencies[fi].clone();
            d.push(ti);
            self.dependencies.set(fi, d);
            let mut e = self.dependents[ti].clone();
            e.push(fi);
            self.dependents.set(ti, e);
        }
        self.dep_entry.set(fi, true);
        self.dependents_entry.set(ti, true);
        proof {
            let nn = self.modules@.len() as int;
            assert(self.keys() == g2.keys());
            assert(self.keys()[fi as int] == fkv);
            assert(self.keys()[ti as int] == tkv);
            assert(self.index_of(fkv) == fi as int) by {
                let j = self.index_of(fkv);
                assert(0 <= j < self.keys().len() && self.keys()[j] == fkv);
            }
            assert(self.index_of(tkv) == ti as int) by {
                let j = self.index_of(tkv);
                assert(0 <= j < self.keys().len() && self.keys()[j] == tkv);
            }
            assert forall|i: int, j: int| 0 <= i < nn && 0 <= j < nn implies
                (self.dependencies@[i]@.contains(j as usize) <==> self.dependents@[j]@.contains(i as usize)) by {
                if !contains {
                    if i == fi && j == ti {
                        assert(self.dependencies@[i]@.last() == ti);
                        assert(self.dependents@[j]@.last() == fi);
                    } else if i == fi {
                        assert(self.dependencies@[i]@ =~= g2.dependencies@[i]@.push(ti));
                        lemma_push_contains(g2.dependencies@[i]@, ti, j as usize);
                        assert(self.dependencies@[i]@.contains(j as usize) == g2.dependencies@[i]@.contains(j as usize));
                        if j != ti {
                            assert(self.dependents@[j] == g2.dependents@[j]);
                        }
                    } else if j == ti {
                        assert(self.dependents@[j]@ =~= g2.dependents@[j]@.push(fi));
                        lemma_push_contains(g2.dependents@[j]@, fi, i as usize);
                        assert(self.dependents@[j]@.contains(i as usize) == g2.dependents@[j]@.contains(i as usize));
                        assert(self.dependencies@[i] == g2.dependencies@[i]);
                    } else {
                        assert(self.dependencies@[i] == g2.dependencies@[i]);
                        assert(self.dependents@[j] == g2.dependents@[j]);
                    }
                }
            }
            assert forall|i: int| 0 <= i < nn implies self.dependencies@[i]@.no_duplicates() by {
                if !contains && i == fi {
                    assert(self.dependencies@[i]@ =~= g2.dependencies@[i]@.push(ti));
                    assert(!g2.dependencies@[i]@.contains(ti));
                }
            }
            assert forall|i: int| 0 <= i < nn implies self.dependents@[i]@.no_duplicates() by {
                if !contains && i == ti {
                    assert(self.dependents@[i]@ =~= g2.dependents@[i]@.push(fi));
                    assert(!g2.dependencies@[fi as int]@.contains(ti));
                    assert(!g2.dependents@[i]@.contains(fi));
                }
            }
            assert forall|i: int, kk: int| 0 <= i < nn && 0 <= kk < self.dependencies@[i]@.len()
                implies self.dependencies@[i]@[kk] < nn by {
                if !contains && i == fi && kk < g2.dependencies@[i]@.len() {
                    assert(self.dependencies@[i]@[kk] == g2.dependencies@[i]@[kk]);
                }
            }
            assert forall|i: int, kk: int| 0 <= i < nn && 0 <= kk < self.dependents@[i]@.len()
                implies self.dependents@[i]@[kk] < nn by {
                if !contains && i == ti && kk < g2.dependents@[i]@.len() {
                    assert(self.dependents@[i]@[kk] == g2.dependents@[i]@[kk]);
                }
            }
            assert forall|i: int, j: int| self.edge(i, j) == (g0.edge(i, j) || (i == fi && j == ti)) by {
                if 0 <= i < nn && 0 <= j < nn {
                    if i < g0.keys().len() {
                        assert(g1.succs(i) == g0.succs(i));
                        assert(g1.keys().len() >= g0.keys().len());
                        assert(g2.succs(i) == g1.succs(i));
                    } else {
                        assert(g2.succs(i) == Seq::<usize>::empty() || g1.succs(i) == Seq::<usize>::empty());
                    }
                    if !contains && i == fi {
                        assert(self.succs(i) =~= g2.succs(i).push(ti));
                        lemma_push_contains(g2.succs(i), ti, j as usize);
                    }
                    if contains && i == fi && j == ti {
                        assert(g2.succs(i).contains(ti));
                    }
                }
            }
            assert forall|i: int, j: int| self.edge(i, j) == (old(self).edge(i, j) || (
                i == self.index_of(module_key(from@)) && j == self.index_of(module_key(to@)))) by {
                assert(self.edge(i, j) == (g0.edge(i, j) || (i == fi && j == ti)));
            }
        }
    }
}

/// Indices as mathematical integers.
pub open spec fn ints(s: Seq<usize>) -> Seq<int> {
    s.map_values(|x: usize| x as int)
}

impl ModuleGraph {
    /// Every module outside `done` depends on some module outside `done`.
    pub open spec fn stuck(&self, done: Seq<bool>) -> bool {
        forall|i: int| 0 <= i < self.keys().len() && !done[i]
            ==> exists|j: int| self.edge(i, j) && !done[j]
    }

    proof fn lemma_walk(&self, done: Seq<bool>, path: Seq<int>)
        requires
            self.wf(),
            done.len() == self.keys().len(),
            self.stuck(done),
            path.len() >= 1,
            path.no_duplicates(),
            forall|k: int| 0 <= k < path.len() ==> 0 <= #[trigger] path[k] < self.keys().len(),
            forall|k: int| 0 <= k < path.len() ==> !done[#[trigger] path[k]],
            forall|k: int| 0 <= k < path.len() - 1 ==> self.edge(#[trigger] path[k], path[k + 1]),
        ensures
            exists|c: Seq<int>| self.is_cycle(c),
        decreases self.keys().len() - path.len(),
    {
        let n = self.keys().len() as int;
        let last = path.last();
        assert(0 <= last < n && !done[last]);
        let j = choose|j: int| self.edge(last, j) && !done[j];
        if path.contains(j) {
            self.lemma_close_walk(path, j);
        } else {
            let np = path.push(j);
            self.lemma_extend_walk(done, path, j);
            lemma_distinct_in_range_len(np, n);
            self.lemma_walk(done, np);
        }
    }

    proof fn lemma_close_walk(&self, path: Seq<int>, j: int)
        requires
            path.len() >= 1,
            path.contains(j),
            self.edge(path.last(), j),
            forall|k: int| 0 <= k < path.len() - 1 ==> self.edge(#[trigger] path[k], path[k + 1]),
        ensures
            exists|c: Seq<int>| self.is_cycle(c),
    {
        let last = path.last();
        let p = choose|p: int| 0 <= p < path.len() && path[p] == j;
        let c = path.skip(p).push(j);
        assert forall|k: int| 0 <= k < c.len() - 1 implies self.edge(#[trigger] c[k], c[k + 1]) by {
            if k < c.len() - 2 {
                assert(c[k] == path[p + k]);
                assert(c[k + 1] == path[p + k + 1]);
            } else {
                assert(c[k] == last);
            }
        }
        assert(self.is_cycle(c));
    }

    proof fn lemma_extend_walk(&self, done: Seq<bool>, path: Seq<int>, j: int)
        requires
            path.len() >= 1,
            path.no_duplicates(),
            !path.contains(j),
            self.edge(path.last(), j),
            !done[j],
            forall|k: int| 0 <= k < path.len() ==> 0 <= #[trigger] path[k] < self.keys().len(),
            forall|k: int| 0 <= k < path.len() ==> !done[#[trigger] path[k]],
            forall|k: int| 0 <= k < path.len() - 1 ==> self.edge(#[trigger] path[k], path[k + 1]),
        ensures
            ({
                let np = path.push(j);
                &&& np.no_duplicates()
                &&& forall|k: int| 0 <= k < np.len() ==> 0 <= #[trigger] np[k] < self.keys().len()
                &&& forall|k: int| 0 <= k < np.len() ==> !done[#[trigger] np[k]]
                &&& forall|k: int| 0 <= k < np.len() - 1 ==> self.edge(#[trigger] np[k], np[k + 1])
            }),
    {
        let n = self.keys().len() as int;
        let last = path.last();
        let np = path.push(j);
        assert forall|a: int, b: int| 0 <= a < b < np.len() implies np[a] != np[b] by {
            if b == path.len() {
                assert(path[a] == np[a]);
            }
        }
        assert forall|k: int| 0 <= k < np.len() implies 0 <= #[trigger] np[k] < n by {
            if k < path.len() { assert(np[k] == path[k]); }
        }
        assert forall|k: int| 0 <= k < np.len() - 1 implies self.edge(#[trigger] np[k], np[k + 1]) by {
            if k < path.len() - 1 {
                assert(np[k] == path[k] && np[k + 1] == path[k + 1]);
            } else {
                assert(np[k] == last);
            }
        }
        assert forall|k: int| 0 <= k < np.len() implies !done[#[trigger] np[k]] by {
            if k < path.len() { assert(np[k] == path[k]); }
        }
    }

    /// A stuck set of unfinished modules contains a cycle.
    proof fn lemma_stuck_cycle(&self, done: Seq<bool>, start: int)
        requires
            self.wf(),
            done.len() == self.keys().len(),
            self.stuck(done),
            0 <= start < self.keys().len(),
            !done[start],
        ensures
            !self.acyclic(),
    {
        let path = seq![start];
        self.lemma_walk(done, path);
    }

    /// An order that lists every module with its dependencies first rules out cycles.
    proof fn lemma_complete_order_acyclic(&self, ord: Seq<int>)
        requires
            self.wf(),
            self.deps_first(ord),
            ord.len() == self.keys().len(),
        ensures
            self.acyclic(),
    {
        let n = self.keys().len() as int;
        assert forall|c: Seq<int>| !self.is_cycle(c) by {
            if self.is_cycle(c) {
                assert(self.edge(c[0], c[1]));
                let v = c[0];
                if !ord.contains(v) {
                    let np = ord.push(v);
                    assert(np.no_duplicates()) by {
                        assert forall|a: int, b: int| 0 <= a < b < np.len() implies np[a] != np[b] by {
                            if b == ord.len() { assert(ord[a] == np[a]); }
                        }
                    }
                    assert forall|k: int| 0 <= k < np.len() implies 0 <= #[trigger] np[k] < n by {
                        if k < ord.len() { assert(np[k] == ord[k]); }
                    }
                    lemma_distinct_in_range_len(np, n);
                }
                let p0 = choose|p: int| 0 <= p < ord.len() && ord[p] == v;
                self.lemma_chain(ord, c, p0, (c.len() - 1) as int);
                let p = choose|p: int| 0 <= p <= p0 - (c.len() - 1) && ord[p] == c[c.len() - 1];
                assert(ord[p] == ord[p0]);
            }
        }
    }

    proof fn lemma_chain(&self, ord: Seq<int>, c: Seq<int>, p0: int, k: int)
        requires
            self.deps_first(ord),
            self.is_cycle(c),
            0 <= p0 < ord.len(),
            ord[p0] == c[0],
            0 <= k < c.len(),
        ensures
            exists|p: int| 0 <= p <= p0 - k && ord[p] == c[k],
        decreases k,
    {
        if k == 0 {
            assert(ord[p0] == c[0]);
        } else {
            self.lemma_chain(ord, c, p0, k - 1);
            let p = choose|p: int| 0 <= p <= p0 - (k - 1) && ord[p] == c[k - 1];
            assert(self.edge(c[k - 1], c[k]));
            let q = choose|q: int| 0 <= q < p && #[trigger] ord[q] == c[k];
            assert(0 <= q <= p0 - k && ord[q] == c[k]);
        }
    }

    fn deps_done(&self, i: usize, done: &Vec<bool>) -> (b: bool)
        requires
            self.wf(),
            i < self.keys().len(),
            done@.len() == self.keys().len(),
        ensures
            b == forall|j: int| self.edge(i as int, j) ==> done@[j],
    {
        let n = self.modules.len();
        let deps = &self.dependencies[i];
        let mut k: usize = 0;
        while k < deps.len()
            invariant
                self.wf(),
                n == self.keys().len(),
                i < n,
                deps@ == self.succs(i as int),
                done@.len() == n,
                k <= deps@.len(),
                forall|m: int| 0 <= m < k ==> done@[deps@[m] as int],
            decreases deps.len() - k,
        {
            let j = deps[k];
            if !done[j] {
                proof { assert(self.edge(i as int, j as int)); }
                return false;
            }
            k += 1;
        }
        proof {
            assert forall|j: int| self.edge(i as int, j) implies done@[j] by {
                let m = choose|m: int| 0 <= m < deps@.len() && deps@[m] == j as usize;
                assert(done@[deps@[m] as int]);
            }
        }
        true
    }

    /// Lists modules dependencies-first, as far as cycles allow; also returns
    /// which modules were listed.
    fn pass_order(&self) -> (r: (Vec<usize>, Vec<bool>))
        requires
            self.wf(),
        ensures
            self.deps_first(ints(r.0@)),
            r.1@.len() == self.keys().len(),
            forall|i: int| 0 <= i < self.keys().len() ==> (r.1@[i] <==> ints(r.0@).contains(i)),
            r.0@.len() < self.keys().len() ==> self.stuck(r.1@),
            r.0@.len() <= self.keys().len(),
    {
        let n = self.modules.len();
        let mut done: Vec<bool> = Vec::new();
        let mut k: usize = 0;
        while k < n
            invariant
                k <= n,
                done@.len() == k,
                forall|m: int| 0 <= m < k ==> !done@[m],
            decreases n - k,
        {
            done.push(false);
            k += 1;
        }
        let mut ord: Vec<usize> = Vec::new();
        loop
            invariant
                self.wf(),
                n == self.keys().len(),
                done@.len() == n,
                self.deps_first(ints(ord@)),
                forall|i: int| 0 <= i < n ==> (done@[i] <==> ints(ord@).contains(i)),
                ord@.len() <= n,
            ensures
                self.deps_first(ints(ord@)),
                done@.len() == n,
                forall|i: int| 0 <= i < n ==> (done@[i] <==> ints(ord@).contains(i)),
                ord@.len() < n ==> self.stuck(done@),
                ord@.len() <= n,
            decreases n - ord@.len(),
        {
            let ghost start_done = done@;
            let ghost start_len = ord@.len();
            let mut progress = false;
            let mut i: usize = 0;
            while i < n
                invariant
                    self.wf(),
                    n == self.keys().len(),
                    done@.len() == n,
                    self.deps_first(ints(ord@)),
                    forall|m: int| 0 <= m < n ==> (done@[m] <==> ints(ord@).contains(m)),
                    i <= n,
                    ord@.len() >= start_len,
                    ord@.len() <= n,
                    progress ==> ord@.len() > start_len,
                    !progress ==> done@ == start_done && ord@.len() == start_len,
                    !progress ==> forall|m: int| 0 <= m < i && !done@[m]
                        ==> exists|j: int| self.edge(m, j) && !done@[j],
                decreases n - i,
            {
                if !done[i] && self.deps_done(i, &done) {
                    let ghost prev = ord@;
                    proof {
                        assert(!ints(prev).contains(i as int));
                    }
                    done.set(i, true);
                    ord.push(i);
                    proof {
                        let o = ints(ord@);
                        let po = ints(prev);
                        assert(o =~= po.push(i as int));
                        assert(o.no_duplicates()) by {
                            assert forall|a: int, b: int| 0 <= a < b < o.len() implies o[a] != o[b] by {
                                if b == po.len() { assert(o[a] == po[a]); }
                                else { assert(o[a] == po[a] && o[b] == po[b]); }
                            }
                        }
                        assert forall|m: int| 0 <= m < n implies (done@[m] <==> o.contains(m)) by {
                            lemma_push_contains(po, i as int, m);
                        }
                        assert forall|p: int| 0 <= p < o.len() implies 0 <= #[trigger] o[p] < n by {
                            if p < po.len() { assert(o[p] == po[p]); }
                        }
                        assert forall|p: int, j: int| 0 <= p < o.len() && self.edge(o[p], j)
                            implies exists|q: int| 0 <= q < p && #[trigger] o[q] == j by {
                            if p < po.len() {
                                assert(o[p] == po[p]);
                                let q = choose|q: int| 0 <= q < p && #[trigger] po[q] == j;
                                assert(o[q] == po[q]);
                            } else {
                                assert(o[p] == i as int);
                                assert(done@[j]);
                                assert(po.contains(j));
                                let q = choose|q: int| 0 <= q < po.len() && po[q] == j;
                                assert(o[q] == po[q]);
                            }
                        }
                        lemma_distinct_in_range_len(o, n as int);
                    }
                    progress = true;
                }
                i += 1;
            }
            if !progress {
                break;
            }
        }
        (ord, done)
    }

    /// Modules in an order that lists every module after the modules it depends
    /// on.  With a cycle, the modules on or behind it are left out.
    pub fn topological_sort(&self) -> (r: Vec<ModuleId>)
        requires
            self.wf(),
        ensures
            exists|ord: Seq<int>| {
                &&& self.deps_first(ord)
                &&& ord.len() == r@.len()
                &&& forall|p: int| 0 <= p < ord.len() ==> #[trigger] r@[p]@ == split_sep(self.keys()[ord[p]])
            },
            r@.len() <= self.keys().len(),
            (r@.len() == self.keys().len()) == self.acyclic(),
            forall|p: int, q: int| 0 <= p < q < r@.len() ==> r@[p]@ != r@[q]@,
    {
        let (ord, done) = self.pass_order();
        let mut r: Vec<ModuleId> = Vec::new();
        let mut p: usize = 0;
        while p < ord.len()
            invariant
                self.wf(),
                self.deps_first(ints(ord@)),
                p <= ord@.len(),
                r@.len() == p,
                forall|q: int| 0 <= q < p ==> #[trigger] r@[q]@ == split_sep(self.keys()[ints(ord@)[q]]),
            decreases ord.len() - p,
        {
            let i = ord[p];
            proof {
                assert(ints(ord@)[p as int] == i as int);
                assert(0 <= ints(ord@)[p as int] < self.keys().len());
                assert(self.keys()[i as int] == self.modules@[i as int]@);
            }
            let id = ModuleId::from_str(self.modules[i].as_str());
            r.push(id);
            p += 1;
        }
        proof {
            let o = ints(ord@);
            let n = self.keys().len() as int;
            if ord@.len() == n {
                self.lemma_complete_order_acyclic(o);
            } else {
                assert(self.stuck(done@));
                assert(o.len() < n);
                let missing = choose|m: int| 0 <= m < n && !o.contains(m);
                if forall|m: int| 0 <= m < n ==> o.contains(m) {
                    // every module is listed: the listing is a permutation, so it has n entries
                    assert(Set::new(|m: int| 0 <= m < n) =~= set_int_range(0, n));
                    o.unique_seq_to_set();
                    lemma_int_range(0, n);
                    assert(set_int_range(0, n).subset_of(o.to_set()));
                    lemma_len_subset(set_int_range(0, n), o.to_set());
                }
                assert(!done@[missing]);
                self.lemma_stuck_cycle(done@, missing);
            }
            assert(r@.len() == ord@.len());
            assert forall|p: int, q: int| 0 <= p < q < r@.len() implies r@[p]@ != r@[q]@ by {
                crate::util::path::lemma_join_split(self.keys()[o[p]]);
                crate::util::path::lemma_join_split(self.keys()[o[q]]);
                assert(o[p] != o[q]);
                assert(self.keys()[o[p]] != self.keys()[o[q]]);
            }
        }
        r
    }

    /// Whether some module depends, directly or not, on itself.
    pub fn has_cycle(&self) -> (b: bool)
        requires
            self.wf(),
        ensures
            b == !self.acyclic(),
    {
        let r = self.topological_sort();
        proof { assert(self.keys().len() == self.modules@.len()); }
        r.len() < self.modules.len()
    }
}

impl ModuleGraph {
    /// Whether the module is in the graph.
    pub fn has_module(&self, module_id: &ModuleId) -> (b: bool)
        requires
            self.wf(),
        ensures
            b == self.keys().contains(module_key(module_id@)),
    {
        let key = module_id.to_string_path();
        self.find(&key).is_some()
    }

    fn names_of(&self, idx: &Vec<usize>) -> (r: Vec<String>)
        requires
            self.wf(),
            forall|k: int| 0 <= k < idx@.len() ==> idx@[k] < self.keys().len(),
        ensures
            r@.len() == idx@.len(),
            forall|k: int| 0 <= k < idx@.len() ==> #[trigger] r@[k]@ == self.keys()[idx@[k] as int],
    {
        let mut r: Vec<String> = Vec::new();
        let mut k: usize = 0;
        while k < idx.len()
            invariant
                self.wf(),
                forall|m: int| 0 <= m < idx@.len() ==> idx@[m] < self.keys().len(),
                k <= idx@.len(),
                r@.len() == k,
                forall|m: int| 0 <= m < k ==> #[trigger] r@[m]@ == self.keys()[idx@[m] as int],
            decreases idx.len() - k,
        {
            proof { assert(self.keys()[idx@[k as int] as int] == self.modules@[idx@[k as int] as int]@); }
            r.push(self.modules[idx[k]].clone());
            k += 1;
        }
        r
    }

    /// The modules that `module_id` depends on, if it has a dependency entry.
    pub fn get_dependencies(&self, module_id: &ModuleId) -> (r: Option<Vec<String>>)
        requires
            self.wf(),
        ensures
            match r {
                Some(v) => self.keys().contains(module_key(module_id@))
                    && self.has_dep_entry(self.index_of(module_key(module_id@)))
                    && v@.len() == self.succs(self.index_of(module_key(module_id@))).len()
                    && forall|k: int| 0 <= k < v@.len() ==> #[trigger] v@[k]@
                        == self.keys()[self.succs(self.index_of(module_key(module_id@)))[k] as int],
                None => !self.keys().contains(module_key(module_id@))
                    || !self.has_dep_entry(self.index_of(module_key(module_id@))),
            },
    {
        let key = module_id.to_string_path();
        match self.find(&key) {
            Some(i) => {
                proof {
                    let j = self.index_of(key@);
                    assert(0 <= j < self.keys().len() && self.keys()[j] == key@);
                    assert(self.keys()[i as int] == key@);
                    assert(j == i);
                }
                if self.dep_entry[i] {
                    Some(self.names_of(&self.dependencies[i]))
                } else {
                    None
                }
            },
            None => None,
        }
    }

    /// The modules that depend on `module_id`, if it has a dependents entry.
    pub fn get_dependents(&self, module_id: &ModuleId) -> (r: Option<Vec<String>>)
        requires
            self.wf(),
        ensures
            match r {
                Some(v) => self.keys().contains(module_key(module_id@))
                    && self.has_dependents_entry(self.index_of(module_key(module_id@)))
                    && v@.len() == self.preds(self.index_of(module_key(module_id@))).len()
                    && forall|k: int| 0 <= k < v@.len() ==> #[trigger] v@[k]@
                        == self.keys()[self.preds(self.index_of(module_key(module_id@)))[k] as int],
                None => !self.keys().contains(module_key(module_id@))
                    || !self.has_dependents_entry(self.index_of(module_key(module_id@))),
            },
    {
        let key = module_id.to_string_path();
        match self.find(&key) {
            Some(i) => {
                proof {
                    let j = self.index_of(key@);
                    assert(0 <= j < self.keys().len() && self.keys()[j] == key@);
                    assert(self.keys()[i as int] == key@);
                    assert(j == i);
                }
                if self.dependents_entry[i] {
                    Some(self.names_of(&self.dependents[i]))
                } else {
                    None
                }
            },
            None => None,
        }
    }

    /// The module keys, in first-seen order.
    pub fn modules(&self) -> (r: &Vec<String>)
        ensures
            r@.map_values(|s: String| s@) == self.keys(),
    {
        &self.modules
    }

    pub fn module_count(&self) -> (n: usize)
        ensures
            n == self.keys().len(),
    {
        self.modules.len()
    }

    #[verifier::rlimit(40)]
    /// Some cycle of dependencies, as the modules along it (the first module
    /// repeated at the end), or `None` when there is no cycle.
    pub fn find_cycle(&self) -> (r: Option<Vec<String>>)
        requires
            self.wf(),
        ensures
            match r {
                Some(v) => exists|c: Seq<int>| #![trigger self.is_cycle(c)] self.is_cycle(c) && v@.len() == c.len()
                    && forall|k: int| 0 <= k < c.len() ==> #[trigger] v@[k]@ == self.keys()[c[k]],
                None => self.acyclic(),
            },
    {
        let n = self.modules.len();
        proof { assert(self.keys().len() == self.modules@.len()); }
        let (ord, done) = self.pass_order();
        if ord.len() == n {
            proof { self.lemma_complete_order_acyclic(ints(ord@)); }
            return None;
        }
        // find an unlisted module
        let mut start: usize = 0;
        while start < n && done[start]
            invariant
                start <= n,
                n == self.keys().len(),
                done@.len() == n,
                forall|m: int| 0 <= m < start ==> done@[m],
                forall|i: int| 0 <= i < n ==> (done@[i] <==> ints(ord@).contains(i)),
                ord@.len() < n,
                self.deps_first(ints(ord@)),
            decreases n - start,
        {
            start += 1;
        }
        if start == n {
            proof {
                let o = ints(ord@);
                assert forall|m: int| 0 <= m < n implies o.contains(m) by { assert(done@[m]); }
                o.unique_seq_to_set();
                lemma_int_range(0, n as int);
                assert(set_int_range(0, n as int).subset_of(o.to_set()));
                lemma_len_subset(set_int_range(0, n as int), o.to_set());
            }
            return None;
        }
        // walk through unlisted dependencies until a module repeats
        let mut path: Vec<usize> = Vec::new();
        path.push(start);
        proof {
            assert(ints(path@) =~= seq![start as int]);
        }
        loop
            invariant
                self.wf(),
                n == self.keys().len(),
                done@.len() == n,
                self.stuck(done@),
                path@.len() >= 1,
                ints(path@).no_duplicates(),
                forall|m: int| 0 <= m < ints(path@).len() ==> 0 <= #[trigger] ints(path@)[m] < n,
                forall|m: int| 0 <= m < ints(path@).len() ==> !done@[#[trigger] ints(path@)[m]],
                forall|m: int| 0 <= m < ints(path@).len() - 1 ==> self.edge(#[trigger] ints(path@)[m], ints(path@)[m + 1]),
            decreases n - path@.len(),
        {
            let last = path[path.len() - 1];
            proof { assert(ints(path@).last() == last as int); }
            proof {
                let m = ints(path@).len() - 1;
                assert(!done@[ints(path@)[m]]);
                assert(0 <= ints(path@)[m] < n);
            }
            let j = match self.unlisted_dep(last, &done) {
                Some(j) => j,
                None => {
                    proof { assert(false); }
                    return None;
                },
            };
            match position(&path, j) {
                Some(from) => {
                    proof {
                        assert forall|m: int| 0 <= m < path@.len() - 1 implies self.edge(#[trigger] path@[m] as int, path@[m + 1] as int) by {
                            assert(ints(path@)[m] == path@[m] as int);
                            assert(ints(path@)[m + 1] == path@[m + 1] as int);
                        }
                        assert forall|m: int| 0 <= m < path@.len() implies (#[trigger] path@[m] as int) < n by {
                            assert(ints(path@)[m] == path@[m] as int);
                        }
                    }
                    let cyc = self.close_cycle(&path, from, j);
                    let names = self.names_of(&cyc);
                    proof {
                        let c = ints(cyc@);
                        assert forall|m: int| 0 <= m < c.len() implies #[trigger] names@[m]@ == self.keys()[c[m]] by {
                            assert(names@[m]@ == self.keys()[cyc@[m] as int]);
                        }
                    }
                    return Some(names);
                },
                None => {
                    let ghost prev = ints(path@);
                    proof {
                        assert(!prev.contains(j as int)) by {
                            if prev.contains(j as int) {
                                let m = choose|m: int| 0 <= m < prev.len() && prev[m] == j as int;
                                assert(path@[m] == j);
                            }
                        }
                        self.lemma_extend_walk(done@, prev, j as int);
                    }
                    path.push(j);
                    proof {
                        assert(ints(path@) =~= prev.push(j as int));
                        lemma_distinct_in_range_len(ints(path@), n as int);
                    }
                },
            }
        }
    }

    /// A dependency of module `last` that is not listed in `done`.
    fn unlisted_dep(&self, last: usize, done: &Vec<bool>) -> (r: Option<usize>)
        requires
            self.wf(),
            (last as int) < self.keys().len(),
            done@.len() == self.keys().len(),
        ensures
            match r {
                Some(j) => self.edge(last as int, j as int) && !done@[j as int],
                None => forall|j: int| self.edge(last as int, j) ==> done@[j],
            },
    {
        let n = self.modules.len();
        proof { assert(self.keys().len() == n); }
        let deps = &self.dependencies[last];
        let mut q: usize = 0;
        while q < deps.len()
            invariant
                self.wf(),
                n == self.keys().len(),
                done@.len() == self.keys().len(),
                (last as int) < self.keys().len(),
                deps@ == self.succs(last as int),
                q <= deps@.len(),
                forall|m: int| 0 <= m < q ==> done@[deps@[m] as int],
            decreases deps.len() - q,
        {
            if !done[deps[q]] {
                proof { assert(self.succs(last as int).contains(deps@[q as int])); }
                return Some(deps[q]);
            }
            q += 1;
        }
        proof {
            assert forall|j: int| self.edge(last as int, j) implies done@[j] by {
                assert(0 <= j < self.keys().len());
                assert(deps@.contains(j as usize));
                let m = choose|m: int| 0 <= m < deps@.len() && deps@[m] == j as usize;
                assert(deps@[m] as int == j);
                assert(done@[deps@[m] as int]);
            }
        }
        None
    }

    /// The closed walk `path[from..] ++ [j]`.
    fn close_cycle(&self, path: &Vec<usize>, from: usize, j: usize) -> (cyc: Vec<usize>)
        requires
            from < path@.len(),
            path@[from as int] == j,
            self.edge(path@.last() as int, j as int),
            forall|m: int| 0 <= m < path@.len() - 1 ==> self.edge(#[trigger] path@[m] as int, path@[m + 1] as int),
            forall|m: int| 0 <= m < path@.len() ==> (#[trigger] path@[m] as int) < self.keys().len(),
        ensures
            self.is_cycle(ints(cyc@)),
            forall|m: int| 0 <= m < cyc@.len() ==> (cyc@[m] as int) < self.keys().len(),
    {
        let mut cyc: Vec<usize> = Vec::new();
        let mut t: usize = from;
        while t < path.len()
            invariant
                from <= t <= path@.len(),
                cyc@ == path@.subrange(from as int, t as int),
            decreases path.len() - t,
        {
            cyc.push(path[t]);
            proof { assert(cyc@ =~= path@.subrange(from as int, t + 1)); }
            t += 1;
        }
        cyc.push(j);
        proof {
            let c = ints(cyc@);
            assert forall|m: int| 0 <= m < c.len() - 1 implies self.edge(#[trigger] c[m], c[m + 1]) by {
                assert(c[m] == cyc@[m] as int);
                assert(c[m + 1] == cyc@[m + 1] as int);
                if m < c.len() - 2 {
                    assert(cyc@[m] == path@[from + m]);
                    assert(cyc@[m + 1] == path@[from + m + 1]);
                } else {
                    assert(cyc@[m] == path@[path@.len() - 1]);
                }
            }
            assert(c[0] == cyc@[0] as int);
            assert forall|m: int| 0 <= m < cyc@.len() implies (cyc@[m] as int) < self.keys().len() by {
                if m < cyc@.len() - 1 { assert(cyc@[m] == path@[from + m]); }
            }
        }
        cyc
    }
}

/// The first position of `x` in `v`.
fn position(v: &Vec<usize>, x: usize) -> (r: Option<usize>)
    ensures
        match r {
            Some(i) => i < v@.len() && v@[i as int] == x,
            None => !v@.contains(x),
        },
{
    let mut i: usize = 0;
    while i < v.len()
        invariant
            i <= v@.len(),
            forall|m: int| 0 <= m < i ==> v@[m] != x,
        decreases v.len() - i,
    {
        if v[i] == x {
            return Some(i);
        }
        i += 1;
    }
    None
}

impl Default for ModuleGraph {
    fn default() -> (g: ModuleGraph)
        ensures
            g.wf(),
            g.keys() == Seq::<Seq<char>>::empty(),
    {
        ModuleGraph::new()
    }
}

} // verus!
