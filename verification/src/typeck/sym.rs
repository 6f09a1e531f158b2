//! The symbol table of the type checker: symbols, lexical scopes and module
//! scopes, with name resolution through the chain of enclosing scopes.

use vstd::prelude::*;
use crate::ast::{Ident, Span, clone_span};
use crate::typeck::ty::{FieldDef, Ty, copy_ty, copy_tys, leaf_kind, same_fields, same_ty, same_tys};
use crate::ty::conversion::prim_kind;
use crate::util::path::{join_path, join_sep};

verus! {

/// Where a symbol can be seen from.
#[derive(Debug, Clone, Copy, PartialEq, Eq, Structural)]
pub enum Visibility {
    Public,
    Private,
    Crate,
    Super,
}

/// How a method takes its receiver.
#[derive(Debug, Clone, Copy, PartialEq, Eq, Structural)]
pub enum MethodReceiver {
    /// `self`, by value.
    Value,
    /// `&self`.
    Ref,
    /// `&mut self`.
    RefMut,
    /// No receiver: an associated function.
    NoReceiver,
}

/// A named entity known to the type checker.
#[derive(Debug)]
pub struct Symbol {
    pub name: Ident,
    pub kind: SymbolKind,
    pub ty: Ty,
    pub is_mut: bool,
    pub span: Span,
    pub visibility: Visibility,
}

/// What a symbol stands for.
#[derive(Debug)]
pub enum SymbolKind {
    Variable,
    Function { params: Vec<Ty>, ret: Ty },
    ExternFunction { params: Vec<Ty>, ret: Ty, abi: String },
    ExternStatic { ty: Ty, is_mutable: bool },
    ExternType,
    Callback { params: Vec<Ty>, ret: Ty, abi: String },
    SafeWrapper { extern_name: Ident, params: Vec<Ty>, ret: Ty, error_ty: Option<Ty> },
    Type,
    Module { path: Vec<String> },
    Const,
    Static,
    Struct { fields: Vec<(Ident, Ty)> },
    Method { params: Vec<Ty>, ret: Ty, receiver: MethodReceiver, impl_type: Ty },
    Variant { parent_enum: Ident, variant_index: usize, fields: Vec<FieldDef> },
    Imported { original_name: Ident, source_module: Vec<String> },
}

/// The name a symbol is filed under.
pub open spec fn key(s: Symbol) -> Seq<char> {
    s.name.name@
}

/// The texts of a list of strings.
pub open spec fn texts(xs: Seq<String>) -> Seq<Seq<char>> {
    xs.map_values(|x: String| x@)
}

/// Two lists of named types with the same names and the same types.
pub open spec fn same_named(xs: Seq<(Ident, Ty)>, ys: Seq<(Ident, Ty)>) -> bool
    decreases xs.len(),
{
    if xs.len() == 0 {
        ys.len() == 0
    } else {
        ys.len() > 0 && same_named(xs.drop_last(), ys.drop_last()) && xs.last().0.name@ == ys.last().0.name@
            && same_ty(xs.last().1, ys.last().1)
    }
}

/// Two optional types that are both absent or the same type.
pub open spec fn same_opt_ty(a: Option<Ty>, b: Option<Ty>) -> bool {
    match (a, b) {
        (Some(x), Some(y)) => same_ty(x, y),
        (None, None) => true,
        _ => false,
    }
}

/// Two symbol kinds with the same variant and the same contents.
pub open spec fn same_kind(a: SymbolKind, b: SymbolKind) -> bool {
    match (a, b) {
        (SymbolKind::Variable, SymbolKind::Variable) => true,
        (SymbolKind::Function { params: p, ret: r }, SymbolKind::Function { params: q, ret: s }) => same_tys(p@, q@)
            && same_ty(r, s),
        (
            SymbolKind::ExternFunction { params: p, ret: r, abi: x },
            SymbolKind::ExternFunction { params: q, ret: s, abi: y },
        ) => same_tys(p@, q@) && same_ty(r, s) && x@ == y@,
        (SymbolKind::ExternStatic { ty: t, is_mutable: m }, SymbolKind::ExternStatic { ty: u, is_mutable: n }) =>
            same_ty(t, u) && m == n,
        (SymbolKind::ExternType, SymbolKind::ExternType) => true,
        (SymbolKind::Callback { params: p, ret: r, abi: x }, SymbolKind::Callback { params: q, ret: s, abi: y }) =>
            same_tys(p@, q@) && same_ty(r, s) && x@ == y@,
        (
            SymbolKind::SafeWrapper { extern_name: e, params: p, ret: r, error_ty: x },
            SymbolKind::SafeWrapper { extern_name: f, params: q, ret: s, error_ty: y },
        ) => e.name@ == f.name@ && same_tys(p@, q@) && same_ty(r, s) && same_opt_ty(x, y),
        (SymbolKind::Type, SymbolKind::Type) => true,
        (SymbolKind::Module { path: p }, SymbolKind::Module { path: q }) => texts(p@) == texts(q@),
        (SymbolKind::Const, SymbolKind::Const) => true,
        (SymbolKind::Static, SymbolKind::Static) => true,
        (SymbolKind::Struct { fields: f }, SymbolKind::Struct { fields: g }) => same_named(f@, g@),
        (
            SymbolKind::Method { params: p, ret: r, receiver: x, impl_type: t },
            SymbolKind::Method { params: q, ret: s, receiver: y, impl_type: u },
        ) => same_tys(p@, q@) && same_ty(r, s) && x == y && same_ty(t, u),
        (
            SymbolKind::Variant { parent_enum: e, variant_index: i, fields: f },
            SymbolKind::Variant { parent_enum: g, variant_index: j, fields: h },
        ) => e.name@ == g.name@ && i == j && same_fields(f@, h@),
        (
            SymbolKind::Imported { original_name: o, source_module: p },
            SymbolKind::Imported { original_name: n, source_module: q },
        ) => o.name@ == n.name@ && texts(p@) == texts(q@),
        _ => false,
    }
}

/// Two symbols that agree in every part.
pub open spec fn same_symbol(a: Symbol, b: Symbol) -> bool {
    &&& key(a) == key(b)
    &&& same_kind(a.kind, b.kind)
    &&& same_ty(a.ty, b.ty)
    &&& a.is_mut == b.is_mut
    &&& a.span == b.span
    &&& a.visibility == b.visibility
}

/// A copy of a list of strings.
pub fn copy_strings(xs: &[String]) -> (r: Vec<String>)
    ensures
        texts(r@) == texts(xs@),
{
    let mut r: Vec<String> = Vec::new();
    let mut i: usize = 0;
    while i < xs.len()
        invariant
            i <= xs@.len(),
            r@.len() == i,
            forall|j: int| 0 <= j < i ==> #[trigger] r@[j]@ == xs@[j]@,
        decreases xs@.len() - i,
    {
        r.push(xs[i].clone());
        i += 1;
    }
    proof {
        assert(texts(r@) =~= texts(xs@));
    }
    r
}

/// A copy of a list of named types.
pub fn copy_named(xs: &Vec<(Ident, Ty)>) -> (r: Vec<(Ident, Ty)>)
    ensures
        same_named(xs@, r@),
{
    let mut r: Vec<(Ident, Ty)> = Vec::new();
    let mut i: usize = 0;
    while i < xs.len()
        invariant
            i <= xs@.len(),
            same_named(xs@.take(i as int), r@),
        decreases xs@.len() - i,
    {
        let entry = (xs[i].0.clone(), copy_ty(&xs[i].1));
        let ghost prev = r@;
        r.push(entry);
        proof {
            assert(xs@.take(i + 1).drop_last() =~= xs@.take(i as int));
            assert(r@.drop_last() =~= prev);
        }
        i += 1;
    }
    proof {
        assert(xs@.take(i as int) =~= xs@);
    }
    r
}

/// A copy of a list of field definitions.
pub fn copy_fields(xs: &Vec<FieldDef>) -> (r: Vec<FieldDef>)
    ensures
        same_fields(xs@, r@),
{
    let mut r: Vec<FieldDef> = Vec::new();
    let mut i: usize = 0;
    while i < xs.len()
        invariant
            i <= xs@.len(),
            same_fields(xs@.take(i as int), r@),
        decreases xs@.len() - i,
    {
        let f = FieldDef { name: xs[i].name.clone(), ty: copy_ty(&xs[i].ty) };
        let ghost prev = r@;
        r.push(f);
        proof {
            assert(xs@.take(i + 1).drop_last() =~= xs@.take(i as int));
            assert(r@.drop_last() =~= prev);
        }
        i += 1;
    }
    proof {
        assert(xs@.take(i as int) =~= xs@);
    }
    r
}

/// A copy of a symbol kind.
pub fn copy_kind(k: &SymbolKind) -> (r: SymbolKind)
    ensures
        same_kind(*k, r),
{
    match k {
        SymbolKind::Variable => SymbolKind::Variable,
        SymbolKind::Function { params, ret } => SymbolKind::Function { params: copy_tys(params), ret: copy_ty(ret) },
        SymbolKind::ExternFunction { params, ret, abi } => SymbolKind::ExternFunction {
            params: copy_tys(params),
            ret: copy_ty(ret),
            abi: abi.clone(),
        },
        SymbolKind::ExternStatic { ty, is_mutable } => SymbolKind::ExternStatic {
            ty: copy_ty(ty),
            is_mutable: *is_mutable,
        },
        SymbolKind::ExternType => SymbolKind::ExternType,
        SymbolKind::Callback { params, ret, abi } => SymbolKind::Callback {
            params: copy_tys(params),
            ret: copy_ty(ret),
            abi: abi.clone(),
        },
        SymbolKind::SafeWrapper { extern_name, params, ret, error_ty } => {
            let e = match error_ty {
                Some(t) => Some(copy_ty(t)),
                None => None,
            };
            SymbolKind::SafeWrapper {
                extern_name: extern_name.clone(),
                params: copy_tys(params),
                ret: copy_ty(ret),
                error_ty: e,
            }
        },
        SymbolKind::Type => SymbolKind::Type,
        SymbolKind::Module { path } => SymbolKind::Module { path: copy_strings(path.as_slice()) },
        SymbolKind::Const => SymbolKind::Const,
        SymbolKind::Static => SymbolKind::Static,
        SymbolKind::Struct { fields } => SymbolKind::Struct { fields: copy_named(fields) },
        SymbolKind::Method { params, ret, receiver, impl_type } => SymbolKind::Method {
            params: copy_tys(params),
            ret: copy_ty(ret),
            receiver: *receiver,
            impl_type: copy_ty(impl_type),
        },
        SymbolKind::Variant { parent_enum, variant_index, fields } => SymbolKind::Variant {
            parent_enum: parent_enum.clone(),
            variant_index: *variant_index,
            fields: copy_fields(fields),
        },
        SymbolKind::Imported { original_name, source_module } => SymbolKind::Imported {
            original_name: original_name.clone(),
            source_module: copy_strings(source_module.as_slice()),
        },
    }
}

/// A copy of a symbol.
pub fn copy_symbol(s: &Symbol) -> (r: Symbol)
    ensures
        same_symbol(*s, r),
{
    Symbol {
        name: s.name.clone(),
        kind: copy_kind(&s.kind),
        ty: copy_ty(&s.ty),
        is_mut: s.is_mut,
        span: clone_span(&s.span),
        visibility: s.visibility,
    }
}

/// The mathematical value of a scope: its symbols by name, the index of the
/// enclosing scope, and the path of the module it stands for.
pub struct Frame {
    pub names: Map<Seq<char>, Symbol>,
    pub parent: Option<int>,
    pub module: Option<Seq<Seq<char>>>,
}

/// No two symbols of the list share a name.
pub open spec fn names_distinct(s: Seq<Symbol>) -> bool {
    forall|i: int, j: int| 0 <= i < j < s.len() ==> key(#[trigger] s[i]) != key(#[trigger] s[j])
}

/// The symbols of a list by name.
pub open spec fn sym_map(s: Seq<Symbol>) -> Map<Seq<char>, Symbol>
    decreases s.len(),
{
    if s.len() == 0 {
        Map::empty()
    } else {
        sym_map(s.drop_last()).insert(key(s.last()), s.last())
    }
}

/// Each symbol of a list with distinct names is found under its name.
pub proof fn lemma_sym_map_has(s: Seq<Symbol>, i: int)
    requires
        names_distinct(s),
        0 <= i < s.len(),
    ensures
        sym_map(s).contains_key(key(s[i])),
        sym_map(s)[key(s[i])] == s[i],
    decreases s.len(),
{
    if i < s.len() - 1 {
        assert(s.drop_last()[i] == s[i]);
        lemma_sym_map_has(s.drop_last(), i);
        assert(key(s[i]) != key(s.last()));
    }
}

/// A name that no symbol of the list has is not found.
pub proof fn lemma_sym_map_lacks(s: Seq<Symbol>, k: Seq<char>)
    requires
        forall|i: int| 0 <= i < s.len() ==> key(#[trigger] s[i]) != k,
    ensures
        !sym_map(s).contains_key(k),
    decreases s.len(),
{
    if s.len() > 0 {
        assert forall|i: int| 0 <= i < s.drop_last().len() implies key(#[trigger] s.drop_last()[i]) != k by {
            assert(s.drop_last()[i] == s[i]);
        }
        lemma_sym_map_lacks(s.drop_last(), k);
        assert(key(s[s.len() - 1]) != k);
    }
}

/// Every name found is the name of a symbol of the list.
pub proof fn lemma_sym_map_from(s: Seq<Symbol>, k: Seq<char>)
    requires
        sym_map(s).contains_key(k),
    ensures
        exists|i: int| 0 <= i < s.len() && key(#[trigger] s[i]) == k,
{
    if forall|i: int| 0 <= i < s.len() ==> key(#[trigger] s[i]) != k {
        lemma_sym_map_lacks(s, k);
    }
}

/// Replacing a symbol by one of the same name replaces it in the map.
pub proof fn lemma_sym_map_update(s: Seq<Symbol>, i: int, x: Symbol)
    requires
        names_distinct(s),
        0 <= i < s.len(),
        key(s[i]) == key(x),
    ensures
        names_distinct(s.update(i, x)),
        sym_map(s.update(i, x)) == sym_map(s).insert(key(x), x),
    decreases s.len(),
{
    let u = s.update(i, x);
    assert(names_distinct(u)) by {
        assert forall|a: int, b: int| 0 <= a < b < u.len() implies key(#[trigger] u[a]) != key(#[trigger] u[b]) by {
            assert(key(u[a]) == key(s[a]));
            assert(key(u[b]) == key(s[b]));
        }
    }
    if i == s.len() - 1 {
        assert(u.drop_last() =~= s.drop_last());
        assert(sym_map(u) =~= sym_map(s).insert(key(x), x));
    } else {
        assert(u.drop_last() =~= s.drop_last().update(i, x));
        assert(s.drop_last()[i] == s[i]);
        lemma_sym_map_update(s.drop_last(), i, x);
        assert(key(s.last()) != key(x));
        assert(u.last() == s.last());
        assert(sym_map(u) =~= sym_map(s).insert(key(x), x));
    }
}

/// Adding a symbol under a new name adds it to the map.
pub proof fn lemma_sym_map_push(s: Seq<Symbol>, x: Symbol)
    requires
        names_distinct(s),
        forall|i: int| 0 <= i < s.len() ==> key(#[trigger] s[i]) != key(x),
    ensures
        names_distinct(s.push(x)),
        sym_map(s.push(x)) == sym_map(s).insert(key(x), x),
{
    assert(s.push(x).drop_last() =~= s);
    assert forall|a: int, b: int| 0 <= a < b < s.push(x).len() implies key(#[trigger] s.push(x)[a]) != key(
        #[trigger] s.push(x)[b],
    ) by {
        if b == s.len() {
            assert(s.push(x)[a] == s[a]);
        } else {
            assert(s.push(x)[a] == s[a]);
            assert(s.push(x)[b] == s[b]);
        }
    }
}

/// A list with distinct names has as many symbols as its map has names.
pub proof fn lemma_sym_map_len(s: Seq<Symbol>)
    requires
        names_distinct(s),
    ensures
        sym_map(s).dom().finite(),
        sym_map(s).dom().len() == s.len(),
    decreases s.len(),
{
    if s.len() > 0 {
        let d = s.drop_last();
        assert(names_distinct(d)) by {
            assert forall|a: int, b: int| 0 <= a < b < d.len() implies key(#[trigger] d[a]) != key(#[trigger] d[b]) by {
                assert(d[a] == s[a]);
                assert(d[b] == s[b]);
            }
        }
        lemma_sym_map_len(d);
        assert forall|i: int| 0 <= i < d.len() implies key(#[trigger] d[i]) != key(s.last()) by {
            assert(d[i] == s[i]);
        }
        lemma_sym_map_lacks(d, key(s.last()));
    }
}

/// A lexical or module scope: its symbols with distinct names, the scope
/// that encloses it, and the module it stands for, if any.
#[derive(Debug)]
pub struct Scope {
    symbols: Vec<Symbol>,
    parent: Option<usize>,
    source_module: Option<Vec<String>>,
}

impl View for Scope {
    type V = Frame;

    closed spec fn view(&self) -> Frame {
        Frame {
            names: sym_map(self.symbols@),
            parent: match self.parent {
                Some(p) => Some(p as int),
                None => None,
            },
            module: match self.source_module {
                Some(p) => Some(texts(p@)),
                None => None,
            },
        }
    }
}

impl Scope {
    /// The symbols in the order they were first filed.
    pub closed spec fn entries(&self) -> Seq<Symbol> {
        self.symbols@
    }

    /// The symbols have distinct names.
    pub closed spec fn wf(&self) -> bool {
        names_distinct(self.symbols@)
    }

    /// The entries are the symbols of the map, each once.
    pub proof fn lemma_entries(&self)
        requires
            self.wf(),
        ensures
            names_distinct(self.entries()),
            self@.names == sym_map(self.entries()),
    {
    }

    /// An empty scope inside `parent`.
    pub fn new(parent: Option<usize>) -> (s: Self)
        ensures
            s.wf(),
            s.entries() == Seq::<Symbol>::empty(),
            s@.names == Map::<Seq<char>, Symbol>::empty(),
            s@.parent == (match parent {
                Some(p) => Some(p as int),
                None => None::<int>,
            }),
            s@.module is None,
    {
        Scope { symbols: Vec::new(), parent, source_module: None }
    }

    /// An empty scope inside `parent` for the module at `source_module`.
    pub fn with_module(parent: Option<usize>, source_module: Vec<String>) -> (s: Self)
        ensures
            s.wf(),
            s.entries() == Seq::<Symbol>::empty(),
            s@.names == Map::<Seq<char>, Symbol>::empty(),
            s@.parent == (match parent {
                Some(p) => Some(p as int),
                None => None::<int>,
            }),
            s@.module == Some(texts(source_module@)),
    {
        Scope { symbols: Vec::new(), parent, source_module: Some(source_module) }
    }

    /// Files `symbol` under its name, replacing a symbol of the same name.
    pub fn insert(&mut self, symbol: Symbol)
        requires
            old(self).wf(),
        ensures
            final(self).wf(),
            final(self)@.names == old(self)@.names.insert(key(symbol), symbol),
            final(self)@.parent == old(self)@.parent,
            final(self)@.module == old(self)@.module,
    {
        let mut i: usize = 0;
        while i < self.symbols.len()
            invariant
                i <= self.symbols@.len(),
                self.symbols@ == old(self).symbols@,
                self.parent == old(self).parent,
                self.source_module == old(self).source_module,
                names_distinct(self.symbols@),
                forall|j: int| 0 <= j < i ==> key(#[trigger] self.symbols@[j]) != key(symbol),
            decreases self.symbols@.len() - i,
        {
            if self.symbols[i].name.same_as(&symbol.name) {
                let ghost s0 = self.symbols@;
                proof {
                    lemma_sym_map_update(s0, i as int, symbol);
                }
                self.symbols.set(i, symbol);
                assert(self.symbols@ == s0.update(i as int, symbol));
                return;
            }
            i += 1;
        }
        let ghost s0 = self.symbols@;
        proof {
            lemma_sym_map_push(s0, symbol);
        }
        self.symbols.push(symbol);
    }

    /// The symbol filed under `name`.
    pub fn get(&self, name: &Ident) -> (r: Option<&Symbol>)
        requires
            self.wf(),
        ensures
            match r {
                Some(s) => self@.names.contains_key(name.name@) && *s == self@.names[name.name@],
                None => !self@.names.contains_key(name.name@),
            },
    {
        let mut i: usize = 0;
        while i < self.symbols.len()
            invariant
                i <= self.symbols@.len(),
                names_distinct(self.symbols@),
                forall|j: int| 0 <= j < i ==> key(#[trigger] self.symbols@[j]) != name.name@,
            decreases self.symbols@.len() - i,
        {
            if self.symbols[i].name.same_as(name) {
                proof {
                    lemma_sym_map_has(self.symbols@, i as int);
                }
                return Some(&self.symbols[i]);
            }
            i += 1;
        }
        proof {
            lemma_sym_map_lacks(self.symbols@, name.name@);
        }
        None
    }

    /// Whether a symbol is filed under `name`.
    pub fn contains(&self, name: &Ident) -> (b: bool)
        requires
            self.wf(),
        ensures
            b == self@.names.contains_key(name.name@),
    {
        self.get(name).is_some()
    }

    /// The path of the module this scope stands for.
    pub fn module_segments(&self) -> (r: Option<&[String]>)
        ensures
            match r {
                Some(p) => self@.module == Some(texts(p@)),
                None => self@.module is None,
            },
    {
        match &self.source_module {
            Some(p) => Some(p.as_slice()),
            None => None,
        }
    }

    /// The symbols of the scope, each once.
    pub fn symbols(&self) -> (r: &Vec<Symbol>)
        requires
            self.wf(),
        ensures
            r@ == self.entries(),
            names_distinct(r@),
            sym_map(r@) == self@.names,
    {
        &self.symbols
    }
}

/// The mathematical value of a symbol table: its scopes, the index of the
/// current one, the scope of each registered module by its `::`-joined
/// path, and whether the prelude was loaded.
#[verifier::ext_equal]
pub struct TableModel {
    pub frames: Seq<Frame>,
    pub current: int,
    pub modules: Map<Seq<char>, int>,
    pub prelude_loaded: bool,
}

/// The symbol that `k` resolves to from scope `i`: the one filed in that
/// scope, else the one it resolves to from the enclosing scope.
pub open spec fn resolve_from(frames: Seq<Frame>, i: int, k: Seq<char>) -> Option<Symbol>
    decreases i,
{
    if 0 <= i < frames.len() {
        if frames[i].names.contains_key(k) {
            Some(frames[i].names[k])
        } else {
            match frames[i].parent {
                Some(p) => if 0 <= p < i {
                    resolve_from(frames, p, k)
                } else {
                    None
                },
                None => None,
            }
        }
    } else {
        None
    }
}

/// The key under which a module path is registered.
pub open spec fn module_key(path: Seq<Seq<char>>) -> Seq<char> {
    join_sep(path)
}

/// A fresh scope without symbols.
pub open spec fn empty_frame(parent: Option<int>, module: Option<Seq<Seq<char>>>) -> Frame {
    Frame { names: Map::empty(), parent, module }
}

impl TableModel {
    /// Scopes enclose only scopes before them, the first encloses none, and
    /// each module's scope is one of the others.
    pub open spec fn wf(self) -> bool {
        &&& 1 <= self.frames.len()
        &&& 0 <= self.current < self.frames.len()
        &&& self.frames[0].parent is None
        &&& forall|i: int|
            1 <= i < self.frames.len() ==> (#[trigger] self.frames[i].parent matches Some(p) && 0 <= p < i)
        &&& forall|k: Seq<char>| #[trigger]
            self.modules.contains_key(k) ==> 1 <= self.modules[k] < self.frames.len()
    }

    /// What `k` resolves to from the current scope.
    pub open spec fn resolve(self, k: Seq<char>) -> Option<Symbol> {
        resolve_from(self.frames, self.current, k)
    }

    /// The table with `sym` filed in scope `i`.
    pub open spec fn bind(self, i: int, sym: Symbol) -> TableModel {
        TableModel {
            frames: self.frames.update(
                i,
                Frame {
                    names: self.frames[i].names.insert(key(sym), sym),
                    parent: self.frames[i].parent,
                    module: self.frames[i].module,
                },
            ),
            current: self.current,
            modules: self.modules,
            prelude_loaded: self.prelude_loaded,
        }
    }

    /// The table with the module at `path` registered, and the index of its
    /// scope: the existing one, or a new scope inside the root.
    pub open spec fn register(self, path: Seq<Seq<char>>) -> (TableModel, int) {
        let k = module_key(path);
        if self.modules.contains_key(k) {
            (self, self.modules[k])
        } else {
            let idx = self.frames.len() as int;
            (
                TableModel {
                    frames: self.frames.push(empty_frame(Some(0), Some(path))),
                    current: self.current,
                    modules: self.modules.insert(k, idx),
                    prelude_loaded: self.prelude_loaded,
                },
                idx,
            )
        }
    }

    /// The table with a new scope inside the current one, made current.
    pub open spec fn enter(self) -> TableModel {
        TableModel {
            frames: self.frames.push(empty_frame(Some(self.current), None)),
            current: self.frames.len() as int,
            modules: self.modules,
            prelude_loaded: self.prelude_loaded,
        }
    }

    /// The table with the enclosing scope made current (the root stays).
    pub open spec fn exit(self) -> TableModel {
        match self.frames[self.current].parent {
            Some(p) => TableModel {
                frames: self.frames,
                current: p,
                modules: self.modules,
                prelude_loaded: self.prelude_loaded,
            },
            None => self,
        }
    }

    /// The table with scope `i` made current.
    pub open spec fn at(self, i: int) -> TableModel {
        TableModel { frames: self.frames, current: i, modules: self.modules, prelude_loaded: self.prelude_loaded }
    }

    /// The symbol filed under `k` in the scope of the module at `path`.
    pub open spec fn module_entry(self, path: Seq<Seq<char>>, k: Seq<char>) -> Option<Symbol> {
        let mk = module_key(path);
        if self.modules.contains_key(mk) && self.frames[self.modules[mk]].names.contains_key(k) {
            Some(self.frames[self.modules[mk]].names[k])
        } else {
            None
        }
    }
}

/// Resolution from a scope does not look at scopes after it.
pub proof fn lemma_resolve_push(frames: Seq<Frame>, f: Frame, i: int, k: Seq<char>)
    requires
        0 <= i < frames.len(),
    ensures
        resolve_from(frames.push(f), i, k) == resolve_from(frames, i, k),
    decreases i,
{
    assert(frames.push(f)[i] == frames[i]);
    match frames[i].parent {
        Some(p) => {
            if 0 <= p < i {
                lemma_resolve_push(frames, f, p, k);
            }
        },
        None => {},
    }
}

/// Changing the symbol of one name in one scope leaves the resolution of
/// every other name as it was.
pub proof fn lemma_resolve_other(frames: Seq<Frame>, c: int, f: Frame, i: int, k: Seq<char>)
    requires
        0 <= c < frames.len(),
        f.parent == frames[c].parent,
        f.names.contains_key(k) == frames[c].names.contains_key(k),
        f.names.contains_key(k) ==> f.names[k] == frames[c].names[k],
    ensures
        resolve_from(frames.update(c, f), i, k) == resolve_from(frames, i, k),
    decreases i,
{
    let u = frames.update(c, f);
    if 0 <= i < frames.len() {
        assert(u[i].parent == frames[i].parent);
        match frames[i].parent {
            Some(p) => {
                if 0 <= p < i {
                    lemma_resolve_other(frames, c, f, p, k);
                }
            },
            None => {},
        }
    }
}

/// A well-formed model stays well-formed when a symbol is filed.
pub proof fn lemma_bind_wf(m: TableModel, i: int, sym: Symbol)
    requires
        m.wf(),
        0 <= i < m.frames.len(),
    ensures
        m.bind(i, sym).wf(),
{
    let b = m.bind(i, sym);
    assert forall|j: int| 1 <= j < b.frames.len() implies (#[trigger] b.frames[j].parent matches Some(p) && 0 <= p
        < j) by {
        assert(b.frames[j].parent == m.frames[j].parent);
    }
}

/// Read after write: once `sym` is filed in the current scope, its name
/// resolves to it, and every other name resolves as before.
pub proof fn law_lookup_after_insert(m: TableModel, sym: Symbol, k: Seq<char>)
    requires
        m.wf(),
    ensures
        m.bind(m.current, sym).resolve(k) == (if k == key(sym) {
            Some(sym)
        } else {
            m.resolve(k)
        }),
{
    let c = m.current;
    let f = Frame {
        names: m.frames[c].names.insert(key(sym), sym),
        parent: m.frames[c].parent,
        module: m.frames[c].module,
    };
    if k != key(sym) {
        lemma_resolve_other(m.frames, c, f, c, k);
    }
}

/// Entering a scope hides nothing: every name resolves as before.
pub proof fn law_enter_keeps_bindings(m: TableModel, k: Seq<char>)
    requires
        m.wf(),
    ensures
        m.enter().resolve(k) == m.resolve(k),
        m.enter().wf(),
{
    let f = empty_frame(Some(m.current), None);
    lemma_resolve_push(m.frames, f, m.current, k);
    let e = m.enter();
    assert(e.frames[e.current] == f);
    assert forall|j: int| 1 <= j < e.frames.len() implies (#[trigger] e.frames[j].parent matches Some(p) && 0 <= p
        < j) by {
        if j < m.frames.len() {
            assert(e.frames[j] == m.frames[j]);
        }
    }
}

/// Shadowing: from a scope inside the current one, a name filed there
/// resolves to its own symbol, any other name as from the current scope.
pub proof fn law_inner_scope_shadows(m: TableModel, f: Frame, k: Seq<char>)
    requires
        m.wf(),
        f.parent == Some(m.current),
    ensures
        resolve_from(m.frames.push(f), m.frames.len() as int, k) == (if f.names.contains_key(k) {
            Some(f.names[k])
        } else {
            m.resolve(k)
        }),
{
    assert(m.frames.push(f)[m.frames.len() as int] == f);
    lemma_resolve_push(m.frames, f, m.current, k);
}

/// Leaving a scope forgets what was filed in it: once the enclosing scope is
/// current again, every name resolves as it did before the scope was entered.
pub proof fn law_exit_forgets_inner(m: TableModel, f: Frame, k: Seq<char>)
    requires
        m.wf(),
        f.parent == Some(m.current),
    ensures
        (TableModel {
            frames: m.frames.push(f),
            current: m.frames.len() as int,
            modules: m.modules,
            prelude_loaded: m.prelude_loaded,
        }).exit().resolve(k) == m.resolve(k),
{
    let t = TableModel {
        frames: m.frames.push(f),
        current: m.frames.len() as int,
        modules: m.modules,
        prelude_loaded: m.prelude_loaded,
    };
    assert(t.frames[t.current] == f);
    lemma_resolve_push(m.frames, f, m.current, k);
}

/// Making another scope current keeps the model well-formed.
pub proof fn lemma_at_wf(m: TableModel, i: int)
    requires
        m.wf(),
        0 <= i < m.frames.len(),
    ensures
        m.at(i).wf(),
{
}

/// Registering a module twice is registering it once: the second time
/// changes nothing and gives the same scope.
pub proof fn law_register_idempotent(m: TableModel, path: Seq<Seq<char>>)
    ensures
        m.register(path).0.register(path) == m.register(path),
{
}

/// Registering a module keeps the table well-formed and gives the scope
/// that the module's key now maps to.
pub proof fn lemma_register_wf(m: TableModel, path: Seq<Seq<char>>)
    requires
        m.wf(),
    ensures
        m.register(path).0.wf(),
        m.register(path).0.modules.contains_key(module_key(path)),
        m.register(path).0.modules[module_key(path)] == m.register(path).1,
        1 <= m.register(path).1 < m.register(path).0.frames.len(),
        m.register(path).0.frames.len() >= m.frames.len(),
        forall|k: Seq<char>| #[trigger] m.register(path).0.resolve(k) == m.resolve(k),
{
    let (r, idx) = m.register(path);
    if !m.modules.contains_key(module_key(path)) {
        let f = empty_frame(Some(0), Some(path));
        assert forall|j: int| 1 <= j < r.frames.len() implies (#[trigger] r.frames[j].parent matches Some(p) && 0
            <= p < j) by {
            if j < m.frames.len() {
                assert(r.frames[j] == m.frames[j]);
            }
        }
        assert forall|k: Seq<char>| #[trigger] r.resolve(k) == m.resolve(k) by {
            lemma_resolve_push(m.frames, f, m.current, k);
        }
    }
}

/// The registered modules by key.
pub open spec fn mod_map(s: Seq<(String, usize)>) -> Map<Seq<char>, int>
    decreases s.len(),
{
    if s.len() == 0 {
        Map::empty()
    } else {
        mod_map(s.drop_last()).insert(s.last().0@, s.last().1 as int)
    }
}

/// No two registered modules share a key.
pub open spec fn keys_distinct(s: Seq<(String, usize)>) -> bool {
    forall|i: int, j: int| 0 <= i < j < s.len() ==> (#[trigger] s[i]).0@ != (#[trigger] s[j]).0@
}

proof fn lemma_mod_map_has(s: Seq<(String, usize)>, i: int)
    requires
        keys_distinct(s),
        0 <= i < s.len(),
    ensures
        mod_map(s).contains_key(s[i].0@),
        mod_map(s)[s[i].0@] == s[i].1 as int,
    decreases s.len(),
{
    if i < s.len() - 1 {
        assert(s.drop_last()[i] == s[i]);
        lemma_mod_map_has(s.drop_last(), i);
    }
}

proof fn lemma_mod_map_lacks(s: Seq<(String, usize)>, k: Seq<char>)
    requires
        forall|i: int| 0 <= i < s.len() ==> (#[trigger] s[i]).0@ != k,
    ensures
        !mod_map(s).contains_key(k),
    decreases s.len(),
{
    if s.len() > 0 {
        assert forall|i: int| 0 <= i < s.drop_last().len() implies (#[trigger] s.drop_last()[i]).0@ != k by {
            assert(s.drop_last()[i] == s[i]);
        }
        lemma_mod_map_lacks(s.drop_last(), k);
        assert(s[s.len() - 1].0@ != k);
    }
}

proof fn lemma_mod_map_values(s: Seq<(String, usize)>, k: Seq<char>)
    requires
        mod_map(s).contains_key(k),
    ensures
        exists|i: int| 0 <= i < s.len() && (#[trigger] s[i]).1 as int == mod_map(s)[k] && s[i].0@ == k,
    decreases s.len(),
{
    if s.last().0@ != k {
        lemma_mod_map_values(s.drop_last(), k);
        let i = choose|i: int| 0 <= i < s.drop_last().len() && (#[trigger] s.drop_last()[i]).1 as int == mod_map(
            s.drop_last(),
        )[k] && s.drop_last()[i].0@ == k;
        assert(s[i] == s.drop_last()[i]);
    } else {
        assert(s[s.len() - 1] == s.last());
    }
}

/// The effect of importing every public symbol of the module at `path`
/// into the current scope of `m0`, giving `m1` and the names `r`.
pub open spec fn imports_all(m0: TableModel, m1: TableModel, path: Seq<Seq<char>>, r: Seq<Ident>) -> bool {
    let mk = module_key(path);
    if m0.modules.contains_key(mk) {
        let src = m0.frames[m0.modules[mk]].names;
        let c = m0.current;
        let before = m0.frames[c].names;
        let after = m1.frames[c].names;
        &&& forall|i: int, j: int| 0 <= i < j < r.len() ==> (#[trigger] r[i]).name@ != (#[trigger] r[j]).name@
        &&& forall|i: int|
            0 <= i < r.len() ==> src.contains_key((#[trigger] r[i]).name@) && src[r[i].name@].visibility is Public
        &&& forall|k: Seq<char>| #[trigger]
            src.contains_key(k) && src[k].visibility is Public ==> exists|i: int|
                0 <= i < r.len() && (#[trigger] r[i]).name@ == k
        &&& m1.frames.len() == m0.frames.len()
        &&& m1.current == c
        &&& m1.modules == m0.modules
        &&& m1.prelude_loaded == m0.prelude_loaded
        &&& forall|i: int| 0 <= i < m0.frames.len() && i != c ==> #[trigger] m1.frames[i] == m0.frames[i]
        &&& m1.frames[c].parent == m0.frames[c].parent
        &&& m1.frames[c].module == m0.frames[c].module
        &&& forall|k: Seq<char>| #[trigger]
            after.contains_key(k) || before.contains_key(k) || src.contains_key(k) ==> if src.contains_key(k)
                && imported(src[k]) {
                after.contains_key(k) && same_symbol(src[k], after[k])
            } else {
                after.contains_key(k) == before.contains_key(k) && (before.contains_key(k) ==> after[k] == before[k])
            }
    } else {
        r.len() == 0 && m1 == m0
    }
}

/// A symbol that importing a whole module brings in: a public one that
/// is not a module.
pub open spec fn imported(s: Symbol) -> bool {
    s.visibility is Public && !(s.kind is Module)
}

/// The name under which the method `method` of `ty` is filed.
pub open spec fn method_key(ty: Seq<char>, method: Seq<char>) -> Seq<char> {
    ty + "::"@ + method
}

/// The index of the first entry named `name`.
pub open spec fn first_named(fs: Seq<(Ident, Ty)>, name: Seq<char>) -> Option<int>
    decreases fs.len(),
{
    if fs.len() == 0 {
        None
    } else if fs[0].0.name@ == name {
        Some(0)
    } else {
        match first_named(fs.skip(1), name) {
            Some(j) => Some(j + 1),
            None => None,
        }
    }
}

proof fn lemma_first_named(fs: Seq<(Ident, Ty)>, name: Seq<char>, j: int)
    requires
        0 <= j < fs.len(),
        fs[j].0.name@ == name,
        forall|i: int| 0 <= i < j ==> (#[trigger] fs[i]).0.name@ != name,
    ensures
        first_named(fs, name) == Some(j),
    decreases fs.len(),
{
    if j > 0 {
        assert forall|i: int| 0 <= i < j - 1 implies (#[trigger] fs.skip(1)[i]).0.name@ != name by {
            assert(fs.skip(1)[i] == fs[i + 1]);
        }
        lemma_first_named(fs.skip(1), name, j - 1);
    }
}

proof fn lemma_first_named_none(fs: Seq<(Ident, Ty)>, name: Seq<char>)
    requires
        forall|i: int| 0 <= i < fs.len() ==> (#[trigger] fs[i]).0.name@ != name,
    ensures
        first_named(fs, name) is None,
    decreases fs.len(),
{
    if fs.len() > 0 {
        assert forall|i: int| 0 <= i < fs.skip(1).len() implies (#[trigger] fs.skip(1)[i]).0.name@ != name by {
            assert(fs.skip(1)[i] == fs[i + 1]);
        }
        lemma_first_named_none(fs.skip(1), name);
    }
}

/// The scopes of the type checker, with the current scope and the
/// registered modules.
#[derive(Debug)]
pub struct SymbolTable {
    scopes: Vec<Scope>,
    current_scope: usize,
    modules: Vec<(String, usize)>,
    prelude_loaded: bool,
}

impl View for SymbolTable {
    type V = TableModel;

    closed spec fn view(&self) -> TableModel {
        TableModel {
            frames: self.scopes@.map_values(|s: Scope| s@),
            current: self.current_scope as int,
            modules: mod_map(self.modules@),
            prelude_loaded: self.prelude_loaded,
        }
    }
}

/// A builtin type symbol.
fn type_symbol(name: &str, ty: Ty) -> (s: Symbol)
    ensures
        key(s) == name@,
        s.kind is Type,
        s.ty == ty,
        !s.is_mut,
        s.span == (Span { start: 0, end: 0 }),
        s.visibility is Public,
{
    Symbol { name: Ident::new(name), kind: SymbolKind::Type, ty, is_mut: false, span: 0..0, visibility: Visibility::Public }
}

/// A builtin function from one string to unit.
fn print_symbol(name: &str) -> (s: Symbol)
    ensures
        key(s) == name@,
        string_to_unit(s),
{
    let mut params: Vec<Ty> = Vec::new();
    params.push(Ty::String);
    let mut fn_params: Vec<Ty> = Vec::new();
    fn_params.push(Ty::String);
    assert(params@ =~= seq![Ty::String]);
    assert(fn_params@ =~= seq![Ty::String]);
    Symbol {
        name: Ident::new(name),
        kind: SymbolKind::Function { params, ret: Ty::Unit },
        ty: Ty::Fn { params: fn_params, ret: Box::new(Ty::Unit) },
        is_mut: false,
        span: 0..0,
        visibility: Visibility::Public,
    }
}

/// A public function symbol that takes a `String` and returns unit.
pub open spec fn string_to_unit(s: Symbol) -> bool {
    &&& s.kind matches SymbolKind::Function { params, ret } && params@ == seq![Ty::String] && ret == Ty::Unit
    &&& s.ty matches Ty::Fn { params, ret } && params@ == seq![Ty::String] && *ret == Ty::Unit
    &&& !s.is_mut
    &&& s.span == (Span { start: 0, end: 0 })
    &&& s.visibility is Public
}

/// The names known from the start: the primitive types, and `println` and
/// `print`.
pub open spec fn builtin_names(names: Map<Seq<char>, Symbol>) -> bool {
    &&& forall|k: Seq<char>| #[trigger]
        names.contains_key(k) <==> (prim_kind(k) is Some || k == "println"@ || k == "print"@)
    &&& forall|k: Seq<char>|
        #![trigger prim_kind(k)]
        prim_kind(k) is Some ==> {
            let s = names[k];
            &&& key(s) == k
            &&& s.kind is Type
            &&& leaf_kind(s.ty) == prim_kind(k)
            &&& !s.is_mut
            &&& s.span == (Span { start: 0, end: 0 })
            &&& s.visibility is Public
        }
    &&& key(names["println"@]) == "println"@ && string_to_unit(names["println"@])
    &&& key(names["print"@]) == "print"@ && string_to_unit(names["print"@])
}

impl SymbolTable {
    /// The scopes form a well-formed model, each scope has distinct names,
    /// and the module keys are distinct.
    pub closed spec fn wf(&self) -> bool {
        &&& self@.wf()
        &&& self.scopes@.len() == self@.frames.len()
        &&& forall|i: int| 0 <= i < self.scopes@.len() ==> (#[trigger] self.scopes@[i]).wf()
        &&& keys_distinct(self.modules@)
        &&& forall|j: int| 0 <= j < self.modules@.len() ==> 1 <= (#[trigger] self.modules@[j]).1 < self.scopes@.len()
    }

    /// A well-formed table has a well-formed model.
    pub proof fn lemma_model_wf(&self)
        requires
            self.wf(),
        ensures
            self@.wf(),
    {
    }

    proof fn lemma_frames(&self)
        ensures
            self@.frames.len() == self.scopes@.len(),
            forall|i: int| 0 <= i < self.scopes@.len() ==> #[trigger] self@.frames[i] == self.scopes@[i]@,
    {
    }

    /// A table with one root scope that holds the builtin names.
    pub fn new() -> (t: Self)
        ensures
            t.wf(),
            t@.frames.len() == 1,
            t@.current == 0,
            t@.modules == Map::<Seq<char>, int>::empty(),
            !t@.prelude_loaded,
            t@.frames[0].parent is None,
            t@.frames[0].module is None,
            builtin_names(t@.frames[0].names),
    {
        let mut scopes: Vec<Scope> = Vec::new();
        scopes.push(Scope::new(None));
        let mut table = SymbolTable { scopes, current_scope: 0, modules: Vec::new(), prelude_loaded: false };
        proof {
            assert(table@.frames =~= seq![empty_frame(None, None)]);
            assert(table@.modules =~= Map::<Seq<char>, int>::empty());
        }
        table.insert_builtin_types();
        table
    }

    /// Files the builtin names in the current scope, which is empty.
    #[verifier::spinoff_prover]
    #[verifier::rlimit(60)]
    fn insert_builtin_types(&mut self)
        requires
            old(self).wf(),
            old(self)@.frames[old(self)@.current].names == Map::<Seq<char>, Symbol>::empty(),
        ensures
            final(self).wf(),
            final(self)@.frames.len() == old(self)@.frames.len(),
            final(self)@.current == old(self)@.current,
            final(self)@.modules == old(self)@.modules,
            final(self)@.prelude_loaded == old(self)@.prelude_loaded,
            forall|i: int| 0 <= i < final(self)@.frames.len() ==> (#[trigger] final(self)@.frames[i]).parent == old(self)@.frames[i].parent
                && final(self)@.frames[i].module == old(self)@.frames[i].module,
            builtin_names(final(self)@.frames[final(self)@.current].names),
    {
        let ghost c = self@.current;
        self.insert(type_symbol("bool", Ty::Bool));
        self.insert(type_symbol("i8", Ty::I8));
        self.insert(type_symbol("i16", Ty::I16));
        self.insert(type_symbol("i32", Ty::I32));
        self.insert(type_symbol("i64", Ty::I64));
        self.insert(type_symbol("i128", Ty::I128));
        self.insert(type_symbol("isize", Ty::Isize));
        self.insert(type_symbol("u8", Ty::U8));
        self.insert(type_symbol("u16", Ty::U16));
        self.insert(type_symbol("u32", Ty::U32));
        self.insert(type_symbol("u64", Ty::U64));
        self.insert(type_symbol("u128", Ty::U128));
        self.insert(type_symbol("usize", Ty::Usize));
        self.insert(type_symbol("f32", Ty::F32));
        self.insert(type_symbol("f64", Ty::F64));
        self.insert(type_symbol("char", Ty::Char));
        self.insert(type_symbol("str", Ty::Str));
        self.insert(type_symbol("String", Ty::String));
        self.insert(print_symbol("println"));
        self.insert(print_symbol("print"));
        proof {
            reveal_strlit("bool");
            reveal_strlit("i8");
            reveal_strlit("i16");
            reveal_strlit("i32");
            reveal_strlit("i64");
            reveal_strlit("i128");
            reveal_strlit("isize");
            reveal_strlit("u8");
            reveal_strlit("u16");
            reveal_strlit("u32");
            reveal_strlit("u64");
            reveal_strlit("u128");
            reveal_strlit("usize");
            reveal_strlit("f32");
            reveal_strlit("f64");
            reveal_strlit("char");
            reveal_strlit("str");
            reveal_strlit("String");
            reveal_strlit("println");
            reveal_strlit("print");
            assert("bool"@.len() == 4 && "bool"@[0] == 'b' && "bool"@[3] == 'l');
            assert("i8"@.len() == 2 && "i8"@[0] == 'i' && "i8"@[1] == '8');
            assert("i16"@.len() == 3 && "i16"@[0] == 'i' && "i16"@[2] == '6');
            assert("i32"@.len() == 3 && "i32"@[0] == 'i' && "i32"@[2] == '2');
            assert("i64"@.len() == 3 && "i64"@[0] == 'i' && "i64"@[2] == '4');
            assert("i128"@.len() == 4 && "i128"@[0] == 'i' && "i128"@[3] == '8');
            assert("isize"@.len() == 5 && "isize"@[0] == 'i' && "isize"@[4] == 'e');
            assert("u8"@.len() == 2 && "u8"@[0] == 'u' && "u8"@[1] == '8');
            assert("u16"@.len() == 3 && "u16"@[0] == 'u' && "u16"@[2] == '6');
            assert("u32"@.len() == 3 && "u32"@[0] == 'u' && "u32"@[2] == '2');
            assert("u64"@.len() == 3 && "u64"@[0] == 'u' && "u64"@[2] == '4');
            assert("u128"@.len() == 4 && "u128"@[0] == 'u' && "u128"@[3] == '8');
            assert("usize"@.len() == 5 && "usize"@[0] == 'u' && "usize"@[4] == 'e');
            assert("f32"@.len() == 3 && "f32"@[0] == 'f' && "f32"@[2] == '2');
            assert("f64"@.len() == 3 && "f64"@[0] == 'f' && "f64"@[2] == '4');
            assert("char"@.len() == 4 && "char"@[0] == 'c' && "char"@[3] == 'r');
            assert("str"@.len() == 3 && "str"@[0] == 's' && "str"@[2] == 'r');
            assert("String"@.len() == 6 && "String"@[0] == 'S' && "String"@[5] == 'g');
            assert("println"@.len() == 7 && "println"@[0] == 'p' && "println"@[6] == 'n');
            assert("print"@.len() == 5 && "print"@[0] == 'p' && "print"@[4] == 't');
            let names = self@.frames[c].names;
            assert forall|k: Seq<char>| #![trigger prim_kind(k)] prim_kind(k) is Some implies ({
                let s = names[k];
                &&& key(s) == k
                &&& s.kind is Type
                &&& leaf_kind(s.ty) == prim_kind(k)
                &&& !s.is_mut
                &&& s.span == (Span { start: 0, end: 0 })
                &&& s.visibility is Public
            }) by {
                if k == "bool"@ {
                } else if k == "i8"@ {
                } else if k == "i16"@ {
                } else if k == "i32"@ {
                } else if k == "i64"@ {
                } else if k == "i128"@ {
                } else if k == "isize"@ {
                } else if k == "u8"@ {
                } else if k == "u16"@ {
                } else if k == "u32"@ {
                } else if k == "u64"@ {
                } else if k == "u128"@ {
                } else if k == "usize"@ {
                } else if k == "f32"@ {
                } else if k == "f64"@ {
                } else if k == "char"@ {
                } else if k == "str"@ {
                } else if k == "String"@ {
                }
            }
        }
    }

    /// Files `symbol` in the current scope.
    pub fn insert(&mut self, symbol: Symbol)
        requires
            old(self).wf(),
        ensures
            final(self).wf(),
            final(self)@ == old(self)@.bind(old(self)@.current, symbol),
    {
        let c = self.current_scope;
        let ghost m0 = self@;
        let ghost sc0 = self.scopes@;
        self.scopes[c].insert(symbol);
        proof {
            assert(self.scopes@ == sc0.update(c as int, self.scopes@[c as int]));
            assert(self@.frames =~= m0.bind(c as int, symbol).frames);
            lemma_bind_wf(m0, c as int, symbol);
            assert forall|i: int| 0 <= i < self.scopes@.len() implies (#[trigger] self.scopes@[i]).wf() by {
                if i != c {
                    assert(self.scopes@[i] == sc0[i]);
                }
            }
        }
    }

    /// Files `symbol` in the scope of the module at `path`, registering the
    /// module if it was not yet.
    pub fn insert_in_module(&mut self, path: &[String], symbol: Symbol)
        requires
            old(self).wf(),
        ensures
            final(self).wf(),
            final(self)@ == old(self)@.register(texts(path@)).0.bind(old(self)@.register(texts(path@)).1, symbol),
            final(self)@.module_entry(texts(path@), key(symbol)) == Some(symbol),
    {
        let ghost m0 = self@;
        proof {
            lemma_register_wf(m0, texts(path@));
        }
        let idx = self.register_module(path);
        let ghost m1 = self@;
        let ghost sc0 = self.scopes@;
        self.scopes[idx].insert(symbol);
        proof {
            assert(self.scopes@ == sc0.update(idx as int, self.scopes@[idx as int]));
            assert(self@.frames =~= m1.bind(idx as int, symbol).frames);
            lemma_bind_wf(m1, idx as int, symbol);
            assert forall|i: int| 0 <= i < self.scopes@.len() implies (#[trigger] self.scopes@[i]).wf() by {
                if i != idx {
                    assert(self.scopes@[i] == sc0[i]);
                }
            }
        }
    }

    /// Makes the scope of the module at `path` current, registering the
    /// module if it was not yet.
    pub fn enter_module(&mut self, path: &[String])
        requires
            old(self).wf(),
        ensures
            final(self).wf(),
            final(self)@ == old(self)@.register(texts(path@)).0.at(old(self)@.register(texts(path@)).1),
    {
        proof {
            lemma_register_wf(self@, texts(path@));
        }
        let idx = self.register_module(path);
        self.current_scope = idx;
    }

    /// Opens a new scope inside the current one and makes it current.
    pub fn enter_scope(&mut self)
        requires
            old(self).wf(),
        ensures
            final(self).wf(),
            final(self)@ == old(self)@.enter(),
    {
        let ghost m0 = self@;
        let new_scope = Scope::new(Some(self.current_scope));
        self.scopes.push(new_scope);
        self.current_scope = self.scopes.len() - 1;
        proof {
            assert(self@.frames =~= m0.enter().frames);
            law_enter_keeps_bindings(m0, Seq::empty());
            assert forall|i: int| 0 <= i < self.scopes@.len() implies (#[trigger] self.scopes@[i]).wf() by {
                if i < self.scopes@.len() - 1 {
                    assert(self.scopes@[i] == old(self).scopes@[i]);
                }
            }
        }
    }

    /// Makes the enclosing scope current; the root scope stays current.
    pub fn exit_scope(&mut self)
        requires
            old(self).wf(),
        ensures
            final(self).wf(),
            final(self)@ == old(self)@.exit(),
    {
        proof {
            self.lemma_frames();
            let c = self.current_scope as int;
            assert(self@.frames[c] == self.scopes@[c]@);
            if c >= 1 {
                assert(self@.frames[c].parent matches Some(p) && 0 <= p < c);
            }
        }
        let ghost m0 = self@;
        if let Some(parent) = self.scopes[self.current_scope].parent {
            self.current_scope = parent;
            proof {
                lemma_at_wf(m0, parent as int);
                assert(self@ =~= m0.at(parent as int));
            }
        }
    }

    /// Makes the root scope current.
    pub fn exit_to_root(&mut self)
        requires
            old(self).wf(),
        ensures
            final(self).wf(),
            final(self)@ == old(self)@.at(0),
    {
        let ghost m0 = self@;
        self.current_scope = 0;
        proof {
            lemma_at_wf(m0, 0);
            assert(self@ =~= m0.at(0));
        }
    }

    /// The symbol that `name` resolves to from the current scope.
    pub fn lookup(&self, name: &Ident) -> (r: Option<&Symbol>)
        requires
            self.wf(),
        ensures
            match r {
                Some(s) => self@.resolve(name.name@) == Some(*s),
                None => self@.resolve(name.name@) is None,
            },
    {
        proof {
            self.lemma_frames();
        }
        let mut idx = self.current_scope;
        loop
            invariant
                self.wf(),
                idx < self.scopes@.len(),
                resolve_from(self@.frames, idx as int, name.name@) == self@.resolve(name.name@),
            decreases idx,
        {
            proof {
                self.lemma_frames();
            }
            let scope = &self.scopes[idx];
            match scope.get(name) {
                Some(symbol) => {
                    return Some(symbol);
                },
                None => {},
            }
            match scope.parent {
                Some(p) => {
                    assert(idx > 0);
                    idx = p;
                },
                None => {
                    return None;
                },
            }
        }
    }

    /// The symbol filed under `name` in the scope of the module at `path`.
    pub fn lookup_in_module(&self, path: &[String], name: &Ident) -> (r: Option<&Symbol>)
        requires
            self.wf(),
        ensures
            match r {
                Some(s) => self@.module_entry(texts(path@), name.name@) == Some(*s),
                None => self@.module_entry(texts(path@), name.name@) is None,
            },
    {
        proof {
            self.lemma_frames();
        }
        match self.module_scope(path) {
            Some(idx) => self.scopes[idx].get(name),
            None => None,
        }
    }

    /// The index of the scope of the module at `path`, if it is registered.
    fn module_scope(&self, path: &[String]) -> (r: Option<usize>)
        requires
            self.wf(),
        ensures
            match r {
                Some(i) => self@.modules.contains_key(module_key(texts(path@))) && i as int == self@.modules[module_key(
                    texts(path@),
                )] && 1 <= i < self.scopes@.len(),
                None => !self@.modules.contains_key(module_key(texts(path@))),
            },
    {
        let owned = copy_strings(path);
        let k = join_path(&owned);
        let mut j: usize = 0;
        while j < self.modules.len()
            invariant
                self.wf(),
                j <= self.modules@.len(),
                k@ == module_key(texts(path@)),
                forall|i: int| 0 <= i < j ==> (#[trigger] self.modules@[i]).0@ != k@,
            decreases self.modules@.len() - j,
        {
            if self.modules[j].0 == k {
                proof {
                    lemma_mod_map_has(self.modules@, j as int);
                }
                return Some(self.modules[j].1);
            }
            j += 1;
        }
        proof {
            lemma_mod_map_lacks(self.modules@, k@);
        }
        None
    }

    /// The symbol filed under `name` in the current scope itself.
    pub fn lookup_current(&self, name: &Ident) -> (r: Option<&Symbol>)
        requires
            self.wf(),
        ensures
            ({
                let names = self@.frames[self@.current].names;
                match r {
                    Some(s) => names.contains_key(name.name@) && names[name.name@] == *s,
                    None => !names.contains_key(name.name@),
                }
            }),
    {
        proof {
            self.lemma_frames();
        }
        self.scopes[self.current_scope].get(name)
    }

    /// Whether `name` resolves from the current scope.
    pub fn contains(&self, name: &Ident) -> (b: bool)
        requires
            self.wf(),
        ensures
            b == self@.resolve(name.name@) is Some,
    {
        self.lookup(name).is_some()
    }

    /// Whether `name` is filed in the current scope itself.
    pub fn contains_current(&self, name: &Ident) -> (b: bool)
        requires
            self.wf(),
        ensures
            b == self@.frames[self@.current].names.contains_key(name.name@),
    {
        proof {
            self.lemma_frames();
        }
        self.scopes[self.current_scope].contains(name)
    }

    /// The type of the symbol that `name` resolves to.
    pub fn get_var_type(&self, name: &Ident) -> (r: Option<&Ty>)
        requires
            self.wf(),
        ensures
            match r {
                Some(t) => self@.resolve(name.name@) matches Some(s) && s.ty == *t,
                None => self@.resolve(name.name@) is None,
            },
    {
        match self.lookup(name) {
            Some(s) => Some(&s.ty),
            None => None,
        }
    }

    /// The parameter and result types of the function that `name` resolves
    /// to, copied.
    pub fn get_function(&self, name: &Ident) -> (r: Option<(Vec<Ty>, Ty)>)
        requires
            self.wf(),
        ensures
            match self@.resolve(name.name@) {
                Some(s) => match s.kind {
                    SymbolKind::Function { params, ret } => r matches Some(pr) && same_tys(params@, pr.0@) && same_ty(
                        ret,
                        pr.1,
                    ),
                    _ => r is None,
                },
                None => r is None,
            },
    {
        match self.lookup(name) {
            Some(s) => match &s.kind {
                SymbolKind::Function { params, ret } => Some((copy_tys(params), copy_ty(ret))),
                _ => None,
            },
            None => None,
        }
    }

    /// The parameter and result types of the function that `name` resolves
    /// to, borrowed.
    pub fn get_function_ref(&self, name: &Ident) -> (r: Option<(&[Ty], &Ty)>)
        requires
            self.wf(),
        ensures
            match self@.resolve(name.name@) {
                Some(s) => match s.kind {
                    SymbolKind::Function { params, ret } => r matches Some(pr) && pr.0@ == params@ && *pr.1 == ret,
                    _ => r is None,
                },
                None => r is None,
            },
    {
        match self.lookup(name) {
            Some(s) => match &s.kind {
                SymbolKind::Function { params, ret } => Some((params.as_slice(), ret)),
                _ => None,
            },
            None => None,
        }
    }

    /// Whether `name` resolves to a type.
    pub fn is_type(&self, name: &Ident) -> (b: bool)
        requires
            self.wf(),
        ensures
            b == (self@.resolve(name.name@) matches Some(s) && s.kind is Type),
    {
        match self.lookup(name) {
            Some(s) => matches!(s.kind, SymbolKind::Type),
            None => false,
        }
    }

    /// Whether `name` resolves to a mutable symbol.
    pub fn is_mutable(&self, name: &Ident) -> (b: bool)
        requires
            self.wf(),
        ensures
            b == (self@.resolve(name.name@) matches Some(s) && s.is_mut),
    {
        match self.lookup(name) {
            Some(s) => s.is_mut,
            None => false,
        }
    }

    /// The fields of the struct that `name` resolves to, copied.
    pub fn get_struct_fields(&self, name: &Ident) -> (r: Option<Vec<(Ident, Ty)>>)
        requires
            self.wf(),
        ensures
            match self@.resolve(name.name@) {
                Some(s) => match s.kind {
                    SymbolKind::Struct { fields } => r matches Some(fs) && same_named(fields@, fs@),
                    _ => r is None,
                },
                None => r is None,
            },
    {
        match self.lookup(name) {
            Some(s) => match &s.kind {
                SymbolKind::Struct { fields } => Some(copy_named(fields)),
                _ => None,
            },
            None => None,
        }
    }

    /// The parameter types, result type and receiver of the method
    /// `owner_name::method_name`, copied.
    pub fn get_method(&self, owner_name: &Ident, method_name: &Ident) -> (r: Option<(Vec<Ty>, Ty, MethodReceiver)>)
        requires
            self.wf(),
        ensures
            match self@.resolve(method_key(owner_name.name@, method_name.name@)) {
                Some(s) => match s.kind {
                    SymbolKind::Method { params, ret, receiver, .. } => r matches Some(m) && same_tys(params@, m.0@)
                        && same_ty(ret, m.1) && m.2 == receiver,
                    _ => r is None,
                },
                None => r is None,
            },
    {
        let mut full = owner_name.name.clone();
        full.append("::");
        full.append(method_name.name.as_str());
        proof {
            reveal_strlit("::");
            assert(full@ =~= method_key(owner_name.name@, method_name.name@));
        }
        let full_name = Ident { name: full };
        match self.lookup(&full_name) {
            Some(s) => match &s.kind {
                SymbolKind::Method { params, ret, receiver, .. } => Some((copy_tys(params), copy_ty(ret), *receiver)),
                _ => None,
            },
            None => None,
        }
    }

    /// The type of field `field_name` of the struct that `struct_name`
    /// resolves to (the first field of that name), copied.
    pub fn get_field_type(&self, struct_name: &Ident, field_name: &Ident) -> (r: Option<Ty>)
        requires
            self.wf(),
        ensures
            match self@.resolve(struct_name.name@) {
                Some(s) => match s.kind {
                    SymbolKind::Struct { fields } => match first_named(fields@, field_name.name@) {
                        Some(j) => r matches Some(t) && same_ty(fields@[j].1, t),
                        None => r is None,
                    },
                    _ => r is None,
                },
                None => r is None,
            },
    {
        match self.lookup(struct_name) {
            Some(s) => match &s.kind {
                SymbolKind::Struct { fields } => {
                    let mut j: usize = 0;
                    while j < fields.len()
                        invariant
                            j <= fields@.len(),
                            self@.resolve(struct_name.name@) == Some(*s),
                            s.kind matches SymbolKind::Struct { fields: f } && f == *fields,
                            forall|i: int| 0 <= i < j ==> (#[trigger] fields@[i]).0.name@ != field_name.name@,
                        decreases fields@.len() - j,
                    {
                        if fields[j].0.same_as(field_name) {
                            proof {
                                lemma_first_named(fields@, field_name.name@, j as int);
                            }
                            return Some(copy_ty(&fields[j].1));
                        }
                        j += 1;
                    }
                    proof {
                        lemma_first_named_none(fields@, field_name.name@);
                    }
                    None
                },
                _ => None,
            },
            None => None,
        }
    }

    /// The symbols of the scope of the module at `path`, each once; none if
    /// the module is not registered.
    pub fn get_module_symbols(&self, path: &[String]) -> (r: Vec<&Symbol>)
        requires
            self.wf(),
        ensures
            ({
                let mk = module_key(texts(path@));
                if self@.modules.contains_key(mk) {
                    let names = self@.frames[self@.modules[mk]].names;
                    &&& r@.len() == names.dom().len()
                    &&& forall|i: int| 0 <= i < r@.len() ==> names.contains_key(key(*#[trigger] r@[i])) && names[key(*r@[i])] == *r@[i]
                    &&& forall|i: int, j: int| 0 <= i < j < r@.len() ==> key(*#[trigger] r@[i]) != key(*#[trigger] r@[j])
                } else {
                    r@.len() == 0
                }
            }),
    {
        proof {
            self.lemma_frames();
        }
        let mut r: Vec<&Symbol> = Vec::new();
        match self.module_scope(path) {
            Some(idx) => {
                let scope = &self.scopes[idx];
                let syms = scope.symbols();
                let mut i: usize = 0;
                while i < syms.len()
                    invariant
                        i <= syms@.len(),
                        names_distinct(syms@),
                        r@.len() == i,
                        forall|j: int| 0 <= j < i ==> *#[trigger] r@[j] == syms@[j],
                    decreases syms@.len() - i,
                {
                    r.push(&syms[i]);
                    i += 1;
                }
                proof {
                    lemma_sym_map_len(syms@);
                    assert forall|a: int| 0 <= a < r@.len() implies sym_map(syms@).contains_key(key(*#[trigger] r@[a]))
                        && sym_map(syms@)[key(*r@[a])] == *r@[a] by {
                        lemma_sym_map_has(syms@, a);
                    }
                }
                r
            },
            None => r,
        }
    }

    /// Files in the current scope a public symbol `name` that stands for
    /// `original_name` of the module at `source_module`.
    pub fn import_symbol(&mut self, name: Ident, original_name: Ident, source_module: Vec<String>)
        requires
            old(self).wf(),
        ensures
            final(self).wf(),
            final(self)@ == old(self)@.bind(
                old(self)@.current,
                Symbol {
                    name,
                    kind: SymbolKind::Imported { original_name, source_module },
                    ty: Ty::Error,
                    is_mut: false,
                    span: Span { start: 0, end: 0 },
                    visibility: Visibility::Public,
                },
            ),
    {
        let symbol = Symbol {
            name,
            kind: SymbolKind::Imported { original_name, source_module },
            ty: Ty::Error,
            is_mut: false,
            span: 0..0,
            visibility: Visibility::Public,
        };
        self.insert(symbol);
    }

    /// Files in the current scope a copy of each public symbol of the
    /// module at `path` that is not itself a module, and gives the names of
    /// all its public symbols, each once; none if the module is not
    /// registered.
    #[verifier::spinoff_prover]
    #[verifier::rlimit(40)]
    pub fn import_all_from_module(&mut self, path: &[String]) -> (r: Vec<Ident>)
        requires
            old(self).wf(),
        ensures
            final(self).wf(),
            imports_all(old(self)@, final(self)@, texts(path@), r@),
    {
        proof {
            self.lemma_frames();
        }
        let mut names: Vec<Ident> = Vec::new();
        let idx = match self.module_scope(path) {
            Some(idx) => idx,
            None => {
                return names;
            },
        };
        let mut copies: Vec<Symbol> = Vec::new();
        let ghost mut org_c: Seq<int> = Seq::empty();
        let ghost mut org_n: Seq<int> = Seq::empty();
        let syms = self.scopes[idx].symbols();
        let mut i: usize = 0;
        while i < syms.len()
            invariant
                i <= syms@.len(),
                names_distinct(syms@),
                copies@.len() == org_c.len(),
                names@.len() == org_n.len(),
                forall|c: int| 0 <= c < org_c.len() ==> 0 <= #[trigger] org_c[c] < i && imported(syms@[org_c[c]])
                    && same_symbol(syms@[org_c[c]], copies@[c]),
                forall|a: int, b: int| 0 <= a < b < org_c.len() ==> #[trigger] org_c[a] < #[trigger] org_c[b],
                forall|j: int| 0 <= j < i && imported(#[trigger] syms@[j]) ==> exists|c: int| 0 <= c < org_c.len() && #[trigger] org_c[c] == j,
                forall|n: int| 0 <= n < org_n.len() ==> 0 <= #[trigger] org_n[n] < i && syms@[org_n[n]].visibility is Public
                    && names@[n] == syms@[org_n[n]].name,
                forall|a: int, b: int| 0 <= a < b < org_n.len() ==> #[trigger] org_n[a] < #[trigger] org_n[b],
                forall|j: int| 0 <= j < i && (#[trigger] syms@[j]).visibility is Public ==> exists|n: int| 0 <= n < org_n.len() && #[trigger] org_n[n] == j,
            decreases syms@.len() - i,
        {
            let sym = &syms[i];
            let ghost oc = org_c;
            let ghost on = org_n;
            if sym.visibility == Visibility::Public {
                names.push(sym.name.clone());
                proof {
                    org_n = org_n.push(i as int);
                    assert(org_n[org_n.len() - 1] == i);
                }
                let is_module = match &sym.kind {
                    SymbolKind::Module { .. } => true,
                    _ => false,
                };
                if !is_module {
                    copies.push(copy_symbol(sym));
                    proof {
                        org_c = org_c.push(i as int);
                        assert(org_c[org_c.len() - 1] == i);
                    }
                }
            }
            proof {
                assert forall|j: int| 0 <= j <= i && imported(#[trigger] syms@[j]) implies exists|c: int| 0 <= c
                    < org_c.len() && #[trigger] org_c[c] == j by {
                    if j < i {
                        let c = choose|c: int| 0 <= c < oc.len() && #[trigger] oc[c] == j;
                        assert(org_c[c] == j);
                    } else {
                        assert(org_c[org_c.len() - 1] == i);
                    }
                }
                assert forall|j: int| 0 <= j <= i && (#[trigger] syms@[j]).visibility is Public implies exists|n: int| 0
                    <= n < org_n.len() && #[trigger] org_n[n] == j by {
                    if j < i {
                        let n = choose|n: int| 0 <= n < on.len() && #[trigger] on[n] == j;
                        assert(org_n[n] == j);
                    } else {
                        assert(org_n[org_n.len() - 1] == i);
                    }
                }
            }
            i += 1;
        }
        let ghost src_syms = syms@;
        let ghost all = copies@;
        let ghost m0 = self@;
        assert(m0 == old(self)@);
        let ghost c0 = self@.current;
        proof {
            lemma_sym_map_len(src_syms);
            assert forall|a: int, b: int| 0 <= a < b < all.len() implies key(#[trigger] all[a]) != key(#[trigger] all[b]) by {
                assert(org_c[a] < org_c[b]);
                assert(key(all[a]) == key(src_syms[org_c[a]]));
                assert(key(all[b]) == key(src_syms[org_c[b]]));
            }
        }
        while copies.len() > 0
            invariant
                self.wf(),
                copies@ == all.take(copies@.len() as int),
                copies@.len() <= all.len(),
                forall|a: int, b: int| 0 <= a < b < all.len() ==> key(#[trigger] all[a]) != key(#[trigger] all[b]),
                self@.frames.len() == m0.frames.len(),
                self@.current == c0,
                c0 == m0.current,
                m0.wf(),
                self@.modules == m0.modules,
                self@.prelude_loaded == m0.prelude_loaded,
                forall|j: int| 0 <= j < m0.frames.len() && j != c0 ==> #[trigger] self@.frames[j] == m0.frames[j],
                self@.frames[c0].parent == m0.frames[c0].parent,
                self@.frames[c0].module == m0.frames[c0].module,
                forall|c: int| copies@.len() <= c < all.len() ==> self@.frames[c0].names.contains_key(key(#[trigger] all[c]))
                    && self@.frames[c0].names[key(all[c])] == all[c],
                forall|k: Seq<char>| (forall|c: int| copies@.len() <= c < all.len() ==> key(#[trigger] all[c]) != k) ==> (
                    #[trigger] self@.frames[c0].names.contains_key(k) == m0.frames[c0].names.contains_key(k) && (
                    m0.frames[c0].names.contains_key(k) ==> self@.frames[c0].names[k] == m0.frames[c0].names[k])),
            decreases copies@.len(),
        {
            let ghost n = copies@.len();
            let sym = copies.pop().unwrap();
            proof {
                assert(sym == all[n - 1]);
                assert(all.take(n - 1) =~= all.take(n as int).drop_last());
            }
            self.insert(sym);
        }
        proof {
            let mk = module_key(texts(path@));
            let src = m0.frames[m0.modules[mk]].names;
            assert(src == sym_map(src_syms));
            assert forall|a: int, b: int| 0 <= a < b < names@.len() implies (#[trigger] names@[a]).name@
                != (#[trigger] names@[b]).name@ by {
                assert(org_n[a] < org_n[b]);
            }
            assert forall|a: int| 0 <= a < names@.len() implies src.contains_key((#[trigger] names@[a]).name@)
                && src[names@[a].name@].visibility is Public by {
                lemma_sym_map_has(src_syms, org_n[a]);
            }
            assert forall|k: Seq<char>| #[trigger] src.contains_key(k) && src[k].visibility is Public implies exists|a: int|
                0 <= a < names@.len() && (#[trigger] names@[a]).name@ == k by {
                lemma_sym_map_from(src_syms, k);
                let j = choose|j: int| 0 <= j < src_syms.len() && key(#[trigger] src_syms[j]) == k;
                lemma_sym_map_has(src_syms, j);
                assert(src_syms[j].visibility is Public);
                let n = choose|n: int| 0 <= n < org_n.len() && #[trigger] org_n[n] == j;
                assert(names@[n].name@ == k);
            }
            assert forall|k: Seq<char>| #[trigger] self@.frames[c0].names.contains_key(k) || m0.frames[c0].names.contains_key(k) || src.contains_key(k) implies
                if src.contains_key(k) && imported(src[k]) {
                    self@.frames[c0].names.contains_key(k) && same_symbol(src[k], self@.frames[c0].names[k])
                } else {
                    self@.frames[c0].names.contains_key(k) == m0.frames[c0].names.contains_key(k)
                        && (m0.frames[c0].names.contains_key(k) ==> self@.frames[c0].names[k] == m0.frames[c0].names[k])
                } by {
                if src.contains_key(k) && imported(src[k]) {
                    lemma_sym_map_from(src_syms, k);
                    let j = choose|j: int| 0 <= j < src_syms.len() && key(#[trigger] src_syms[j]) == k;
                    lemma_sym_map_has(src_syms, j);
                    let c = choose|c: int| 0 <= c < org_c.len() && #[trigger] org_c[c] == j;
                    assert(key(all[c]) == k);
                } else {
                    assert forall|c: int| 0 <= c < all.len() implies key(#[trigger] all[c]) != k by {
                        if key(all[c]) == k {
                            lemma_sym_map_has(src_syms, org_c[c]);
                        }
                    }
                }
            }
        }
        proof {
            assert(imports_all(m0, self@, texts(path@), names@));
        }
        names
    }

    /// Whether the prelude was loaded.
    pub fn prelude_loaded(&self) -> (b: bool)
        ensures
            b == self@.prelude_loaded,
    {
        self.prelude_loaded
    }

    /// Records whether the prelude was loaded.
    pub fn set_prelude_loaded(&mut self, loaded: bool)
        requires
            old(self).wf(),
        ensures
            final(self).wf(),
            final(self)@ == (TableModel { prelude_loaded: loaded, ..old(self)@ }),
    {
        self.prelude_loaded = loaded;
        proof {
            assert(self@ =~= (TableModel { prelude_loaded: loaded, ..old(self)@ }));
        }
    }

    /// The path of the module whose scope is current, if it is one.
    pub fn current_module(&self) -> (r: Option<&[String]>)
        requires
            self.wf(),
        ensures
            match r {
                Some(p) => self@.frames[self@.current].module == Some(texts(p@)),
                None => self@.frames[self@.current].module is None,
            },
    {
        proof {
            self.lemma_frames();
        }
        self.scopes[self.current_scope].module_segments()
    }

    /// The index of the scope of the module at `path`, registered now inside
    /// the root scope if it was not yet.
    pub fn register_module(&mut self, path: &[String]) -> (r: usize)
        requires
            old(self).wf(),
        ensures
            final(self).wf(),
            final(self)@ == old(self)@.register(texts(path@)).0,
            r as int == old(self)@.register(texts(path@)).1,
    {
        let owned = copy_strings(path);
        let k = join_path(&owned);
        let mut j: usize = 0;
        while j < self.modules.len()
            invariant
                self.wf(),
                j <= self.modules@.len(),
                k@ == module_key(texts(path@)),
                texts(owned@) == texts(path@),
                forall|i: int| 0 <= i < j ==> (#[trigger] self.modules@[i]).0@ != k@,
            decreases self.modules@.len() - j,
        {
            if self.modules[j].0 == k {
                proof {
                    lemma_mod_map_has(self.modules@, j as int);
                }
                return self.modules[j].1;
            }
            j += 1;
        }
        proof {
            lemma_mod_map_lacks(self.modules@, k@);
        }
        let idx = self.scopes.len();
        let ghost m0 = self@;
        let ghost mods0 = self.modules@;
        self.scopes.push(Scope::with_module(Some(0), owned));
        self.modules.push((k, idx));
        proof {
            let m1 = m0.register(texts(path@)).0;
            assert(self@.frames =~= m1.frames);
            assert(self.modules@.drop_last() =~= mods0);
            assert(self@.modules =~= m1.modules);
            lemma_register_wf(m0, texts(path@));
            assert forall|a: int, b: int| 0 <= a < b < self.modules@.len() implies (#[trigger] self.modules@[a]).0@
                != (#[trigger] self.modules@[b]).0@ by {
                if b < mods0.len() {
                    assert(self.modules@[a] == mods0[a]);
                    assert(self.modules@[b] == mods0[b]);
                } else {
                    assert(self.modules@[a] == mods0[a]);
                }
            }
            assert forall|i: int| 0 <= i < self.scopes@.len() implies (#[trigger] self.scopes@[i]).wf() by {
                if i < self.scopes@.len() - 1 {
                    assert(self.scopes@[i] == old(self).scopes@[i]);
                }
            }
            assert forall|i: int| 0 <= i < self.modules@.len() implies 1 <= (#[trigger] self.modules@[i]).1
                < self.scopes@.len() by {
                if i < mods0.len() {
                    assert(self.modules@[i] == mods0[i]);
                }
            }
        }
        idx
    }
}

impl Default for SymbolTable {
    fn default() -> (t: Self)
        ensures
            t.wf(),
            t@.frames.len() == 1,
            t@.current == 0,
            t@.modules == Map::<Seq<char>, int>::empty(),
            !t@.prelude_loaded,
            t@.frames[0].parent is None,
            t@.frames[0].module is None,
            builtin_names(t@.frames[0].names),
    {
        Self::new()
    }
}

/// A local variable.
#[derive(Debug)]
pub struct LocalVar {
    pub name: Ident,
    pub ty: Ty,
    pub is_mut: bool,
    pub span: Span,
}

/// A function's signature.
#[derive(Debug)]
pub struct FunctionInfo {
    pub name: Ident,
    pub params: Vec<(Ident, Ty)>,
    pub ret: Ty,
    pub span: Span,
}

/// A named type.
#[derive(Debug)]
pub struct TypeInfo {
    pub name: Ident,
    pub ty: Ty,
    pub span: Span,
}

} // verus!
