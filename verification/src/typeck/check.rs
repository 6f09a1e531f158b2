//! The type checker's state and the names it knows before it reads a
//! module: the primitive types, `Result` and `Option` with their variants.

use vstd::prelude::*;
use crate::ast::{BinaryOp, EnumDef, ExternBlock, ExternFunction, ExternItem, Expr, EnumVariant, EnumVariantFields, Function, Ident, ImplBlock, ImplItem, Item, Literal, Path, PathSegment, Pattern, Span, StructDef, Type, UnaryOp};
use crate::typeck::error::{TypeError, TypeErrors, TypeResult};
use crate::typeck::sym::{MethodReceiver, Symbol, SymbolKind, SymbolTable, TableModel, Visibility, builtin_names, copy_fields, key, law_lookup_after_insert, method_key};
use crate::typeck::ty::{AdtDef, AdtKind, FieldDef, Mutability, Ty, TypeParamId, VariantDef, coerces, copy_ty, copy_tys, leaf_kind, same, same_fields, same_ty, same_tys, spec_is_float, spec_is_integer, ty_size, ty_text};
use crate::ty::conversion::{mut_of, prim_kind, primitive_ty};
use crate::util::text::{decimal, prefixed_decimal, str_eq};
use crate::typeck::typeclass::TypeClassRegistry;
use crate::typeck::typeclass::builtin::{add_type_class, display_type_class, eq_type_class, ord_type_class};

verus! {

/// A private symbol.
fn make_symbol(name: Ident, kind: SymbolKind, ty: Ty, is_mut: bool, span: Span) -> (s: Symbol)
    ensures
        s == (Symbol { name, kind, ty, is_mut, span, visibility: Visibility::Private }),
{
    Symbol { name, kind, ty, is_mut, span, visibility: Visibility::Private }
}

/// The single field `0` of type parameter `p`.
fn param_field(p: u32) -> (r: Vec<FieldDef>)
    ensures
        r@.len() == 1,
        r@[0].name@ == "0"@,
        r@[0].ty == Ty::Param(TypeParamId(p)),
{
    let mut r = Vec::new();
    r.push(FieldDef { name: "0".to_owned(), ty: Ty::Param(TypeParamId(p)) });
    r
}

/// The variant `name` with the single field `0` of type parameter `p`.
fn param_variant(name: &str, p: u32) -> (v: VariantDef)
    ensures
        v.name@ == name@,
        unary_param_fields(v.fields@, p),
{
    VariantDef { name: name.to_owned(), fields: param_field(p) }
}

/// The enum `name` without its variants, as a constructor's result type.
fn bare_enum(name: &str) -> (t: Ty)
    ensures
        bare_enum_ty(t, name@),
{
    Ty::Adt(AdtDef { name: name.to_owned(), kind: AdtKind::Enum, variants: Vec::new() })
}

/// The fields are the single field `0` of type parameter `p`.
pub open spec fn unary_param_fields(fs: Seq<FieldDef>, p: u32) -> bool {
    fs.len() == 1 && fs[0].name@ == "0"@ && fs[0].ty == Ty::Param(TypeParamId(p))
}

/// `t` is the enum `name` with no variants listed.
pub open spec fn bare_enum_ty(t: Ty, name: Seq<char>) -> bool {
    t matches Ty::Adt(a) && a.name@ == name && a.kind == AdtKind::Enum && a.variants@.len() == 0
}

/// `t` is the enum `name` with the variants `v0(T0)` and, when `v1_param`
/// is given, `v1(T<v1_param>)`, else a field-less `v1`.
pub open spec fn two_variant_enum(t: Ty, name: Seq<char>, v0: Seq<char>, v1: Seq<char>, v1_param: Option<u32>) -> bool {
    t matches Ty::Adt(a) && a.name@ == name && a.kind == AdtKind::Enum && a.variants@.len() == 2
        && a.variants@[0].name@ == v0 && unary_param_fields(a.variants@[0].fields@, 0)
        && a.variants@[1].name@ == v1 && match v1_param {
        Some(p) => unary_param_fields(a.variants@[1].fields@, p),
        None => a.variants@[1].fields@.len() == 0,
    }
}

/// A private, immutable symbol at the empty span.
pub open spec fn plain_private(s: Symbol) -> bool {
    !s.is_mut && s.span == (Span { start: 0, end: 0 }) && s.visibility is Private
}

/// The symbol of an enum type.
pub open spec fn enum_type_symbol(s: Symbol, name: Seq<char>, v0: Seq<char>, v1: Seq<char>, v1_param: Option<u32>) -> bool {
    key(s) == name && s.kind is Type && two_variant_enum(s.ty, name, v0, v1, v1_param) && plain_private(s)
}

/// The symbol of the variant `index` of enum `parent`, with one field of
/// type parameter `p`: a constructor from that parameter to the enum.
pub open spec fn unary_variant_symbol(s: Symbol, name: Seq<char>, parent: Seq<char>, index: usize, p: u32) -> bool {
    &&& key(s) == name
    &&& s.kind matches SymbolKind::Variant { parent_enum, variant_index, fields } && parent_enum.name@ == parent
        && variant_index == index && unary_param_fields(fields@, p)
    &&& s.ty matches Ty::Fn { params, ret } && params@ == seq![Ty::Param(TypeParamId(p))] && bare_enum_ty(*ret, parent)
    &&& plain_private(s)
}

/// The names that the type checker adds to the builtin ones, each with its
/// symbol.
pub open spec fn prelude_symbol(k: Seq<char>, s: Symbol) -> bool {
    if k == "Result"@ {
        enum_type_symbol(s, k, "Ok"@, "Err"@, Some(1))
    } else if k == "Result::Ok"@ {
        unary_variant_symbol(s, k, "Result"@, 0, 0)
    } else if k == "Result::Err"@ {
        unary_variant_symbol(s, k, "Result"@, 1, 1)
    } else if k == "Option"@ {
        enum_type_symbol(s, k, "Some"@, "None"@, None)
    } else if k == "Option::Some"@ {
        unary_variant_symbol(s, k, "Option"@, 0, 0)
    } else if k == "Option::None"@ {
        &&& key(s) == k
        &&& s.kind matches SymbolKind::Variant { parent_enum, variant_index, fields } && parent_enum.name@ == "Option"@
            && variant_index == 1 && fields@.len() == 0
        &&& bare_enum_ty(s.ty, "Option"@)
        &&& plain_private(s)
    } else {
        false
    }
}

/// Whether `k` is one of the names of `Result`, `Option` and their variants.
pub open spec fn is_prelude_name(k: Seq<char>) -> bool {
    k == "Result"@ || k == "Result::Ok"@ || k == "Result::Err"@ || k == "Option"@ || k == "Option::Some"@
        || k == "Option::None"@
}

/// `after` is `before` with the prelude names filed in its current scope.
pub open spec fn with_prelude(before: TableModel, after: TableModel) -> bool {
    let c = before.current;
    &&& after.frames.len() == before.frames.len()
    &&& after.current == c
    &&& after.modules == before.modules
    &&& after.prelude_loaded == before.prelude_loaded
    &&& forall|i: int| 0 <= i < before.frames.len() && i != c ==> #[trigger] after.frames[i] == before.frames[i]
    &&& after.frames[c].parent == before.frames[c].parent
    &&& after.frames[c].module == before.frames[c].module
    &&& forall|k: Seq<char>| #[trigger]
        after.frames[c].names.contains_key(k) == (before.frames[c].names.contains_key(k) || is_prelude_name(k))
    &&& forall|k: Seq<char>| #[trigger]
        after.frames[c].names.contains_key(k) ==> if is_prelude_name(k) {
            prelude_symbol(k, after.frames[c].names[k])
        } else {
            after.frames[c].names[k] == before.frames[c].names[k]
        }
}

/// Filing `sym` in scope `c` changes that scope's names alone.
proof fn lemma_bind_facts(m: TableModel, c: int, sym: Symbol)
    requires
        0 <= c < m.frames.len(),
    ensures
        m.bind(c, sym).frames.len() == m.frames.len(),
        m.bind(c, sym).current == m.current,
        m.bind(c, sym).modules == m.modules,
        m.bind(c, sym).prelude_loaded == m.prelude_loaded,
        m.bind(c, sym).frames[c].names == m.frames[c].names.insert(key(sym), sym),
        m.bind(c, sym).frames[c].parent == m.frames[c].parent,
        m.bind(c, sym).frames[c].module == m.frames[c].module,
        forall|i: int| 0 <= i < m.frames.len() && i != c ==> #[trigger] m.bind(c, sym).frames[i] == m.frames[i],
{
}

/// The type checker: the symbol table, the errors found so far, the
/// declared return type of the function being checked, whether it is
/// async, the source text, and the registered type classes.
pub struct TypeChecker {
    symbol_table: SymbolTable,
    errors: TypeErrors,
    current_function_return: Option<Ty>,
    in_async_context: bool,
    source: String,
    type_class_registry: TypeClassRegistry,
}

impl TypeChecker {
    /// The symbol table.
    pub closed spec fn symbols(&self) -> TableModel {
        self.symbol_table@
    }

    /// The symbol table is well formed.
    pub closed spec fn wf(&self) -> bool {
        self.symbol_table.wf() && self.type_class_registry.wf()
    }

    /// The errors found so far.
    pub closed spec fn error_list(&self) -> Seq<crate::typeck::error::TypeError> {
        self.errors.items()
    }

    /// The source text.
    pub closed spec fn source_text(&self) -> Seq<char> {
        self.source@
    }

    /// A checker with the builtin type classes registered, one root scope
    /// holding the primitive types, `println`, `print`, `Result` and `Option`
    /// with their variants, and no errors.
    pub fn new() -> (c: Self)
        ensures
            c.wf(),
            c.symbols().frames.len() == 1,
            c.symbols().current == 0,
            c.error_list().len() == 0,
            exists|t: TableModel| {
                &&& t.frames.len() == 1
                &&& t.current == 0
                &&& builtin_names(t.frames[0].names)
                &&& with_prelude(t, c.symbols())
            },
    {
        let mut registry = TypeClassRegistry::new();
        let _ = registry.register_type_class(display_type_class());
        let _ = registry.register_type_class(eq_type_class());
        let _ = registry.register_type_class(ord_type_class());
        let _ = registry.register_type_class(add_type_class());
        let table = SymbolTable::new();
        let ghost t0 = table@;
        let mut checker = TypeChecker {
            symbol_table: table,
            errors: TypeErrors::new(),
            current_function_return: None,
            in_async_context: false,
            source: String::new(),
            type_class_registry: registry,
        };
        checker.register_builtin_types();
        assert(with_prelude(t0, checker.symbols()));
        checker
    }

    /// Files `Result` (variants `Ok(T0)`, `Err(T1)`) and `Option` (variants
    /// `Some(T0)`, `None`) in the current scope, each variant also under
    /// `Enum::Variant` as a constructor.
    pub fn register_builtin_types(&mut self)
        requires
            old(self).wf(),
        ensures
            final(self).wf(),
            with_prelude(old(self).symbols(), final(self).symbols()),
            final(self).error_list() == old(self).error_list(),
    {
        let ghost m0 = self.symbol_table@;
        let ghost c = m0.current;
        proof {
            self.symbol_table.lemma_model_wf();
            reveal_strlit("Result");
            reveal_strlit("Result::Ok");
            reveal_strlit("Result::Err");
            reveal_strlit("Option");
            reveal_strlit("Option::Some");
            reveal_strlit("Option::None");
            reveal_strlit("Ok");
            reveal_strlit("Err");
            reveal_strlit("Some");
            reveal_strlit("None");
            reveal_strlit("0");
            assert("Result"@.len() == 6 && "Option"@.len() == 6 && "Result"@[0] == 'R' && "Option"@[0] == 'O');
            assert("Result::Ok"@.len() == 10 && "Result::Err"@.len() == 11 && "Option::Some"@.len() == 12
                && "Option::None"@.len() == 12 && "Option::Some"@[8] == 'S' && "Option::None"@[8] == 'N');
        }
        let mut result_variants = Vec::new();
        result_variants.push(param_variant("Ok", 0));
        result_variants.push(param_variant("Err", 1));
        let result_ty = Ty::Adt(AdtDef { name: "Result".to_owned(), kind: AdtKind::Enum, variants: result_variants });
        let s1 = make_symbol(Ident::new("Result"), SymbolKind::Type, result_ty, false, 0..0);
        let ghost g1 = s1;
        assert(prelude_symbol("Result"@, g1));
        let ghost before1 = self.symbol_table@;
        proof {
            self.symbol_table.lemma_model_wf();
        }
        self.symbol_table.insert(s1);
        proof {
            lemma_bind_facts(before1, c, g1);
        }

        let mut ok_params = Vec::new();
        ok_params.push(Ty::Param(TypeParamId(0)));
        assert(ok_params@ =~= seq![Ty::Param(TypeParamId(0))]);
        let s2 = make_symbol(
            Ident::new("Result::Ok"),
            SymbolKind::Variant { parent_enum: Ident::new("Result"), variant_index: 0, fields: param_field(0) },
            Ty::Fn { params: ok_params, ret: Box::new(bare_enum("Result")) },
            false,
            0..0,
        );
        let ghost g2 = s2;
        assert(prelude_symbol("Result::Ok"@, g2));
        let ghost before2 = self.symbol_table@;
        proof {
            self.symbol_table.lemma_model_wf();
        }
        self.symbol_table.insert(s2);
        proof {
            lemma_bind_facts(before2, c, g2);
        }

        let mut err_params = Vec::new();
        err_params.push(Ty::Param(TypeParamId(1)));
        assert(err_params@ =~= seq![Ty::Param(TypeParamId(1))]);
        let s3 = make_symbol(
            Ident::new("Result::Err"),
            SymbolKind::Variant { parent_enum: Ident::new("Result"), variant_index: 1, fields: param_field(1) },
            Ty::Fn { params: err_params, ret: Box::new(bare_enum("Result")) },
            false,
            0..0,
        );
        let ghost g3 = s3;
        assert(prelude_symbol("Result::Err"@, g3));
        let ghost before3 = self.symbol_table@;
        proof {
            self.symbol_table.lemma_model_wf();
        }
        self.symbol_table.insert(s3);
        proof {
            lemma_bind_facts(before3, c, g3);
        }

        let mut option_variants = Vec::new();
        option_variants.push(param_variant("Some", 0));
        option_variants.push(VariantDef { name: "None".to_owned(), fields: Vec::new() });
        let option_ty = Ty::Adt(AdtDef { name: "Option".to_owned(), kind: AdtKind::Enum, variants: option_variants });
        let s4 = make_symbol(Ident::new("Option"), SymbolKind::Type, option_ty, false, 0..0);
        let ghost g4 = s4;
        assert(prelude_symbol("Option"@, g4));
        let ghost before4 = self.symbol_table@;
        proof {
            self.symbol_table.lemma_model_wf();
        }
        self.symbol_table.insert(s4);
        proof {
            lemma_bind_facts(before4, c, g4);
        }

        let mut some_params = Vec::new();
        some_params.push(Ty::Param(TypeParamId(0)));
        assert(some_params@ =~= seq![Ty::Param(TypeParamId(0))]);
        let s5 = make_symbol(
            Ident::new("Option::Some"),
            SymbolKind::Variant { parent_enum: Ident::new("Option"), variant_index: 0, fields: param_field(0) },
            Ty::Fn { params: some_params, ret: Box::new(bare_enum("Option")) },
            false,
            0..0,
        );
        let ghost g5 = s5;
        assert(prelude_symbol("Option::Some"@, g5));
        let ghost before5 = self.symbol_table@;
        proof {
            self.symbol_table.lemma_model_wf();
        }
        self.symbol_table.insert(s5);
        proof {
            lemma_bind_facts(before5, c, g5);
        }

        let s6 = make_symbol(
            Ident::new("Option::None"),
            SymbolKind::Variant { parent_enum: Ident::new("Option"), variant_index: 1, fields: Vec::new() },
            bare_enum("Option"),
            false,
            0..0,
        );
        let ghost g6 = s6;
        assert(prelude_symbol("Option::None"@, g6));
        let ghost before6 = self.symbol_table@;
        proof {
            self.symbol_table.lemma_model_wf();
        }
        self.symbol_table.insert(s6);
        proof {
            lemma_bind_facts(before6, c, g6);
        }
        proof {
            let after = self.symbol_table@;
            let names = after.frames[c].names;
            let n0 = m0.frames[c].names;
            assert(names == n0.insert(key(g1), g1).insert(key(g2), g2).insert(key(g3), g3).insert(key(g4), g4)
                .insert(key(g5), g5).insert(key(g6), g6));
            assert(after.frames[c].parent == m0.frames[c].parent && after.frames[c].module == m0.frames[c].module);
            assert forall|k: Seq<char>| #[trigger] names.contains_key(k) implies if is_prelude_name(k) {
                prelude_symbol(k, names[k])
            } else {
                names[k] == n0[k]
            } by {
                if k == "Result"@ {
                    assert(names[k] == g1);
                } else if k == "Result::Ok"@ {
                    assert(names[k] == g2);
                } else if k == "Result::Err"@ {
                    assert(names[k] == g3);
                } else if k == "Option"@ {
                    assert(names[k] == g4);
                } else if k == "Option::Some"@ {
                    assert(names[k] == g5);
                } else if k == "Option::None"@ {
                    assert(names[k] == g6);
                }
            }
            assert forall|i: int| 0 <= i < m0.frames.len() && i != c implies #[trigger] after.frames[i] == m0.frames[i] by {}
        }
    }
}


/// The type a symbol names, if it names one: a type, a struct or an enum
/// variant.
pub open spec fn named_type(o: Option<Symbol>) -> Option<Ty> {
    match o {
        Some(s) => if s.kind is Type || s.kind is Struct || s.kind is Variant {
            Some(s.ty)
        } else {
            None
        },
        None => None,
    }
}

/// `r` is what argument `i` resolves to, or the error type when there is
/// no such argument.
pub open spec fn arg_resolves(m: TableModel, args: Seq<Type>, i: int, r: Ty) -> bool
    decreases args, 0int,
{
    if 0 <= i < args.len() {
        resolves(m, args[i], r)
    } else {
        r is Error
    }
}

/// `r` is the type `name<args>` resolves to: `Result` with variants `Ok`
/// and `Err`, `Option` with `Some` and `None`, `Vec` as a struct over a
/// slice, each taking its field types from the arguments; another name
/// gives the type its symbol names, else the error type.
pub open spec fn generic_resolves(m: TableModel, name: Seq<char>, args: Seq<Type>, r: Ty) -> bool
    decreases args, 1int,
{
    if name == "Result"@ {
        r matches Ty::Adt(a) && a.name@ == "Result"@ && a.kind == AdtKind::Enum && a.variants@.len() == 2
            && a.variants@[0].name@ == "Ok"@ && a.variants@[0].fields@.len() == 1
            && a.variants@[0].fields@[0].name@ == "0"@ && arg_resolves(m, args, 0, a.variants@[0].fields@[0].ty)
            && a.variants@[1].name@ == "Err"@ && a.variants@[1].fields@.len() == 1
            && a.variants@[1].fields@[0].name@ == "0"@ && arg_resolves(m, args, 1, a.variants@[1].fields@[0].ty)
    } else if name == "Option"@ {
        r matches Ty::Adt(a) && a.name@ == "Option"@ && a.kind == AdtKind::Enum && a.variants@.len() == 2
            && a.variants@[0].name@ == "Some"@ && a.variants@[0].fields@.len() == 1
            && a.variants@[0].fields@[0].name@ == "0"@ && arg_resolves(m, args, 0, a.variants@[0].fields@[0].ty)
            && a.variants@[1].name@ == "None"@ && a.variants@[1].fields@.len() == 0
    } else if name == "Vec"@ {
        r matches Ty::Adt(a) && a.name@ == "Vec"@ && a.kind == AdtKind::Struct && a.variants@.len() == 1
            && a.variants@[0].name@ == "Vec"@ && a.variants@[0].fields@.len() == 1
            && a.variants@[0].fields@[0].name@ == "0"@ && (match a.variants@[0].fields@[0].ty {
                Ty::Slice(e) => arg_resolves(m, args, 0, *e),
                _ => false,
            })
    } else {
        match named_type(m.resolve(name)) {
            Some(t) => same_ty(t, r),
            None => r is Error,
        }
    }
}

/// `r` is the type a path resolves to.  With generic arguments on its last
/// segment it is that generic type; otherwise the type its last segment's
/// symbol names, else, for a single segment, the primitive it names, else
/// the error type.
pub open spec fn path_resolves(m: TableModel, p: Path, r: Ty) -> bool
    decreases p, 1int,
{
    let n = p.segments@.len();
    if n == 0 {
        r is Error
    } else {
        let last = p.segments@[n - 1];
        if last.generics@.len() > 0 {
            generic_resolves(m, last.ident.name@, last.generics@, r)
        } else {
            match named_type(m.resolve(last.ident.name@)) {
                Some(t) => same_ty(t, r),
                None => if n == 1 {
                    match prim_kind(last.ident.name@) {
                        Some(k) => leaf_kind(r) == Some(k),
                        None => r is Error,
                    }
                } else {
                    r is Error
                },
            }
        }
    }
}

/// `r` is the type a written type resolves to against the symbols of `m`.
pub open spec fn resolves(m: TableModel, t: Type, r: Ty) -> bool
    decreases t, 2int,
{
    match t {
        Type::Unit => r is Unit,
        Type::Never => r is Never,
        Type::Path(p) => path_resolves(m, p, r),
        Type::Ref(inner, mm) => r matches Ty::Ref(x, k) && k == mut_of(mm) && resolves(m, *inner, *x),
        Type::Ptr(inner, mm) => r matches Ty::Ptr(x, k) && k == mut_of(mm) && resolves(m, *inner, *x),
        Type::Array(inner, size) => r matches Ty::Array(x, k) && k == (match size {
            Some(n) => n,
            None => 0usize,
        }) && resolves(m, *inner, *x),
        Type::Slice(inner) => r matches Ty::Slice(x) && resolves(m, *inner, *x),
        Type::Tuple(ts) => r matches Ty::Tuple(xs) && all_resolve(m, ts@, xs@),
        Type::Function(f) => r matches Ty::Fn { params, ret } && all_resolve(m, f.params@, params@) && resolves(
            m,
            *f.return_type,
            *ret,
        ),
        Type::Generic(b, args) => match *b {
            Type::Path(p) => if p.segments@.len() > 0 {
                generic_resolves(m, p.segments@[p.segments@.len() - 1].ident.name@, args@, r)
            } else {
                resolves(m, *b, r)
            },
            _ => resolves(m, *b, r),
        },
        Type::ImplTrait(_) => r is Error,
        Type::DynTrait(_) => r is Error,
    }
}

/// Each type resolves to the type at the same position.
pub open spec fn all_resolve(m: TableModel, ts: Seq<Type>, rs: Seq<Ty>) -> bool
    decreases ts, 1int,
{
    if ts.len() == 0 {
        rs.len() == 0
    } else {
        rs.len() == ts.len() && all_resolve(m, ts.drop_last(), rs.drop_last()) && resolves(m, ts.last(), rs.last())
    }
}

impl TypeChecker {
    /// The type a written type stands for, resolving names against the
    /// symbols in scope.
    pub fn ast_type_to_ty(&self, ty: &Type) -> (r: Ty)
        requires
            self.wf(),
        ensures
            resolves(self.symbols(), *ty, r),
        decreases ty, 2int,
    {
        match ty {
            Type::Unit => Ty::Unit,
            Type::Never => Ty::Never,
            Type::Path(path) => self.resolve_type_path(path),
            Type::Ref(inner, is_mut) => {
                let x = self.ast_type_to_ty(inner);
                Ty::Ref(Box::new(x), if *is_mut { Mutability::Mut } else { Mutability::Not })
            },
            Type::Ptr(inner, is_mut) => {
                let x = self.ast_type_to_ty(inner);
                Ty::Ptr(Box::new(x), if *is_mut { Mutability::Mut } else { Mutability::Not })
            },
            Type::Array(inner, size) => {
                let x = self.ast_type_to_ty(inner);
                let n = match size {
                    Some(n) => *n,
                    None => 0,
                };
                Ty::Array(Box::new(x), n)
            },
            Type::Slice(inner) => {
                let x = self.ast_type_to_ty(inner);
                Ty::Slice(Box::new(x))
            },
            Type::Tuple(types) => Ty::Tuple(self.resolve_types(types)),
            Type::Function(func_ty) => {
                let params = self.resolve_types(&func_ty.params);
                let ret = self.ast_type_to_ty(&func_ty.return_type);
                Ty::Fn { params, ret: Box::new(ret) }
            },
            Type::Generic(base, args) => {
                match &**base {
                    Type::Path(path) => {
                        let n = path.segments.len();
                        if n > 0 {
                            return self.resolve_generic_type(&path.segments[n - 1].ident, args);
                        }
                    },
                    _ => {},
                }
                self.ast_type_to_ty(base)
            },
            _ => Ty::Error,
        }
    }

    /// The types a list of written types stands for.
    fn resolve_types(&self, ts: &Vec<Type>) -> (r: Vec<Ty>)
        requires
            self.wf(),
        ensures
            all_resolve(self.symbols(), ts@, r@),
        decreases ts, 1int,
    {
        let mut r: Vec<Ty> = Vec::new();
        let mut i: usize = 0;
        while i < ts.len()
            invariant
                self.wf(),
                i <= ts@.len(),
                all_resolve(self.symbols(), ts@.take(i as int), r@),
            decreases ts@.len() - i,
        {
            assert(decreases_to!(ts => ts@[i as int]));
            let t = self.ast_type_to_ty(&ts[i]);
            let ghost prev = r@;
            r.push(t);
            proof {
                assert(ts@.take(i + 1).drop_last() =~= ts@.take(i as int));
                assert(r@.drop_last() =~= prev);
                assert(ts@.take(i + 1).last() == ts@[i as int]);
            }
            i += 1;
        }
        proof {
            assert(ts@.take(i as int) =~= ts@);
        }
        r
    }

    /// The type a symbol in scope names under `name`, if one does.
    fn named_type_of(&self, name: &Ident) -> (r: Option<Ty>)
        requires
            self.wf(),
        ensures
            match named_type(self.symbols().resolve(name.name@)) {
                Some(t) => r matches Some(x) && same_ty(t, x),
                None => r is None,
            },
    {
        match self.symbol_table.lookup(name) {
            Some(symbol) => match &symbol.kind {
                SymbolKind::Type => Some(copy_ty(&symbol.ty)),
                SymbolKind::Struct { .. } => Some(copy_ty(&symbol.ty)),
                SymbolKind::Variant { .. } => Some(copy_ty(&symbol.ty)),
                _ => None,
            },
            None => None,
        }
    }

    /// The type a path stands for.
    fn resolve_type_path(&self, path: &Path) -> (r: Ty)
        requires
            self.wf(),
        ensures
            path_resolves(self.symbols(), *path, r),
        decreases path, 1int,
    {
        let n = path.segments.len();
        if n == 0 {
            return Ty::Error;
        }
        let last = &path.segments[n - 1];
        if last.generics.len() > 0 {
            assert(decreases_to!(path => path.segments@[n - 1].generics));
            return self.resolve_generic_type(&last.ident, &last.generics);
        }
        match self.named_type_of(&last.ident) {
            Some(t) => t,
            None => {
                if n == 1 {
                    match primitive_ty(last.ident.as_str()) {
                        Some(t) => t,
                        None => Ty::Error,
                    }
                } else {
                    Ty::Error
                }
            },
        }
    }

    /// What argument `i` stands for, or the error type.
    fn resolve_arg(&self, args: &Vec<Type>, i: usize) -> (r: Ty)
        requires
            self.wf(),
        ensures
            arg_resolves(self.symbols(), args@, i as int, r),
        decreases args, 0int,
    {
        if i < args.len() {
            assert(decreases_to!(args => args@[i as int]));
            self.ast_type_to_ty(&args[i])
        } else {
            Ty::Error
        }
    }

    /// The type `name<generics>` stands for.
    fn resolve_generic_type(&self, name: &Ident, generics: &Vec<Type>) -> (r: Ty)
        requires
            self.wf(),
        ensures
            generic_resolves(self.symbols(), name.name@, generics@, r),
        decreases generics, 1int,
    {
        if str_eq(name.as_str(), "Result") {
            let ok_ty = self.resolve_arg(generics, 0);
            let err_ty = self.resolve_arg(generics, 1);
            let mut ok_fields = Vec::new();
            ok_fields.push(FieldDef { name: "0".to_owned(), ty: ok_ty });
            let mut err_fields = Vec::new();
            err_fields.push(FieldDef { name: "0".to_owned(), ty: err_ty });
            let mut variants = Vec::new();
            variants.push(VariantDef { name: "Ok".to_owned(), fields: ok_fields });
            variants.push(VariantDef { name: "Err".to_owned(), fields: err_fields });
            Ty::Adt(AdtDef { name: "Result".to_owned(), kind: AdtKind::Enum, variants })
        } else if str_eq(name.as_str(), "Option") {
            let some_ty = self.resolve_arg(generics, 0);
            let mut some_fields = Vec::new();
            some_fields.push(FieldDef { name: "0".to_owned(), ty: some_ty });
            let mut variants = Vec::new();
            variants.push(VariantDef { name: "Some".to_owned(), fields: some_fields });
            variants.push(VariantDef { name: "None".to_owned(), fields: Vec::new() });
            Ty::Adt(AdtDef { name: "Option".to_owned(), kind: AdtKind::Enum, variants })
        } else if str_eq(name.as_str(), "Vec") {
            let elem_ty = self.resolve_arg(generics, 0);
            let mut fields = Vec::new();
            fields.push(FieldDef { name: "0".to_owned(), ty: Ty::Slice(Box::new(elem_ty)) });
            let mut variants = Vec::new();
            variants.push(VariantDef { name: "Vec".to_owned(), fields });
            Ty::Adt(AdtDef { name: "Vec".to_owned(), kind: AdtKind::Struct, variants })
        } else {
            match self.named_type_of(name) {
                Some(t) => t,
                None => Ty::Error,
            }
        }
    }
}


/// The written types of a function's parameters.
pub open spec fn param_types(ps: Seq<(Ident, Type)>) -> Seq<Type> {
    ps.map_values(|p: (Ident, Type)| p.1)
}

/// `r` is a function's result type: its written return type resolved, or
/// unit when it has none.
pub open spec fn ret_resolves(m: TableModel, o: Option<Type>, r: Ty) -> bool {
    match o {
        Some(t) => resolves(m, t, r),
        None => r is Unit,
    }
}

/// `s` is the function symbol for a signature written with `name`,
/// `written` parameters and `ret_written` result type against the symbols
/// of `m`: a private, immutable function symbol under that name whose
/// parameter and result types are the written ones resolved, and whose type
/// is the function type over them.
pub open spec fn fn_symbol(m: TableModel, name: Ident, written: Seq<(Ident, Type)>, ret_written: Option<Type>, s: Symbol) -> bool {
    &&& s.name == name
    &&& !s.is_mut
    &&& s.visibility is Private
    &&& s.span == (Span { start: 0, end: 0 })
    &&& match (s.kind, s.ty) {
        (SymbolKind::Function { params, ret }, Ty::Fn { params: ps, ret: r }) => {
            &&& all_resolve(m, param_types(written), params@)
            &&& ret_resolves(m, ret_written, ret)
            &&& same_tys(params@, ps@)
            &&& same_ty(ret, *r)
        },
        _ => false,
    }
}

/// `s` is the signature symbol of function `f` against the symbols of `m`.
pub open spec fn fn_signature(m: TableModel, f: Function, s: Symbol) -> bool {
    fn_symbol(m, f.name, f.params@, f.return_type, s)
}

/// The function of a foreign item.
pub open spec fn extern_item_function(it: ExternItem) -> ExternFunction {
    match it {
        ExternItem::Function(f) => f,
    }
}

/// `syms` are the symbols a foreign block files against `m`: one function
/// symbol per foreign function, in order, each resolved against the table
/// as it stands when it is filed.
pub open spec fn extern_signatures(m: TableModel, b: ExternBlock, syms: Seq<Symbol>) -> bool {
    &&& syms.len() == b.items@.len()
    &&& forall|i: int| 0 <= i < syms.len() ==> {
        let f = #[trigger] extern_item_function(b.items@[i]);
        fn_symbol(bind_all(m, syms.take(i)), f.name, f.params@, f.return_type, syms[i])
    }
}

/// A named field resolved: the pair keeps the name and has the resolved
/// type, and the field definition has the same name and type.
pub open spec fn named_field_resolves(m: TableModel, written: (Ident, Type), pair: (Ident, Ty), d: FieldDef) -> bool {
    &&& pair.0 == written.0
    &&& resolves(m, written.1, pair.1)
    &&& d.name@ == written.0.name@
    &&& same_ty(pair.1, d.ty)
}

/// `s` is the symbol of struct `d` against the symbols of `m`: a private,
/// immutable struct symbol under `d`'s name with its fields resolved, whose
/// type is a struct of that name with one variant of that name holding the
/// same fields.
pub open spec fn struct_signature(m: TableModel, d: StructDef, s: Symbol) -> bool {
    &&& s.name == d.name
    &&& !s.is_mut
    &&& s.visibility is Private
    &&& s.span == (Span { start: 0, end: 0 })
    &&& match (s.kind, s.ty) {
        (SymbolKind::Struct { fields }, Ty::Adt(a)) => {
            &&& a.name@ == d.name.name@
            &&& a.kind == AdtKind::Struct
            &&& a.variants@.len() == 1
            &&& a.variants@[0].name@ == d.name.name@
            &&& fields@.len() == d.fields@.len()
            &&& a.variants@[0].fields@.len() == d.fields@.len()
            &&& forall|j: int| 0 <= j < d.fields@.len() ==> #[trigger] named_field_resolves(m, d.fields@[j], fields@[j], a.variants@[0].fields@[j])
        },
        _ => false,
    }
}

/// `m` with `syms` filed in its current scope, in order.
pub open spec fn bind_all(m: TableModel, syms: Seq<Symbol>) -> TableModel
    decreases syms.len(),
{
    if syms.len() == 0 {
        m
    } else {
        bind_all(m, syms.drop_last()).bind(m.current, syms.last())
    }
}

/// Filing symbols keeps the current scope.
proof fn lemma_bind_all_current(m: TableModel, syms: Seq<Symbol>)
    ensures
        bind_all(m, syms).current == m.current,
    decreases syms.len(),
{
    if syms.len() > 0 {
        lemma_bind_all_current(m, syms.drop_last());
    }
}

/// `d` is variant `v` with its fields resolved against `m`: none for a unit
/// variant, `0`, `1`, ... for positional fields, the written names for
/// named ones.
pub open spec fn variant_def_of(m: TableModel, v: EnumVariant, d: VariantDef) -> bool {
    &&& d.name@ == v.name.name@
    &&& match v.fields {
        EnumVariantFields::Unit => d.fields@.len() == 0,
        EnumVariantFields::Tuple(ts) => d.fields@.len() == ts@.len() && forall|j: int|
            0 <= j < ts@.len() ==> (#[trigger] d.fields@[j]).name@ == decimal(j as nat) && resolves(m, ts@[j], d.fields@[j].ty),
        EnumVariantFields::Struct(ps) => d.fields@.len() == ps@.len() && forall|j: int|
            0 <= j < ps@.len() ==> (#[trigger] d.fields@[j]).name@ == ps@[j].0.name@ && resolves(m, ps@[j].1, d.fields@[j].ty),
    }
}

/// `t` is the type of enum `e` against `m`: an enum of its name with each
/// variant resolved.
pub open spec fn enum_ty_of(m: TableModel, e: EnumDef, t: Ty) -> bool {
    t matches Ty::Adt(a) && a.name@ == e.name.name@ && a.kind == AdtKind::Enum && a.variants@.len() == e.variants@.len()
        && forall|i: int| 0 <= i < e.variants@.len() ==> #[trigger] variant_def_of(m, e.variants@[i], a.variants@[i])
}

/// The written types a variant's constructor takes.
pub open spec fn constructor_params(v: EnumVariant) -> Seq<Type> {
    match v.fields {
        EnumVariantFields::Unit => Seq::empty(),
        EnumVariantFields::Tuple(ts) => ts@,
        EnumVariantFields::Struct(ps) => param_types(ps@),
    }
}

/// `t` is the type of variant `v`'s constructor against `m`: the enum type
/// itself for a unit variant, else a function from the field types,
/// resolved, to the enum type.
pub open spec fn constructor_ty(m: TableModel, v: EnumVariant, enum_t: Ty, t: Ty) -> bool {
    if v.fields is Unit {
        same_ty(enum_t, t)
    } else {
        t matches Ty::Fn { params, ret } && all_resolve(m, constructor_params(v), params@) && same_ty(enum_t, *ret)
    }
}

/// `s` is the constructor symbol of variant `i` of enum `e` whose type is
/// `enum_t`, its constructor type resolved against `m`: filed under
/// `Enum::Variant`, naming its enum, its index and its fields.
pub open spec fn variant_symbol(m: TableModel, e: EnumDef, i: int, s: Symbol, enum_t: Ty) -> bool {
    &&& s.name.name@ == e.name.name@ + "::"@ + e.variants@[i].name.name@
    &&& !s.is_mut
    &&& s.visibility is Private
    &&& s.span == (Span { start: 0, end: 0 })
    &&& constructor_ty(m, e.variants@[i], enum_t, s.ty)
    &&& s.kind matches SymbolKind::Variant { parent_enum, variant_index, fields } && parent_enum == e.name
        && variant_index == i && (enum_t matches Ty::Adt(a) && same_fields(a.variants@[i].fields@, fields@))
}

/// `syms` are the symbols enum `e` files against `m`, in order: the
/// constructor of each variant, each resolved against the table as it
/// stands when it is filed, then a type symbol under the enum's name for
/// the enum type.
pub open spec fn enum_signatures(m: TableModel, e: EnumDef, syms: Seq<Symbol>) -> bool {
    let n = e.variants@.len();
    &&& syms.len() == n + 1
    &&& syms[n as int].name == e.name
    &&& syms[n as int].kind is Type
    &&& !syms[n as int].is_mut
    &&& syms[n as int].visibility is Private
    &&& syms[n as int].span == (Span { start: 0, end: 0 })
    &&& enum_ty_of(m, e, syms[n as int].ty)
    &&& forall|i: int| 0 <= i < n ==> #[trigger] variant_symbol(bind_all(m, syms.take(i)), e, i, syms[i], syms[n as int].ty)
}

/// The name a type gives its methods: a struct's or enum's name, a named
/// type's name, what a reference or pointer points to, `Error` for the error
/// type, `Unknown` otherwise.
pub open spec fn owner_text(t: Ty) -> Seq<char>
    decreases t,
{
    match t {
        Ty::Adt(a) => a.name@,
        Ty::Named(n) => n@,
        Ty::Ref(inner, _) => owner_text(*inner),
        Ty::Ptr(inner, _) => owner_text(*inner),
        Ty::Error => "Error"@,
        _ => "Unknown"@,
    }
}

/// How a method with these parameters takes its receiver: by its first
/// parameter's name (`self` by value unless written as a reference, `&self`,
/// `&mut self`), else by whether that parameter is a reference; none when
/// there is no parameter.
pub open spec fn receiver_of(ps: Seq<(Ident, Type)>) -> MethodReceiver {
    if ps.len() == 0 {
        MethodReceiver::NoReceiver
    } else if ps[0].0.name@ == "self"@ {
        match ps[0].1 {
            Type::Ref(_, false) => MethodReceiver::Ref,
            Type::Ref(_, true) => MethodReceiver::RefMut,
            _ => MethodReceiver::Value,
        }
    } else if ps[0].0.name@ == "&self"@ {
        MethodReceiver::Ref
    } else if ps[0].0.name@ == "&mut self"@ {
        MethodReceiver::RefMut
    } else {
        match ps[0].1 {
            Type::Ref(_, false) => MethodReceiver::Ref,
            Type::Ref(_, true) => MethodReceiver::RefMut,
            _ => MethodReceiver::NoReceiver,
        }
    }
}

/// The written parameter types of a method, without its receiver.
pub open spec fn method_param_types(ps: Seq<(Ident, Type)>) -> Seq<Type> {
    if receiver_of(ps) is NoReceiver {
        param_types(ps)
    } else {
        param_types(ps).skip(1)
    }
}

/// `s` is the symbol of method `f` of an `impl` for `impl_t`, resolved
/// against `m`: filed under `Owner::method`, with its receiver, its
/// parameter types after the receiver and its result type resolved, the
/// implementing type, and the function type over them.
pub open spec fn method_symbol(m: TableModel, impl_t: Ty, f: Function, s: Symbol) -> bool {
    &&& s.name.name@ == owner_text(impl_t) + "::"@ + f.name.name@
    &&& !s.is_mut
    &&& s.visibility is Private
    &&& s.span == (Span { start: 0, end: 0 })
    &&& match (s.kind, s.ty) {
        (SymbolKind::Method { params, ret, receiver, impl_type }, Ty::Fn { params: ps, ret: r }) => {
            &&& all_resolve(m, method_param_types(f.params@), params@)
            &&& ret_resolves(m, f.return_type, ret)
            &&& receiver == receiver_of(f.params@)
            &&& same_ty(impl_t, impl_type)
            &&& same_tys(params@, ps@)
            &&& same_ty(ret, *r)
        },
        _ => false,
    }
}

/// The function of an `impl` item.
pub open spec fn item_function(it: ImplItem) -> Function {
    match it {
        ImplItem::Function(f) => f,
    }
}

/// `syms` are the method symbols an `impl` block files against `m`, one
/// per item in order, each resolved against the table as it stands when it
/// is filed, for the block's type resolved against `m`.
pub open spec fn impl_signatures(m: TableModel, b: ImplBlock, syms: Seq<Symbol>) -> bool {
    &&& syms.len() == b.items@.len()
    &&& exists|impl_t: Ty| {
        &&& resolves(m, b.ty, impl_t)
        &&& forall|i: int| 0 <= i < syms.len() ==> #[trigger] method_symbol(bind_all(m, syms.take(i)), impl_t, item_function(b.items@[i]), syms[i])
    }
}

/// The first argument whose type does not convert implicitly to its
/// parameter's type, if any.
pub open spec fn first_mismatch(params: Seq<Ty>, args: Seq<Ty>) -> Option<int> {
    if exists|i: int| 0 <= i < params.len() && !crate::typeck::ty::converts(args[i], params[i]) {
        let i = choose|i: int| {
            &&& 0 <= i < params.len()
            &&& !crate::typeck::ty::converts(args[i], params[i])
            &&& forall|j: int| 0 <= j < i ==> crate::typeck::ty::converts(args[j], params[j])
        };
        Some(i)
    } else {
        None
    }
}

/// Once a struct's signature is filed, its name written as a type (one
/// segment, no generic arguments) resolves to the struct's type and to
/// nothing else.
pub proof fn law_struct_name_resolves(m: TableModel, d: StructDef, s: Symbol, p: Path, r: Ty)
    requires
        m.wf(),
        struct_signature(m, d, s),
        p.segments@.len() == 1,
        p.segments@[0].ident == d.name,
        p.segments@[0].generics@.len() == 0,
    ensures
        path_resolves(m.bind(m.current, s), p, r) <==> same_ty(s.ty, r),
{
    law_lookup_after_insert(m, s, d.name.name@);
}

/// `r` is the type of `left |> name` where `left` has type `left_ty`,
/// against `m`: for a function of one parameter, its result when the left
/// type is that parameter's, coerces to it, or both are numbers, else a
/// mismatch error naming the parameter and the left type; for a function
/// of another arity, the error type; for another symbol, its type; for an
/// unknown name, an undefined variable error.
pub open spec fn pipe_result(m: TableModel, left_ty: Ty, name: Seq<char>, r: TypeResult<Ty>) -> bool {
    match m.resolve(name) {
        Some(s) => match s.kind {
            SymbolKind::Function { params, ret } => if params@.len() == 1 {
                let p = params@[0];
                if same_ty(left_ty, p) || coerces(left_ty, p) || (numeric(left_ty) && numeric(p)) {
                    r matches Ok(t) && same_ty(ret, t)
                } else {
                    r matches Err(e) && e matches TypeError::MismatchedTypes { expected, found, span, line, column }
                        && expected@ == ty_text(p) && found@ == ty_text(left_ty) && span == (Span { start: 0, end: 0 })
                        && line == 0 && column == 0
                }
            } else {
                r == Ok::<Ty, TypeError>(Ty::Error)
            },
            _ => r matches Ok(t) && same_ty(s.ty, t),
        },
        None => r matches Err(e) && e matches TypeError::UndefinedVar { name: n, span, line, column } && n@ == name
            && span == (Span { start: 0, end: 0 }) && line == 0 && column == 0,
    }
}

/// `r` is the result of calling a function with parameter types `params`
/// and result type `ret` on arguments of types `args`: a count mismatch
/// error when the numbers differ; else a mismatch error naming the first
/// parameter whose argument does not convert to it, and that argument's
/// type; else the result type.
pub open spec fn call_result(params: Seq<Ty>, args: Seq<Ty>, ret: Ty, r: TypeResult<Ty>) -> bool {
    if params.len() != args.len() {
        r matches Err(e) && e matches TypeError::ArgCountMismatch { expected, found, span, line, column }
            && expected == params.len() && found == args.len() && span == (Span { start: 0, end: 0 }) && line == 0
            && column == 0
    } else {
        match first_mismatch(params, args) {
            Some(i) => r matches Err(e) && e matches TypeError::MismatchedTypes { expected, found, span, line, column }
                && expected@ == ty_text(params[i]) && found@ == ty_text(args[i]) && span == (Span { start: 0, end: 0 })
                && line == 0 && column == 0,
            None => r == Ok::<Ty, TypeError>(ret),
        }
    }
}

/// `t` is `Result` with variants `Ok` and `Err`, each holding one field
/// `0`, of the types `ok` and `err`.
pub open spec fn result_of(t: Ty, ok: Ty, err: Ty) -> bool {
    t matches Ty::Adt(a) && a.name@ == "Result"@ && a.kind == AdtKind::Enum && a.variants@.len() == 2
        && a.variants@[0].name@ == "Ok"@ && a.variants@[0].fields@.len() == 1 && a.variants@[0].fields@[0].name@ == "0"@
        && same_ty(ok, a.variants@[0].fields@[0].ty) && a.variants@[1].name@ == "Err"@ && a.variants@[1].fields@.len() == 1
        && a.variants@[1].fields@[0].name@ == "0"@ && same_ty(err, a.variants@[1].fields@[0].ty)
}

/// `t` is `Option` with variants `Some` (holding one field `0` of the given
/// type, or no field) and `None` (no field).
pub open spec fn option_of(t: Ty, some: Option<Ty>) -> bool {
    t matches Ty::Adt(a) && a.name@ == "Option"@ && a.kind == AdtKind::Enum && a.variants@.len() == 2
        && a.variants@[0].name@ == "Some"@ && a.variants@[1].name@ == "None"@ && a.variants@[1].fields@.len() == 0
        && match some {
        Some(x) => a.variants@[0].fields@.len() == 1 && a.variants@[0].fields@[0].name@ == "0"@ && same_ty(
            x,
            a.variants@[0].fields@[0].ty,
        ),
        None => a.variants@[0].fields@.len() == 0,
    }
}

/// The first argument type, or the error type when there is none.
pub open spec fn first_or_error(ts: Seq<Ty>) -> Ty {
    if ts.len() > 0 { ts[0] } else { Ty::Error }
}

/// The type of the first field of variant `i` of the expected `Result`
/// return type, or the error type when the function is not expected to
/// return a two-variant `Result` or that variant has no field.
pub open spec fn expected_result_field(ret: Option<Ty>, i: int) -> Ty {
    match ret {
        Some(Ty::Adt(a)) => if a.name@ == "Result"@ && a.variants@.len() == 2 && a.variants@[i].fields@.len() > 0 {
            a.variants@[i].fields@[0].ty
        } else {
            Ty::Error
        },
        _ => Ty::Error,
    }
}

/// The enum that the symbol under `full` is a variant of, if it is a
/// variant whose enum is in scope.
pub open spec fn variant_parent(m: TableModel, full: Seq<char>) -> Option<Symbol> {
    match m.resolve(full) {
        Some(s) => match s.kind {
            SymbolKind::Variant { parent_enum, .. } => m.resolve(parent_enum.name@),
            _ => None,
        },
        None => None,
    }
}

/// `r` is the type of the call `Type::Variant(args)` whose arguments have
/// the types `args`, against the symbols of `m` and the expected return
/// type `ret`: for a path of fewer than two segments the error type; for a
/// variant in scope its enum's type; `Result::Ok`/`Err` a `Result` over the
/// argument and the other side taken from the expected return type;
/// `Option::Some` an `Option` over the argument; `Option::None` an `Option`
/// whose variants hold nothing; otherwise the named type when it is a
/// struct or enum, else the error type.
pub open spec fn path_call_result(m: TableModel, ret: Option<Ty>, path: Path, args: Seq<Ty>, r: Ty) -> bool {
    let segs = path.segments@;
    if segs.len() < 2 {
        r is Error
    } else {
        let tn = segs[0].ident.name@;
        let vn = segs[1].ident.name@;
        match variant_parent(m, tn + "::"@ + vn) {
            Some(p) => same_ty(p.ty, r),
            None => if tn == "Result"@ && vn == "Ok"@ {
                result_of(r, first_or_error(args), expected_result_field(ret, 1))
            } else if tn == "Result"@ && vn == "Err"@ {
                result_of(r, expected_result_field(ret, 0), first_or_error(args))
            } else if tn == "Option"@ && vn == "Some"@ {
                option_of(r, Some(first_or_error(args)))
            } else if tn == "Option"@ && vn == "None"@ {
                option_of(r, None)
            } else {
                match m.resolve(tn) {
                    Some(s) => if s.ty is Adt { same_ty(s.ty, r) } else { r is Error },
                    None => r is Error,
                }
            },
        }
    }
}

/// `r` is the result of calling something with parameter types `params`
/// and result type `ret` on arguments of types `args`, the result type
/// given as a copy.
pub open spec fn call_result_copy(params: Seq<Ty>, args: Seq<Ty>, ret: Ty, r: TypeResult<Ty>) -> bool {
    exists|rc: Ty| same_ty(ret, rc) && call_result(params, args, rc, r)
}

/// `r` is the type of a call of `func`, whose arguments have the types
/// `args`, against the symbols of `m`; `func_ty` is the type of `func` when
/// it is neither a path to a method nor a name.  `Type.method(..)` with a
/// method in scope checks against that method; a name checks against the
/// function it names, or is an undefined function; anything else checks
/// against its function type, or is a non-callable expression.
pub open spec fn call_type_result(m: TableModel, func: Expr, func_ty: Ty, args: Seq<Ty>, r: TypeResult<Ty>) -> bool {
    let method = match func {
        Expr::FieldAccess(fa) => match *fa.expr {
            Expr::Ident(tn) => match m.resolve(method_key(tn.name@, fa.field.name@)) {
                Some(s) => match s.kind {
                    SymbolKind::Method { params, ret, .. } => Some((params@, ret)),
                    _ => None,
                },
                None => None,
            },
            _ => None,
        },
        _ => None,
    };
    match method {
        Some((params, ret)) => call_result_copy(params, args, ret, r),
        None => match func {
            Expr::Ident(name) => match m.resolve(name.name@) {
                Some(s) => match s.kind {
                    SymbolKind::Function { params, ret } => call_result_copy(params@, args, ret, r),
                    _ => r matches Err(e) && e matches TypeError::UndefinedFunction { name: n, span, line, column }
                        && n@ == name.name@ && span == (Span { start: 0, end: 0 }) && line == 0 && column == 0,
                },
                None => r matches Err(e) && e matches TypeError::UndefinedFunction { name: n, span, line, column }
                    && n@ == name.name@ && span == (Span { start: 0, end: 0 }) && line == 0 && column == 0,
            },
            _ => match func_ty {
                Ty::Fn { params, ret } => call_result(params@, args, *ret, r),
                _ => r matches Err(e) && e matches TypeError::InvalidType { name: n, span, line, column }
                    && n@ == "non-callable expression"@ && span == (Span { start: 0, end: 0 }) && line == 0 && column
                    == 0,
            },
        },
    }
}

/// The type of a literal: `i32` for an integer, `f64` for a float, unit for
/// `null`, and the obvious type otherwise.
pub open spec fn literal_ty(lit: Literal) -> Ty {
    match lit {
        Literal::Integer(_) => Ty::I32,
        Literal::Float(_) => Ty::F64,
        Literal::String(_) => Ty::String,
        Literal::Char(_) => Ty::Char,
        Literal::Bool(_) => Ty::Bool,
        Literal::Null => Ty::Unit,
    }
}

/// A literal's type is the type of the value it writes, and no other kind
/// of literal has it: a character literal is a `char`, a boolean one a
/// `bool`, a string one a `String`, `null` the unit type, an integer one
/// the default integer type `i32` and a float one a float type.
pub proof fn law_literal_types(lit: Literal)
    ensures
        (literal_ty(lit) == Ty::Char) <==> (lit is Char),
        (literal_ty(lit) == Ty::Bool) <==> (lit is Bool),
        (literal_ty(lit) == Ty::String) <==> (lit is String),
        (literal_ty(lit) == Ty::Unit) <==> (lit is Null),
        spec_is_integer(literal_ty(lit)) <==> (lit is Integer),
        spec_is_float(literal_ty(lit)) <==> (lit is Float),
        lit is Integer ==> literal_ty(lit) == Ty::I32,
{
}

impl TypeChecker {
    /// The declared result type of the function being checked, if any.
    pub closed spec fn expected_return(&self) -> Option<Ty> {
        self.current_function_return
    }

    /// The first field type of variant `i` of the expected `Result` return
    /// type, or the error type.
    fn expected_result_field_ty(&self, i: usize) -> (t: Ty)
        requires
            i < 2,
        ensures
            same_ty(expected_result_field(self.expected_return(), i as int), t),
    {
        match &self.current_function_return {
            Some(Ty::Adt(adt)) => {
                if str_eq(adt.name.as_str(), "Result") && adt.variants.len() == 2 && adt.variants[i].fields.len() > 0 {
                    copy_ty(&adt.variants[i].fields[0].ty)
                } else {
                    Ty::Error
                }
            },
            _ => Ty::Error,
        }
    }

    /// The type of the call `Type::Variant(args)` once its arguments have
    /// been checked and have the types `arg_tys`.
    pub fn path_call_type(&self, path: &Path, arg_tys: Vec<Ty>) -> (r: Ty)
        requires
            self.wf(),
        ensures
            path_call_result(self.symbols(), self.expected_return(), *path, arg_tys@, r),
    {
        if path.segments.len() < 2 {
            return Ty::Error;
        }
        let owner = &path.segments[0].ident;
        let variant_name = &path.segments[1].ident;
        let mut full = owner.name.clone();
        full.append("::");
        full.append(variant_name.as_str());
        let full_ident = Ident { name: full };
        match self.symbol_table.lookup(&full_ident) {
            Some(symbol) => match &symbol.kind {
                SymbolKind::Variant { parent_enum, .. } => match self.symbol_table.lookup(parent_enum) {
                    Some(parent) => {
                        return copy_ty(&parent.ty);
                    },
                    None => {},
                },
                _ => {},
            },
            None => {},
        }
        let first = if arg_tys.len() > 0 { copy_ty(&arg_tys[0]) } else { Ty::Error };
        let tn = owner.as_str();
        let vn = variant_name.as_str();
        if str_eq(tn, "Result") && str_eq(vn, "Ok") {
            let err_ty = self.expected_result_field_ty(1);
            result_ty(first, err_ty)
        } else if str_eq(tn, "Result") && str_eq(vn, "Err") {
            let ok_ty = self.expected_result_field_ty(0);
            result_ty(ok_ty, first)
        } else if str_eq(tn, "Option") && str_eq(vn, "Some") {
            let mut some_fields = Vec::new();
            some_fields.push(FieldDef { name: "0".to_owned(), ty: first });
            let mut variants = Vec::new();
            variants.push(VariantDef { name: "Some".to_owned(), fields: some_fields });
            variants.push(VariantDef { name: "None".to_owned(), fields: Vec::new() });
            Ty::Adt(AdtDef { name: "Option".to_owned(), kind: AdtKind::Enum, variants })
        } else if str_eq(tn, "Option") && str_eq(vn, "None") {
            let mut variants = Vec::new();
            variants.push(VariantDef { name: "Some".to_owned(), fields: Vec::new() });
            variants.push(VariantDef { name: "None".to_owned(), fields: Vec::new() });
            Ty::Adt(AdtDef { name: "Option".to_owned(), kind: AdtKind::Enum, variants })
        } else {
            match self.symbol_table.lookup(owner) {
                Some(symbol) => match &symbol.ty {
                    Ty::Adt(_) => copy_ty(&symbol.ty),
                    _ => Ty::Error,
                },
                None => Ty::Error,
            }
        }
    }

    /// The type of a call of `func` once its arguments have been checked and
    /// have the types `arg_tys`; `func_ty` is the type of `func`, used when
    /// `func` is neither a path to a method nor a name.
    pub fn call_type(&self, func: &Expr, func_ty: Ty, arg_tys: &Vec<Ty>) -> (r: TypeResult<Ty>)
        requires
            self.wf(),
        ensures
            call_type_result(self.symbols(), *func, func_ty, arg_tys@, r),
    {
        match func {
            Expr::FieldAccess(fa) => match &*fa.expr {
                Expr::Ident(tn) => {
                    let mut full = tn.name.clone();
                    full.append("::");
                    full.append(fa.field.as_str());
                    proof {
                        reveal_strlit("::");
                        assert(full@ =~= method_key(tn.name@, fa.field.name@));
                    }
                    match self.symbol_table.lookup(&Ident { name: full }) {
                        Some(symbol) => match &symbol.kind {
                            SymbolKind::Method { params, ret, .. } => {
                                let rc = copy_ty(ret);
                                return check_arguments(params, arg_tys, rc);
                            },
                            _ => {},
                        },
                        None => {},
                    }
                },
                _ => {},
            },
            _ => {},
        }
        match func {
            Expr::Ident(name) => match self.symbol_table.lookup(name) {
                Some(symbol) => match &symbol.kind {
                    SymbolKind::Function { params, ret } => {
                        let rc = copy_ty(ret);
                        check_arguments(params, arg_tys, rc)
                    },
                    _ => Err(TypeError::undefined_function(name.as_str(), 0..0, 0, 0)),
                },
                None => Err(TypeError::undefined_function(name.as_str(), 0..0, 0, 0)),
            },
            _ => match func_ty {
                Ty::Fn { params, ret } => check_arguments(&params, arg_tys, *ret),
                _ => Err(TypeError::InvalidType { name: "non-callable expression".to_owned(), span: 0..0, line: 0, column: 0 }),
            },
        }
    }

    /// The symbol that `name` resolves to from the current scope.
    pub fn lookup(&self, name: &Ident) -> (r: Option<&Symbol>)
        requires
            self.wf(),
        ensures
            match r {
                Some(s) => self.symbols().resolve(name.name@) == Some(*s),
                None => self.symbols().resolve(name.name@) is None,
            },
    {
        self.symbol_table.lookup(name)
    }

    /// Replaces the source text that positions refer to.
    pub fn set_source(&mut self, source: String)
        requires
            old(self).wf(),
        ensures
            final(self).wf(),
            final(self).source_text() == source@,
            final(self).symbols() == old(self).symbols(),
            final(self).error_list() == old(self).error_list(),
    {
        self.source = source;
    }

    /// Files the signatures of a module item in the current scope: for a
    /// function, a function symbol over its resolved parameter and result
    /// types; for a struct, a struct symbol with its resolved fields; for an
    /// enum, a constructor symbol `Enum::Variant` per variant, in order, then
    /// a type symbol for the enum.
    pub fn collect_item_signature(&mut self, item: &Item)
        requires
            old(self).wf(),
        ensures
            final(self).wf(),
            final(self).error_list() == old(self).error_list(),
            match *item {
                Item::Function(f) => exists|s: Symbol| {
                    &&& fn_signature(old(self).symbols(), f, s)
                    &&& final(self).symbols() == old(self).symbols().bind(old(self).symbols().current, s)
                    &&& final(self).symbols().resolve(f.name.name@) == Some(s)
                },
                Item::Struct(d) => exists|s: Symbol| {
                    &&& struct_signature(old(self).symbols(), d, s)
                    &&& final(self).symbols() == old(self).symbols().bind(old(self).symbols().current, s)
                    &&& final(self).symbols().resolve(d.name.name@) == Some(s)
                },
                Item::Enum(d) => exists|syms: Seq<Symbol>| enum_signatures(old(self).symbols(), d, syms)
                    && final(self).symbols() == bind_all(old(self).symbols(), syms),
                Item::Impl(b) => exists|syms: Seq<Symbol>| impl_signatures(old(self).symbols(), b, syms)
                    && final(self).symbols() == bind_all(old(self).symbols(), syms),
                Item::ExternBlock(b) => exists|syms: Seq<Symbol>| extern_signatures(old(self).symbols(), b, syms)
                    && final(self).symbols() == bind_all(old(self).symbols(), syms),
            },
    {
        match item {
            Item::Function(func) => self.collect_fn_signature(func),
            Item::Struct(def) => self.collect_struct_signature(def),
            Item::Enum(def) => self.collect_enum_signature(def),
            Item::Impl(block) => self.collect_impl_signatures(block),
            Item::ExternBlock(block) => self.collect_extern_signatures(block),
        }
    }

    /// Variant `v` with its fields resolved.
    fn convert_enum_variant(&self, v: &EnumVariant) -> (d: VariantDef)
        requires
            self.wf(),
        ensures
            variant_def_of(self.symbols(), *v, d),
    {
        let mut fields: Vec<FieldDef> = Vec::new();
        match &v.fields {
            EnumVariantFields::Unit => {},
            EnumVariantFields::Tuple(types) => {
                let mut j: usize = 0;
                while j < types.len()
                    invariant
                        self.wf(),
                        j <= types@.len(),
                        fields@.len() == j,
                        forall|k: int| 0 <= k < j ==> (#[trigger] fields@[k]).name@ == decimal(k as nat) && resolves(self.symbols(), types@[k], fields@[k].ty),
                    decreases types@.len() - j,
                {
                    let t = self.ast_type_to_ty(&types[j]);
                    fields.push(FieldDef { name: prefixed_decimal("", j as u64), ty: t });
                    proof {
                        reveal_strlit("");
                        assert(""@ + decimal(j as nat) =~= decimal(j as nat));
                    }
                    j += 1;
                }
            },
            EnumVariantFields::Struct(named) => {
                let mut j: usize = 0;
                while j < named.len()
                    invariant
                        self.wf(),
                        j <= named@.len(),
                        fields@.len() == j,
                        forall|k: int| 0 <= k < j ==> (#[trigger] fields@[k]).name@ == named@[k].0.name@ && resolves(self.symbols(), named@[k].1, fields@[k].ty),
                    decreases named@.len() - j,
                {
                    let t = self.ast_type_to_ty(&named[j].1);
                    fields.push(FieldDef { name: named[j].0.name.clone(), ty: t });
                    j += 1;
                }
            },
        }
        VariantDef { name: v.name.name.clone(), fields }
    }

    /// The type of variant `v`'s constructor for an enum of type `enum_ty`.
    fn variant_constructor_type(&self, v: &EnumVariant, enum_ty: &Ty) -> (t: Ty)
        requires
            self.wf(),
        ensures
            constructor_ty(self.symbols(), *v, *enum_ty, t),
    {
        match &v.fields {
            EnumVariantFields::Unit => copy_ty(enum_ty),
            EnumVariantFields::Tuple(types) => {
                let params = self.resolve_types(types);
                Ty::Fn { params, ret: Box::new(copy_ty(enum_ty)) }
            },
            EnumVariantFields::Struct(named) => {
                let ghost m = self.symbols();
                let mut params: Vec<Ty> = Vec::new();
                let mut i: usize = 0;
                while i < named.len()
                    invariant
                        self.wf(),
                        self.symbols() == m,
                        i <= named@.len(),
                        all_resolve(m, param_types(named@).take(i as int), params@),
                    decreases named@.len() - i,
                {
                    let t = self.ast_type_to_ty(&named[i].1);
                    let ghost prev = params@;
                    params.push(t);
                    proof {
                        let ts = param_types(named@);
                        assert(ts.take(i + 1).drop_last() =~= ts.take(i as int));
                        assert(params@.drop_last() =~= prev);
                        assert(ts.take(i + 1).last() == named@[i as int].1);
                    }
                    i += 1;
                }
                proof {
                    assert(param_types(named@).take(i as int) =~= param_types(named@));
                }
                Ty::Fn { params, ret: Box::new(copy_ty(enum_ty)) }
            },
        }
    }

    fn collect_enum_signature(&mut self, def: &EnumDef)
        requires
            old(self).wf(),
        ensures
            final(self).wf(),
            final(self).error_list() == old(self).error_list(),
            exists|syms: Seq<Symbol>| enum_signatures(old(self).symbols(), *def, syms)
                && final(self).symbols() == bind_all(old(self).symbols(), syms),
    {
        let ghost m0 = self.symbol_table@;
        let n = def.variants.len();
        let mut variants: Vec<VariantDef> = Vec::new();
        let mut i: usize = 0;
        while i < n
            invariant
                self.wf(),
                self.symbol_table@ == m0,
                n == def.variants@.len(),
                i <= n,
                variants@.len() == i,
                forall|j: int| 0 <= j < i ==> #[trigger] variant_def_of(m0, def.variants@[j], variants@[j]),
            decreases n - i,
        {
            let d = self.convert_enum_variant(&def.variants[i]);
            variants.push(d);
            i += 1;
        }
        let enum_ty = Ty::Adt(AdtDef { name: def.name.name.clone(), kind: AdtKind::Enum, variants });
        assert(enum_ty_of(m0, *def, enum_ty));
        let ghost mut syms: Seq<Symbol> = Seq::empty();
        let mut idx: usize = 0;
        while idx < n
            invariant
                self.wf(),
                self.error_list() == old(self).error_list(),
                old(self).symbols() == m0,
                n == def.variants@.len(),
                idx <= n,
                syms.len() == idx,
                self.symbol_table@ == bind_all(m0, syms),
                enum_ty_of(m0, *def, enum_ty),
                forall|j: int| 0 <= j < idx ==> #[trigger] variant_symbol(bind_all(m0, syms.take(j)), *def, j, syms[j], enum_ty),
            decreases n - idx,
        {
            let vty = self.variant_constructor_type(&def.variants[idx], &enum_ty);
            let fields = match &enum_ty {
                Ty::Adt(a) => copy_fields(&a.variants[idx].fields),
                _ => Vec::new(),
            };
            let mut name = def.name.name.clone();
            name.append("::");
            name.append(def.variants[idx].name.as_str());
            let symbol = make_symbol(
                Ident { name },
                SymbolKind::Variant { parent_enum: def.name.clone(), variant_index: idx, fields },
                vty,
                false,
                0..0,
            );
            let ghost sym = symbol;
            proof {
                lemma_bind_all_current(m0, syms);
                assert(syms.take(idx as int) =~= syms);
                assert(variant_symbol(bind_all(m0, syms.take(idx as int)), *def, idx as int, sym, enum_ty));
                self.symbol_table.lemma_model_wf();
            }
            self.symbol_table.insert(symbol);
            proof {
                let next = syms.push(sym);
                assert(next.drop_last() =~= syms);
                assert forall|j: int| 0 <= j <= idx implies next.take(j) =~= syms.take(j) by {}
                syms = next;
            }
            idx += 1;
        }
        let symbol = make_symbol(def.name.clone(), SymbolKind::Type, enum_ty, false, 0..0);
        let ghost sym = symbol;
        proof {
            lemma_bind_all_current(m0, syms);
            self.symbol_table.lemma_model_wf();
        }
        self.symbol_table.insert(symbol);
        proof {
            let all = syms.push(sym);
            assert(all.drop_last() =~= syms);
            assert forall|j: int| 0 <= j < n implies #[trigger] all.take(j) =~= syms.take(j) by {}
            assert(enum_signatures(m0, *def, all));
            assert(self.symbols() == bind_all(m0, all));
            assert(old(self).symbols() == m0);
        }
    }

    /// How a method with these parameters takes its receiver.
    fn receiver_kind(params: &Vec<(Ident, Type)>) -> (r: MethodReceiver)
        ensures
            r == receiver_of(params@),
    {
        if params.len() == 0 {
            return MethodReceiver::NoReceiver;
        }
        let name = params[0].0.as_str();
        let by_ref = match &params[0].1 {
            Type::Ref(_, false) => Some(MethodReceiver::Ref),
            Type::Ref(_, true) => Some(MethodReceiver::RefMut),
            _ => None,
        };
        if str_eq(name, "self") {
            match by_ref {
                Some(r) => r,
                None => MethodReceiver::Value,
            }
        } else if str_eq(name, "&self") {
            MethodReceiver::Ref
        } else if str_eq(name, "&mut self") {
            MethodReceiver::RefMut
        } else {
            match by_ref {
                Some(r) => r,
                None => MethodReceiver::NoReceiver,
            }
        }
    }

    /// The symbol of method `func` of an `impl` for `impl_ty`.
    fn method_signature(&self, func: &Function, impl_ty: &Ty, owner: &String) -> (s: Symbol)
        requires
            self.wf(),
            owner@ == owner_text(*impl_ty),
        ensures
            method_symbol(self.symbols(), *impl_ty, *func, s),
    {
        let receiver = Self::receiver_kind(&func.params);
        let skip: usize = match receiver {
            MethodReceiver::NoReceiver => 0,
            _ => 1,
        };
        let ghost ts = method_param_types(func.params@);
        let mut params: Vec<Ty> = Vec::new();
        let mut i: usize = skip;
        proof {
            assert(ts.len() == func.params@.len() - skip);
            assert forall|k: int| 0 <= k < ts.len() implies #[trigger] ts[k] == func.params@[k + skip].1 by {}
        }
        while i < func.params.len()
            invariant
                self.wf(),
                skip <= i <= func.params@.len(),
                ts.len() == func.params@.len() - skip,
                forall|k: int| 0 <= k < ts.len() ==> #[trigger] ts[k] == func.params@[k + skip].1,
                all_resolve(self.symbols(), ts.take(i - skip), params@),
            decreases func.params@.len() - i,
        {
            let t = self.ast_type_to_ty(&func.params[i].1);
            let ghost prev = params@;
            params.push(t);
            proof {
                assert(ts.take(i + 1 - skip).drop_last() =~= ts.take(i - skip));
                assert(params@.drop_last() =~= prev);
                assert(ts.take(i + 1 - skip).last() == ts[i - skip]);
            }
            i += 1;
        }
        proof {
            assert(ts.take(i - skip) =~= ts);
        }
        let ret = match &func.return_type {
            Some(t) => self.ast_type_to_ty(t),
            None => Ty::Unit,
        };
        let mut name = owner.clone();
        name.append("::");
        name.append(func.name.as_str());
        let fn_params = copy_tys(&params);
        let fn_ret = copy_ty(&ret);
        make_symbol(
            Ident { name },
            SymbolKind::Method { params, ret, receiver, impl_type: copy_ty(impl_ty) },
            Ty::Fn { params: fn_params, ret: Box::new(fn_ret) },
            false,
            0..0,
        )
    }

    /// Files a method symbol for each function of an `impl` block.
    fn collect_impl_signatures(&mut self, block: &ImplBlock)
        requires
            old(self).wf(),
        ensures
            final(self).wf(),
            final(self).error_list() == old(self).error_list(),
            exists|syms: Seq<Symbol>| impl_signatures(old(self).symbols(), *block, syms)
                && final(self).symbols() == bind_all(old(self).symbols(), syms),
    {
        let ghost m0 = self.symbol_table@;
        let impl_ty = self.ast_type_to_ty(&block.ty);
        let owner = ty_to_ident(&impl_ty);
        let ghost mut syms: Seq<Symbol> = Seq::empty();
        let mut i: usize = 0;
        while i < block.items.len()
            invariant
                self.wf(),
                self.error_list() == old(self).error_list(),
                old(self).symbols() == m0,
                i <= block.items@.len(),
                syms.len() == i,
                self.symbol_table@ == bind_all(m0, syms),
                resolves(m0, block.ty, impl_ty),
                owner.name@ == owner_text(impl_ty),
                forall|j: int| 0 <= j < i ==> #[trigger] method_symbol(bind_all(m0, syms.take(j)), impl_ty, item_function(block.items@[j]), syms[j]),
            decreases block.items@.len() - i,
        {
            match &block.items[i] {
                ImplItem::Function(func) => {
                    let symbol = self.method_signature(func, &impl_ty, &owner.name);
                    let ghost sym = symbol;
                    proof {
                        lemma_bind_all_current(m0, syms);
                        assert(syms.take(i as int) =~= syms);
                        self.symbol_table.lemma_model_wf();
                    }
                    self.symbol_table.insert(symbol);
                    proof {
                        let next = syms.push(sym);
                        assert(next.drop_last() =~= syms);
                        assert forall|j: int| 0 <= j <= i implies next.take(j) =~= syms.take(j) by {}
                        syms = next;
                    }
                },
            }
            i += 1;
        }
        proof {
            assert(impl_signatures(m0, *block, syms));
            assert(old(self).symbols() == m0);
        }
    }

    /// The function symbol for a signature written with `name`, `written`
    /// parameters and `ret_written` result type.
    fn function_symbol(&self, name: &Ident, written: &Vec<(Ident, Type)>, ret_written: &Option<Type>) -> (s: Symbol)
        requires
            self.wf(),
        ensures
            fn_symbol(self.symbols(), *name, written@, *ret_written, s),
    {
        let ghost m0 = self.symbol_table@;
        let mut params: Vec<Ty> = Vec::new();
        let mut i: usize = 0;
        while i < written.len()
            invariant
                self.wf(),
                self.symbol_table@ == m0,
                i <= written@.len(),
                all_resolve(m0, param_types(written@).take(i as int), params@),
            decreases written@.len() - i,
        {
            let t = self.ast_type_to_ty(&written[i].1);
            let ghost prev = params@;
            params.push(t);
            proof {
                let ts = param_types(written@);
                assert(ts.take(i + 1).drop_last() =~= ts.take(i as int));
                assert(params@.drop_last() =~= prev);
                assert(ts.take(i + 1).last() == written@[i as int].1);
            }
            i += 1;
        }
        proof {
            assert(param_types(written@).take(i as int) =~= param_types(written@));
        }
        let ret = match ret_written {
            Some(t) => self.ast_type_to_ty(t),
            None => Ty::Unit,
        };
        let fn_params = copy_tys(&params);
        let fn_ret = copy_ty(&ret);
        make_symbol(
            name.clone(),
            SymbolKind::Function { params, ret },
            Ty::Fn { params: fn_params, ret: Box::new(fn_ret) },
            false,
            0..0,
        )
    }

    fn collect_fn_signature(&mut self, func: &Function)
        requires
            old(self).wf(),
        ensures
            final(self).wf(),
            final(self).error_list() == old(self).error_list(),
            exists|s: Symbol| {
                &&& fn_signature(old(self).symbols(), *func, s)
                &&& final(self).symbols() == old(self).symbols().bind(old(self).symbols().current, s)
                &&& final(self).symbols().resolve(func.name.name@) == Some(s)
            },
    {
        let ghost m0 = self.symbol_table@;
        let symbol = self.function_symbol(&func.name, &func.params, &func.return_type);
        let ghost sym = symbol;
        assert(fn_signature(m0, *func, sym));
        proof {
            self.symbol_table.lemma_model_wf();
            law_lookup_after_insert(m0, sym, func.name.name@);
        }
        self.symbol_table.insert(symbol);
    }

    /// Files a function symbol for each function of a foreign block.
    fn collect_extern_signatures(&mut self, block: &ExternBlock)
        requires
            old(self).wf(),
        ensures
            final(self).wf(),
            final(self).error_list() == old(self).error_list(),
            exists|syms: Seq<Symbol>| extern_signatures(old(self).symbols(), *block, syms)
                && final(self).symbols() == bind_all(old(self).symbols(), syms),
    {
        let ghost m0 = self.symbol_table@;
        let ghost mut syms: Seq<Symbol> = Seq::empty();
        let mut i: usize = 0;
        while i < block.items.len()
            invariant
                self.wf(),
                self.error_list() == old(self).error_list(),
                old(self).symbols() == m0,
                i <= block.items@.len(),
                syms.len() == i,
                self.symbol_table@ == bind_all(m0, syms),
                forall|j: int| 0 <= j < i ==> {
                    let f = #[trigger] extern_item_function(block.items@[j]);
                    fn_symbol(bind_all(m0, syms.take(j)), f.name, f.params@, f.return_type, syms[j])
                },
            decreases block.items@.len() - i,
        {
            match &block.items[i] {
                ExternItem::Function(func) => {
                    let symbol = self.function_symbol(&func.name, &func.params, &func.return_type);
                    let ghost sym = symbol;
                    proof {
                        lemma_bind_all_current(m0, syms);
                        assert(syms.take(i as int) =~= syms);
                        self.symbol_table.lemma_model_wf();
                    }
                    self.symbol_table.insert(symbol);
                    proof {
                        let next = syms.push(sym);
                        assert(next.drop_last() =~= syms);
                        assert forall|j: int| 0 <= j <= i implies next.take(j) =~= syms.take(j) by {}
                        syms = next;
                    }
                },
            }
            i += 1;
        }
        proof {
            assert(extern_signatures(m0, *block, syms));
            assert(old(self).symbols() == m0);
        }
    }

    fn collect_struct_signature(&mut self, def: &StructDef)
        requires
            old(self).wf(),
        ensures
            final(self).wf(),
            final(self).error_list() == old(self).error_list(),
            exists|s: Symbol| {
                &&& struct_signature(old(self).symbols(), *def, s)
                &&& final(self).symbols() == old(self).symbols().bind(old(self).symbols().current, s)
                &&& final(self).symbols().resolve(def.name.name@) == Some(s)
            },
    {
        let ghost m0 = self.symbol_table@;
        let mut fields: Vec<(Ident, Ty)> = Vec::new();
        let mut defs: Vec<FieldDef> = Vec::new();
        let mut i: usize = 0;
        while i < def.fields.len()
            invariant
                self.wf(),
                self.symbol_table@ == m0,
                i <= def.fields@.len(),
                fields@.len() == i,
                defs@.len() == i,
                forall|j: int| 0 <= j < i ==> #[trigger] named_field_resolves(m0, def.fields@[j], fields@[j], defs@[j]),
            decreases def.fields@.len() - i,
        {
            let t = self.ast_type_to_ty(&def.fields[i].1);
            let d = FieldDef { name: def.fields[i].0.name.clone(), ty: copy_ty(&t) };
            fields.push((def.fields[i].0.clone(), t));
            defs.push(d);
            i += 1;
        }
        let mut variants: Vec<VariantDef> = Vec::new();
        variants.push(VariantDef { name: def.name.name.clone(), fields: defs });
        let symbol = make_symbol(
            def.name.clone(),
            SymbolKind::Struct { fields },
            Ty::Adt(AdtDef { name: def.name.name.clone(), kind: AdtKind::Struct, variants }),
            false,
            0..0,
        );
        let ghost sym = symbol;
        assert(struct_signature(m0, *def, sym));
        proof {
            self.symbol_table.lemma_model_wf();
            law_lookup_after_insert(m0, sym, def.name.name@);
        }
        self.symbol_table.insert(symbol);
        assert(self.symbols() == m0.bind(m0.current, sym));
        assert(self.symbols().resolve(def.name.name@) == Some(sym));
        assert(old(self).symbols() == m0);
        assert(struct_signature(old(self).symbols(), *def, sym));
    }

    /// The type of `left |> name`, where the left-hand side has type
    /// `left_ty` and the right-hand side is the identifier `name`.
    pub fn check_pipe_into(&self, left_ty: Ty, name: &Ident) -> (r: TypeResult<Ty>)
        requires
            self.wf(),
        ensures
            pipe_result(self.symbols(), left_ty, name.name@, r),
    {
        match self.symbol_table.lookup(name) {
            Some(symbol) => match &symbol.kind {
                SymbolKind::Function { params, ret } => {
                    if params.len() == 1 {
                        let p = &params[0];
                        if same(&left_ty, p) || left_ty.can_coerce_to(p) || (left_ty.is_numeric() && p.is_numeric()) {
                            Ok(copy_ty(ret))
                        } else {
                            Err(TypeError::mismatched_types(p.to_string(), left_ty.to_string(), 0..0, 0, 0))
                        }
                    } else {
                        Ok(Ty::Error)
                    }
                },
                _ => Ok(copy_ty(&symbol.ty)),
            },
            None => Err(TypeError::undefined_var(name.as_str(), 0..0, 0, 0)),
        }
    }

    /// The type of a literal.
    pub fn check_literal(&self, lit: &Literal) -> (t: Ty)
        ensures
            t == literal_ty(*lit),
    {
        match lit {
            Literal::Integer(_) => Ty::I32,
            Literal::Float(_) => Ty::F64,
            Literal::String(_) => Ty::String,
            Literal::Char(_) => Ty::Char,
            Literal::Bool(_) => Ty::Bool,
            Literal::Null => Ty::Unit,
        }
    }

    /// The type of the symbol an identifier resolves to, or an undefined
    /// variable error naming it.
    pub fn check_ident(&self, name: &Ident) -> (r: TypeResult<Ty>)
        requires
            self.wf(),
        ensures
            match self.symbols().resolve(name.name@) {
                Some(s) => r matches Ok(t) && same_ty(s.ty, t),
                None => r matches Err(e) && e matches TypeError::UndefinedVar { name: n, span: sp, line: l, column: c }
                    && n@ == name.name@ && sp == (Span { start: 0, end: 0 }) && l == 0 && c == 0,
            },
    {
        match self.symbol_table.get_var_type(name) {
            Some(t) => Ok(copy_ty(t)),
            None => Err(TypeError::undefined_var(name.as_str(), 0..0, 0, 0)),
        }
    }

    /// The type of a path expression: a single name as `check_ident` gives
    /// it; a longer path as the symbol filed under its segments joined by
    /// `::` gives it, or the error type when there is none.
    pub fn check_path(&self, path: &Path) -> (r: TypeResult<Ty>)
        requires
            self.wf(),
        ensures
            path_type(self.symbols(), *path, r),
    {
        if path.segments.len() == 1 {
            return self.check_ident(&path.segments[0].ident);
        }
        let mut text = String::new();
        proof {
            reveal_strlit("");
            assert(path.segments@.take(0) =~= Seq::<PathSegment>::empty());
        }
        let mut i: usize = 0;
        while i < path.segments.len()
            invariant
                i <= path.segments@.len(),
                text@ == joined(path.segments@.take(i as int)),
            decreases path.segments@.len() - i,
        {
            let ghost segs = path.segments@;
            if i > 0 {
                text.append("::");
            }
            text.append(path.segments[i].ident.as_str());
            proof {
                assert(segs.take(i + 1).drop_last() =~= segs.take(i as int));
                if i == 0 {
                    reveal_strlit("");
                    assert(segs.take(0) =~= Seq::<PathSegment>::empty());
                    assert(text@ =~= segs[0].ident.name@);
                }
            }
            i += 1;
        }
        proof {
            assert(path.segments@.take(i as int) =~= path.segments@);
        }
        let key = Ident { name: text };
        match self.symbol_table.lookup(&key) {
            Some(sym) => Ok(copy_ty(&sym.ty)),
            None => Ok(Ty::Error),
        }
    }

    /// Checks an enum definition: no variant name repeats an earlier one,
    /// and no field name of a variant with named fields repeats an earlier
    /// one of that variant; the first repetition, variant by variant, is
    /// reported.
    pub fn check_enum(&self, def: &EnumDef) -> (r: TypeResult<()>)
        ensures
            match enum_problem(def.variants@, 0) {
                None => r is Ok,
                Some(msg) => r matches Err(e) && e matches TypeError::InvalidType { name, span, line, column }
                    && name@ == msg && span == (Span { start: 0, end: 0 }) && line == 0 && column == 0,
            },
    {
        let ghost vs = def.variants@;
        let mut i: usize = 0;
        while i < def.variants.len()
            invariant
                i <= vs.len(),
                vs == def.variants@,
                enum_problem(vs, 0) == enum_problem(vs, i as int),
            decreases vs.len() - i,
        {
            let v = &def.variants[i];
            if variant_repeats(&def.variants, i) {
                let mut msg = String::new();
                msg.append("duplicate variant name: ");
                msg.append(v.name.as_str());
                proof {
                    reveal_strlit("");
                    assert(msg@ =~= "duplicate variant name: "@ + v.name.name@);
                }
                return Err(TypeError::InvalidType { name: msg, span: 0..0, line: 0, column: 0 });
            }
            match &v.fields {
                EnumVariantFields::Struct(fields) => {
                    match repeated_field(fields) {
                        Some(k) => {
                            let mut msg = String::new();
                            msg.append("duplicate field name: ");
                            msg.append(fields[k].0.as_str());
                            msg.append(" in variant ");
                            msg.append(v.name.as_str());
                            proof {
                                reveal_strlit("");
                                assert(msg@ =~= "duplicate field name: "@ + fields@[k as int].0.name@ + " in variant "@ + v.name.name@);
                            }
                            return Err(TypeError::InvalidType { name: msg, span: 0..0, line: 0, column: 0 });
                        },
                        None => {},
                    }
                },
                _ => {},
            }
            i += 1;
        }
        Ok(())
    }

    /// Checks a struct definition: each field whose written type resolves
    /// to the error type and is a path files a type symbol for the path's
    /// last segment, so that later uses of the name resolve to it.
    pub fn check_struct(&mut self, def: &StructDef) -> (r: TypeResult<()>)
        requires
            old(self).wf(),
        ensures
            final(self).wf(),
            final(self).error_list() == old(self).error_list(),
            final(self).expected_return() == old(self).expected_return(),
            r is Ok,
            exists|tables: Seq<TableModel>| {
                &&& tables.len() == def.fields@.len() + 1
                &&& tables[0] == old(self).symbols()
                &&& tables.last() == final(self).symbols()
                &&& forall|i: int| 0 <= i < def.fields@.len() ==> #[trigger] struct_field_step(tables[i], def.fields@[i], tables[i + 1])
            },
    {
        let ghost mut tables: Seq<TableModel> = seq![self.symbol_table@];
        let mut i: usize = 0;
        while i < def.fields.len()
            invariant
                self.wf(),
                self.error_list() == old(self).error_list(),
                self.expected_return() == old(self).expected_return(),
                i <= def.fields@.len(),
                tables.len() == i + 1,
                tables[0] == old(self).symbols(),
                tables.last() == self.symbols(),
                forall|j: int| 0 <= j < i ==> #[trigger] struct_field_step(tables[j], def.fields@[j], tables[j + 1]),
            decreases def.fields@.len() - i,
        {
            let ghost m = self.symbol_table@;
            let field_ty = self.ast_type_to_ty(&def.fields[i].1);
            match field_ty {
                Ty::Error => {
                    match &def.fields[i].1 {
                        Type::Path(p) => {
                            if p.segments.len() > 0 {
                                let last = &p.segments[p.segments.len() - 1].ident;
                                let sym = make_symbol(last.clone(), SymbolKind::Type, Ty::Named(last.name.clone()), false, 0..0);
                                proof {
                                    self.symbol_table.lemma_model_wf();
                                    assert(forward_symbol(def.fields@[i as int].1, sym));
                                }
                                self.symbol_table.insert(sym);
                            }
                        },
                        _ => {},
                    }
                },
                _ => {},
            }
            proof {
                assert(struct_field_step(m, def.fields@[i as int], self.symbols()));
                let next = tables.push(self.symbols());
                assert forall|j: int| 0 <= j < i + 1 implies #[trigger] struct_field_step(next[j], def.fields@[j], next[j + 1]) by {
                    if j < i {
                        assert(next[j] == tables[j] && next[j + 1] == tables[j + 1]);
                    }
                }
                tables = next;
            }
            i += 1;
        }
        Ok(())
    }

    /// `ty` with each type parameter `'Tn` replaced by the type filed under
    /// that name in `subst`, where there is one.
    pub fn substitute_generics(&self, ty: &Ty, subst: &Vec<(Ident, Ty)>) -> (r: Ty)
        ensures
            substituted(subst@, *ty, r),
    {
        subst_ty(ty, subst)
    }

    /// The element type that iterating a value of type `iter_ty` gives.
    pub fn get_iterator_element_type(&self, iter_ty: &Ty) -> (r: Ty)
        ensures
            same_ty(iterator_element(*iter_ty), r),
    {
        match iter_ty {
            Ty::Array(elem, _) => copy_ty(elem),
            Ty::Slice(elem) => copy_ty(elem),
            Ty::Adt(adt) => {
                if str_eq(adt.name.as_str(), "Range") {
                    first_field_ty_or(adt, Ty::I32)
                } else if str_eq(adt.name.as_str(), "Vec") {
                    first_field_ty_or(adt, Ty::Error)
                } else {
                    Ty::Error
                }
            },
            _ => {
                if iter_ty.is_integer() {
                    copy_ty(iter_ty)
                } else {
                    Ty::Error
                }
            },
        }
    }

    /// Whether `expr` can be assigned to.
    pub fn is_mutable_expr(&self, expr: &Expr) -> (b: bool)
        requires
            self.wf(),
        ensures
            b == assignable(self.symbols(), *expr),
        decreases expr,
    {
        match expr {
            Expr::Ident(ident) => match self.symbol_table.lookup(ident) {
                Some(s) => s.is_mut,
                None => false,
            },
            Expr::FieldAccess(f) => self.is_mutable_expr(&f.expr),
            Expr::Index(x) => self.is_mutable_expr(&x.expr),
            Expr::Unary(u) => match u.op {
                UnaryOp::Deref => true,
                _ => false,
            },
            _ => false,
        }
    }

    /// Binds the names of `pattern` to values of type `ty` in the current
    /// scope: a name, and the name of a `name @ pattern` before the names
    /// inside it, each as an immutable variable; a literal or a wildcard
    /// binds nothing.
    pub fn bind_pattern(&mut self, pattern: &Pattern, ty: &Ty) -> (r: TypeResult<()>)
        requires
            old(self).wf(),
        ensures
            final(self).wf(),
            final(self).error_list() == old(self).error_list(),
            final(self).expected_return() == old(self).expected_return(),
            r is Ok,
            exists|syms: Seq<Symbol>| pattern_symbols(*pattern, *ty, syms)
                && final(self).symbols() == bind_all(old(self).symbols(), syms),
        decreases pattern,
    {
        let ghost m0 = self.symbol_table@;
        match pattern {
            Pattern::Ident(name) => {
                let sym = make_symbol(name.clone(), SymbolKind::Variable, copy_ty(ty), false, 0..0);
                proof {
                    self.symbol_table.lemma_model_wf();
                    assert(pattern_symbols(*pattern, *ty, seq![sym]));
                    assert(seq![sym].drop_last() =~= Seq::<Symbol>::empty());
                    assert(bind_all(m0, seq![sym].drop_last()) == m0);
                }
                self.symbol_table.insert(sym);
                assert(self.symbols() == bind_all(m0, seq![sym]));
                Ok(())
            },
            Pattern::Binding(name, inner) => {
                let sym = make_symbol(name.clone(), SymbolKind::Variable, copy_ty(ty), false, 0..0);
                proof {
                    self.symbol_table.lemma_model_wf();
                    assert(seq![sym].drop_last() =~= Seq::<Symbol>::empty());
                    assert(bind_all(m0, seq![sym].drop_last()) == m0);
                }
                self.symbol_table.insert(sym);
                let ghost m1 = self.symbol_table@;
                assert(m1 == bind_all(m0, seq![sym]));
                let r = self.bind_pattern(inner, ty);
                proof {
                    let rest = choose|rest: Seq<Symbol>| pattern_symbols(**inner, *ty, rest)
                        && self.symbols() == bind_all(m1, rest);
                    lemma_bind_all_append(m0, seq![sym], rest);
                    let all = seq![sym] + rest;
                    assert(all.drop_first() =~= rest);
                    assert(all[0] == sym);
                    assert(pattern_symbols(*pattern, *ty, all));
                }
                r
            },
            _ => {
                proof {
                    assert(pattern_symbols(*pattern, *ty, Seq::<Symbol>::empty()));
                }
                Ok(())
            },
        }
    }

    /// The name an assignment target is reported under.
    pub fn expr_to_ident(&self, expr: &Expr) -> (r: Ident)
        ensures
            r.name@ == target_text(*expr),
        decreases expr,
    {
        match expr {
            Expr::Ident(ident) => ident.clone(),
            Expr::FieldAccess(f) => {
                let base = self.expr_to_ident(&f.expr);
                let mut name = base.name;
                name.append(".");
                name.append(f.field.as_str());
                Ident { name }
            },
            _ => Ident::new("<expression>"),
        }
    }
}

/// The type of the first field of the first variant of `a`, or `d` when
/// there is none.
pub open spec fn first_field_or(a: AdtDef, d: Ty) -> Ty {
    if a.variants@.len() > 0 && a.variants@[0].fields@.len() > 0 {
        a.variants@[0].fields@[0].ty
    } else {
        d
    }
}

fn first_field_ty_or(a: &AdtDef, d: Ty) -> (r: Ty)
    ensures
        same_ty(first_field_or(*a, d), r),
{
    if a.variants.len() > 0 && a.variants[0].fields.len() > 0 {
        copy_ty(&a.variants[0].fields[0].ty)
    } else {
        copy_ty(&d)
    }
}

/// The name at `k` repeats one before it.
pub open spec fn repeats_earlier(names: Seq<Seq<char>>, k: int) -> bool {
    exists|j: int| 0 <= j < k && names[j] == #[trigger] names[k]
}

/// The names of a list of variants.
pub open spec fn variant_names(vs: Seq<EnumVariant>) -> Seq<Seq<char>> {
    vs.map_values(|v: EnumVariant| v.name.name@)
}

/// The names of a list of named fields.
pub open spec fn field_names(fs: Seq<(Ident, Type)>) -> Seq<Seq<char>> {
    fs.map_values(|f: (Ident, Type)| f.0.name@)
}

/// The first position at or after `k` whose name repeats an earlier one.
pub open spec fn first_repeat(names: Seq<Seq<char>>, k: int) -> Option<int>
    decreases names.len() - k,
{
    if k < 0 || k >= names.len() {
        None
    } else if repeats_earlier(names, k) {
        Some(k)
    } else {
        first_repeat(names, k + 1)
    }
}

/// The message for the first problem of an enum's variants from `i` on: a
/// variant name that repeats an earlier one, or, in a variant with named
/// fields, a field name that repeats an earlier one of that variant.
pub open spec fn enum_problem(vs: Seq<EnumVariant>, i: int) -> Option<Seq<char>>
    decreases vs.len() - i,
{
    if i < 0 || i >= vs.len() {
        None
    } else if repeats_earlier(variant_names(vs), i) {
        Some("duplicate variant name: "@ + vs[i].name.name@)
    } else {
        match vs[i].fields {
            EnumVariantFields::Struct(fs) => match first_repeat(field_names(fs@), 0) {
                Some(k) => Some("duplicate field name: "@ + fs@[k].0.name@ + " in variant "@ + vs[i].name.name@),
                None => enum_problem(vs, i + 1),
            },
            _ => enum_problem(vs, i + 1),
        }
    }
}

/// Whether the name of variant `i` repeats an earlier one.
fn variant_repeats(vs: &Vec<EnumVariant>, i: usize) -> (b: bool)
    requires
        i < vs@.len(),
    ensures
        b == repeats_earlier(variant_names(vs@), i as int),
{
    let ghost names = variant_names(vs@);
    let mut j: usize = 0;
    while j < i
        invariant
            j <= i < vs@.len(),
            names == variant_names(vs@),
            forall|x: int| 0 <= x < j ==> names[x] != names[i as int],
        decreases i - j,
    {
        if vs[j].name.same_as(&vs[i].name) {
            assert(names[j as int] == names[i as int]);
            return true;
        }
        j += 1;
    }
    false
}

/// The first field whose name repeats an earlier one.
fn repeated_field(fs: &Vec<(Ident, Type)>) -> (r: Option<usize>)
    ensures
        match r {
            Some(k) => k < fs@.len() && first_repeat(field_names(fs@), 0) == Some(k as int),
            None => first_repeat(field_names(fs@), 0) is None,
        },
{
    let ghost names = field_names(fs@);
    let mut k: usize = 0;
    while k < fs.len()
        invariant
            k <= fs@.len(),
            names == field_names(fs@),
            first_repeat(names, 0) == first_repeat(names, k as int),
        decreases fs@.len() - k,
    {
        let mut j: usize = 0;
        let mut found = false;
        while j < k
            invariant
                j <= k < fs@.len(),
                names == field_names(fs@),
                !found ==> forall|x: int| 0 <= x < j ==> names[x] != names[k as int],
                found ==> repeats_earlier(names, k as int),
            decreases k - j,
        {
            if fs[j].0.same_as(&fs[k].0) {
                assert(names[j as int] == names[k as int]);
                found = true;
            }
            j += 1;
        }
        if found {
            return Some(k);
        }
        k += 1;
    }
    None
}

/// `s` is the type symbol a field of written type `t` files as a forward
/// reference: `t` is a path, and `s` is a private, immutable type symbol
/// named after its last segment whose type is that name.
pub open spec fn forward_symbol(t: Type, s: Symbol) -> bool {
    &&& t matches Type::Path(p)
    &&& p.segments@.len() > 0
    &&& s.name == p.segments@.last().ident
    &&& s.kind is Type
    &&& s.ty matches Ty::Named(n)
    &&& n@ == p.segments@.last().ident.name@
    &&& !s.is_mut
    &&& s.visibility is Private
    &&& s.span == (Span { start: 0, end: 0 })
}

/// Checking field `f` of a struct takes the symbols from `m` to `m2`: when
/// its written type resolves to the error type and is a non-empty path, the
/// forward reference for it is filed in the current scope; else nothing
/// changes.
pub open spec fn struct_field_step(m: TableModel, f: (Ident, Type), m2: TableModel) -> bool {
    exists|r: Ty| {
        &&& resolves(m, f.1, r)
        &&& if r is Error && (f.1 matches Type::Path(p) && p.segments@.len() > 0) {
            exists|s: Symbol| forward_symbol(f.1, s) && m2 == m.bind(m.current, s)
        } else {
            m2 == m
        }
    }
}

/// The type filed under `key` in `s`: its first entry of that name.
pub open spec fn entry_of(s: Seq<(Ident, Ty)>, key: Seq<char>) -> Option<Ty>
    decreases s.len(),
{
    if s.len() == 0 {
        None
    } else if s[0].0.name@ == key {
        Some(s[0].1)
    } else {
        entry_of(s.drop_first(), key)
    }
}

/// `r` is `t` with each type parameter `'Tn` replaced by the type filed
/// under that name in `s` where there is one, inside references, pointers,
/// arrays, slices, tuples, function types, futures and the fields of
/// structs and enums; any other type is kept as it is.
pub open spec fn substituted(s: Seq<(Ident, Ty)>, t: Ty, r: Ty) -> bool
    decreases t,
{
    match t {
        Ty::Param(p) => match entry_of(s, "'T"@ + decimal(p.0 as nat)) {
            Some(x) => same_ty(x, r),
            None => same_ty(t, r),
        },
        Ty::Ref(x, m) => r matches Ty::Ref(y, n) && n == m && substituted(s, *x, *y),
        Ty::Ptr(x, m) => r matches Ty::Ptr(y, n) && n == m && substituted(s, *x, *y),
        Ty::Array(x, k) => r matches Ty::Array(y, n) && n == k && substituted(s, *x, *y),
        Ty::Slice(x) => r matches Ty::Slice(y) && substituted(s, *x, *y),
        Ty::Future(x) => r matches Ty::Future(y) && substituted(s, *x, *y),
        Ty::Tuple(xs) => r matches Ty::Tuple(ys) && substituted_all(s, xs@, ys@),
        Ty::Fn { params, ret } => r matches Ty::Fn { params: ps, ret: rt } && substituted_all(s, params@, ps@)
            && substituted(s, *ret, *rt),
        Ty::Adt(a) => r matches Ty::Adt(b) && b.name@ == a.name@ && b.kind == a.kind && substituted_variants(s, a.variants@, b.variants@),
        _ => same_ty(t, r),
    }
}

/// Each type substituted at the same position.
pub open spec fn substituted_all(s: Seq<(Ident, Ty)>, xs: Seq<Ty>, ys: Seq<Ty>) -> bool
    decreases xs,
{
    if xs.len() == 0 {
        ys.len() == 0
    } else {
        ys.len() > 0 && substituted_all(s, xs.drop_last(), ys.drop_last()) && substituted(s, xs.last(), ys.last())
    }
}

/// Each variant keeps its name, with the types of its fields substituted.
pub open spec fn substituted_variants(s: Seq<(Ident, Ty)>, xs: Seq<VariantDef>, ys: Seq<VariantDef>) -> bool
    decreases xs,
{
    if xs.len() == 0 {
        ys.len() == 0
    } else {
        ys.len() > 0 && substituted_variants(s, xs.drop_last(), ys.drop_last()) && xs.last().name@ == ys.last().name@
            && substituted_fields(s, xs.last().fields@, ys.last().fields@)
    }
}

/// Each field keeps its name, with its type substituted.
pub open spec fn substituted_fields(s: Seq<(Ident, Ty)>, xs: Seq<FieldDef>, ys: Seq<FieldDef>) -> bool
    decreases xs,
{
    if xs.len() == 0 {
        ys.len() == 0
    } else {
        ys.len() > 0 && substituted_fields(s, xs.drop_last(), ys.drop_last()) && xs.last().name@ == ys.last().name@
            && substituted(s, xs.last().ty, ys.last().ty)
    }
}

/// The type filed under `key` in `subst`.
fn entry_in(subst: &Vec<(Ident, Ty)>, key: &str) -> (r: Option<Ty>)
    ensures
        match entry_of(subst@, key@) {
            Some(x) => r matches Some(y) && same_ty(x, y),
            None => r is None,
        },
{
    let mut i: usize = 0;
    assert(subst@.skip(0) =~= subst@);
    while i < subst.len()
        invariant
            i <= subst@.len(),
            entry_of(subst@, key@) == entry_of(subst@.skip(i as int), key@),
        decreases subst@.len() - i,
    {
        let ghost rest = subst@.skip(i as int);
        assert(rest[0] == subst@[i as int]);
        assert(rest.drop_first() =~= subst@.skip(i + 1));
        if str_eq(subst[i].0.as_str(), key) {
            return Some(copy_ty(&subst[i].1));
        }
        i += 1;
    }
    None
}

fn subst_ty(t: &Ty, subst: &Vec<(Ident, Ty)>) -> (r: Ty)
    ensures
        substituted(subst@, *t, r),
    decreases t,
{
    match t {
        Ty::Param(p) => {
            let key = prefixed_decimal("'T", p.0 as u64);
            match entry_in(subst, key.as_str()) {
                Some(x) => x,
                None => copy_ty(t),
            }
        },
        Ty::Ref(inner, m) => Ty::Ref(Box::new(subst_ty(inner, subst)), *m),
        Ty::Ptr(inner, m) => Ty::Ptr(Box::new(subst_ty(inner, subst)), *m),
        Ty::Array(inner, n) => Ty::Array(Box::new(subst_ty(inner, subst)), *n),
        Ty::Slice(inner) => Ty::Slice(Box::new(subst_ty(inner, subst))),
        Ty::Future(inner) => Ty::Future(Box::new(subst_ty(inner, subst))),
        Ty::Tuple(ts) => Ty::Tuple(subst_tys(ts, subst)),
        Ty::Fn { params, ret } => Ty::Fn { params: subst_tys(params, subst), ret: Box::new(subst_ty(ret, subst)) },
        Ty::Adt(a) => Ty::Adt(subst_adt(a, subst)),
        _ => copy_ty(t),
    }
}

fn subst_tys(ts: &Vec<Ty>, subst: &Vec<(Ident, Ty)>) -> (r: Vec<Ty>)
    ensures
        substituted_all(subst@, ts@, r@),
    decreases ts,
{
    let mut r: Vec<Ty> = Vec::new();
    let mut i: usize = 0;
    while i < ts.len()
        invariant
            i <= ts@.len(),
            substituted_all(subst@, ts@.take(i as int), r@),
        decreases ts@.len() - i,
    {
        assert(decreases_to!(ts => ts@[i as int]));
        let t = subst_ty(&ts[i], subst);
        let ghost prev = r@;
        r.push(t);
        proof {
            assert(ts@.take(i + 1).drop_last() =~= ts@.take(i as int));
            assert(r@.drop_last() =~= prev);
        }
        i += 1;
    }
    proof {
        assert(ts@.take(i as int) =~= ts@);
    }
    r
}

fn subst_adt(a: &AdtDef, subst: &Vec<(Ident, Ty)>) -> (r: AdtDef)
    ensures
        r.name@ == a.name@,
        r.kind == a.kind,
        substituted_variants(subst@, a.variants@, r.variants@),
    decreases a,
{
    let mut variants: Vec<VariantDef> = Vec::new();
    let mut i: usize = 0;
    while i < a.variants.len()
        invariant
            i <= a.variants@.len(),
            substituted_variants(subst@, a.variants@.take(i as int), variants@),
        decreases a.variants@.len() - i,
    {
        assert(decreases_to!(a => a.variants@[i as int]));
        let v = &a.variants[i];
        let mut fields: Vec<FieldDef> = Vec::new();
        let mut j: usize = 0;
        while j < v.fields.len()
            invariant
                j <= v.fields@.len(),
                substituted_fields(subst@, v.fields@.take(j as int), fields@),
                decreases_to!(a => *v),
            decreases v.fields@.len() - j,
        {
            assert(decreases_to!(a => v.fields@[j as int].ty)) by {
                assert(decreases_to!(*v => v.fields@[j as int]));
            }
            let f = FieldDef { name: v.fields[j].name.clone(), ty: subst_ty(&v.fields[j].ty, subst) };
            let ghost prevf = fields@;
            fields.push(f);
            proof {
                assert(v.fields@.take(j + 1).drop_last() =~= v.fields@.take(j as int));
                assert(fields@.drop_last() =~= prevf);
            }
            j += 1;
        }
        proof {
            assert(v.fields@.take(j as int) =~= v.fields@);
        }
        let ghost prev = variants@;
        variants.push(VariantDef { name: v.name.clone(), fields });
        proof {
            assert(a.variants@.take(i + 1).drop_last() =~= a.variants@.take(i as int));
            assert(variants@.drop_last() =~= prev);
        }
        i += 1;
    }
    proof {
        assert(a.variants@.take(i as int) =~= a.variants@);
    }
    AdtDef { name: a.name.clone(), kind: a.kind, variants }
}

/// The segments of a path joined by `::`.
pub open spec fn joined(segs: Seq<PathSegment>) -> Seq<char>
    decreases segs.len(),
{
    if segs.len() <= 1 {
        if segs.len() == 0 { ""@ } else { segs[0].ident.name@ }
    } else {
        joined(segs.drop_last()) + "::"@ + segs.last().ident.name@
    }
}

/// `r` is the type of path expression `p` against the symbols of `m`: for a
/// single name, the type of the symbol it resolves to (an undefined
/// variable error naming it when there is none); for any other path, the
/// type of the symbol filed under its joined segments, or the error type.
pub open spec fn path_type(m: TableModel, p: Path, r: TypeResult<Ty>) -> bool {
    if p.segments@.len() == 1 {
        let name = p.segments@[0].ident.name@;
        match m.resolve(name) {
            Some(s) => r matches Ok(t) && same_ty(s.ty, t),
            None => r matches Err(e) && e matches TypeError::UndefinedVar { name: n, span: sp, line: l, column: c }
                && n@ == name && sp == (Span { start: 0, end: 0 }) && l == 0 && c == 0,
        }
    } else {
        match m.resolve(joined(p.segments@)) {
            Some(s) => r matches Ok(t) && same_ty(s.ty, t),
            None => r == Ok::<Ty, TypeError>(Ty::Error),
        }
    }
}

/// `s` is the symbol a pattern files for `name` bound to a value of type
/// `ty`: a private, immutable variable under that name.
pub open spec fn variable_symbol(s: Symbol, name: Ident, ty: Ty) -> bool {
    &&& s.name == name
    &&& s.kind is Variable
    &&& same_ty(ty, s.ty)
    &&& !s.is_mut
    &&& s.visibility is Private
    &&& s.span == (Span { start: 0, end: 0 })
}

/// `syms` are the symbols that binding `p` to a value of type `ty` files,
/// in order.
pub open spec fn pattern_symbols(p: Pattern, ty: Ty, syms: Seq<Symbol>) -> bool
    decreases p,
{
    match p {
        Pattern::Ident(n) => syms.len() == 1 && variable_symbol(syms[0], n, ty),
        Pattern::Binding(n, inner) => syms.len() >= 1 && variable_symbol(syms[0], n, ty)
            && pattern_symbols(*inner, ty, syms.drop_first()),
        _ => syms.len() == 0,
    }
}

/// Filing `a` and then `b` is filing `a + b`.
proof fn lemma_bind_all_append(m: TableModel, a: Seq<Symbol>, b: Seq<Symbol>)
    ensures
        bind_all(bind_all(m, a), b) == bind_all(m, a + b),
    decreases b.len(),
{
    if b.len() == 0 {
        assert(a + b =~= a);
    } else {
        lemma_bind_all_append(m, a, b.drop_last());
        lemma_bind_all_current(m, a);
        assert((a + b).drop_last() =~= a + b.drop_last());
        assert((a + b).last() == b.last());
    }
}

/// The element type that iterating a value of type `t` gives: the element
/// type of an array or a slice; for a `Range`, the type of its first field
/// (`i32` when it has none); for a `Vec`, the type of its first field (the
/// error type when it has none); an integer type itself; the error type
/// for anything else.
pub open spec fn iterator_element(t: Ty) -> Ty {
    match t {
        Ty::Array(e, _) => *e,
        Ty::Slice(e) => *e,
        Ty::Adt(a) => if a.name@ == "Range"@ {
            first_field_or(a, Ty::I32)
        } else if a.name@ == "Vec"@ {
            first_field_or(a, Ty::Error)
        } else {
            Ty::Error
        },
        _ => if spec_is_integer(t) {
            t
        } else {
            Ty::Error
        },
    }
}

/// `e` can be assigned to against the symbols of `m`: a name bound to a
/// mutable symbol, a field or an element of such a place, or a dereference.
pub open spec fn assignable(m: TableModel, e: Expr) -> bool
    decreases e,
{
    match e {
        Expr::Ident(i) => match m.resolve(i.name@) {
            Some(s) => s.is_mut,
            None => false,
        },
        Expr::FieldAccess(f) => assignable(m, *f.expr),
        Expr::Index(x) => assignable(m, *x.expr),
        Expr::Unary(u) => u.op == UnaryOp::Deref,
        _ => false,
    }
}

/// The name an assignment target is reported under: a name itself, a field
/// as its base's name, a dot and the field's name, anything else as
/// `<expression>`.
pub open spec fn target_text(e: Expr) -> Seq<char>
    decreases e,
{
    match e {
        Expr::Ident(i) => i.name@,
        Expr::FieldAccess(f) => target_text(*f.expr) + "."@ + f.field.name@,
        _ => "<expression>"@,
    }
}


/// How a binary operator is written.
pub open spec fn op_text(op: BinaryOp) -> Seq<char> {
    match op {
        BinaryOp::Add => "+"@,
        BinaryOp::Sub => "-"@,
        BinaryOp::Mul => "*"@,
        BinaryOp::Div => "/"@,
        BinaryOp::Rem => "%"@,
        BinaryOp::And => "&"@,
        BinaryOp::Or => "|"@,
        BinaryOp::Xor => "^"@,
        BinaryOp::Shl => "<<"@,
        BinaryOp::Shr => ">>"@,
        BinaryOp::Eq => "=="@,
        BinaryOp::Ne => "!="@,
        BinaryOp::Lt => "<"@,
        BinaryOp::Le => "<="@,
        BinaryOp::Gt => ">"@,
        BinaryOp::Ge => ">="@,
        BinaryOp::LogicalAnd => "&&"@,
        BinaryOp::LogicalOr => "||"@,
        BinaryOp::Assign => "="@,
        BinaryOp::Pipe => "|>"@,
    }
}

/// How a binary operator is written.
pub fn binary_op_text(op: BinaryOp) -> (s: String)
    ensures
        s@ == op_text(op),
{
    let t = match op {
        BinaryOp::Add => "+",
        BinaryOp::Sub => "-",
        BinaryOp::Mul => "*",
        BinaryOp::Div => "/",
        BinaryOp::Rem => "%",
        BinaryOp::And => "&",
        BinaryOp::Or => "|",
        BinaryOp::Xor => "^",
        BinaryOp::Shl => "<<",
        BinaryOp::Shr => ">>",
        BinaryOp::Eq => "==",
        BinaryOp::Ne => "!=",
        BinaryOp::Lt => "<",
        BinaryOp::Le => "<=",
        BinaryOp::Gt => ">",
        BinaryOp::Ge => ">=",
        BinaryOp::LogicalAnd => "&&",
        BinaryOp::LogicalOr => "||",
        BinaryOp::Assign => "=",
        BinaryOp::Pipe => "|>",
    };
    t.to_owned()
}

/// A numeric type: an integer or a float.
pub open spec fn numeric(t: Ty) -> bool {
    spec_is_integer(t) || spec_is_float(t)
}

/// The larger of two types by size, the left one on a tie.
pub open spec fn larger(l: Ty, r: Ty) -> Ty {
    if ty_size(l) >= ty_size(r) { l } else { r }
}

/// The type of `l op r` for an operator other than the pipe, or `None`
/// when the operand types do not fit it: arithmetic takes two numbers and
/// gives the larger; comparison takes two numbers and gives `bool`; the
/// logical and bitwise `&`, `|`, `&&`, `||` take two `bool`s; `^`, `<<`,
/// `>>` take two integers and give the larger; assignment gives unit.
pub open spec fn binary_rule(op: BinaryOp, l: Ty, r: Ty) -> Option<Ty> {
    match op {
        BinaryOp::Add | BinaryOp::Sub | BinaryOp::Mul | BinaryOp::Div | BinaryOp::Rem => if numeric(l) && numeric(r) {
            Some(larger(l, r))
        } else {
            None
        },
        BinaryOp::Eq | BinaryOp::Ne | BinaryOp::Lt | BinaryOp::Le | BinaryOp::Gt | BinaryOp::Ge => if numeric(l)
            && numeric(r) {
            Some(Ty::Bool)
        } else {
            None
        },
        BinaryOp::And | BinaryOp::Or | BinaryOp::LogicalAnd | BinaryOp::LogicalOr => if l is Bool && r is Bool {
            Some(Ty::Bool)
        } else {
            None
        },
        BinaryOp::Xor | BinaryOp::Shl | BinaryOp::Shr => if spec_is_integer(l) && spec_is_integer(r) {
            Some(larger(l, r))
        } else {
            None
        },
        BinaryOp::Assign => Some(Ty::Unit),
        BinaryOp::Pipe => None,
    }
}

/// The type of a binary expression other than a pipe whose operands have
/// types `left_ty` and `right_ty`, or an invalid-operation error naming the
/// operator and both types.  A pipe's type depends on its right-hand
/// expression, not on the operand types alone.
pub fn binary_op_type(op: BinaryOp, left_ty: Ty, right_ty: Ty) -> (r: TypeResult<Ty>)
    requires
        op != BinaryOp::Pipe,
    ensures
        match binary_rule(op, left_ty, right_ty) {
            Some(t) => r == Ok::<Ty, TypeError>(t),
            None => r matches Err(e) && e matches TypeError::InvalidBinaryOp { op: o, left: a, right: b, span: sp, line: ln, column: c }
                && o@ == op_text(op) && a@ == ty_text(left_ty) && b@ == ty_text(right_ty)
                && sp == (Span { start: 0, end: 0 }) && ln == 0 && c == 0,
        },
{
    let ok = match op {
        BinaryOp::Add | BinaryOp::Sub | BinaryOp::Mul | BinaryOp::Div | BinaryOp::Rem | BinaryOp::Eq | BinaryOp::Ne
        | BinaryOp::Lt | BinaryOp::Le | BinaryOp::Gt | BinaryOp::Ge => left_ty.is_numeric() && right_ty.is_numeric(),
        BinaryOp::And | BinaryOp::Or | BinaryOp::LogicalAnd | BinaryOp::LogicalOr => {
            (match left_ty {
                Ty::Bool => true,
                _ => false,
            }) && (match right_ty {
                Ty::Bool => true,
                _ => false,
            })
        },
        BinaryOp::Xor | BinaryOp::Shl | BinaryOp::Shr => left_ty.is_integer() && right_ty.is_integer(),
        BinaryOp::Assign | BinaryOp::Pipe => true,
    };
    if !ok {
        return Err(
            TypeError::invalid_binary_op(
                binary_op_text(op),
                left_ty.to_string(),
                right_ty.to_string(),
                0..0,
                0,
                0,
            ),
        );
    }
    match op {
        BinaryOp::Eq | BinaryOp::Ne | BinaryOp::Lt | BinaryOp::Le | BinaryOp::Gt | BinaryOp::Ge | BinaryOp::And
        | BinaryOp::Or | BinaryOp::LogicalAnd | BinaryOp::LogicalOr => Ok(Ty::Bool),
        BinaryOp::Assign | BinaryOp::Pipe => Ok(Ty::Unit),
        _ => {
            if left_ty.size() >= right_ty.size() {
                Ok(left_ty)
            } else {
                Ok(right_ty)
            }
        },
    }
}


/// Operator typing: a comparison of two numbers is a `bool`; arithmetic on
/// two numbers gives one of the two operand types, the one at least as
/// large as both (and so a number's own type when both sides have it);
/// neither applies unless both sides are numbers; the logical operators
/// take exactly two `bool`s and give a `bool`.
pub proof fn law_binary_types(op: BinaryOp, l: Ty, r: Ty)
    ensures
        (op == BinaryOp::Eq || op == BinaryOp::Ne || op == BinaryOp::Lt || op == BinaryOp::Le || op == BinaryOp::Gt
            || op == BinaryOp::Ge) ==> (binary_rule(op, l, r) == (if numeric(l) && numeric(r) { Some(Ty::Bool) } else { None })),
        (op == BinaryOp::Add || op == BinaryOp::Sub || op == BinaryOp::Mul || op == BinaryOp::Div || op == BinaryOp::Rem)
            ==> (if numeric(l) && numeric(r) {
                binary_rule(op, l, r) matches Some(t) && (t == l || t == r) && ty_size(t) >= ty_size(l) && ty_size(t) >= ty_size(r)
                    && binary_rule(op, l, l) == Some(l)
            } else {
                binary_rule(op, l, r) is None
            }),
        (op == BinaryOp::LogicalAnd || op == BinaryOp::LogicalOr) ==> (binary_rule(op, l, r) == (if l == Ty::Bool && r == Ty::Bool {
            Some(Ty::Bool)
        } else {
            None
        })),
{
}

/// How a unary operator is written.
pub open spec fn unary_text(op: UnaryOp) -> Seq<char> {
    match op {
        UnaryOp::Neg => "-"@,
        UnaryOp::Not => "!"@,
        UnaryOp::Deref => "*"@,
        UnaryOp::Ref => "&"@,
        UnaryOp::RefMut => "&mut"@,
    }
}

/// How a unary operator is written.
pub fn unary_op_text(op: UnaryOp) -> (s: String)
    ensures
        s@ == unary_text(op),
{
    let t = match op {
        UnaryOp::Neg => "-",
        UnaryOp::Not => "!",
        UnaryOp::Deref => "*",
        UnaryOp::Ref => "&",
        UnaryOp::RefMut => "&mut",
    };
    t.to_owned()
}

/// A `Result` or `Option` whose first variant has a field: `!` unwraps it
/// to that field's type.
pub open spec fn unwraps(t: Ty) -> bool {
    t matches Ty::Adt(a) && (a.name@ == "Result"@ || a.name@ == "Option"@) && a.variants@.len() > 0
        && a.variants@[0].fields@.len() > 0
}

/// `r` is the invalid-operation error for `op` on type `t`.
pub open spec fn invalid_unary(r: TypeResult<Ty>, op: UnaryOp, t: Ty) -> bool {
    r matches Err(e) && e matches TypeError::InvalidUnaryOp { op: o, ty: x, span: sp, line: ln, column: c }
        && o@ == unary_text(op) && x@ == ty_text(t) && sp == (Span { start: 0, end: 0 }) && ln == 0 && c == 0
}

/// The type of a unary expression whose operand has type `expr_ty`:
/// negation keeps a number's type; `!` gives `bool` on `bool`, keeps a type
/// parameter, and unwraps a `Result` or `Option` to its first variant's
/// first field; `*` gives what a reference or pointer points to; `&` and
/// `&mut` give a reference.  Anything else is an invalid-operation error
/// naming the operator and the type.
pub fn unary_op_type(op: UnaryOp, expr_ty: Ty) -> (r: TypeResult<Ty>)
    ensures
        match op {
            UnaryOp::Neg => if numeric(expr_ty) {
                r == Ok::<Ty, TypeError>(expr_ty)
            } else {
                invalid_unary(r, op, expr_ty)
            },
            UnaryOp::Not => if expr_ty is Bool {
                r == Ok::<Ty, TypeError>(Ty::Bool)
            } else if expr_ty is Param {
                r == Ok::<Ty, TypeError>(expr_ty)
            } else if unwraps(expr_ty) {
                r matches Ok(x) && same_ty(expr_ty->Adt_0.variants@[0].fields@[0].ty, x)
            } else {
                invalid_unary(r, op, expr_ty)
            },
            UnaryOp::Deref => match expr_ty {
                Ty::Ref(inner, _) => r == Ok::<Ty, TypeError>(*inner),
                Ty::Ptr(inner, _) => r == Ok::<Ty, TypeError>(*inner),
                _ => invalid_unary(r, op, expr_ty),
            },
            UnaryOp::Ref => r == Ok::<Ty, TypeError>(Ty::Ref(Box::new(expr_ty), Mutability::Not)),
            UnaryOp::RefMut => r == Ok::<Ty, TypeError>(Ty::Ref(Box::new(expr_ty), Mutability::Mut)),
        },
{
    match op {
        UnaryOp::Neg => {
            if expr_ty.is_numeric() {
                Ok(expr_ty)
            } else {
                Err(TypeError::invalid_unary_op(unary_op_text(op), expr_ty.to_string(), 0..0, 0, 0))
            }
        },
        UnaryOp::Not => {
            match &expr_ty {
                Ty::Bool => {
                    return Ok(Ty::Bool);
                },
                Ty::Param(_) => {
                    return Ok(expr_ty);
                },
                Ty::Adt(adt) => {
                    if str_eq(adt.name.as_str(), "Result") || str_eq(adt.name.as_str(), "Option") {
                        if adt.variants.len() > 0 && adt.variants[0].fields.len() > 0 {
                            return Ok(copy_ty(&adt.variants[0].fields[0].ty));
                        }
                    }
                },
                _ => {},
            }
            Err(TypeError::invalid_unary_op(unary_op_text(op), expr_ty.to_string(), 0..0, 0, 0))
        },
        UnaryOp::Deref => {
            let text = expr_ty.to_string();
            match expr_ty {
                Ty::Ref(inner, _) => Ok(*inner),
                Ty::Ptr(inner, _) => Ok(*inner),
                _ => Err(TypeError::invalid_unary_op(unary_op_text(op), text, 0..0, 0, 0)),
            }
        },
        UnaryOp::Ref => Ok(Ty::Ref(Box::new(expr_ty), Mutability::Not)),
        UnaryOp::RefMut => Ok(Ty::Ref(Box::new(expr_ty), Mutability::Mut)),
    }
}


/// The name a type gives its methods.
pub fn ty_to_ident(ty: &Ty) -> (r: Ident)
    ensures
        r.name@ == owner_text(*ty),
    decreases ty,
{
    match ty {
        Ty::Adt(adt) => Ident { name: adt.name.clone() },
        Ty::Named(name) => Ident { name: name.clone() },
        Ty::Ref(inner, _) => ty_to_ident(inner),
        Ty::Ptr(inner, _) => ty_to_ident(inner),
        Ty::Error => Ident::new("Error"),
        _ => Ident::new("Unknown"),
    }
}


/// Checks the argument types of a call against the parameter types and
/// gives the result type.
pub fn check_arguments(params: &Vec<Ty>, args: &Vec<Ty>, ret: Ty) -> (r: TypeResult<Ty>)
    ensures
        call_result(params@, args@, ret, r),
{
    if params.len() != args.len() {
        return Err(TypeError::arg_count_mismatch(params.len(), args.len(), 0..0, 0, 0));
    }
    let mut i: usize = 0;
    while i < params.len()
        invariant
            params@.len() == args@.len(),
            i <= params@.len(),
            forall|j: int| 0 <= j < i ==> crate::typeck::ty::converts(args@[j], params@[j]),
        decreases params@.len() - i,
    {
        if !args[i].can_implicitly_convert_to(&params[i]) {
            proof {
                let k = choose|k: int| {
                    &&& 0 <= k < params@.len()
                    &&& !crate::typeck::ty::converts(args@[k], params@[k])
                    &&& forall|j: int| 0 <= j < k ==> crate::typeck::ty::converts(args@[j], params@[j])
                };
                assert(0 <= i < params@.len() && !crate::typeck::ty::converts(args@[i as int], params@[i as int]));
                if k < i {
                    assert(crate::typeck::ty::converts(args@[k], params@[k]));
                } else if k > i {
                    assert(crate::typeck::ty::converts(args@[i as int], params@[i as int]));
                }
                assert(first_mismatch(params@, args@) == Some(i as int));
            }
            return Err(TypeError::mismatched_types(params[i].to_string(), args[i].to_string(), 0..0, 0, 0));
        }
        i += 1;
    }
    Ok(ret)
}


/// `Result` over `ok` and `err`.
fn result_ty(ok: Ty, err: Ty) -> (t: Ty)
    ensures
        t matches Ty::Adt(a) && a.name@ == "Result"@ && a.kind == AdtKind::Enum && a.variants@.len() == 2
            && a.variants@[0].name@ == "Ok"@ && a.variants@[0].fields@.len() == 1 && a.variants@[0].fields@[0].name@ == "0"@
            && a.variants@[0].fields@[0].ty == ok && a.variants@[1].name@ == "Err"@ && a.variants@[1].fields@.len() == 1
            && a.variants@[1].fields@[0].name@ == "0"@ && a.variants@[1].fields@[0].ty == err,
{
    let mut ok_fields = Vec::new();
    ok_fields.push(FieldDef { name: "0".to_owned(), ty: ok });
    let mut err_fields = Vec::new();
    err_fields.push(FieldDef { name: "0".to_owned(), ty: err });
    let mut variants = Vec::new();
    variants.push(VariantDef { name: "Ok".to_owned(), fields: ok_fields });
    variants.push(VariantDef { name: "Err".to_owned(), fields: err_fields });
    Ty::Adt(AdtDef { name: "Result".to_owned(), kind: AdtKind::Enum, variants })
}

} // verus!
