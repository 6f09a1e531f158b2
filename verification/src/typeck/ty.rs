//! The type checker's internal types: their classification, sizes and
//! the conversions allowed between them.  Names are held as strings.

use vstd::prelude::*;
use crate::util::text::{decimal, join_with, lemma_join_push, push_decimal, str_eq};

verus! {

/// Mutability of a reference or pointer.
#[derive(Debug, Clone, Copy, PartialEq, Eq, Hash, Structural)]
pub enum Mutability {
    Mut,
    Not,
}

/// A type variable introduced during inference.
#[derive(Debug, Clone, Copy, PartialEq, Eq, Hash, Structural)]
pub struct TypeVarId(pub u32);

/// A generic type parameter.
#[derive(Debug, Clone, Copy, PartialEq, Eq, Hash, Structural)]
pub struct TypeParamId(pub u32);

/// Whether an algebraic data type is a struct or an enum.
#[derive(Debug, Clone, Copy, PartialEq, Eq, Hash, Structural)]
pub enum AdtKind {
    Struct,
    Enum,
}

/// A type of the type system.
#[derive(Debug, PartialEq, Eq)]
pub enum Ty {
    Unit,
    Never,
    Bool,
    I8,
    I16,
    I32,
    I64,
    I128,
    Isize,
    U8,
    U16,
    U32,
    U64,
    U128,
    Usize,
    F32,
    F64,
    Char,
    Str,
    String,
    Ref(Box<Ty>, Mutability),
    Ptr(Box<Ty>, Mutability),
    Array(Box<Ty>, usize),
    Slice(Box<Ty>),
    Tuple(Vec<Ty>),
    Fn { params: Vec<Ty>, ret: Box<Ty> },
    Adt(AdtDef),
    Named(String),
    Var(TypeVarId),
    Param(TypeParamId),
    Future(Box<Ty>),
    Module,
    Extern(String),
    FnPtr { params: Vec<Ty>, ret: Box<Ty>, abi: String },
    Error,
}

/// A struct or enum definition.
#[derive(Debug, PartialEq, Eq)]
pub struct AdtDef {
    pub name: String,
    pub kind: AdtKind,
    pub variants: Vec<VariantDef>,
}

/// A variant of a struct or enum (a struct has one).
#[derive(Debug, PartialEq, Eq)]
pub struct VariantDef {
    pub name: String,
    pub fields: Vec<FieldDef>,
}

/// A field of a variant.
#[derive(Debug, PartialEq, Eq)]
pub struct FieldDef {
    pub name: String,
    pub ty: Ty,
}

/// Whether two types are the same, component by component.
pub open spec fn same_ty(a: Ty, b: Ty) -> bool
    decreases a,
{
    match (a, b) {
        (Ty::Ref(x, m), Ty::Ref(y, n)) => m == n && same_ty(*x, *y),
        (Ty::Ptr(x, m), Ty::Ptr(y, n)) => m == n && same_ty(*x, *y),
        (Ty::Array(x, n), Ty::Array(y, k)) => n == k && same_ty(*x, *y),
        (Ty::Slice(x), Ty::Slice(y)) => same_ty(*x, *y),
        (Ty::Tuple(xs), Ty::Tuple(ys)) => same_tys(xs@, ys@),
        (Ty::Fn { params: p, ret: r }, Ty::Fn { params: q, ret: s }) => same_tys(p@, q@) && same_ty(*r, *s),
        (Ty::Adt(x), Ty::Adt(y)) => same_adt(x, y),
        (Ty::Named(x), Ty::Named(y)) => x@ == y@,
        (Ty::Future(x), Ty::Future(y)) => same_ty(*x, *y),
        (Ty::Extern(x), Ty::Extern(y)) => x@ == y@,
        (Ty::FnPtr { params: p, ret: r, abi: a1 }, Ty::FnPtr { params: q, ret: s, abi: a2 }) => same_tys(p@, q@)
            && same_ty(*r, *s) && a1@ == a2@,
        (Ty::Var(x), Ty::Var(y)) => x == y,
        (Ty::Param(x), Ty::Param(y)) => x == y,
        _ => leaf_kind(a) is Some && leaf_kind(a) == leaf_kind(b),
    }
}

/// The number of a type without components, none for the others.
pub open spec fn leaf_kind(t: Ty) -> Option<int> {
    match t {
        Ty::Unit => Some(0),
        Ty::Never => Some(1),
        Ty::Bool => Some(2),
        Ty::I8 => Some(3),
        Ty::I16 => Some(4),
        Ty::I32 => Some(5),
        Ty::I64 => Some(6),
        Ty::I128 => Some(7),
        Ty::Isize => Some(8),
        Ty::U8 => Some(9),
        Ty::U16 => Some(10),
        Ty::U32 => Some(11),
        Ty::U64 => Some(12),
        Ty::U128 => Some(13),
        Ty::Usize => Some(14),
        Ty::F32 => Some(15),
        Ty::F64 => Some(16),
        Ty::Char => Some(17),
        Ty::Str => Some(18),
        Ty::String => Some(19),
        Ty::Module => Some(20),
        Ty::Error => Some(21),
        _ => None,
    }
}

pub open spec fn same_tys(xs: Seq<Ty>, ys: Seq<Ty>) -> bool
    decreases xs,
{
    if xs.len() == 0 {
        ys.len() == 0
    } else {
        ys.len() > 0 && same_tys(xs.drop_last(), ys.drop_last()) && same_ty(xs.last(), ys.last())
    }
}

pub open spec fn same_adt(x: AdtDef, y: AdtDef) -> bool
    decreases x,
{
    x.name@ == y.name@ && x.kind == y.kind && same_variants(x.variants@, y.variants@)
}

pub open spec fn same_variants(xs: Seq<VariantDef>, ys: Seq<VariantDef>) -> bool
    decreases xs,
{
    if xs.len() == 0 {
        ys.len() == 0
    } else {
        ys.len() > 0 && same_variants(xs.drop_last(), ys.drop_last()) && xs.last().name@ == ys.last().name@
            && same_fields(xs.last().fields@, ys.last().fields@)
    }
}

pub open spec fn same_fields(xs: Seq<FieldDef>, ys: Seq<FieldDef>) -> bool
    decreases xs,
{
    if xs.len() == 0 {
        ys.len() == 0
    } else {
        ys.len() > 0 && same_fields(xs.drop_last(), ys.drop_last()) && xs.last().name@ == ys.last().name@
            && same_ty(xs.last().ty, ys.last().ty)
    }
}

pub open spec fn spec_is_integer(t: Ty) -> bool {
    t is I8 || t is I16 || t is I32 || t is I64 || t is I128 || t is Isize || t is U8 || t is U16 || t is U32
        || t is U64 || t is U128 || t is Usize
}

pub open spec fn spec_is_float(t: Ty) -> bool {
    t is F32 || t is F64
}

/// The size in bytes of a type, with a 64-bit target: a reference, pointer,
/// function or future is 8 bytes, a slice or `str` 16, a `String` 24, an
/// array its element's size times its length, a tuple the sum of its
/// elements, an ADT its largest variant (the sum of its fields), and a type
/// not known yet 0.
pub open spec fn ty_size(t: Ty) -> int
    decreases t,
{
    match t {
        Ty::Unit | Ty::Never => 0,
        Ty::Bool | Ty::I8 | Ty::U8 => 1,
        Ty::I16 | Ty::U16 => 2,
        Ty::I32 | Ty::U32 | Ty::F32 | Ty::Char => 4,
        Ty::I64 | Ty::U64 | Ty::F64 | Ty::Isize | Ty::Usize => 8,
        Ty::I128 | Ty::U128 => 16,
        Ty::Str => 16,
        Ty::String => 24,
        Ty::Ref(_, _) | Ty::Ptr(_, _) => 8,
        Ty::Array(e, n) => ty_size(*e) * n,
        Ty::Slice(_) => 16,
        Ty::Tuple(es) => tys_size(es@),
        Ty::Fn { .. } => 8,
        Ty::Adt(a) => variants_max(a.variants@),
        Ty::Future(_) => 8,
        Ty::FnPtr { .. } => 8,
        _ => 0,
    }
}

pub open spec fn tys_size(ts: Seq<Ty>) -> int
    decreases ts,
{
    if ts.len() == 0 {
        0
    } else {
        tys_size(ts.drop_last()) + ty_size(ts.last())
    }
}

pub open spec fn fields_size(fs: Seq<FieldDef>) -> int
    decreases fs,
{
    if fs.len() == 0 {
        0
    } else {
        fields_size(fs.drop_last()) + ty_size(fs.last().ty)
    }
}

pub open spec fn variants_max(vs: Seq<VariantDef>) -> int
    decreases vs,
{
    if vs.len() == 0 {
        0
    } else {
        let rest = variants_max(vs.drop_last());
        let last = fields_size(vs.last().fields@);
        if last > rest { last } else { rest }
    }
}

/// Whether every size met while computing the size of `t` fits in `usize`.
pub open spec fn size_fits(t: Ty) -> bool
    decreases t,
{
    &&& ty_size(t) <= usize::MAX
    &&& match t {
        Ty::Array(e, _) => size_fits(*e),
        Ty::Tuple(es) => tys_fit(es@),
        Ty::Adt(a) => variants_fit(a.variants@),
        _ => true,
    }
}

pub open spec fn tys_fit(ts: Seq<Ty>) -> bool
    decreases ts,
{
    if ts.len() == 0 {
        true
    } else {
        tys_fit(ts.drop_last()) && size_fits(ts.last()) && tys_size(ts) <= usize::MAX
    }
}

pub open spec fn fields_fit(fs: Seq<FieldDef>) -> bool
    decreases fs,
{
    if fs.len() == 0 {
        true
    } else {
        fields_fit(fs.drop_last()) && size_fits(fs.last().ty) && fields_size(fs) <= usize::MAX
    }
}

pub open spec fn variants_fit(vs: Seq<VariantDef>) -> bool
    decreases vs,
{
    if vs.len() == 0 {
        true
    } else {
        variants_fit(vs.drop_last()) && fields_fit(vs.last().fields@)
    }
}

/// Whether a value of type `a` can be used where `b` is expected: the same
/// type, any integer for any integer or any float, `f32` for `f64`, and
/// `&mut T` for `&T`.
pub open spec fn coerces(a: Ty, b: Ty) -> bool {
    ||| same_ty(a, b)
    ||| spec_is_integer(a) && spec_is_integer(b)
    ||| spec_is_integer(a) && spec_is_float(b)
    ||| a is F32 && b is F64
    ||| (a matches Ty::Ref(x, Mutability::Mut) && b matches Ty::Ref(y, Mutability::Not) && same_ty(*x, *y))
}

/// Whether a value of type `a` converts implicitly to `b`: the same type;
/// anything to or from the error type, a type parameter, a type variable
/// or a named type; an integer to an integer at least as large or to a
/// float; `&mut T` to `&T`; a reference to a reference whose inner types
/// convert; `String` to `str`; and an ADT to an ADT of the same name.
pub open spec fn converts(a: Ty, b: Ty) -> bool
    decreases a,
{
    if same_ty(a, b) {
        true
    } else if a is Error || b is Error {
        true
    } else if a is Param || b is Param {
        true
    } else if a is Var || b is Var {
        true
    } else if a is Named || b is Named {
        true
    } else if spec_is_integer(a) && spec_is_integer(b) {
        ty_size(a) <= ty_size(b)
    } else if spec_is_integer(a) && spec_is_float(b) {
        true
    } else {
        match (a, b) {
            (Ty::Ref(x, Mutability::Mut), Ty::Ref(y, Mutability::Not)) => same_ty(*x, *y),
            (Ty::Ref(x, _), Ty::Ref(y, _)) => converts(*x, *y),
            (Ty::String, Ty::Str) => true,
            (Ty::Adt(x), Ty::Adt(y)) => x.name@ == y.name@,
            _ => false,
        }
    }
}

fn same_tys_exec(xs: &Vec<Ty>, ys: &Vec<Ty>) -> (b: bool)
    ensures
        b == same_tys(xs@, ys@),
    decreases xs,
{
    if xs.len() != ys.len() {
        proof {
            lemma_same_tys_len(xs@, ys@);
        }
        return false;
    }
    let mut i: usize = 0;
    while i < xs.len()
        invariant
            xs@.len() == ys@.len(),
            i <= xs@.len(),
            same_tys(xs@.take(i as int), ys@.take(i as int)),
        decreases xs@.len() - i,
    {
        proof {
            assert(xs@.take(i as int + 1).drop_last() =~= xs@.take(i as int));
            assert(ys@.take(i as int + 1).drop_last() =~= ys@.take(i as int));
        }
        assert(decreases_to!(xs => xs@[i as int]));
        if !same(&xs[i], &ys[i]) {
            proof {
                lemma_same_tys_prefix(xs@, ys@, i as int + 1);
            }
            return false;
        }
        i = i + 1;
    }
    proof {
        assert(xs@.take(i as int) =~= xs@);
        assert(ys@.take(i as int) =~= ys@);
    }
    true
}

proof fn lemma_same_tys_len(xs: Seq<Ty>, ys: Seq<Ty>)
    ensures
        same_tys(xs, ys) ==> xs.len() == ys.len(),
    decreases xs.len(),
{
    if xs.len() > 0 && ys.len() > 0 {
        lemma_same_tys_len(xs.drop_last(), ys.drop_last());
    }
}

proof fn lemma_same_tys_prefix(xs: Seq<Ty>, ys: Seq<Ty>, k: int)
    requires
        xs.len() == ys.len(),
        0 <= k <= xs.len(),
        !same_tys(xs.take(k), ys.take(k)),
    ensures
        !same_tys(xs, ys),
    decreases xs.len(),
{
    if k < xs.len() {
        assert(xs.drop_last().take(k) =~= xs.take(k));
        assert(ys.drop_last().take(k) =~= ys.take(k));
        lemma_same_tys_prefix(xs.drop_last(), ys.drop_last(), k);
    } else {
        assert(xs.take(k) =~= xs);
        assert(ys.take(k) =~= ys);
    }
}

fn same_fields_exec(xs: &Vec<FieldDef>, ys: &Vec<FieldDef>) -> (b: bool)
    ensures
        b == same_fields(xs@, ys@),
    decreases xs,
{
    if xs.len() != ys.len() {
        proof {
            lemma_same_fields_len(xs@, ys@);
        }
        return false;
    }
    let mut i: usize = 0;
    while i < xs.len()
        invariant
            xs@.len() == ys@.len(),
            i <= xs@.len(),
            same_fields(xs@.take(i as int), ys@.take(i as int)),
        decreases xs@.len() - i,
    {
        proof {
            assert(xs@.take(i as int + 1).drop_last() =~= xs@.take(i as int));
            assert(ys@.take(i as int + 1).drop_last() =~= ys@.take(i as int));
        }
        assert(decreases_to!(xs => xs@[i as int]));
        if !(str_eq(xs[i].name.as_str(), ys[i].name.as_str()) && same(&xs[i].ty, &ys[i].ty)) {
            proof {
                lemma_same_fields_prefix(xs@, ys@, i as int + 1);
            }
            return false;
        }
        i = i + 1;
    }
    proof {
        assert(xs@.take(i as int) =~= xs@);
        assert(ys@.take(i as int) =~= ys@);
    }
    true
}

proof fn lemma_same_fields_len(xs: Seq<FieldDef>, ys: Seq<FieldDef>)
    ensures
        same_fields(xs, ys) ==> xs.len() == ys.len(),
    decreases xs.len(),
{
    if xs.len() > 0 && ys.len() > 0 {
        lemma_same_fields_len(xs.drop_last(), ys.drop_last());
    }
}

proof fn lemma_same_fields_prefix(xs: Seq<FieldDef>, ys: Seq<FieldDef>, k: int)
    requires
        xs.len() == ys.len(),
        0 <= k <= xs.len(),
        !same_fields(xs.take(k), ys.take(k)),
    ensures
        !same_fields(xs, ys),
    decreases xs.len(),
{
    if k < xs.len() {
        assert(xs.drop_last().take(k) =~= xs.take(k));
        assert(ys.drop_last().take(k) =~= ys.take(k));
        lemma_same_fields_prefix(xs.drop_last(), ys.drop_last(), k);
    } else {
        assert(xs.take(k) =~= xs);
        assert(ys.take(k) =~= ys);
    }
}

fn same_variants_exec(xs: &Vec<VariantDef>, ys: &Vec<VariantDef>) -> (b: bool)
    ensures
        b == same_variants(xs@, ys@),
    decreases xs,
{
    if xs.len() != ys.len() {
        proof {
            lemma_same_variants_len(xs@, ys@);
        }
        return false;
    }
    let mut i: usize = 0;
    while i < xs.len()
        invariant
            xs@.len() == ys@.len(),
            i <= xs@.len(),
            same_variants(xs@.take(i as int), ys@.take(i as int)),
        decreases xs@.len() - i,
    {
        proof {
            assert(xs@.take(i as int + 1).drop_last() =~= xs@.take(i as int));
            assert(ys@.take(i as int + 1).drop_last() =~= ys@.take(i as int));
        }
        assert(decreases_to!(xs => xs@[i as int]));
        if !(str_eq(xs[i].name.as_str(), ys[i].name.as_str()) && same_fields_exec(&xs[i].fields, &ys[i].fields)) {
            proof {
                lemma_same_variants_prefix(xs@, ys@, i as int + 1);
            }
            return false;
        }
        i = i + 1;
    }
    proof {
        assert(xs@.take(i as int) =~= xs@);
        assert(ys@.take(i as int) =~= ys@);
    }
    true
}

proof fn lemma_same_variants_len(xs: Seq<VariantDef>, ys: Seq<VariantDef>)
    ensures
        same_variants(xs, ys) ==> xs.len() == ys.len(),
    decreases xs.len(),
{
    if xs.len() > 0 && ys.len() > 0 {
        lemma_same_variants_len(xs.drop_last(), ys.drop_last());
    }
}

proof fn lemma_same_variants_prefix(xs: Seq<VariantDef>, ys: Seq<VariantDef>, k: int)
    requires
        xs.len() == ys.len(),
        0 <= k <= xs.len(),
        !same_variants(xs.take(k), ys.take(k)),
    ensures
        !same_variants(xs, ys),
    decreases xs.len(),
{
    if k < xs.len() {
        assert(xs.drop_last().take(k) =~= xs.take(k));
        assert(ys.drop_last().take(k) =~= ys.take(k));
        lemma_same_variants_prefix(xs.drop_last(), ys.drop_last(), k);
    } else {
        assert(xs.take(k) =~= xs);
        assert(ys.take(k) =~= ys);
    }
}

fn leaf_number(t: &Ty) -> (r: Option<u8>)
    ensures
        match r {
            Some(n) => leaf_kind(*t) == Some(n as int),
            None => leaf_kind(*t) is None,
        },
{
    match t {
        Ty::Unit => Some(0),
        Ty::Never => Some(1),
        Ty::Bool => Some(2),
        Ty::I8 => Some(3),
        Ty::I16 => Some(4),
        Ty::I32 => Some(5),
        Ty::I64 => Some(6),
        Ty::I128 => Some(7),
        Ty::Isize => Some(8),
        Ty::U8 => Some(9),
        Ty::U16 => Some(10),
        Ty::U32 => Some(11),
        Ty::U64 => Some(12),
        Ty::U128 => Some(13),
        Ty::Usize => Some(14),
        Ty::F32 => Some(15),
        Ty::F64 => Some(16),
        Ty::Char => Some(17),
        Ty::Str => Some(18),
        Ty::String => Some(19),
        Ty::Module => Some(20),
        Ty::Error => Some(21),
        _ => None,
    }
}

/// Whether two types are the same, component by component.
pub fn same(a: &Ty, b: &Ty) -> (r: bool)
    ensures
        r == same_ty(*a, *b),
    decreases a,
{
    match (a, b) {
        (Ty::Ref(x, m), Ty::Ref(y, n)) => *m == *n && same(x, y),
        (Ty::Ptr(x, m), Ty::Ptr(y, n)) => *m == *n && same(x, y),
        (Ty::Array(x, n), Ty::Array(y, k)) => *n == *k && same(x, y),
        (Ty::Slice(x), Ty::Slice(y)) => same(x, y),
        (Ty::Tuple(xs), Ty::Tuple(ys)) => same_tys_exec(xs, ys),
        (Ty::Fn { params: p, ret: r }, Ty::Fn { params: q, ret: s }) => same_tys_exec(p, q) && same(r, s),
        (Ty::Adt(x), Ty::Adt(y)) => {
            let n = str_eq(x.name.as_str(), y.name.as_str());
            let k = x.kind == y.kind;
            let v = same_variants_exec(&x.variants, &y.variants);
            proof {
                assert(same_ty(*a, *b) == same_adt(*x, *y));
                assert(same_adt(*x, *y) == (x.name@ == y.name@ && x.kind == y.kind && same_variants(x.variants@, y.variants@)));
            }
            n && k && v
        },
        (Ty::Named(x), Ty::Named(y)) => str_eq(x.as_str(), y.as_str()),
        (Ty::Future(x), Ty::Future(y)) => same(x, y),
        (Ty::Extern(x), Ty::Extern(y)) => str_eq(x.as_str(), y.as_str()),
        (Ty::FnPtr { params: p, ret: r, abi: a1 }, Ty::FnPtr { params: q, ret: s, abi: a2 }) => same_tys_exec(p, q)
            && same(r, s) && str_eq(a1.as_str(), a2.as_str()),
        (Ty::Var(x), Ty::Var(y)) => x.0 == y.0,
        (Ty::Param(x), Ty::Param(y)) => x.0 == y.0,
        _ => match (leaf_number(a), leaf_number(b)) {
            (Some(p), Some(q)) => p == q,
            _ => false,
        },
    }
}

impl Ty {
    pub fn is_integer(&self) -> (b: bool)
        ensures
            b == spec_is_integer(*self),
    {
        match self {
            Ty::I8 | Ty::I16 | Ty::I32 | Ty::I64 | Ty::I128 | Ty::Isize | Ty::U8 | Ty::U16 | Ty::U32 | Ty::U64
            | Ty::U128 | Ty::Usize => true,
            _ => false,
        }
    }

    pub fn is_unsigned(&self) -> (b: bool)
        ensures
            b == (*self is U8 || *self is U16 || *self is U32 || *self is U64 || *self is U128 || *self is Usize),
    {
        match self {
            Ty::U8 | Ty::U16 | Ty::U32 | Ty::U64 | Ty::U128 | Ty::Usize => true,
            _ => false,
        }
    }

    pub fn is_signed(&self) -> (b: bool)
        ensures
            b == (*self is I8 || *self is I16 || *self is I32 || *self is I64 || *self is I128 || *self is Isize),
    {
        match self {
            Ty::I8 | Ty::I16 | Ty::I32 | Ty::I64 | Ty::I128 | Ty::Isize => true,
            _ => false,
        }
    }

    pub fn is_float(&self) -> (b: bool)
        ensures
            b == spec_is_float(*self),
    {
        match self {
            Ty::F32 | Ty::F64 => true,
            _ => false,
        }
    }

    pub fn is_numeric(&self) -> (b: bool)
        ensures
            b == (spec_is_integer(*self) || spec_is_float(*self)),
    {
        self.is_integer() || self.is_float()
    }

    pub fn is_ref(&self) -> (b: bool)
        ensures
            b == (*self is Ref),
    {
        match self {
            Ty::Ref(_, _) => true,
            _ => false,
        }
    }

    pub fn is_mut_ref(&self) -> (b: bool)
        ensures
            b == (*self matches Ty::Ref(_, Mutability::Mut)),
    {
        match self {
            Ty::Ref(_, Mutability::Mut) => true,
            _ => false,
        }
    }

    /// Whether a value of this type can be used where `target` is expected.
    pub fn can_coerce_to(&self, target: &Ty) -> (b: bool)
        ensures
            b == coerces(*self, *target),
    {
        if same(self, target) {
            return true;
        }
        if self.is_integer() && target.is_integer() {
            return true;
        }
        if self.is_integer() && target.is_float() {
            return true;
        }
        match (self, target) {
            (Ty::F32, Ty::F64) => true,
            (Ty::Ref(t1, Mutability::Mut), Ty::Ref(t2, Mutability::Not)) => same(t1, t2),
            _ => false,
        }
    }

    /// The size of this type in bytes, for a 64-bit target.
    pub fn size(&self) -> (n: usize)
        requires
            size_fits(*self),
        ensures
            n == ty_size(*self),
        decreases self,
    {
        match self {
            Ty::Unit | Ty::Never => 0,
            Ty::Bool | Ty::I8 | Ty::U8 => 1,
            Ty::I16 | Ty::U16 => 2,
            Ty::I32 | Ty::U32 | Ty::F32 | Ty::Char => 4,
            Ty::I64 | Ty::U64 | Ty::F64 | Ty::Isize | Ty::Usize => 8,
            Ty::I128 | Ty::U128 => 16,
            Ty::Str => 16,
            Ty::String => 24,
            Ty::Ref(_, _) | Ty::Ptr(_, _) => 8,
            Ty::Array(elem, len) => elem.size() * *len,
            Ty::Slice(_) => 16,
            Ty::Tuple(elems) => sum_sizes(elems),
            Ty::Fn { .. } => 8,
            Ty::Adt(adt) => largest_variant(&adt.variants),
            Ty::Future(_) => 8,
            Ty::FnPtr { .. } => 8,
            _ => 0,
        }
    }

    /// Whether a value of this type converts implicitly to `target`.
    pub fn can_implicitly_convert_to(&self, target: &Ty) -> (b: bool)
        ensures
            b == converts(*self, *target),
        decreases self,
    {
        if same(self, target) {
            return true;
        }
        if matches!(self, Ty::Error) || matches!(target, Ty::Error) {
            return true;
        }
        if matches!(self, Ty::Param(_)) || matches!(target, Ty::Param(_)) {
            return true;
        }
        if matches!(self, Ty::Var(_)) || matches!(target, Ty::Var(_)) {
            return true;
        }
        if matches!(self, Ty::Named(_)) || matches!(target, Ty::Named(_)) {
            return true;
        }
        if self.is_integer() && target.is_integer() {
            return self.size_of_int() <= target.size_of_int();
        }
        if self.is_integer() && target.is_float() {
            return true;
        }
        match (self, target) {
            (Ty::Ref(x, Mutability::Mut), Ty::Ref(y, Mutability::Not)) => same(x, y),
            (Ty::Ref(x, _), Ty::Ref(y, _)) => x.can_implicitly_convert_to(y),
            (Ty::String, Ty::Str) => true,
            (Ty::Adt(x), Ty::Adt(y)) => str_eq(x.name.as_str(), y.name.as_str()),
            _ => false,
        }
    }

    /// The size of an integer type.
    fn size_of_int(&self) -> (n: usize)
        requires
            spec_is_integer(*self),
        ensures
            n == ty_size(*self),
    {
        match self {
            Ty::I8 | Ty::U8 => 1,
            Ty::I16 | Ty::U16 => 2,
            Ty::I32 | Ty::U32 => 4,
            Ty::I64 | Ty::U64 | Ty::Isize | Ty::Usize => 8,
            _ => 16,
        }
    }
}

fn sum_sizes(elems: &Vec<Ty>) -> (n: usize)
    requires
        tys_fit(elems@),
    ensures
        n == tys_size(elems@),
    decreases elems,
{
    let mut n: usize = 0;
    let mut i: usize = 0;
    while i < elems.len()
        invariant
            i <= elems@.len(),
            tys_fit(elems@),
            n == tys_size(elems@.take(i as int)),
        decreases elems@.len() - i,
    {
        proof {
            assert(elems@.take(i as int + 1).drop_last() =~= elems@.take(i as int));
            lemma_tys_fit_prefix(elems@, i as int + 1);
        }
        assert(decreases_to!(elems => elems@[i as int]));
        let s = elems[i].size();
        n = n + s;
        i = i + 1;
    }
    proof {
        assert(elems@.take(i as int) =~= elems@);
    }
    n
}

proof fn lemma_tys_fit_prefix(ts: Seq<Ty>, k: int)
    requires
        0 <= k <= ts.len(),
        tys_fit(ts),
    ensures
        tys_fit(ts.take(k)),
        k > 0 ==> size_fits(ts[k - 1]) && tys_size(ts.take(k)) <= usize::MAX,
    decreases ts.len(),
{
    if k < ts.len() {
        assert(ts.drop_last().take(k) =~= ts.take(k));
        lemma_tys_fit_prefix(ts.drop_last(), k);
    } else {
        assert(ts.take(k) =~= ts);
    }
}

fn sum_field_sizes(fields: &Vec<FieldDef>) -> (n: usize)
    requires
        fields_fit(fields@),
    ensures
        n == fields_size(fields@),
    decreases fields,
{
    let mut n: usize = 0;
    let mut i: usize = 0;
    while i < fields.len()
        invariant
            i <= fields@.len(),
            fields_fit(fields@),
            n == fields_size(fields@.take(i as int)),
        decreases fields@.len() - i,
    {
        proof {
            assert(fields@.take(i as int + 1).drop_last() =~= fields@.take(i as int));
            lemma_fields_fit_prefix(fields@, i as int + 1);
        }
        assert(decreases_to!(fields => fields@[i as int]));
        let s = fields[i].ty.size();
        n = n + s;
        i = i + 1;
    }
    proof {
        assert(fields@.take(i as int) =~= fields@);
    }
    n
}

proof fn lemma_fields_fit_prefix(fs: Seq<FieldDef>, k: int)
    requires
        0 <= k <= fs.len(),
        fields_fit(fs),
    ensures
        fields_fit(fs.take(k)),
        k > 0 ==> size_fits(fs[k - 1].ty) && fields_size(fs.take(k)) <= usize::MAX,
    decreases fs.len(),
{
    if k < fs.len() {
        assert(fs.drop_last().take(k) =~= fs.take(k));
        lemma_fields_fit_prefix(fs.drop_last(), k);
    } else {
        assert(fs.take(k) =~= fs);
    }
}

fn largest_variant(variants: &Vec<VariantDef>) -> (n: usize)
    requires
        variants_fit(variants@),
    ensures
        n == variants_max(variants@),
    decreases variants,
{
    let mut n: usize = 0;
    let mut i: usize = 0;
    while i < variants.len()
        invariant
            i <= variants@.len(),
            variants_fit(variants@),
            n == variants_max(variants@.take(i as int)),
        decreases variants@.len() - i,
    {
        proof {
            assert(variants@.take(i as int + 1).drop_last() =~= variants@.take(i as int));
            lemma_variants_fit_prefix(variants@, i as int + 1);
        }
        assert(decreases_to!(variants => variants@[i as int]));
        let s = sum_field_sizes(&variants[i].fields);
        if s > n {
            n = s;
        }
        i = i + 1;
    }
    proof {
        assert(variants@.take(i as int) =~= variants@);
    }
    n
}

proof fn lemma_variants_fit_prefix(vs: Seq<VariantDef>, k: int)
    requires
        0 <= k <= vs.len(),
        variants_fit(vs),
    ensures
        variants_fit(vs.take(k)),
        k > 0 ==> fields_fit(vs[k - 1].fields@),
    decreases vs.len(),
{
    if k < vs.len() {
        assert(vs.drop_last().take(k) =~= vs.take(k));
        lemma_variants_fit_prefix(vs.drop_last(), k);
    } else {
        assert(vs.take(k) =~= vs);
    }
}

/// How a type is written in messages, such as `&mut [i32; 4]`,
/// `fn(bool) -> ()`, `'t3` for a type variable or `<error>`.
pub open spec fn ty_text(t: Ty) -> Seq<char>
    decreases t,
{
    match t {
        Ty::Unit => "()"@,
        Ty::Never => "!"@,
        Ty::Bool => "bool"@,
        Ty::I8 => "i8"@,
        Ty::I16 => "i16"@,
        Ty::I32 => "i32"@,
        Ty::I64 => "i64"@,
        Ty::I128 => "i128"@,
        Ty::Isize => "isize"@,
        Ty::U8 => "u8"@,
        Ty::U16 => "u16"@,
        Ty::U32 => "u32"@,
        Ty::U64 => "u64"@,
        Ty::U128 => "u128"@,
        Ty::Usize => "usize"@,
        Ty::F32 => "f32"@,
        Ty::F64 => "f64"@,
        Ty::Char => "char"@,
        Ty::Str => "str"@,
        Ty::String => "String"@,
        Ty::Ref(inner, m) => (if m == Mutability::Mut { "&mut "@ } else { "&"@ }) + ty_text(*inner),
        Ty::Ptr(inner, m) => (if m == Mutability::Mut { "*mut "@ } else { "*const "@ }) + ty_text(*inner),
        Ty::Array(inner, n) => "["@ + ty_text(*inner) + "; "@ + decimal(n as nat) + "]"@,
        Ty::Slice(inner) => "["@ + ty_text(*inner) + "]"@,
        Ty::Tuple(es) => "("@ + join_with(tys_text(es@), ", "@) + ")"@,
        Ty::Fn { params, ret } => "fn("@ + join_with(tys_text(params@), ", "@) + ") -> "@ + ty_text(*ret),
        Ty::Adt(a) => a.name@,
        Ty::Named(n) => n@,
        Ty::Var(id) => "'t"@ + decimal(id.0 as nat),
        Ty::Param(id) => "'T"@ + decimal(id.0 as nat),
        Ty::Future(inner) => "Future<"@ + ty_text(*inner) + ">"@,
        Ty::Module => "module"@,
        Ty::Extern(n) => "extern "@ + n@,
        Ty::FnPtr { params, ret, abi } => "extern \""@ + abi@ + "\" fn("@ + join_with(tys_text(params@), ", "@)
            + ") -> "@ + ty_text(*ret),
        Ty::Error => "<error>"@,
    }
}

pub open spec fn tys_text(ts: Seq<Ty>) -> Seq<Seq<char>>
    decreases ts,
{
    if ts.len() == 0 {
        Seq::empty()
    } else {
        tys_text(ts.drop_last()).push(ty_text(ts.last()))
    }
}

proof fn lemma_tys_text_len(ts: Seq<Ty>)
    ensures
        tys_text(ts).len() == ts.len(),
    decreases ts.len(),
{
    if ts.len() > 0 {
        lemma_tys_text_len(ts.drop_last());
    }
}

fn write_tys(out: &mut String, ts: &Vec<Ty>)
    ensures
        final(out)@ == old(out)@ + join_with(tys_text(ts@), ", "@),
    decreases ts,
{
    let ghost start = out@;
    let mut i: usize = 0;
    while i < ts.len()
        invariant
            i <= ts@.len(),
            out@ == start + join_with(tys_text(ts@.take(i as int)), ", "@),
        decreases ts@.len() - i,
    {
        proof {
            let pre = ts@.take(i as int + 1);
            assert(pre.drop_last() =~= ts@.take(i as int));
            assert(tys_text(pre) == tys_text(ts@.take(i as int)).push(ty_text(ts@[i as int])));
            lemma_tys_text_len(ts@.take(i as int));
            lemma_join_push(tys_text(ts@.take(i as int)), ", "@, ty_text(ts@[i as int]));
        }
        if i > 0 {
            out.append(", ");
        }
        assert(decreases_to!(ts => ts@[i as int]));
        write_ty(out, &ts[i]);
        i = i + 1;
    }
    proof {
        assert(ts@.take(i as int) =~= ts@);
    }
}

/// Appends how `t` is written in messages.
pub fn write_ty(out: &mut String, t: &Ty)
    ensures
        final(out)@ == old(out)@ + ty_text(*t),
    decreases t,
{
    let ghost start = out@;
    match t {
        Ty::Unit => out.append("()"),
        Ty::Never => out.append("!"),
        Ty::Bool => out.append("bool"),
        Ty::I8 => out.append("i8"),
        Ty::I16 => out.append("i16"),
        Ty::I32 => out.append("i32"),
        Ty::I64 => out.append("i64"),
        Ty::I128 => out.append("i128"),
        Ty::Isize => out.append("isize"),
        Ty::U8 => out.append("u8"),
        Ty::U16 => out.append("u16"),
        Ty::U32 => out.append("u32"),
        Ty::U64 => out.append("u64"),
        Ty::U128 => out.append("u128"),
        Ty::Usize => out.append("usize"),
        Ty::F32 => out.append("f32"),
        Ty::F64 => out.append("f64"),
        Ty::Char => out.append("char"),
        Ty::Str => out.append("str"),
        Ty::String => out.append("String"),
        Ty::Ref(inner, m) => {
            match m {
                Mutability::Mut => out.append("&mut "),
                Mutability::Not => out.append("&"),
            }
            write_ty(out, inner);
        },
        Ty::Ptr(inner, m) => {
            match m {
                Mutability::Mut => out.append("*mut "),
                Mutability::Not => out.append("*const "),
            }
            write_ty(out, inner);
        },
        Ty::Array(inner, n) => {
            out.append("[");
            write_ty(out, inner);
            out.append("; ");
            push_decimal(out, *n as u64);
            out.append("]");
        },
        Ty::Slice(inner) => {
            out.append("[");
            write_ty(out, inner);
            out.append("]");
        },
        Ty::Tuple(es) => {
            out.append("(");
            write_tys(out, es);
            out.append(")");
        },
        Ty::Fn { params, ret } => {
            out.append("fn(");
            write_tys(out, params);
            out.append(") -> ");
            write_ty(out, ret);
        },
        Ty::Adt(a) => out.append(a.name.as_str()),
        Ty::Named(n) => out.append(n.as_str()),
        Ty::Var(id) => {
            out.append("'t");
            push_decimal(out, id.0 as u64);
        },
        Ty::Param(id) => {
            out.append("'T");
            push_decimal(out, id.0 as u64);
        },
        Ty::Future(inner) => {
            out.append("Future<");
            write_ty(out, inner);
            out.append(">");
        },
        Ty::Module => out.append("module"),
        Ty::Extern(n) => {
            out.append("extern ");
            out.append(n.as_str());
        },
        Ty::FnPtr { params, ret, abi } => {
            out.append("extern \"");
            out.append(abi.as_str());
            out.append("\" fn(");
            write_tys(out, params);
            out.append(") -> ");
            write_ty(out, ret);
        },
        Ty::Error => out.append("<error>"),
    }
    proof {
        assert(out@ =~= start + ty_text(*t));
    }
}

impl Ty {
    /// How the type is written in messages.
    pub fn to_string(&self) -> (s: String)
        ensures
            s@ == ty_text(*self),
    {
        let mut s = String::new();
        write_ty(&mut s, self);
        s
    }
}

impl AdtDef {
    /// How the definition is written in messages: its name.
    pub fn to_string(&self) -> (s: String)
        ensures
            s@ == self.name@,
    {
        self.name.clone()
    }
}


/// A copy of a type, component by component.
pub fn copy_ty(t: &Ty) -> (r: Ty)
    ensures
        same_ty(*t, r),
    decreases t,
{
    match t {
        Ty::Unit => Ty::Unit,
        Ty::Never => Ty::Never,
        Ty::Bool => Ty::Bool,
        Ty::I8 => Ty::I8,
        Ty::I16 => Ty::I16,
        Ty::I32 => Ty::I32,
        Ty::I64 => Ty::I64,
        Ty::I128 => Ty::I128,
        Ty::Isize => Ty::Isize,
        Ty::U8 => Ty::U8,
        Ty::U16 => Ty::U16,
        Ty::U32 => Ty::U32,
        Ty::U64 => Ty::U64,
        Ty::U128 => Ty::U128,
        Ty::Usize => Ty::Usize,
        Ty::F32 => Ty::F32,
        Ty::F64 => Ty::F64,
        Ty::Char => Ty::Char,
        Ty::Str => Ty::Str,
        Ty::String => Ty::String,
        Ty::Ref(inner, m) => Ty::Ref(Box::new(copy_ty(inner)), *m),
        Ty::Ptr(inner, m) => Ty::Ptr(Box::new(copy_ty(inner)), *m),
        Ty::Array(inner, n) => Ty::Array(Box::new(copy_ty(inner)), *n),
        Ty::Slice(inner) => Ty::Slice(Box::new(copy_ty(inner))),
        Ty::Tuple(ts) => Ty::Tuple(copy_tys(ts)),
        Ty::Fn { params, ret } => Ty::Fn { params: copy_tys(params), ret: Box::new(copy_ty(ret)) },
        Ty::Adt(a) => Ty::Adt(copy_adt(a)),
        Ty::Named(n) => Ty::Named(n.clone()),
        Ty::Var(v) => Ty::Var(*v),
        Ty::Param(p) => Ty::Param(*p),
        Ty::Future(inner) => Ty::Future(Box::new(copy_ty(inner))),
        Ty::Module => Ty::Module,
        Ty::Extern(n) => Ty::Extern(n.clone()),
        Ty::FnPtr { params, ret, abi } => Ty::FnPtr { params: copy_tys(params), ret: Box::new(copy_ty(ret)), abi: abi.clone() },
        Ty::Error => Ty::Error,
    }
}

/// A copy of a list of types.
pub fn copy_tys(ts: &Vec<Ty>) -> (r: Vec<Ty>)
    ensures
        same_tys(ts@, r@),
    decreases ts,
{
    let mut r: Vec<Ty> = Vec::new();
    let mut i: usize = 0;
    while i < ts.len()
        invariant
            i <= ts@.len(),
            same_tys(ts@.take(i as int), r@),
        decreases ts@.len() - i,
    {
        assert(decreases_to!(ts => ts@[i as int]));
        let t = copy_ty(&ts[i]);
        let ghost prev = r@;
        r.push(t);
        proof {
            assert(ts@.take(i + 1).drop_last() =~= ts@.take(i as int));
            assert(r@.drop_last() =~= prev);
        }
        i += 1;
    }
    proof {
        assert(ts@.take(i as int) =~= ts@);
    }
    r
}

/// A copy of a struct or enum definition.
pub fn copy_adt(a: &AdtDef) -> (r: AdtDef)
    ensures
        same_adt(*a, r),
    decreases a,
{
    let mut variants: Vec<VariantDef> = Vec::new();
    let mut i: usize = 0;
    while i < a.variants.len()
        invariant
            i <= a.variants@.len(),
            same_variants(a.variants@.take(i as int), variants@),
        decreases a.variants@.len() - i,
    {
        assert(decreases_to!(a => a.variants@[i as int]));
        let v = &a.variants[i];
        let mut fields: Vec<FieldDef> = Vec::new();
        let mut j: usize = 0;
        while j < v.fields.len()
            invariant
                j <= v.fields@.len(),
                same_fields(v.fields@.take(j as int), fields@),
                decreases_to!(a => *v),
            decreases v.fields@.len() - j,
        {
            assert(decreases_to!(a => v.fields@[j as int].ty)) by {
                assert(decreases_to!(*v => v.fields@[j as int]));
            }
            let f = FieldDef { name: v.fields[j].name.clone(), ty: copy_ty(&v.fields[j].ty) };
            let ghost prevf = fields@;
            fields.push(f);
            proof {
                assert(v.fields@.take(j + 1).drop_last() =~= v.fields@.take(j as int));
                assert(fields@.drop_last() =~= prevf);
            }
            j += 1;
        }
        proof {
            assert(v.fields@.take(j as int) =~= v.fields@);
        }
        let ghost prev = variants@;
        variants.push(VariantDef { name: v.name.clone(), fields });
        proof {
            assert(a.variants@.take(i + 1).drop_last() =~= a.variants@.take(i as int));
            assert(variants@.drop_last() =~= prev);
        }
        i += 1;
    }
    proof {
        assert(a.variants@.take(i as int) =~= a.variants@);
    }
    AdtDef { name: a.name.clone(), kind: a.kind, variants }
}

} // verus!
