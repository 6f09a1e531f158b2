//! Converting written types to the type checker's types, and both to C
//! type names.

pub mod utils;

use vstd::prelude::*;
use crate::ast::{Path, PathSegment, TraitBound, Type};
use crate::typeck::ty::{AdtDef, AdtKind, FieldDef, Mutability, Ty, VariantDef, leaf_kind};
use crate::util::text::{decimal, join_with, lemma_join_push, prefixed_decimal, push_decimal, str_eq};

verus! {

/// The primitive a type name stands for, by its kind number (see
/// `leaf_kind`), if it names one.
pub open spec fn prim_kind(name: Seq<char>) -> Option<int> {
    if name == "bool"@ {
        Some(2)
    } else if name == "i8"@ {
        Some(3)
    } else if name == "i16"@ {
        Some(4)
    } else if name == "i32"@ {
        Some(5)
    } else if name == "i64"@ {
        Some(6)
    } else if name == "i128"@ {
        Some(7)
    } else if name == "isize"@ {
        Some(8)
    } else if name == "u8"@ {
        Some(9)
    } else if name == "u16"@ {
        Some(10)
    } else if name == "u32"@ {
        Some(11)
    } else if name == "u64"@ {
        Some(12)
    } else if name == "u128"@ {
        Some(13)
    } else if name == "usize"@ {
        Some(14)
    } else if name == "f32"@ {
        Some(15)
    } else if name == "f64"@ {
        Some(16)
    } else if name == "char"@ {
        Some(17)
    } else if name == "str"@ {
        Some(18)
    } else if name == "String"@ {
        Some(19)
    } else {
        None
    }
}

/// The names of a path's segments.
pub open spec fn segment_names(segs: Seq<PathSegment>) -> Seq<Seq<char>> {
    segs.map_values(|s: PathSegment| s.ident.name@)
}

/// A path written with `::` between its segments.
pub open spec fn path_text(p: Path) -> Seq<char> {
    join_with(segment_names(p.segments@), "::"@)
}

/// A single-segment path naming a primitive.
pub open spec fn names_primitive(p: Path) -> bool {
    p.segments@.len() == 1 && prim_kind(p.segments@[0].ident.name@) is Some
}

/// The type a path converts to: the primitive a single primitive name
/// stands for, otherwise a struct named by the path, with no variants.
pub open spec fn path_converts(p: Path, r: Ty) -> bool {
    if names_primitive(p) {
        leaf_kind(r) == prim_kind(p.segments@[0].ident.name@)
    } else {
        r matches Ty::Adt(a) && a.name@ == path_text(p) && a.kind == AdtKind::Struct && a.variants@.len() == 0
    }
}

/// The name of the struct without variants a written type converts to,
/// if it converts to one.
pub open spec fn bare_adt_name(t: Type) -> Option<Seq<char>>
    decreases t,
{
    match t {
        Type::Path(p) => if names_primitive(p) { None } else { Some(path_text(p)) },
        Type::Generic(b, args) => if args@.len() == 0 { bare_adt_name(*b) } else { None },
        _ => None,
    }
}

/// The mutability a written `mut` flag stands for.
pub open spec fn mut_of(m: bool) -> Mutability {
    if m { Mutability::Mut } else { Mutability::Not }
}

/// The type `name<args>` converts to: `Result`, `Option` and `Vec` get
/// their variants; another struct gets one variant of its own name with
/// a field `_i` per argument.  A missing argument is the error type.
pub open spec fn generic_converts(name: Seq<char>, args: Seq<Type>, r: Ty) -> bool
    decreases args, 1int,
{
    if args.len() == 0 {
        false
    } else if name == "Result"@ {
        r matches Ty::Adt(a) && a.name@ == "Result"@ && a.kind == AdtKind::Enum && a.variants@.len() == 2
            && a.variants@[0].name@ == "Ok"@ && a.variants@[0].fields@.len() == 1 && a.variants@[0].fields@[0].name@ == "0"@ && converts(args[0], a.variants@[0].fields@[0].ty)
            && a.variants@[1].name@ == "Err"@ && a.variants@[1].fields@.len() == 1 && a.variants@[1].fields@[0].name@ == "0"@
            && (if args.len() > 1 { converts(args[1], a.variants@[1].fields@[0].ty) } else { a.variants@[1].fields@[0].ty is Error })
    } else if name == "Option"@ {
        r matches Ty::Adt(a) && a.name@ == "Option"@ && a.kind == AdtKind::Enum && a.variants@.len() == 2
            && a.variants@[0].name@ == "Some"@ && a.variants@[0].fields@.len() == 1 && a.variants@[0].fields@[0].name@ == "0"@ && converts(args[0], a.variants@[0].fields@[0].ty)
            && a.variants@[1].name@ == "None"@ && a.variants@[1].fields@.len() == 0
    } else if name == "Vec"@ {
        r matches Ty::Adt(a) && a.name@ == "Vec"@ && a.kind == AdtKind::Struct && a.variants@.len() == 1
            && a.variants@[0].name@ == "Vec"@ && a.variants@[0].fields@.len() == 1 && a.variants@[0].fields@[0].name@ == "0"@
            && (match a.variants@[0].fields@[0].ty {
                Ty::Slice(e) => converts(args[0], *e),
                _ => false,
            })
    } else {
        r matches Ty::Adt(a) && a.name@ == name && a.kind == AdtKind::Struct && a.variants@.len() == 1
            && a.variants@[0].name@ == name && fields_convert(args, a.variants@[0].fields@)
    }
}

/// Field `i` is named `_i` and has the converted type of argument `i`.
pub open spec fn fields_convert(args: Seq<Type>, fs: Seq<FieldDef>) -> bool
    decreases args, 0int,
{
    if args.len() == 0 {
        fs.len() == 0
    } else {
        fs.len() == args.len() && fields_convert(args.drop_last(), fs.drop_last()) && fs.last().name@ == "_"@ + decimal(
            (args.len() - 1) as nat) && converts(args.last(), fs.last().ty)
    }
}

/// The name an `impl Trait` or `dyn Trait` type takes from its first
/// bound's first segment, or `default` when there is none.
pub open spec fn first_bound_name(bs: Seq<TraitBound>, default: Seq<char>) -> Option<Seq<char>> {
    if bs.len() > 0 && bs[0].path.segments@.len() > 0 {
        Some(bs[0].path.segments@[0].ident.name@)
    } else {
        None
    }
}

/// `r` is the type a written type converts to.
pub open spec fn converts(t: Type, r: Ty) -> bool
    decreases t, 2int,
{
    match t {
        Type::Unit => r is Unit,
        Type::Never => r is Never,
        Type::Path(p) => path_converts(p, r),
        Type::Ref(inner, m) => r matches Ty::Ref(x, mm) && mm == mut_of(m) && converts(*inner, *x),
        Type::Ptr(inner, m) => r matches Ty::Ptr(x, mm) && mm == mut_of(m) && converts(*inner, *x),
        Type::Array(inner, size) => r matches Ty::Array(x, k) && k == (match size {
            Some(n) => n,
            None => 0usize,
        }) && converts(*inner, *x),
        Type::Slice(inner) => r matches Ty::Slice(x) && converts(*inner, *x),
        Type::Tuple(ts) => r matches Ty::Tuple(xs) && all_convert(ts@, xs@),
        Type::Function(f) => r matches Ty::Fn { params, ret } && all_convert(f.params@, params@) && converts(*f.return_type, *ret),
        Type::Generic(b, args) => if args@.len() == 0 || bare_adt_name(*b) is None {
            converts(*b, r)
        } else {
            generic_converts(bare_adt_name(*b).unwrap(), args@, r)
        },
        Type::ImplTrait(bs) => r matches Ty::Named(s) && s@ == match first_bound_name(bs@, "ImplTrait"@) {
            Some(n) => n,
            None => "ImplTrait"@,
        },
        Type::DynTrait(bs) => r matches Ty::Named(s) && s@ == match first_bound_name(bs@, "DynTrait"@) {
            Some(n) => "dyn_"@ + n,
            None => "DynTrait"@,
        },
    }
}

/// Each type converts to the type at the same position.
pub open spec fn all_convert(ts: Seq<Type>, rs: Seq<Ty>) -> bool
    decreases ts, 1int,
{
    if ts.len() == 0 {
        rs.len() == 0
    } else {
        rs.len() == ts.len() && all_convert(ts.drop_last(), rs.drop_last()) && converts(ts.last(), rs.last())
    }
}


/// Converting a written type to the type checker's type.
pub trait TypeConverter {
    fn ast_type_to_ty(&self, ty: &Type) -> Ty;

    fn path_to_ty(&self, path: &Path) -> Ty;

    fn is_primitive_type(&self, name: &str) -> bool;

    fn primitive_to_ty(&self, name: &str) -> Option<Ty>;
}

/// The standard converter.
pub struct StandardTypeConverter;

impl StandardTypeConverter {
    pub fn new() -> (c: Self)
        ensures
            c == StandardTypeConverter,
    {
        StandardTypeConverter
    }
}

impl Default for StandardTypeConverter {
    fn default() -> (c: Self)
        ensures
            c == StandardTypeConverter,
    {
        StandardTypeConverter::new()
    }
}

impl TypeConverter for StandardTypeConverter {
    fn ast_type_to_ty(&self, ty: &Type) -> (r: Ty)
        ensures
            converts(*ty, r),
    {
        convert_type(ty)
    }

    fn path_to_ty(&self, path: &Path) -> (r: Ty)
        ensures
            path_converts(*path, r),
    {
        path_ty(path)
    }

    fn is_primitive_type(&self, name: &str) -> (b: bool)
        ensures
            b == prim_kind(name@) is Some,
    {
        primitive_ty(name).is_some()
    }

    fn primitive_to_ty(&self, name: &str) -> (r: Option<Ty>)
        ensures
            match prim_kind(name@) {
                Some(k) => r matches Some(t) && leaf_kind(t) == Some(k),
                None => r is None,
            },
    {
        primitive_ty(name)
    }
}

/// The primitive a type name stands for.
pub fn primitive_ty(name: &str) -> (r: Option<Ty>)
    ensures
        match prim_kind(name@) {
            Some(k) => r matches Some(t) && leaf_kind(t) == Some(k),
            None => r is None,
        },
{
    if str_eq(name, "bool") {
        Some(Ty::Bool)
    } else if str_eq(name, "i8") {
        Some(Ty::I8)
    } else if str_eq(name, "i16") {
        Some(Ty::I16)
    } else if str_eq(name, "i32") {
        Some(Ty::I32)
    } else if str_eq(name, "i64") {
        Some(Ty::I64)
    } else if str_eq(name, "i128") {
        Some(Ty::I128)
    } else if str_eq(name, "isize") {
        Some(Ty::Isize)
    } else if str_eq(name, "u8") {
        Some(Ty::U8)
    } else if str_eq(name, "u16") {
        Some(Ty::U16)
    } else if str_eq(name, "u32") {
        Some(Ty::U32)
    } else if str_eq(name, "u64") {
        Some(Ty::U64)
    } else if str_eq(name, "u128") {
        Some(Ty::U128)
    } else if str_eq(name, "usize") {
        Some(Ty::Usize)
    } else if str_eq(name, "f32") {
        Some(Ty::F32)
    } else if str_eq(name, "f64") {
        Some(Ty::F64)
    } else if str_eq(name, "char") {
        Some(Ty::Char)
    } else if str_eq(name, "str") {
        Some(Ty::Str)
    } else if str_eq(name, "String") {
        Some(Ty::String)
    } else {
        None
    }
}

/// A path written with `::` between its segments.
pub fn join_path(path: &Path) -> (s: String)
    ensures
        s@ == path_text(*path),
{
    let mut s = String::new();
    let mut i: usize = 0;
    while i < path.segments.len()
        invariant
            i <= path.segments@.len(),
            s@ == join_with(segment_names(path.segments@.take(i as int)), "::"@),
        decreases path.segments@.len() - i,
    {
        proof {
            assert(segment_names(path.segments@.take(i + 1)) =~= segment_names(path.segments@.take(i as int)).push(
                path.segments@[i as int].ident.name@));
            lemma_join_push(segment_names(path.segments@.take(i as int)), "::"@, path.segments@[i as int].ident.name@);
        }
        if i > 0 {
            s.append("::");
        }
        s.append(path.segments[i].ident.as_str());
        i += 1;
    }
    proof {
        assert(path.segments@.take(i as int) =~= path.segments@);
    }
    s
}

/// The type a path converts to.
pub fn path_ty(path: &Path) -> (r: Ty)
    ensures
        path_converts(*path, r),
{
    if path.segments.len() == 1 {
        let name = path.segments[0].ident.as_str();
        if let Some(primitive) = primitive_ty(name) {
            return primitive;
        }
    }
    Ty::Adt(AdtDef { name: join_path(path), kind: AdtKind::Struct, variants: Vec::new() })
}

/// Converting a list of types converts each.
pub proof fn lemma_all_convert_index(ts: Seq<Type>, rs: Seq<Ty>, i: int)
    requires
        all_convert(ts, rs),
        0 <= i < ts.len(),
    ensures
        rs.len() == ts.len(),
        converts(ts[i], rs[i]),
    decreases ts.len(),
{
    if i < ts.len() - 1 {
        lemma_all_convert_index(ts.drop_last(), rs.drop_last(), i);
    }
}

/// The converted type is a struct without variants exactly when the
/// written type names one.
pub proof fn lemma_bare(t: Type, r: Ty)
    requires
        converts(t, r),
    ensures
        bare_adt_name(t) is Some <==> (r matches Ty::Adt(a) && a.variants@.len() == 0),
        bare_adt_name(t) matches Some(n) ==> (r matches Ty::Adt(a) && a.name@ == n && a.kind == AdtKind::Struct),
    decreases t,
{
    match t {
        Type::Path(p) => {
            assert(path_converts(p, r));
            if names_primitive(p) {
                assert(bare_adt_name(t) is None);
                assert(leaf_kind(r) is Some);
                assert(!(r is Adt)) by {
                    if r is Adt {
                        assert(leaf_kind(r) is None);
                    }
                }
            } else {
                assert(bare_adt_name(t) == Some(path_text(p)));
                assert(r is Adt);
                assert(r matches Ty::Adt(a) && a.variants@.len() == 0);
                assert(bare_adt_name(t) matches Some(n) ==> (r matches Ty::Adt(a) && a.name@ == n && a.kind == AdtKind::Struct));
            }
        },
        Type::Generic(b, args) => {
            if args@.len() == 0 || bare_adt_name(*b) is None {
                lemma_bare(*b, r);
            } else {
                let name = bare_adt_name(*b).unwrap();
                assert(generic_converts(name, args@, r));
                assert(r matches Ty::Adt(a) && a.variants@.len() > 0);
            }
        },
        Type::Unit => {},
        Type::Never => {},
        Type::Ref(..) => {},
        Type::Ptr(..) => {},
        Type::Array(..) => {},
        Type::Slice(..) => {},
        Type::Tuple(..) => {},
        Type::Function(..) => {},
        Type::ImplTrait(..) => {},
        Type::DynTrait(..) => {},
    }
}

/// The types a list of written types converts to.
pub fn convert_types(ts: &Vec<Type>) -> (r: Vec<Ty>)
    ensures
        all_convert(ts@, r@),
    decreases ts,
{
    let mut r: Vec<Ty> = Vec::new();
    let mut i: usize = 0;
    while i < ts.len()
        invariant
            i <= ts@.len(),
            all_convert(ts@.take(i as int), r@),
        decreases ts@.len() - i,
    {
        assert(decreases_to!(ts => ts@[i as int]));
        let t = convert_type(&ts[i]);
        let ghost prev = r@;
        r.push(t);
        proof {
            assert(ts@.take(i + 1).drop_last() =~= ts@.take(i as int));
            assert(r@.drop_last() =~= prev);
            assert(ts@.take(i + 1).last() == ts@[i as int]);
        }
        i += 1;
    }
    proof {
        assert(ts@.take(i as int) =~= ts@);
    }
    r
}

/// The type a written type converts to.
pub fn convert_type(ty: &Type) -> (r: Ty)
    ensures
        converts(*ty, r),
    decreases ty,
{
    match ty {
        Type::Unit => Ty::Unit,
        Type::Never => Ty::Never,
        Type::Path(path) => path_ty(path),
        Type::Ref(inner, is_mut) => {
            let inner_ty = convert_type(inner);
            let mutability = if *is_mut { Mutability::Mut } else { Mutability::Not };
            Ty::Ref(Box::new(inner_ty), mutability)
        },
        Type::Ptr(inner, is_mut) => {
            let inner_ty = convert_type(inner);
            let mutability = if *is_mut { Mutability::Mut } else { Mutability::Not };
            Ty::Ptr(Box::new(inner_ty), mutability)
        },
        Type::Array(inner, size) => {
            let inner_ty = convert_type(inner);
            let n = match size {
                Some(n) => *n,
                None => 0,
            };
            Ty::Array(Box::new(inner_ty), n)
        },
        Type::Slice(inner) => {
            let inner_ty = convert_type(inner);
            Ty::Slice(Box::new(inner_ty))
        },
        Type::Tuple(types) => Ty::Tuple(convert_types(types)),
        Type::Function(func_type) => {
            let params = convert_types(&func_type.params);
            let ret = convert_type(&func_type.return_type);
            Ty::Fn { params, ret: Box::new(ret) }
        },
        Type::Generic(base, args) => {
            let base_ty = convert_type(base);
            if args.len() == 0 {
                return base_ty;
            }
            proof {
                lemma_bare(**base, base_ty);
            }
            let arg_tys = convert_types(args);
            match base_ty {
                Ty::Adt(adt) => {
                    if adt.variants.len() == 0 {
                        generic_adt(adt.name, arg_tys, Ghost(args@))
                    } else {
                        Ty::Adt(adt)
                    }
                },
                other => other,
            }
        },
        Type::ImplTrait(traits) => {
            if traits.len() > 0 && traits[0].path.segments.len() > 0 {
                Ty::Named(traits[0].path.segments[0].ident.name.clone())
            } else {
                Ty::Named("ImplTrait".to_owned())
            }
        },
        Type::DynTrait(traits) => {
            if traits.len() > 0 && traits[0].path.segments.len() > 0 {
                let mut name = "dyn_".to_owned();
                name.append(traits[0].path.segments[0].ident.as_str());
                Ty::Named(name)
            } else {
                Ty::Named("DynTrait".to_owned())
            }
        },
    }
}

/// The type `name<args>` given the converted arguments.
fn generic_adt(name: String, arg_tys: Vec<Ty>, Ghost(args): Ghost<Seq<Type>>) -> (r: Ty)
    requires
        args.len() > 0,
        all_convert(args, arg_tys@),
    ensures
        generic_converts(name@, args, r),
{
    proof {
        lemma_all_convert_index(args, arg_tys@, 0);
    }
    if str_eq(name.as_str(), "Result") {
        let mut rest = arg_tys;
        let err_ty = if rest.len() > 1 {
            proof {
                lemma_all_convert_index(args, rest@, 1);
            }
            rest.remove(1)
        } else {
            Ty::Error
        };
        let ok_ty = rest.remove(0);
        Ty::Adt(AdtDef {
            name: "Result".to_owned(),
            kind: AdtKind::Enum,
            variants: vec![
                VariantDef { name: "Ok".to_owned(), fields: vec![FieldDef { name: "0".to_owned(), ty: ok_ty }] },
                VariantDef { name: "Err".to_owned(), fields: vec![FieldDef { name: "0".to_owned(), ty: err_ty }] },
            ],
        })
    } else if str_eq(name.as_str(), "Option") {
        let mut rest = arg_tys;
        let some_ty = rest.remove(0);
        Ty::Adt(AdtDef {
            name: "Option".to_owned(),
            kind: AdtKind::Enum,
            variants: vec![
                VariantDef { name: "Some".to_owned(), fields: vec![FieldDef { name: "0".to_owned(), ty: some_ty }] },
                VariantDef { name: "None".to_owned(), fields: Vec::new() },
            ],
        })
    } else if str_eq(name.as_str(), "Vec") {
        let mut rest = arg_tys;
        let elem_ty = rest.remove(0);
        Ty::Adt(AdtDef {
            name: "Vec".to_owned(),
            kind: AdtKind::Struct,
            variants: vec![
                VariantDef {
                    name: "Vec".to_owned(),
                    fields: vec![FieldDef { name: "0".to_owned(), ty: Ty::Slice(Box::new(elem_ty)) }],
                },
            ],
        })
    } else {
        let n = arg_tys.len();
        let ghost all = arg_tys@;
        let mut rest = arg_tys;
        let mut fields: Vec<FieldDef> = Vec::new();
        let mut i: usize = 0;
        proof {
            assert(all.skip(0) =~= all);
            assert(args.take(0) =~= Seq::<Type>::empty());
        }
        while i < n
            invariant
                n == args.len(),
                all.len() == n,
                all_convert(args, all),
                i <= n,
                rest@ == all.skip(i as int),
                fields_convert(args.take(i as int), fields@),
            decreases n - i,
        {
            let ty = rest.remove(0);
            let ghost prev = fields@;
            proof {
                lemma_all_convert_index(args, all, i as int);
                assert(ty == all[i as int]);
                assert(rest@ =~= all.skip(i + 1));
            }
            fields.push(FieldDef { name: prefixed_decimal("_", i as u64), ty });
            proof {
                assert(args.take(i + 1).drop_last() =~= args.take(i as int));
                assert(fields@.drop_last() =~= prev);
                assert(args.take(i + 1).last() == args[i as int]);
            }
            i += 1;
        }
        proof {
            assert(args.take(n as int) =~= args);
        }
        let variant_name = name.clone();
        Ty::Adt(AdtDef { name, kind: AdtKind::Struct, variants: vec![VariantDef { name: variant_name, fields }] })
    }
}


/// The C name of a single-segment written type name.
pub open spec fn c_name(name: Seq<char>) -> Seq<char> {
    if name == "bool"@ {
        "int"@
    } else if name == "i8"@ {
        "int8_t"@
    } else if name == "i16"@ {
        "int16_t"@
    } else if name == "i32"@ {
        "int32_t"@
    } else if name == "i64"@ {
        "int64_t"@
    } else if name == "u8"@ {
        "uint8_t"@
    } else if name == "u16"@ {
        "uint16_t"@
    } else if name == "u32"@ {
        "uint32_t"@
    } else if name == "u64"@ {
        "uint64_t"@
    } else if name == "f32"@ {
        "float"@
    } else if name == "f64"@ {
        "double"@
    } else if name == "char"@ {
        "char"@
    } else if name == "str"@ {
        "const char*"@
    } else if name == "String"@ {
        "char*"@
    } else {
        "void"@
    }
}

/// The C type of a written type: a reference is its target, a pointer,
/// an unsized array or a slice is a pointer to the element, a sized
/// array keeps its length, and what C cannot express is `void`.
pub open spec fn type_c_text(t: Type) -> Seq<char>
    decreases t,
{
    match t {
        Type::Path(p) => if p.segments@.len() == 1 { c_name(p.segments@[0].ident.name@) } else { "void"@ },
        Type::Ref(inner, _) => type_c_text(*inner),
        Type::Ptr(inner, _) => type_c_text(*inner) + "*"@,
        Type::Array(inner, size) => match size {
            Some(n) => type_c_text(*inner) + "["@ + decimal(n as nat) + "]"@,
            None => type_c_text(*inner) + "*"@,
        },
        Type::Slice(inner) => type_c_text(*inner) + "*"@,
        Type::Generic(base, _) => type_c_text(*base),
        _ => "void"@,
    }
}

/// The C type of a parameter of a written type: arrays and slices are
/// passed as pointers.
pub open spec fn type_c_param_text(t: Type) -> Seq<char> {
    match t {
        Type::Array(inner, _) => type_c_text(*inner) + "*"@,
        Type::Slice(inner) => type_c_text(*inner) + "*"@,
        _ => type_c_text(t),
    }
}

/// The C type of a type of the type checker.
pub open spec fn ty_c_text(t: Ty) -> Seq<char>
    decreases t,
{
    match t {
        Ty::Bool => "int"@,
        Ty::I8 => "int8_t"@,
        Ty::I16 => "int16_t"@,
        Ty::I32 => "int32_t"@,
        Ty::I64 => "int64_t"@,
        Ty::I128 => "__int128"@,
        Ty::Isize => "intptr_t"@,
        Ty::U8 => "uint8_t"@,
        Ty::U16 => "uint16_t"@,
        Ty::U32 => "uint32_t"@,
        Ty::U64 => "uint64_t"@,
        Ty::U128 => "unsigned __int128"@,
        Ty::Usize => "uintptr_t"@,
        Ty::F32 => "float"@,
        Ty::F64 => "double"@,
        Ty::Char => "char"@,
        Ty::Str => "const char*"@,
        Ty::String => "char*"@,
        Ty::Ref(inner, _) => ty_c_text(*inner),
        Ty::Ptr(inner, _) => ty_c_text(*inner) + "*"@,
        Ty::Array(inner, size) => ty_c_text(*inner) + "["@ + decimal(size as nat) + "]"@,
        Ty::Slice(inner) => ty_c_text(*inner) + "*"@,
        Ty::Adt(a) => "struct "@ + a.name@,
        Ty::Named(n) => "struct "@ + n@,
        Ty::Future(inner) => "Future<"@ + ty_c_text(*inner) + ">"@,
        Ty::Extern(n) => "struct "@ + n@,
        Ty::FnPtr { .. } => "void*"@,
        _ => "void"@,
    }
}

/// The C type of a parameter: arrays and slices are passed as pointers.
pub open spec fn ty_c_param_text(t: Ty) -> Seq<char> {
    match t {
        Ty::Array(inner, _) => ty_c_text(*inner) + "*"@,
        Ty::Slice(inner) => ty_c_text(*inner) + "*"@,
        _ => ty_c_text(t),
    }
}

/// Naming a type in C.
pub trait ToCType {
    fn to_c_type(&self) -> String;

    fn to_c_param_type(&self) -> String;
}

fn push_c_name(out: &mut String, name: &str)
    ensures
        final(out)@ == old(out)@ + c_name(name@),
{
    if str_eq(name, "bool") {
        out.append("int");
    } else if str_eq(name, "i8") {
        out.append("int8_t");
    } else if str_eq(name, "i16") {
        out.append("int16_t");
    } else if str_eq(name, "i32") {
        out.append("int32_t");
    } else if str_eq(name, "i64") {
        out.append("int64_t");
    } else if str_eq(name, "u8") {
        out.append("uint8_t");
    } else if str_eq(name, "u16") {
        out.append("uint16_t");
    } else if str_eq(name, "u32") {
        out.append("uint32_t");
    } else if str_eq(name, "u64") {
        out.append("uint64_t");
    } else if str_eq(name, "f32") {
        out.append("float");
    } else if str_eq(name, "f64") {
        out.append("double");
    } else if str_eq(name, "char") {
        out.append("char");
    } else if str_eq(name, "str") {
        out.append("const char*");
    } else if str_eq(name, "String") {
        out.append("char*");
    } else {
        out.append("void");
    }
}

/// Appends the C type of a written type.
pub fn write_type_c(out: &mut String, t: &Type)
    ensures
        final(out)@ == old(out)@ + type_c_text(*t),
    decreases t,
{
    let ghost start = out@;
    match t {
        Type::Path(path) => {
            if path.segments.len() == 1 {
                push_c_name(out, path.segments[0].ident.as_str());
            } else {
                out.append("void");
            }
        },
        Type::Ref(inner, _) => write_type_c(out, inner),
        Type::Ptr(inner, _) => {
            write_type_c(out, inner);
            out.append("*");
        },
        Type::Array(inner, size) => {
            write_type_c(out, inner);
            match size {
                Some(n) => {
                    out.append("[");
                    push_decimal(out, *n as u64);
                    out.append("]");
                },
                None => out.append("*"),
            }
        },
        Type::Slice(inner) => {
            write_type_c(out, inner);
            out.append("*");
        },
        Type::Generic(base, _) => write_type_c(out, base),
        _ => out.append("void"),
    }
    proof {
        assert(out@ =~= start + type_c_text(*t));
    }
}

/// Appends the C type of a type of the type checker.
pub fn write_ty_c(out: &mut String, t: &Ty)
    ensures
        final(out)@ == old(out)@ + ty_c_text(*t),
    decreases t,
{
    let ghost start = out@;
    match t {
        Ty::Bool => out.append("int"),
        Ty::I8 => out.append("int8_t"),
        Ty::I16 => out.append("int16_t"),
        Ty::I32 => out.append("int32_t"),
        Ty::I64 => out.append("int64_t"),
        Ty::I128 => out.append("__int128"),
        Ty::Isize => out.append("intptr_t"),
        Ty::U8 => out.append("uint8_t"),
        Ty::U16 => out.append("uint16_t"),
        Ty::U32 => out.append("uint32_t"),
        Ty::U64 => out.append("uint64_t"),
        Ty::U128 => out.append("unsigned __int128"),
        Ty::Usize => out.append("uintptr_t"),
        Ty::F32 => out.append("float"),
        Ty::F64 => out.append("double"),
        Ty::Char => out.append("char"),
        Ty::Str => out.append("const char*"),
        Ty::String => out.append("char*"),
        Ty::Ref(inner, _) => write_ty_c(out, inner),
        Ty::Ptr(inner, _) => {
            write_ty_c(out, inner);
            out.append("*");
        },
        Ty::Array(inner, size) => {
            write_ty_c(out, inner);
            out.append("[");
            push_decimal(out, *size as u64);
            out.append("]");
        },
        Ty::Slice(inner) => {
            write_ty_c(out, inner);
            out.append("*");
        },
        Ty::Adt(adt) => {
            out.append("struct ");
            out.append(adt.name.as_str());
        },
        Ty::Named(name) => {
            out.append("struct ");
            out.append(name.as_str());
        },
        Ty::Future(inner) => {
            out.append("Future<");
            write_ty_c(out, inner);
            out.append(">");
        },
        Ty::Extern(name) => {
            out.append("struct ");
            out.append(name.as_str());
        },
        Ty::FnPtr { .. } => out.append("void*"),
        _ => out.append("void"),
    }
    proof {
        assert(out@ =~= start + ty_c_text(*t));
    }
}

impl ToCType for Type {
    fn to_c_type(&self) -> (s: String)
        ensures
            s@ == type_c_text(*self),
    {
        let mut s = String::new();
        write_type_c(&mut s, self);
        proof {
            assert(s@ =~= type_c_text(*self));
        }
        s
    }

    fn to_c_param_type(&self) -> (s: String)
        ensures
            s@ == type_c_param_text(*self),
    {
        match self {
            Type::Array(inner, _) | Type::Slice(inner) => {
                let mut s = String::new();
                write_type_c(&mut s, inner);
                s.append("*");
                proof {
                    assert(s@ =~= type_c_param_text(*self));
                }
                s
            },
            _ => self.to_c_type(),
        }
    }
}

impl ToCType for Ty {
    fn to_c_type(&self) -> (s: String)
        ensures
            s@ == ty_c_text(*self),
    {
        let mut s = String::new();
        write_ty_c(&mut s, self);
        proof {
            assert(s@ =~= ty_c_text(*self));
        }
        s
    }

    fn to_c_param_type(&self) -> (s: String)
        ensures
            s@ == ty_c_param_text(*self),
    {
        match self {
            Ty::Array(inner, _) | Ty::Slice(inner) => {
                let mut s = String::new();
                write_ty_c(&mut s, inner);
                s.append("*");
                proof {
                    assert(s@ =~= ty_c_param_text(*self));
                }
                s
            },
            _ => self.to_c_type(),
        }
    }
}

} // verus!
