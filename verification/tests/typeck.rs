use boxlang_compiler::ast::{FunctionType, Ident, Type};
use boxlang_compiler::typeck::error::{TypeError, TypeErrors};
use boxlang_compiler::typeck::typeclass::builtin::{add_type_class, display_type_class, eq_type_class, ord_type_class};
use boxlang_compiler::typeck::typeclass::{path_type, Impl, MethodImpl, TypeClassError, TypeClassRegistry};

fn fmt_impl(methods: Vec<MethodImpl>) -> Impl {
    Impl {
        type_class: Ident::new("Display"),
        generics: vec![],
        for_type: path_type("i32"),
        associated_types: Vec::new(),
        methods,
        span: 0..0,
    }
}

fn fmt_method() -> MethodImpl {
    MethodImpl {
        name: Ident::new("fmt"),
        generics: vec![],
        params: vec![],
        return_type: None,
        body: (),
        docs: String::new(),
    }
}

#[test]
fn test_register_type_class() {
    let mut registry = TypeClassRegistry::new();
    let display = display_type_class();
    assert!(registry.register_type_class(display).is_ok());
    assert!(registry.lookup_type_class(&Ident::new("Display")).is_some());
}

#[test]
fn test_duplicate_type_class() {
    let mut registry = TypeClassRegistry::new();
    let display = display_type_class();
    registry.register_type_class(display.clone()).unwrap();
    assert!(registry.register_type_class(display).is_err());
}

#[test]
fn test_implements() {
    let mut registry = TypeClassRegistry::new();
    let display = display_type_class();
    registry.register_type_class(display).unwrap();
    assert!(!registry.implements(&Ident::new("Display"), "i32"));
    let impl_def = fmt_impl(vec![fmt_method()]);
    registry.register_impl(impl_def).unwrap();
    assert!(registry.implements(&Ident::new("Display"), "i32"));
}

#[test]
fn test_missing_method() {
    let mut registry = TypeClassRegistry::new();
    let display = display_type_class();
    registry.register_type_class(display).unwrap();
    let impl_def = fmt_impl(vec![]);
    assert!(registry.register_impl(impl_def).is_err());
}

#[test]
fn impl_errors_say_why() {
    let mut registry = TypeClassRegistry::new();
    match registry.register_impl(fmt_impl(vec![fmt_method()])) {
        Err(TypeClassError::UnknownTypeClass { name }) => assert_eq!(name, "Display"),
        _ => panic!("expected an unknown class"),
    }
    registry.register_type_class(display_type_class()).unwrap();
    match registry.register_impl(fmt_impl(vec![])) {
        Err(TypeClassError::MissingMethod { type_class, method }) => {
            assert_eq!(type_class, "Display");
            assert_eq!(method, "fmt");
        }
        _ => panic!("expected a missing method"),
    }
    registry.register_impl(fmt_impl(vec![fmt_method()])).unwrap();
    match registry.register_impl(fmt_impl(vec![fmt_method()])) {
        Err(TypeClassError::DuplicateImpl { type_class, for_type }) => {
            assert_eq!(type_class, "Display");
            assert_eq!(for_type, "i32");
        }
        _ => panic!("expected a duplicate"),
    }
    assert_eq!(registry.implementations_for(&Ident::new("Display")).len(), 1);
    assert!(registry.lookup_impl(&Ident::new("Display"), "i32").is_some());
}

#[test]
fn builtin_classes() {
    assert_eq!(eq_type_class().methods[0].name.as_str(), "eq");
    assert_eq!(ord_type_class().super_classes[0].as_str(), "Eq");
    assert_eq!(add_type_class().associated_types[0].name.as_str(), "Output");
}

#[test]
fn types_are_written_as_in_source() {
    let arr = Type::Array(Box::new(path_type("i32")), Some(4));
    assert_eq!(TypeClassRegistry::type_to_string(&arr), "[i32; 4]");
    let r = Type::Ref(Box::new(Type::Slice(Box::new(path_type("u8")))), true);
    assert_eq!(TypeClassRegistry::type_to_string(&r), "&mut [u8]");
    let f = Type::Function(FunctionType { params: vec![path_type("i32"), Type::Unit], return_type: Box::new(Type::Never) });
    assert_eq!(TypeClassRegistry::type_to_string(&f), "fn(i32, ()) -> !");
    let g = Type::Generic(Box::new(path_type("Vec")), vec![Type::Tuple(vec![path_type("a"), path_type("b")])]);
    assert_eq!(TypeClassRegistry::type_to_string(&g), "Vec<(a, b)>");
    let p = Type::Ptr(Box::new(path_type("T")), false);
    assert_eq!(TypeClassRegistry::type_to_string(&p), "*const T");
}

#[test]
fn collected_errors_become_one_result() {
    let mut errors = TypeErrors::new();
    assert!(errors.take_result().is_ok());
    errors.push(TypeError::undefined_var("x", 1..2, 3, 4));
    match errors.take_result() {
        Err(TypeError::UndefinedVar { name, line, column, .. }) => {
            assert_eq!(name, "x");
            assert_eq!((line, column), (3, 4));
        }
        _ => panic!("expected the single error"),
    }
    assert!(errors.is_empty());
    errors.push(TypeError::arg_count_mismatch(1, 2, 0..1, 0, 0));
    errors.push(TypeError::undefined_function("f", 0..1, 0, 0));
    assert_eq!(errors.len(), 2);
    match errors.into_result() {
        Err(TypeError::Multiple(v)) => assert_eq!(v.len(), 2),
        _ => panic!("expected a group"),
    }
    assert!(TypeError::Multiple(vec![]).span().is_none());
    assert_eq!(TypeError::undefined_var("y", 5..9, 0, 0).span(), Some(&(5..9)));
}

use boxlang_compiler::typeck::ty::{AdtDef, AdtKind, FieldDef, Mutability, Ty, VariantDef};

#[test]
fn test_integer_types() {
    assert!(Ty::I32.is_integer());
    assert!(Ty::U32.is_integer());
    assert!(!Ty::F32.is_integer());
    assert!(!Ty::Bool.is_integer());
}

#[test]
fn test_numeric_types() {
    assert!(Ty::I32.is_numeric());
    assert!(Ty::F64.is_numeric());
    assert!(!Ty::Bool.is_numeric());
}

#[test]
fn test_type_sizes() {
    assert_eq!(Ty::Unit.size(), 0);
    assert_eq!(Ty::Bool.size(), 1);
    assert_eq!(Ty::I8.size(), 1);
    assert_eq!(Ty::I32.size(), 4);
    assert_eq!(Ty::I64.size(), 8);
    assert_eq!(Ty::F32.size(), 4);
    assert_eq!(Ty::F64.size(), 8);
}

#[test]
fn test_array_size() {
    let arr = Ty::Array(Box::new(Ty::I32), 10);
    assert_eq!(arr.size(), 40);
}

#[test]
fn test_implicit_conversion() {
    assert!(Ty::I32.can_implicitly_convert_to(&Ty::I64));
    assert!(!Ty::I64.can_implicitly_convert_to(&Ty::I32));
    assert!(Ty::I32.can_implicitly_convert_to(&Ty::F64));
}

fn adt(name: &str, fields: Vec<Ty>) -> Ty {
    Ty::Adt(AdtDef {
        name: name.to_string(),
        kind: AdtKind::Struct,
        variants: vec![VariantDef {
            name: name.to_string(),
            fields: fields.into_iter().map(|ty| FieldDef { name: "f".to_string(), ty }).collect(),
        }],
    })
}

#[test]
fn sizes_of_compound_types() {
    assert_eq!(Ty::Tuple(vec![Ty::I32, Ty::U8, Ty::String]).size(), 29);
    assert_eq!(adt("P", vec![Ty::I64, Ty::I64]).size(), 16);
    assert_eq!(Ty::Ref(Box::new(Ty::I128), Mutability::Mut).size(), 8);
    assert_eq!(Ty::Named("T".to_string()).size(), 0);
}

#[test]
fn coercions_and_conversions() {
    let mut_ref = Ty::Ref(Box::new(Ty::I32), Mutability::Mut);
    let shared_ref = Ty::Ref(Box::new(Ty::I32), Mutability::Not);
    assert!(mut_ref.can_coerce_to(&shared_ref));
    assert!(!shared_ref.can_coerce_to(&mut_ref));
    assert!(Ty::F32.can_coerce_to(&Ty::F64));
    assert!(!Ty::F64.can_coerce_to(&Ty::F32));
    assert!(Ty::U64.can_coerce_to(&Ty::I8));
    assert!(Ty::String.can_implicitly_convert_to(&Ty::Str));
    assert!(!Ty::Str.can_implicitly_convert_to(&Ty::String));
    assert!(Ty::Error.can_implicitly_convert_to(&Ty::Bool));
    assert!(adt("Opt", vec![Ty::I32]).can_implicitly_convert_to(&adt("Opt", vec![])));
    let r8 = Ty::Ref(Box::new(Ty::I8), Mutability::Not);
    let r64 = Ty::Ref(Box::new(Ty::I64), Mutability::Not);
    assert!(r8.can_implicitly_convert_to(&r64));
    assert!(!r64.can_implicitly_convert_to(&r8));
    assert!(!Ty::Bool.can_implicitly_convert_to(&Ty::Char));
}
