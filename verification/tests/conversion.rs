use boxlang_compiler::ast::{FunctionType, Ident, Path, PathSegment, TraitBound, Type};
use boxlang_compiler::ty::conversion::{StandardTypeConverter, ToCType, TypeConverter};
use boxlang_compiler::typeck::ty::{AdtKind, Mutability, Ty};

fn path_type(names: &[&str]) -> Type {
    Type::Path(Path {
        segments: names.iter().map(|n| PathSegment { ident: Ident::new(n), generics: Vec::new() }).collect(),
    })
}

#[test]
fn test_primitive_conversion() {
    let converter = StandardTypeConverter::new();

    let ast_ty = Type::Path(Path { segments: vec![PathSegment { ident: Ident::new("bool"), generics: Vec::new() }] });
    assert_eq!(converter.ast_type_to_ty(&ast_ty), Ty::Bool);

    let ast_ty = Type::Path(Path { segments: vec![PathSegment { ident: Ident::new("i32"), generics: Vec::new() }] });
    assert_eq!(converter.ast_type_to_ty(&ast_ty), Ty::I32);
}

#[test]
fn test_c_type_conversion() {
    let ast_ty = Type::Path(Path { segments: vec![PathSegment { ident: Ident::new("i32"), generics: Vec::new() }] });
    assert_eq!(ast_ty.to_c_type(), "int32_t");

    let ty = Ty::I32;
    assert_eq!(ty.to_c_type(), "int32_t");
}

#[test]
fn conversion_of_a_user_path() {
    let converter = StandardTypeConverter::new();
    match converter.ast_type_to_ty(&path_type(&["std", "io", "Write"])) {
        Ty::Adt(adt) => {
            assert_eq!(adt.name, "std::io::Write");
            assert_eq!(adt.kind, AdtKind::Struct);
            assert!(adt.variants.is_empty());
        }
        other => panic!("unexpected {:?}", other),
    }
    assert!(converter.is_primitive_type("usize"));
    assert!(!converter.is_primitive_type("Usize"));
    assert_eq!(converter.primitive_to_ty("String"), Some(Ty::String));
    assert_eq!(converter.primitive_to_ty("Vec"), None);
}

#[test]
fn conversion_of_generic_types() {
    let converter = StandardTypeConverter::new();
    let option = Type::Generic(Box::new(path_type(&["Option"])), vec![path_type(&["i32"])]);
    match converter.ast_type_to_ty(&option) {
        Ty::Adt(adt) => {
            assert_eq!(adt.name, "Option");
            assert_eq!(adt.kind, AdtKind::Enum);
            assert_eq!(adt.variants.len(), 2);
            assert_eq!(adt.variants[0].name, "Some");
            assert_eq!(adt.variants[0].fields[0].ty, Ty::I32);
            assert!(adt.variants[1].fields.is_empty());
        }
        other => panic!("unexpected {:?}", other),
    }

    let result = Type::Generic(Box::new(path_type(&["Result"])), vec![path_type(&["bool"])]);
    match converter.ast_type_to_ty(&result) {
        Ty::Adt(adt) => {
            assert_eq!(adt.variants[0].name, "Ok");
            assert_eq!(adt.variants[0].fields[0].ty, Ty::Bool);
            assert_eq!(adt.variants[1].name, "Err");
            assert_eq!(adt.variants[1].fields[0].ty, Ty::Error);
        }
        other => panic!("unexpected {:?}", other),
    }

    let pair = Type::Generic(Box::new(path_type(&["Pair"])), vec![path_type(&["u8"]), path_type(&["char"])]);
    match converter.ast_type_to_ty(&pair) {
        Ty::Adt(adt) => {
            assert_eq!(adt.name, "Pair");
            assert_eq!(adt.variants.len(), 1);
            assert_eq!(adt.variants[0].name, "Pair");
            assert_eq!(adt.variants[0].fields[0].name, "_0");
            assert_eq!(adt.variants[0].fields[0].ty, Ty::U8);
            assert_eq!(adt.variants[0].fields[1].name, "_1");
            assert_eq!(adt.variants[0].fields[1].ty, Ty::Char);
        }
        other => panic!("unexpected {:?}", other),
    }

    // A primitive base keeps its type whatever the arguments.
    let odd = Type::Generic(Box::new(path_type(&["i64"])), vec![path_type(&["u8"])]);
    assert_eq!(converter.ast_type_to_ty(&odd), Ty::I64);
}

#[test]
fn conversion_of_compound_types() {
    let converter = StandardTypeConverter::new();
    let r = Type::Ref(Box::new(path_type(&["u16"])), true);
    assert_eq!(converter.ast_type_to_ty(&r), Ty::Ref(Box::new(Ty::U16), Mutability::Mut));
    let a = Type::Array(Box::new(path_type(&["f64"])), None);
    assert_eq!(converter.ast_type_to_ty(&a), Ty::Array(Box::new(Ty::F64), 0));
    let f = Type::Function(FunctionType { params: vec![path_type(&["bool"])], return_type: Box::new(Type::Unit) });
    assert_eq!(converter.ast_type_to_ty(&f), Ty::Fn { params: vec![Ty::Bool], ret: Box::new(Ty::Unit) });
    let d = Type::DynTrait(vec![TraitBound { path: Path { segments: vec![PathSegment { ident: Ident::new("Display"), generics: vec![] }] } }]);
    assert_eq!(converter.ast_type_to_ty(&d), Ty::Named("dyn_Display".to_string()));
    assert_eq!(converter.ast_type_to_ty(&Type::ImplTrait(vec![])), Ty::Named("ImplTrait".to_string()));
}

#[test]
fn c_names_of_compound_types() {
    let array = Type::Array(Box::new(path_type(&["i32"])), Some(4));
    assert_eq!(array.to_c_type(), "int32_t[4]");
    assert_eq!(array.to_c_param_type(), "int32_t*");
    let ptr = Type::Ptr(Box::new(path_type(&["u8"])), false);
    assert_eq!(ptr.to_c_type(), "uint8_t*");
    assert_eq!(path_type(&["i128"]).to_c_type(), "void");
    assert_eq!(Ty::I128.to_c_type(), "__int128");
    assert_eq!(Ty::Future(Box::new(Ty::I32)).to_c_type(), "Future<int32_t>");
    assert_eq!(Ty::Array(Box::new(Ty::Char), 3).to_c_param_type(), "char*");
    assert_eq!(Ty::Named("Point".to_string()).to_c_type(), "struct Point");
}
