use boxlang_compiler::ast::{
    CallExpr, Expr, FieldAccessExpr, Pattern, UnaryExpr,
    BinaryOp, Block, EnumDef, EnumVariant, EnumVariantFields, ExternBlock, ExternFunction, ExternItem, Function, Ident, ImplBlock, ImplItem, Item, Literal, Path, PathSegment,
    StructDef, Type, UnaryOp,
};
use boxlang_compiler::typeck::check::{binary_op_type, check_arguments, unary_op_type, TypeChecker};
use boxlang_compiler::typeck::error::TypeError;
use boxlang_compiler::typeck::sym::{MethodReceiver, SymbolKind};
use boxlang_compiler::typeck::ty::{copy_ty, AdtDef, AdtKind, FieldDef, Mutability, Ty, TypeParamId, VariantDef};

fn named(name: &str) -> Type {
    Type::Path(Path { segments: vec![PathSegment { ident: Ident::new(name), generics: vec![] }] })
}

fn generic_path(name: &str, args: Vec<Type>) -> Type {
    Type::Path(Path { segments: vec![PathSegment { ident: Ident::new(name), generics: args }] })
}

fn empty_block() -> Block {
    Block { stmts: vec![], span: 0..0 }
}

fn option_of(t: Ty) -> Ty {
    Ty::Adt(AdtDef {
        name: "Option".to_string(),
        kind: AdtKind::Enum,
        variants: vec![
            VariantDef { name: "Some".to_string(), fields: vec![FieldDef { name: "0".to_string(), ty: t }] },
            VariantDef { name: "None".to_string(), fields: vec![] },
        ],
    })
}

#[test]
fn test_resolve_primitive_and_unknown_types() {
    let checker = TypeChecker::new();
    assert_eq!(checker.ast_type_to_ty(&named("i32")), Ty::I32);
    assert_eq!(checker.ast_type_to_ty(&named("String")), Ty::String);
    assert_eq!(checker.ast_type_to_ty(&named("Nope")), Ty::Error);
    assert_eq!(checker.ast_type_to_ty(&Type::Unit), Ty::Unit);
    assert_eq!(
        checker.ast_type_to_ty(&Type::Ref(Box::new(named("u8")), true)),
        Ty::Ref(Box::new(Ty::U8), Mutability::Mut)
    );
    assert_eq!(
        checker.ast_type_to_ty(&Type::Array(Box::new(named("bool")), None)),
        Ty::Array(Box::new(Ty::Bool), 0)
    );
    assert_eq!(checker.ast_type_to_ty(&Type::ImplTrait(vec![])), Ty::Error);
}

#[test]
fn test_resolve_generic_types() {
    let checker = TypeChecker::new();
    assert_eq!(checker.ast_type_to_ty(&generic_path("Option", vec![named("i32")])), option_of(Ty::I32));
    let result = checker.ast_type_to_ty(&Type::Generic(Box::new(named("Result")), vec![named("bool")]));
    match result {
        Ty::Adt(a) => {
            assert_eq!(a.name, "Result");
            assert_eq!(a.variants[0].name, "Ok");
            assert_eq!(a.variants[0].fields[0].ty, Ty::Bool);
            assert_eq!(a.variants[1].name, "Err");
            assert_eq!(a.variants[1].fields[0].ty, Ty::Error);
        }
        other => panic!("unexpected {:?}", other),
    }
    match checker.ast_type_to_ty(&generic_path("Vec", vec![named("u64")])) {
        Ty::Adt(a) => {
            assert_eq!(a.name, "Vec");
            assert_eq!(a.kind, AdtKind::Struct);
            assert_eq!(a.variants[0].fields[0].ty, Ty::Slice(Box::new(Ty::U64)));
        }
        other => panic!("unexpected {:?}", other),
    }
}

#[test]
fn test_collect_function_signature() {
    let mut checker = TypeChecker::new();
    let f = Function {
        name: Ident::new("add"),
        params: vec![(Ident::new("a"), named("i32")), (Ident::new("b"), named("i64"))],
        return_type: Some(named("bool")),
        body: empty_block(),
        is_async: false,
    };
    checker.collect_item_signature(&Item::Function(f));
    let s = checker.lookup(&Ident::new("add")).expect("filed");
    match &s.kind {
        SymbolKind::Function { params, ret } => {
            assert_eq!(params, &vec![Ty::I32, Ty::I64]);
            assert_eq!(ret, &Ty::Bool);
        }
        other => panic!("unexpected {:?}", other),
    }
    assert_eq!(s.ty, Ty::Fn { params: vec![Ty::I32, Ty::I64], ret: Box::new(Ty::Bool) });
    assert!(!s.is_mut);
    match checker.check_ident(&Ident::new("add")) {
        Ok(t) => assert_eq!(t, Ty::Fn { params: vec![Ty::I32, Ty::I64], ret: Box::new(Ty::Bool) }),
        Err(e) => panic!("unexpected {:?}", e),
    }
}

#[test]
fn test_collect_function_without_return_type() {
    let mut checker = TypeChecker::new();
    let f = Function { name: Ident::new("noop"), params: vec![], return_type: None, body: empty_block(), is_async: false };
    checker.collect_item_signature(&Item::Function(f));
    let s = checker.lookup(&Ident::new("noop")).expect("filed");
    assert_eq!(s.ty, Ty::Fn { params: vec![], ret: Box::new(Ty::Unit) });
}

#[test]
fn test_collect_extern_block_signatures() {
    let mut checker = TypeChecker::new();
    let block = ExternBlock {
        items: vec![
            ExternItem::Function(ExternFunction {
                name: Ident::new("puts"),
                params: vec![(Ident::new("s"), Type::Ref(Box::new(named("str")), false))],
                return_type: Some(named("i32")),
            }),
            ExternItem::Function(ExternFunction { name: Ident::new("abort"), params: vec![], return_type: None }),
        ],
    };
    checker.collect_item_signature(&Item::ExternBlock(block));
    let puts = checker.lookup(&Ident::new("puts")).expect("filed");
    match &puts.kind {
        SymbolKind::Function { params, ret } => {
            assert_eq!(params, &vec![Ty::Ref(Box::new(Ty::Str), Mutability::Not)]);
            assert_eq!(ret, &Ty::I32);
        }
        other => panic!("unexpected {:?}", other),
    }
    let abort = checker.lookup(&Ident::new("abort")).expect("filed");
    assert_eq!(abort.ty, Ty::Fn { params: vec![], ret: Box::new(Ty::Unit) });
}

#[test]
fn test_collect_struct_then_resolve_its_name() {
    let mut checker = TypeChecker::new();
    let d = StructDef {
        name: Ident::new("Point"),
        fields: vec![(Ident::new("x"), named("i32")), (Ident::new("y"), named("f64"))],
    };
    checker.collect_item_signature(&Item::Struct(d));
    let expected = Ty::Adt(AdtDef {
        name: "Point".to_string(),
        kind: AdtKind::Struct,
        variants: vec![VariantDef {
            name: "Point".to_string(),
            fields: vec![
                FieldDef { name: "x".to_string(), ty: Ty::I32 },
                FieldDef { name: "y".to_string(), ty: Ty::F64 },
            ],
        }],
    });
    let s = checker.lookup(&Ident::new("Point")).expect("filed");
    assert_eq!(s.ty, expected);
    match &s.kind {
        SymbolKind::Struct { fields } => {
            assert_eq!(fields.len(), 2);
            assert_eq!(fields[0].0.name, "x");
            assert_eq!(fields[1].1, Ty::F64);
        }
        other => panic!("unexpected {:?}", other),
    }
    // The struct's name now resolves as a type.
    assert_eq!(checker.ast_type_to_ty(&named("Point")), expected);
}

#[test]
fn test_collect_enum_signatures() {
    let mut checker = TypeChecker::new();
    let d = EnumDef {
        name: Ident::new("Shape"),
        variants: vec![
            EnumVariant { name: Ident::new("Circle"), fields: EnumVariantFields::Tuple(vec![named("f64")]) },
            EnumVariant {
                name: Ident::new("Rect"),
                fields: EnumVariantFields::Struct(vec![(Ident::new("w"), named("i32")), (Ident::new("h"), named("i32"))]),
            },
            EnumVariant { name: Ident::new("Empty"), fields: EnumVariantFields::Unit },
        ],
    };
    checker.collect_item_signature(&Item::Enum(d));
    let enum_ty = shape_ty();
    let shape = checker.lookup(&Ident::new("Shape")).expect("filed");
    assert!(matches!(shape.kind, SymbolKind::Type));
    assert_eq!(shape.ty, enum_ty);
    let circle = checker.lookup(&Ident::new("Shape::Circle")).expect("filed");
    assert_eq!(circle.ty, Ty::Fn { params: vec![Ty::F64], ret: Box::new(shape_ty()) });
    match &circle.kind {
        SymbolKind::Variant { parent_enum, variant_index, fields } => {
            assert_eq!(parent_enum.name, "Shape");
            assert_eq!(*variant_index, 0);
            assert_eq!(fields.len(), 1);
            assert_eq!(fields[0].name, "0");
        }
        other => panic!("unexpected {:?}", other),
    }
    let rect = checker.lookup(&Ident::new("Shape::Rect")).expect("filed");
    assert_eq!(rect.ty, Ty::Fn { params: vec![Ty::I32, Ty::I32], ret: Box::new(shape_ty()) });
    let empty = checker.lookup(&Ident::new("Shape::Empty")).expect("filed");
    assert_eq!(empty.ty, shape_ty());
    match &empty.kind {
        SymbolKind::Variant { variant_index, .. } => assert_eq!(*variant_index, 2),
        other => panic!("unexpected {:?}", other),
    }
}

fn shape_ty() -> Ty {
    Ty::Adt(AdtDef {
        name: "Shape".to_string(),
        kind: AdtKind::Enum,
        variants: vec![
            VariantDef { name: "Circle".to_string(), fields: vec![FieldDef { name: "0".to_string(), ty: Ty::F64 }] },
            VariantDef {
                name: "Rect".to_string(),
                fields: vec![
                    FieldDef { name: "w".to_string(), ty: Ty::I32 },
                    FieldDef { name: "h".to_string(), ty: Ty::I32 },
                ],
            },
            VariantDef { name: "Empty".to_string(), fields: vec![] },
        ],
    })
}

#[test]
fn test_check_literal_and_ident() {
    let checker = TypeChecker::new();
    assert_eq!(checker.check_literal(&Literal::Integer(7)), Ty::I32);
    assert_eq!(checker.check_literal(&Literal::Bool(true)), Ty::Bool);
    assert_eq!(checker.check_literal(&Literal::String("s".to_string())), Ty::String);
    assert_eq!(checker.check_literal(&Literal::Null), Ty::Unit);
    match checker.check_ident(&Ident::new("missing")) {
        Err(TypeError::UndefinedVar { name, line, column, .. }) => {
            assert_eq!(name, "missing");
            assert_eq!(line, 0);
            assert_eq!(column, 0);
        }
        other => panic!("unexpected {:?}", other),
    }
}

#[test]
fn test_binary_op_types() {
    assert_eq!(binary_op_type(BinaryOp::Add, Ty::I32, Ty::I64).unwrap(), Ty::I64);
    assert_eq!(binary_op_type(BinaryOp::Mul, Ty::F64, Ty::I32).unwrap(), Ty::F64);
    assert_eq!(binary_op_type(BinaryOp::Sub, Ty::U8, Ty::I8).unwrap(), Ty::U8);
    assert_eq!(binary_op_type(BinaryOp::Lt, Ty::I32, Ty::F32).unwrap(), Ty::Bool);
    assert_eq!(binary_op_type(BinaryOp::LogicalAnd, Ty::Bool, Ty::Bool).unwrap(), Ty::Bool);
    assert_eq!(binary_op_type(BinaryOp::Shl, Ty::U32, Ty::U8).unwrap(), Ty::U32);
    assert_eq!(binary_op_type(BinaryOp::Assign, Ty::String, Ty::Bool).unwrap(), Ty::Unit);
    match binary_op_type(BinaryOp::Add, Ty::Bool, Ty::I32) {
        Err(TypeError::InvalidBinaryOp { op, left, right, .. }) => {
            assert_eq!(op, "+");
            assert_eq!(left, Ty::Bool.to_string());
            assert_eq!(right, Ty::I32.to_string());
        }
        other => panic!("unexpected {:?}", other),
    }
    assert!(binary_op_type(BinaryOp::Or, Ty::Bool, Ty::I32).is_err());
    assert!(binary_op_type(BinaryOp::Xor, Ty::F64, Ty::I32).is_err());
    assert!(binary_op_type(BinaryOp::Eq, Ty::String, Ty::String).is_err());
}

#[test]
fn test_unary_op_types() {
    assert_eq!(unary_op_type(UnaryOp::Neg, Ty::I32).unwrap(), Ty::I32);
    assert_eq!(unary_op_type(UnaryOp::Not, Ty::Bool).unwrap(), Ty::Bool);
    assert_eq!(unary_op_type(UnaryOp::Not, option_of(Ty::U16)).unwrap(), Ty::U16);
    assert_eq!(unary_op_type(UnaryOp::Deref, Ty::Ref(Box::new(Ty::Char), Mutability::Not)).unwrap(), Ty::Char);
    assert_eq!(unary_op_type(UnaryOp::Ref, Ty::I8).unwrap(), Ty::Ref(Box::new(Ty::I8), Mutability::Not));
    assert_eq!(unary_op_type(UnaryOp::RefMut, Ty::I8).unwrap(), Ty::Ref(Box::new(Ty::I8), Mutability::Mut));
    match unary_op_type(UnaryOp::Deref, Ty::I32) {
        Err(TypeError::InvalidUnaryOp { op, ty, .. }) => {
            assert_eq!(op, "*");
            assert_eq!(ty, Ty::I32.to_string());
        }
        other => panic!("unexpected {:?}", other),
    }
    assert!(unary_op_type(UnaryOp::Neg, Ty::Bool).is_err());
    assert!(unary_op_type(UnaryOp::Not, Ty::I32).is_err());
}

fn method(name: &str, params: Vec<(Ident, Type)>, ret: Option<Type>) -> ImplItem {
    ImplItem::Function(Function { name: Ident::new(name), params, return_type: ret, body: empty_block(), is_async: false })
}

#[test]
fn test_collect_impl_signatures() {
    let mut checker = TypeChecker::new();
    checker.collect_item_signature(&Item::Struct(StructDef {
        name: Ident::new("Counter"),
        fields: vec![(Ident::new("n"), named("u32"))],
    }));
    let block = ImplBlock {
        ty: named("Counter"),
        items: vec![
            method("new", vec![(Ident::new("start"), named("u32"))], Some(named("Counter"))),
            method("get", vec![(Ident::new("self"), Type::Ref(Box::new(named("Counter")), false))], Some(named("u32"))),
            method(
                "add",
                vec![(Ident::new("&mut self"), named("Counter")), (Ident::new("k"), named("u32"))],
                None,
            ),
            method("consume", vec![(Ident::new("self"), named("Counter"))], Some(named("bool"))),
        ],
    };
    checker.collect_item_signature(&Item::Impl(block));
    let counter = checker.ast_type_to_ty(&named("Counter"));
    let new = checker.lookup(&Ident::new("Counter::new")).expect("filed");
    match &new.kind {
        SymbolKind::Method { params, ret, receiver, impl_type } => {
            assert_eq!(params, &vec![Ty::U32]);
            assert_eq!(ret, &counter);
            assert_eq!(*receiver, MethodReceiver::NoReceiver);
            assert_eq!(impl_type, &counter);
        }
        other => panic!("unexpected {:?}", other),
    }
    let get = checker.lookup(&Ident::new("Counter::get")).expect("filed");
    match &get.kind {
        SymbolKind::Method { params, ret, receiver, .. } => {
            assert!(params.is_empty());
            assert_eq!(ret, &Ty::U32);
            assert_eq!(*receiver, MethodReceiver::Ref);
        }
        other => panic!("unexpected {:?}", other),
    }
    assert_eq!(get.ty, Ty::Fn { params: vec![], ret: Box::new(Ty::U32) });
    let add = checker.lookup(&Ident::new("Counter::add")).expect("filed");
    match &add.kind {
        SymbolKind::Method { params, ret, receiver, .. } => {
            assert_eq!(params, &vec![Ty::U32]);
            assert_eq!(ret, &Ty::Unit);
            assert_eq!(*receiver, MethodReceiver::RefMut);
        }
        other => panic!("unexpected {:?}", other),
    }
    let consume = checker.lookup(&Ident::new("Counter::consume")).expect("filed");
    match &consume.kind {
        SymbolKind::Method { receiver, .. } => assert_eq!(*receiver, MethodReceiver::Value),
        other => panic!("unexpected {:?}", other),
    }
}

#[test]
fn test_methods_of_unknown_type() {
    let mut checker = TypeChecker::new();
    let block = ImplBlock { ty: Type::Tuple(vec![]), items: vec![method("f", vec![], None)] };
    checker.collect_item_signature(&Item::Impl(block));
    assert!(checker.lookup(&Ident::new("Unknown::f")).is_some());
    let block = ImplBlock { ty: named("Missing"), items: vec![method("g", vec![], None)] };
    checker.collect_item_signature(&Item::Impl(block));
    assert!(checker.lookup(&Ident::new("Error::g")).is_some());
}

#[test]
fn test_pipe_into_functions() {
    let mut checker = TypeChecker::new();
    checker.collect_item_signature(&Item::Function(Function {
        name: Ident::new("double"),
        params: vec![(Ident::new("x"), named("i32"))],
        return_type: Some(named("i64")),
        body: empty_block(),
        is_async: false,
    }));
    checker.collect_item_signature(&Item::Function(Function {
        name: Ident::new("pair"),
        params: vec![(Ident::new("a"), named("i32")), (Ident::new("b"), named("i32"))],
        return_type: Some(named("i32")),
        body: empty_block(),
        is_async: false,
    }));
    assert_eq!(checker.check_pipe_into(Ty::I32, &Ident::new("double")).unwrap(), Ty::I64);
    // Numbers are accepted for a numeric parameter.
    assert_eq!(checker.check_pipe_into(Ty::F64, &Ident::new("double")).unwrap(), Ty::I64);
    match checker.check_pipe_into(Ty::Bool, &Ident::new("double")) {
        Err(TypeError::MismatchedTypes { expected, found, .. }) => {
            assert_eq!(expected, Ty::I32.to_string());
            assert_eq!(found, Ty::Bool.to_string());
        }
        other => panic!("unexpected {:?}", other),
    }
    assert_eq!(checker.check_pipe_into(Ty::I32, &Ident::new("pair")).unwrap(), Ty::Error);
    assert!(matches!(
        checker.check_pipe_into(Ty::I32, &Ident::new("nothing")),
        Err(TypeError::UndefinedVar { .. })
    ));
}

#[test]
fn test_check_arguments() {
    assert_eq!(check_arguments(&vec![Ty::I64, Ty::Bool], &vec![Ty::I32, Ty::Bool], Ty::Char).unwrap(), Ty::Char);
    match check_arguments(&vec![Ty::I32], &vec![], Ty::Unit) {
        Err(TypeError::ArgCountMismatch { expected, found, .. }) => {
            assert_eq!(expected, 1);
            assert_eq!(found, 0);
        }
        other => panic!("unexpected {:?}", other),
    }
    match check_arguments(&vec![Ty::I32, Ty::Bool, Ty::Char], &vec![Ty::I32, Ty::Char, Ty::Bool], Ty::Unit) {
        Err(TypeError::MismatchedTypes { expected, found, .. }) => {
            assert_eq!(expected, Ty::Bool.to_string());
            assert_eq!(found, Ty::Char.to_string());
        }
        other => panic!("unexpected {:?}", other),
    }
    assert_eq!(check_arguments(&vec![], &vec![], Ty::Str).unwrap(), Ty::Str);
}

fn two_segment_path(a: &str, b: &str) -> Path {
    Path {
        segments: vec![
            PathSegment { ident: Ident::new(a), generics: vec![] },
            PathSegment { ident: Ident::new(b), generics: vec![] },
        ],
    }
}

#[test]
fn test_path_call_types() {
    let mut checker = TypeChecker::new();
    // The prelude files `Option::Some` and `Result::Ok` as variants, so a
    // call of them gives the prelude enum's type.
    match checker.path_call_type(&two_segment_path("Option", "Some"), vec![Ty::I32]) {
        Ty::Adt(a) => {
            assert_eq!(a.name, "Option");
            assert_eq!(a.variants[0].name, "Some");
            assert_eq!(a.variants[0].fields[0].ty, Ty::Param(TypeParamId(0)));
        }
        other => panic!("unexpected {:?}", other),
    }
    match checker.path_call_type(&two_segment_path("Result", "Err"), vec![Ty::Bool]) {
        Ty::Adt(a) => {
            assert_eq!(a.name, "Result");
            assert_eq!(a.variants[1].fields[0].ty, Ty::Param(TypeParamId(1)));
        }
        other => panic!("unexpected {:?}", other),
    }
    // A user enum's variant gives the enum's type.
    checker.collect_item_signature(&Item::Enum(EnumDef {
        name: Ident::new("Color"),
        variants: vec![EnumVariant { name: Ident::new("Red"), fields: EnumVariantFields::Unit }],
    }));
    let color = Ty::Adt(AdtDef {
        name: "Color".to_string(),
        kind: AdtKind::Enum,
        variants: vec![VariantDef { name: "Red".to_string(), fields: vec![] }],
    });
    assert_eq!(checker.path_call_type(&two_segment_path("Color", "Red"), vec![]), color);
    assert_eq!(checker.path_call_type(&named_path("single"), vec![]), Ty::Error);
    assert_eq!(checker.path_call_type(&two_segment_path("Nope", "X"), vec![]), Ty::Error);
}

fn named_path(a: &str) -> Path {
    Path { segments: vec![PathSegment { ident: Ident::new(a), generics: vec![] }] }
}

#[test]
fn test_call_types() {
    let mut checker = TypeChecker::new();
    checker.collect_item_signature(&Item::Function(Function {
        name: Ident::new("inc"),
        params: vec![(Ident::new("x"), named("i64"))],
        return_type: Some(named("i64")),
        body: empty_block(),
        is_async: false,
    }));
    let by_name = Expr::Ident(Ident::new("inc"));
    assert_eq!(checker.call_type(&by_name, Ty::Error, &vec![Ty::I32]).unwrap(), Ty::I64);
    assert!(matches!(
        checker.call_type(&by_name, Ty::Error, &vec![]),
        Err(TypeError::ArgCountMismatch { expected: 1, found: 0, .. })
    ));
    assert!(matches!(
        checker.call_type(&Expr::Ident(Ident::new("missing")), Ty::Error, &vec![]),
        Err(TypeError::UndefinedFunction { .. })
    ));
    // A method by `Type.method`.
    checker.collect_item_signature(&Item::Struct(StructDef { name: Ident::new("P"), fields: vec![] }));
    checker.collect_item_signature(&Item::Impl(ImplBlock {
        ty: named("P"),
        items: vec![ImplItem::Function(Function {
            name: Ident::new("make"),
            params: vec![(Ident::new("v"), named("bool"))],
            return_type: Some(named("u8")),
            body: empty_block(),
            is_async: false,
        })],
    }));
    let method = Expr::FieldAccess(FieldAccessExpr {
        expr: Box::new(Expr::Ident(Ident::new("P"))),
        field: Ident::new("make"),
    });
    assert_eq!(checker.call_type(&method, Ty::Error, &vec![Ty::Bool]).unwrap(), Ty::U8);
    // Anything else goes by its function type.
    let callee = Expr::Call(CallExpr { func: Box::new(Expr::Ident(Ident::new("f"))), args: vec![] });
    let fn_ty = Ty::Fn { params: vec![Ty::Char], ret: Box::new(Ty::Str) };
    assert_eq!(checker.call_type(&callee, fn_ty, &vec![Ty::Char]).unwrap(), Ty::Str);
    assert!(matches!(
        checker.call_type(&callee, Ty::I32, &vec![]),
        Err(TypeError::InvalidType { .. })
    ));
}

fn adt(name: &str, kind: AdtKind, variants: Vec<VariantDef>) -> Ty {
    Ty::Adt(AdtDef { name: name.to_string(), kind, variants })
}

#[test]
fn test_iterator_element_types() {
    let checker = TypeChecker::new();
    assert_eq!(checker.get_iterator_element_type(&Ty::Array(Box::new(Ty::I64), 3)), Ty::I64);
    assert_eq!(checker.get_iterator_element_type(&Ty::Slice(Box::new(Ty::Bool))), Ty::Bool);
    let range = adt(
        "Range",
        AdtKind::Struct,
        vec![VariantDef { name: "Range".to_string(), fields: vec![FieldDef { name: "start".to_string(), ty: Ty::U8 }] }],
    );
    assert_eq!(checker.get_iterator_element_type(&range), Ty::U8);
    assert_eq!(checker.get_iterator_element_type(&adt("Range", AdtKind::Struct, vec![])), Ty::I32);
    assert_eq!(checker.get_iterator_element_type(&adt("Vec", AdtKind::Struct, vec![])), Ty::Error);
    assert_eq!(checker.get_iterator_element_type(&adt("Map", AdtKind::Struct, vec![])), Ty::Error);
    assert_eq!(checker.get_iterator_element_type(&Ty::U32), Ty::U32);
    assert_eq!(checker.get_iterator_element_type(&Ty::Bool), Ty::Error);
}

fn field(base: Expr, name: &str) -> Expr {
    Expr::FieldAccess(FieldAccessExpr { expr: Box::new(base), field: Ident::new(name) })
}

#[test]
fn test_assignment_targets() {
    let mut checker = TypeChecker::new();
    assert!(checker.bind_pattern(&Pattern::Ident(Ident::new("x")), &Ty::I32).is_ok());
    let deref = Expr::Unary(UnaryExpr { op: UnaryOp::Deref, expr: Box::new(Expr::Ident(Ident::new("p"))) });
    let negated = Expr::Unary(UnaryExpr { op: UnaryOp::Neg, expr: Box::new(Expr::Ident(Ident::new("p"))) });
    assert!(!checker.is_mutable_expr(&Expr::Ident(Ident::new("x"))));
    assert!(!checker.is_mutable_expr(&Expr::Ident(Ident::new("nowhere"))));
    assert!(checker.is_mutable_expr(&deref));
    assert!(!checker.is_mutable_expr(&negated));
    assert!(checker.is_mutable_expr(&field(field(deref, "a"), "b")));
    assert!(!checker.is_mutable_expr(&Expr::Literal(Literal::Integer(1))));

    let target = field(field(Expr::Ident(Ident::new("a")), "b"), "c");
    assert_eq!(checker.expr_to_ident(&target).name, "a.b.c");
    assert_eq!(checker.expr_to_ident(&Expr::Ident(Ident::new("v"))).name, "v");
    assert_eq!(checker.expr_to_ident(&Expr::Literal(Literal::Bool(true))).name, "<expression>");
    assert_eq!(checker.expr_to_ident(&field(Expr::Literal(Literal::Bool(true)), "f")).name, "<expression>.f");
}

#[test]
fn test_bind_pattern_names() {
    let mut checker = TypeChecker::new();
    let pattern = Pattern::Binding(Ident::new("whole"), Box::new(Pattern::Ident(Ident::new("inner"))));
    assert!(checker.bind_pattern(&pattern, &Ty::I64).is_ok());
    for name in ["whole", "inner"] {
        let s = checker.lookup(&Ident::new(name)).expect("bound");
        assert!(matches!(s.kind, SymbolKind::Variable));
        assert_eq!(s.ty, Ty::I64);
        assert!(!s.is_mut);
    }
    assert!(checker.bind_pattern(&Pattern::Wildcard, &Ty::Bool).is_ok());
    assert!(checker.bind_pattern(&Pattern::Literal(Literal::Integer(3)), &Ty::Bool).is_ok());
    assert!(checker.lookup(&Ident::new("_")).is_none());
}

#[test]
fn test_check_path_expressions() {
    let mut checker = TypeChecker::new();
    let f = Function { name: Ident::new("helper"), params: vec![], return_type: None, body: empty_block(), is_async: false };
    checker.collect_item_signature(&Item::Function(f));
    match checker.check_path(&Path { segments: vec![PathSegment { ident: Ident::new("helper"), generics: vec![] }] }) {
        Ok(t) => assert_eq!(t, Ty::Fn { params: vec![], ret: Box::new(Ty::Unit) }),
        Err(e) => panic!("unexpected {:?}", e),
    }
    match checker.check_path(&Path { segments: vec![PathSegment { ident: Ident::new("ghost"), generics: vec![] }] }) {
        Err(TypeError::UndefinedVar { name, .. }) => assert_eq!(name, "ghost"),
        other => panic!("unexpected {:?}", other),
    }
    let some = checker.check_path(&two_segment_path("Option", "Some")).expect("typed");
    assert_eq!(some, copy_ty(&checker.lookup(&Ident::new("Option::Some")).expect("prelude").ty));
    assert_eq!(checker.check_path(&two_segment_path("Nope", "Nothing")).expect("typed"), Ty::Error);
    assert_eq!(checker.check_path(&Path { segments: vec![] }).expect("typed"), Ty::Error);
}

#[test]
fn test_check_enum_duplicates() {
    let checker = TypeChecker::new();
    let unit = |n: &str| EnumVariant { name: Ident::new(n), fields: EnumVariantFields::Unit };
    let ok = EnumDef { name: Ident::new("E"), variants: vec![unit("A"), unit("B")] };
    assert!(checker.check_enum(&ok).is_ok());
    let dup = EnumDef { name: Ident::new("E"), variants: vec![unit("A"), unit("B"), unit("A")] };
    match checker.check_enum(&dup) {
        Err(TypeError::InvalidType { name, .. }) => assert_eq!(name, "duplicate variant name: A"),
        other => panic!("unexpected {:?}", other),
    }
    let fields = EnumVariant {
        name: Ident::new("Point"),
        fields: EnumVariantFields::Struct(vec![
            (Ident::new("x"), named("i32")),
            (Ident::new("y"), named("i32")),
            (Ident::new("x"), named("u8")),
        ]),
    };
    let dup_field = EnumDef { name: Ident::new("E"), variants: vec![unit("A"), fields] };
    match checker.check_enum(&dup_field) {
        Err(TypeError::InvalidType { name, .. }) => assert_eq!(name, "duplicate field name: x in variant Point"),
        other => panic!("unexpected {:?}", other),
    }
}

#[test]
fn test_check_struct_forward_references() {
    let mut checker = TypeChecker::new();
    let def = StructDef {
        name: Ident::new("Node"),
        fields: vec![(Ident::new("value"), named("i32")), (Ident::new("next"), named("Later"))],
    };
    assert!(checker.check_struct(&def).is_ok());
    assert!(checker.lookup(&Ident::new("value")).is_none());
    let s = checker.lookup(&Ident::new("Later")).expect("forward reference");
    assert!(matches!(s.kind, SymbolKind::Type));
    assert_eq!(s.ty, Ty::Named("Later".to_string()));
    assert_eq!(checker.ast_type_to_ty(&named("Later")), Ty::Named("Later".to_string()));
}

#[test]
fn test_substitute_generics() {
    let checker = TypeChecker::new();
    let subst = vec![(Ident::new("T"), Ty::Bool), (Ident::new("'T0"), Ty::I64), (Ident::new("'T0"), Ty::U8)];
    let p0 = Ty::Param(TypeParamId(0));
    let p1 = Ty::Param(TypeParamId(1));
    assert_eq!(checker.substitute_generics(&p0, &subst), Ty::I64);
    assert_eq!(checker.substitute_generics(&p1, &subst), p1);
    let nested = Ty::Fn {
        params: vec![Ty::Ref(Box::new(Ty::Param(TypeParamId(0))), Mutability::Not), Ty::Tuple(vec![Ty::Param(TypeParamId(0)), Ty::Bool])],
        ret: Box::new(option_of(Ty::Param(TypeParamId(0)))),
    };
    let expected = Ty::Fn {
        params: vec![Ty::Ref(Box::new(Ty::I64), Mutability::Not), Ty::Tuple(vec![Ty::I64, Ty::Bool])],
        ret: Box::new(option_of(Ty::I64)),
    };
    assert_eq!(checker.substitute_generics(&nested, &subst), expected);
    let ptr = Ty::FnPtr { params: vec![Ty::Param(TypeParamId(0))], ret: Box::new(Ty::Unit), abi: "C".to_string() };
    assert_eq!(checker.substitute_generics(&ptr, &subst), ptr);
}
