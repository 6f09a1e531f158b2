use boxlang_compiler::ast::{EnumDef, EnumVariant, EnumVariantFields, Ident, Path, PathSegment, Type};
use boxlang_compiler::ty::conversion::utils::{convert_enum_variant, get_variant_constructor_type};
use boxlang_compiler::middle::async_transform::MirAsyncTransformer;
use boxlang_compiler::middle::borrowck::check_orphan_rules;
use boxlang_compiler::middle::borrowck::loan::{BorrowState, MoveState};
use boxlang_compiler::middle::mir::pretty_print::print_mir;
use boxlang_compiler::middle::mir::{
    BasicBlock, BasicBlockData, BinOp, Constant, IntType, Local, LocalDecl, MirBody, Operand, Place, PlaceElem, Rvalue,
    Scalar, Statement, Terminator, TerminatorKind,
};
use boxlang_compiler::typeck::infer::GenericInference;
use boxlang_compiler::typeck::error::TypeError;
use boxlang_compiler::typeck::typeclass::builtin::display_type_class;
use boxlang_compiler::typeck::typeclass::{path_type, Impl, MethodImpl, TypeClassError, TypeClassRegistry};
use boxlang_compiler::typeck::ty::{Mutability, Ty, TypeVarId};

#[test]
fn test_mir_async_transformer() {
    let body = MirBody::new(0, 0..100);
    let async_body = MirAsyncTransformer::transform(&body);

    assert_eq!(async_body.await_points.len(), 0);
    assert!(!async_body.state_machine.basic_blocks.is_empty());
}

#[test]
fn test_state_machine_shape() {
    let body = MirBody::new(2, 0..5);
    let async_body = MirAsyncTransformer::transform(&body);
    let sm = &async_body.state_machine;
    assert_eq!(sm.arg_count, 2);
    assert_eq!(sm.local_decls.len(), 1);
    assert_eq!(sm.basic_blocks.len(), 2);
    assert_eq!(sm.basic_blocks[0].statements.len(), 1);
    assert!(sm.basic_blocks[1].statements.is_empty());
    for b in &sm.basic_blocks {
        assert!(matches!(b.terminator.as_ref().unwrap().kind, TerminatorKind::Return));
    }
    assert_eq!(async_body.original_body.arg_count, 2);
}

#[test]
fn test_fresh_type_vars_are_numbered() {
    let mut g = GenericInference::new();
    assert_eq!(g.fresh_type_var(), Ty::Var(TypeVarId(0)));
    assert_eq!(g.fresh_type_var(), Ty::Var(TypeVarId(1)));
    assert_eq!(g.fresh_type_var(), Ty::Var(TypeVarId(2)));
}

#[test]
fn test_occurs_check() {
    let g = GenericInference::new();
    let v = TypeVarId(3);
    assert!(g.occurs_check(&v, &Ty::Var(TypeVarId(3))));
    assert!(!g.occurs_check(&v, &Ty::Var(TypeVarId(4))));
    assert!(g.occurs_check(&v, &Ty::Ref(Box::new(Ty::Var(TypeVarId(3))), Mutability::Not)));
    assert!(g.occurs_check(&v, &Ty::Tuple(vec![Ty::I32, Ty::Var(TypeVarId(3))])));
    assert!(g.occurs_check(&v, &Ty::Fn { params: vec![Ty::Bool], ret: Box::new(Ty::Var(TypeVarId(3))) }));
    assert!(!g.occurs_check(&v, &Ty::Fn { params: vec![Ty::Bool], ret: Box::new(Ty::I8) }));
    assert!(!g.occurs_check(&v, &Ty::I32));
}

#[test]
fn test_add_trait_bound_keeps_counter() {
    let mut g = GenericInference::new();
    let t = g.fresh_type_var();
    g.add_trait_bound(0, Ident::new("Display"));
    g.add_trait_bound(0, Ident::new("Eq"));
    assert_eq!(t, Ty::Var(TypeVarId(0)));
    assert_eq!(g.fresh_type_var(), Ty::Var(TypeVarId(1)));
}

#[test]
fn test_borrow_state_clone_keeps_moves() {
    let mut s = BorrowState::new();
    s.mark_moved(Local(2));
    let c = s.clone();
    assert_eq!(c.get_move_state(Local(2)), MoveState::Moved);
    assert_eq!(c.get_move_state(Local(3)), MoveState::Available);
}

#[test]
fn test_orphan_message_names_the_type() {
    let trait_path = Path { segments: vec![PathSegment { ident: Ident::new("std"), generics: vec![] }, PathSegment { ident: Ident::new("Display"), generics: vec![] }] };
    let ty = Type::Unit;
    let err = check_orphan_rules(&trait_path, &ty, "my_crate").unwrap_err();
    assert_eq!(err, format!("Orphan rule violation: cannot implement foreign trait `std::Display` for foreign type `{:?}`", ty));
}

#[test]
fn test_unify_binds_variables() {
    let mut g = GenericInference::new();
    let a = g.fresh_type_var();
    assert_eq!(g.unify(&a, &Ty::I32).unwrap(), Ty::I32);
    assert_eq!(g.unify(&Ty::Bool, &Ty::Var(TypeVarId(7))).unwrap(), Ty::Bool);
    assert_eq!(g.unify(&Ty::Var(TypeVarId(2)), &Ty::Var(TypeVarId(2))).unwrap(), Ty::Var(TypeVarId(2)));
}

#[test]
fn test_unify_components() {
    let mut g = GenericInference::new();
    let left = Ty::Tuple(vec![Ty::Var(TypeVarId(0)), Ty::Ref(Box::new(Ty::I64), Mutability::Not)]);
    let right = Ty::Tuple(vec![Ty::Char, Ty::Ref(Box::new(Ty::Var(TypeVarId(1))), Mutability::Not)]);
    assert_eq!(
        g.unify(&left, &right).unwrap(),
        Ty::Tuple(vec![Ty::Char, Ty::Ref(Box::new(Ty::I64), Mutability::Not)])
    );
    let arr = g.unify(&Ty::Array(Box::new(Ty::Var(TypeVarId(3))), 4), &Ty::Array(Box::new(Ty::U8), 4)).unwrap();
    assert_eq!(arr, Ty::Array(Box::new(Ty::U8), 4));
}

#[test]
fn test_unify_failures() {
    let mut g = GenericInference::new();
    match g.unify(&Ty::I32, &Ty::Bool) {
        Err(TypeError::MismatchedTypes { expected, found, .. }) => {
            assert_eq!(expected, Ty::I32.to_string());
            assert_eq!(found, Ty::Bool.to_string());
        }
        other => panic!("unexpected {:?}", other),
    }
    let v = Ty::Var(TypeVarId(5));
    let wrapped = Ty::Slice(Box::new(Ty::Var(TypeVarId(5))));
    assert!(matches!(g.unify(&v, &wrapped), Err(TypeError::RecursiveType { .. })));
    // References of different mutability do not unify.
    assert!(g.unify(
        &Ty::Ref(Box::new(Ty::I8), Mutability::Mut),
        &Ty::Ref(Box::new(Ty::I8), Mutability::Not)
    ).is_err());
    // Tuples stop at the first failing component.
    match g.unify(&Ty::Tuple(vec![Ty::I8, Ty::Bool]), &Ty::Tuple(vec![Ty::U8, Ty::Char])) {
        Err(TypeError::MismatchedTypes { expected, .. }) => assert_eq!(expected, Ty::I8.to_string()),
        other => panic!("unexpected {:?}", other),
    }
}

#[test]
fn test_conversion_utils_enum_variants() {
    let named = |n: &str| Type::Path(Path { segments: vec![PathSegment { ident: Ident::new(n), generics: vec![] }] });
    let tuple = EnumVariant { name: Ident::new("Pair"), fields: EnumVariantFields::Tuple(vec![named("i32"), named("bool")]) };
    let d = convert_enum_variant(&tuple);
    assert_eq!(d.name, "Pair");
    assert_eq!(d.fields.len(), 2);
    assert_eq!(d.fields[0].name, "_0");
    assert_eq!(d.fields[1].name, "_1");
    assert_eq!(d.fields[0].ty, Ty::I32);
    assert_eq!(d.fields[1].ty, Ty::Bool);
    let unit = EnumVariant { name: Ident::new("None"), fields: EnumVariantFields::Unit };
    assert!(convert_enum_variant(&unit).fields.is_empty());
    let def = EnumDef { name: Ident::new("E"), variants: vec![] };
    assert_eq!(get_variant_constructor_type(&def, &unit, &Ty::Char), Ty::Char);
    assert_eq!(
        get_variant_constructor_type(&def, &tuple, &Ty::Char),
        Ty::Fn { params: vec![Ty::I32, Ty::Bool], ret: Box::new(Ty::Char) }
    );
}

#[test]
fn test_resolve_follows_bindings() {
    let mut g = GenericInference::new();
    let a = g.fresh_type_var();
    let _b = g.fresh_type_var();
    g.unify(&a, &Ty::Tuple(vec![Ty::Var(TypeVarId(1)), Ty::Bool])).unwrap();
    g.unify(&Ty::Var(TypeVarId(1)), &Ty::I32).unwrap();
    assert_eq!(g.resolve(&a), Ty::Tuple(vec![Ty::I32, Ty::Bool]));
    assert_eq!(g.resolve(&Ty::Var(TypeVarId(9))), Ty::Var(TypeVarId(9)));
    assert_eq!(
        g.resolve(&Ty::Ref(Box::new(Ty::Var(TypeVarId(1))), Mutability::Mut)),
        Ty::Ref(Box::new(Ty::I32), Mutability::Mut)
    );
}

fn display_registry() -> TypeClassRegistry {
    let mut registry = TypeClassRegistry::new();
    registry.register_type_class(display_type_class()).unwrap();
    registry
        .register_impl(Impl {
            type_class: Ident::new("Display"),
            generics: vec![],
            for_type: path_type("i32"),
            associated_types: Vec::new(),
            methods: vec![MethodImpl {
                name: Ident::new("fmt"),
                generics: vec![],
                params: vec![],
                return_type: None,
                body: (),
                docs: String::new(),
            }],
            span: 0..0,
        })
        .unwrap();
    registry
}

#[test]
fn test_check_trait_bounds() {
    let registry = display_registry();
    let mut g = GenericInference::new();
    let a = g.fresh_type_var();
    g.add_trait_bound(0, Ident::new("Display"));
    g.unify(&a, &Ty::I32).unwrap();
    assert!(g.check_trait_bounds(&a, &registry).is_ok());
    // A type without bounds, or not a variable, passes.
    assert!(g.check_trait_bounds(&Ty::Var(TypeVarId(4)), &registry).is_ok());
    assert!(g.check_trait_bounds(&Ty::Bool, &registry).is_ok());
    // A bound the resolved type does not implement is refused.
    let mut h = GenericInference::new();
    let c = h.fresh_type_var();
    h.add_trait_bound(0, Ident::new("Display"));
    h.unify(&c, &Ty::Bool).unwrap();
    match h.check_trait_bounds(&c, &registry) {
        Err(TypeClassError::SuperClassNotSatisfied { type_class, super_class }) => {
            assert_eq!(type_class, Ty::Bool.to_string());
            assert_eq!(super_class, "Display");
        }
        other => panic!("unexpected {:?}", other),
    }
}

#[test]
fn test_print_mir() {
    let i32_ty = Type::Path(Path { segments: vec![PathSegment { ident: Ident::new("i32"), generics: vec![] }] });
    let mut body = MirBody::new(1, 0..0);
    body.push_local(LocalDecl::new(Type::Unit, 0..0));
    body.push_local(LocalDecl::new(i32_ty.clone(), 0..0).arg());
    body.push_local(LocalDecl::new(Type::Unit, 0..0));
    let three = Constant::Scalar(Scalar::Int(3, IntType::I32));
    let mut b0 = BasicBlockData::new();
    b0.push_stmt(Statement::Assign(
        Place::from_local(Local(2)),
        Rvalue::BinaryOp(BinOp::Lt, Box::new(Operand::Copy(Place::from_local(Local(1)))), Box::new(Operand::Constant(three))),
    ));
    b0.push_stmt(Statement::Assign(
        Place::from_local(Local(0)).project(PlaceElem::Field(1)).project(PlaceElem::Deref),
        Rvalue::Use(Operand::Move(Place::from_local(Local(2)))),
    ));
    b0.set_terminator(Terminator { kind: TerminatorKind::Goto { target: BasicBlock(1) }, span: 0..0 });
    body.push_block(b0);
    let mut b1 = BasicBlockData::new();
    b1.push_stmt(Statement::Nop);
    b1.set_terminator(Terminator { kind: TerminatorKind::Return, span: 0..0 });
    body.push_block(b1);
    let expected = format!(
        "fn main(\n    _0: {:?},\n) -> {:?} {{\n    let _2: {:?};\n\nbb0: {{\n        _2 = _1 < {:?};\n        (*_0.1) = Move(_2);\n        goto -> bb1\n    }}\n\nbb1: {{\n        nop;\n        return\n    }}\n}}\n",
        Type::Unit, Type::Unit, Type::Unit, three
    );
    assert_eq!(print_mir(&body, "main"), expected);
    let _ = i32_ty;
}
