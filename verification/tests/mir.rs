use boxlang_compiler::ast::{Ident, Path, PathSegment, Type};
use boxlang_compiler::middle::mir::optimize::const_prop::ConstantPropagation;
use boxlang_compiler::middle::mir::optimize::const_prop_advanced::{eval_binary_op, AdvancedConstantPropagation, LatticeValue};
use boxlang_compiler::middle::mir::optimize::cse::{CommonSubexpressionElimination, ExprKey, OperandKey};
use boxlang_compiler::middle::mir::optimize::dead_code::DeadCodeElimination;
use boxlang_compiler::middle::mir::optimize::dead_code_advanced::AdvancedDeadCodeElimination;
use boxlang_compiler::middle::mir::optimize::inline::FunctionInlining;
use boxlang_compiler::middle::mir::optimize::{MirPass, OptLevel, OptimizationPipeline};
use boxlang_compiler::middle::mir::optimize::licm::{LoopInfo, LoopInvariantCodeMotion};
use std::collections::HashMap;
use boxlang_compiler::middle::mir::optimize::simplify_cfg::SimplifyCfg;
use boxlang_compiler::middle::mir::optimize::const_fold::{
    fold_binary_op, fold_rvalue, fold_rvalue_with_errors, fold_unary_op, ConstantFolding,
    ConstantFoldingWithErrors,
};
use boxlang_compiler::middle::mir::{
    BasicBlock, BasicBlockData, BinOp, Constant, FloatType, IntType, Local, LocalDecl, MirBody,
    Operand, Place, Rvalue, Scalar, Statement, Terminator, TerminatorKind, UnOp,
};

fn int_op(v: i128, ty: IntType) -> Operand {
    Operand::Constant(Constant::Scalar(Scalar::Int(v, ty)))
}

fn int_value(c: Option<Constant>) -> i128 {
    match c {
        Some(Constant::Scalar(Scalar::Int(v, _))) => v,
        other => panic!("expected an integer constant, got {:?}", other),
    }
}

#[test]
fn test_mir_body_construction() {
    let mut body = MirBody::new(2, 0..100);
    body.push_local(LocalDecl::new(Type::Unit, 0..10));
    let i32_ty = Type::Path(Path {
        segments: vec![PathSegment { ident: Ident::new("i32"), generics: vec![] }],
    });
    body.push_local(LocalDecl::new(i32_ty.clone(), 10..20).arg());
    body.push_local(LocalDecl::new(i32_ty, 20..30).arg());

    let mut block = BasicBlockData::new();
    block.push_stmt(Statement::Nop);
    block.set_terminator(Terminator { kind: TerminatorKind::Return, span: 30..40 });

    let bb = body.push_block(block);
    assert_eq!(bb, BasicBlock(0));
}

#[test]
fn test_fold_integer_add() {
    let rvalue = Rvalue::BinaryOp(BinOp::Add, Box::new(int_op(2, IntType::I64)), Box::new(int_op(3, IntType::I64)));
    let result = fold_rvalue(&rvalue);
    assert!(result.is_some());
    assert_eq!(int_value(result), 5);
}

#[test]
fn test_fold_integer_mul() {
    let rvalue = Rvalue::BinaryOp(BinOp::Mul, Box::new(int_op(4, IntType::I64)), Box::new(int_op(5, IntType::I64)));
    let result = fold_rvalue(&rvalue);
    assert!(result.is_some());
    assert_eq!(int_value(result), 20);
}

#[test]
fn test_fold_comparison() {
    let rvalue = Rvalue::BinaryOp(BinOp::Gt, Box::new(int_op(5, IntType::I64)), Box::new(int_op(3, IntType::I64)));
    let result = fold_rvalue(&rvalue);
    assert!(result.is_some());
    assert_eq!(int_value(result), 1);
}

#[test]
fn test_fold_non_constant() {
    let place = Place::from_local(Local(1));
    let rvalue = Rvalue::BinaryOp(BinOp::Add, Box::new(Operand::Copy(place.clone())), Box::new(int_op(3, IntType::I64)));
    let result = fold_rvalue(&rvalue);
    assert!(result.is_none());
}

#[test]
fn test_overflow_detection_add() {
    let rvalue = Rvalue::BinaryOp(BinOp::Add, Box::new(int_op(i128::MAX, IntType::I128)), Box::new(int_op(1, IntType::I128)));
    let mut errors = Vec::new();
    let result = fold_rvalue_with_errors(&rvalue, &mut errors);
    assert!(result.is_none());
    assert_eq!(errors.len(), 1);
    assert!(errors[0].message.contains("overflow"));
}

#[test]
fn test_overflow_detection_mul() {
    let rvalue = Rvalue::BinaryOp(BinOp::Mul, Box::new(int_op(i128::MAX, IntType::I128)), Box::new(int_op(2, IntType::I128)));
    let mut errors = Vec::new();
    let result = fold_rvalue_with_errors(&rvalue, &mut errors);
    assert!(result.is_none());
    assert_eq!(errors.len(), 1);
    assert!(errors[0].message.contains("overflow"));
}

#[test]
fn test_division_by_zero() {
    let rvalue = Rvalue::BinaryOp(BinOp::Div, Box::new(int_op(10, IntType::I64)), Box::new(int_op(0, IntType::I64)));
    let mut errors = Vec::new();
    let result = fold_rvalue_with_errors(&rvalue, &mut errors);
    assert!(result.is_none());
    assert_eq!(errors.len(), 1);
    assert!(errors[0].message.contains("division by zero"));
}

#[test]
fn test_negation_overflow() {
    let rvalue = Rvalue::UnaryOp(UnOp::Neg, Box::new(int_op(i128::MIN, IntType::I128)));
    let mut errors = Vec::new();
    let result = fold_rvalue_with_errors(&rvalue, &mut errors);
    assert!(result.is_none());
    assert_eq!(errors.len(), 1);
    assert!(errors[0].message.contains("overflow"));
}

#[test]
fn signed_division_rounds_toward_zero() {
    let s = |v| Scalar::Int(v, IntType::I32);
    assert_eq!(int_value(fold_binary_op(BinOp::Div, s(-7), s(2))), -3);
    assert_eq!(int_value(fold_binary_op(BinOp::Rem, s(-7), s(2))), -1);
    assert_eq!(int_value(fold_binary_op(BinOp::Div, s(7), s(-2))), -3);
    assert_eq!(int_value(fold_binary_op(BinOp::Rem, s(7), s(-2))), 1);
    assert_eq!(int_value(fold_binary_op(BinOp::Div, s(i128::MIN), s(1))), i128::MIN);
    assert!(fold_binary_op(BinOp::Div, s(i128::MIN), s(-1)).is_none());
    assert!(fold_binary_op(BinOp::Rem, s(3), s(0)).is_none());
}

#[test]
fn folding_keeps_the_left_type_and_flags_are_i64() {
    let r = fold_binary_op(BinOp::Sub, Scalar::Int(10, IntType::U8), Scalar::Int(3, IntType::I64));
    assert_eq!(r, Some(Constant::Scalar(Scalar::Int(7, IntType::U8))));
    let r = fold_binary_op(BinOp::Le, Scalar::Int(4, IntType::U8), Scalar::Int(3, IntType::U8));
    assert_eq!(r, Some(Constant::Scalar(Scalar::Int(0, IntType::I64))));
    let r = fold_binary_op(BinOp::Shl, Scalar::Int(1, IntType::I32), Scalar::Int(4, IntType::I32));
    assert_eq!(r, Some(Constant::Scalar(Scalar::Int(16, IntType::I32))));
    assert!(fold_binary_op(BinOp::Shr, Scalar::Int(1, IntType::I32), Scalar::Int(128, IntType::I32)).is_none());
    let r = fold_binary_op(BinOp::BitXor, Scalar::Int(6, IntType::I32), Scalar::Int(3, IntType::I32));
    assert_eq!(r, Some(Constant::Scalar(Scalar::Int(5, IntType::I32))));
}

#[test]
fn unary_folding_negates_and_complements() {
    assert_eq!(fold_unary_op(UnOp::Not, Scalar::Int(0, IntType::I8)), Some(Constant::Scalar(Scalar::Int(-1, IntType::I8))));
    let bits = 1.5f64.to_bits();
    let neg = fold_unary_op(UnOp::Neg, Scalar::Float(bits, FloatType::F64));
    assert_eq!(neg, Some(Constant::Scalar(Scalar::Float((-1.5f64).to_bits(), FloatType::F64))));
    assert!(fold_unary_op(UnOp::Not, Scalar::Float(bits, FloatType::F64)).is_none());
}

#[test]
fn folding_pass_rewrites_assignments_and_records_overflows() {
    let mut body = MirBody::new(0, 0..1);
    let mut block = BasicBlockData::new();
    block.push_stmt(Statement::Assign(
        Place::from_local(Local(1)),
        Rvalue::BinaryOp(BinOp::Add, Box::new(int_op(2, IntType::I64)), Box::new(int_op(3, IntType::I64))),
    ));
    block.push_stmt(Statement::Assign(
        Place::from_local(Local(2)),
        Rvalue::BinaryOp(BinOp::Rem, Box::new(int_op(1, IntType::I64)), Box::new(int_op(0, IntType::I64))),
    ));
    block.push_stmt(Statement::StorageDead(Local(2)));
    body.push_block(block);

    let mut pass = ConstantFoldingWithErrors::new();
    pass.run(&mut body);
    assert!(pass.has_errors());
    assert_eq!(pass.errors().len(), 1);
    assert_eq!(pass.errors()[0].message, "remainder by zero");
    assert!(matches!(
        body.basic_blocks[0].statements[0],
        Statement::Assign(_, Rvalue::Use(Operand::Constant(Constant::Scalar(Scalar::Int(5, IntType::I64)))))
    ));
    assert!(matches!(body.basic_blocks[0].statements[1], Statement::Assign(_, Rvalue::BinaryOp(..))));
    assert!(matches!(body.basic_blocks[0].statements[2], Statement::StorageDead(Local(2))));

    let mut again = MirBody::new(0, 0..1);
    let mut block = BasicBlockData::new();
    block.push_stmt(Statement::Assign(
        Place::from_local(Local(1)),
        Rvalue::UnaryOp(UnOp::Neg, Box::new(int_op(4, IntType::I16))),
    ));
    again.push_block(block);
    ConstantFolding.run(&mut again);
    assert!(matches!(
        again.basic_blocks[0].statements[0],
        Statement::Assign(_, Rvalue::Use(Operand::Constant(Constant::Scalar(Scalar::Int(-4, IntType::I16)))))
    ));
    assert_eq!(ConstantFolding.name(), "constant_folding");
}

fn goto(target: u32) -> Option<Terminator> {
    Some(Terminator { kind: TerminatorKind::Goto { target: BasicBlock(target) }, span: 0..10 })
}

fn ret() -> Option<Terminator> {
    Some(Terminator { kind: TerminatorKind::Return, span: 0..10 })
}

fn block(stmts: Vec<Statement>, terminator: Option<Terminator>) -> BasicBlockData {
    BasicBlockData { statements: stmts, terminator, is_cleanup: false }
}

fn assign(local: u32, rvalue: Rvalue) -> Statement {
    Statement::Assign(Place::from_local(Local(local)), rvalue)
}

fn copy(local: u32) -> Operand {
    Operand::Copy(Place::from_local(Local(local)))
}

#[test]
fn test_constant_propagation() {
    let mut body = MirBody::new(0, 0..100);
    body.basic_blocks.push(block(
        vec![
            assign(1, Rvalue::Use(int_op(5, IntType::I64))),
            assign(2, Rvalue::BinaryOp(BinOp::Add, Box::new(copy(1)), Box::new(int_op(3, IntType::I64)))),
        ],
        None,
    ));
    ConstantPropagation.run(&mut body);
    match &body.basic_blocks[0].statements[1] {
        Statement::Assign(_, Rvalue::BinaryOp(_, left, _)) => assert!(matches!(left.as_ref(), Operand::Constant(_))),
        _ => panic!("Expected binary operation"),
    }
}

#[test]
fn test_no_propagation_for_non_constants() {
    let mut body = MirBody::new(0, 0..100);
    body.basic_blocks.push(block(
        vec![
            assign(1, Rvalue::Use(copy(0))),
            assign(2, Rvalue::BinaryOp(BinOp::Add, Box::new(copy(1)), Box::new(int_op(3, IntType::I64)))),
        ],
        None,
    ));
    ConstantPropagation.run(&mut body);
    match &body.basic_blocks[0].statements[1] {
        Statement::Assign(_, Rvalue::BinaryOp(_, left, _)) => assert!(matches!(left.as_ref(), Operand::Copy(_))),
        _ => panic!("Expected binary operation"),
    }
}

#[test]
fn propagation_chains_and_reaches_the_terminator() {
    let mut body = MirBody::new(0, 0..1);
    body.basic_blocks.push(block(
        vec![assign(1, Rvalue::Use(int_op(7, IntType::I32))), assign(2, Rvalue::Use(copy(1)))],
        Some(Terminator {
            kind: TerminatorKind::Call { func: copy(9), args: vec![copy(2), copy(3)], destination: Place::from_local(Local(4)), target: None },
            span: 0..1,
        }),
    ));
    ConstantPropagation.run(&mut body);
    assert_eq!(ConstantPropagation.name(), "constant_propagation");
    assert!(matches!(body.basic_blocks[0].statements[1], Statement::Assign(_, Rvalue::Use(Operand::Constant(_)))));
    match &body.basic_blocks[0].terminator.as_ref().unwrap().kind {
        TerminatorKind::Call { func, args, .. } => {
            assert!(matches!(func, Operand::Copy(_)));
            assert!(matches!(args[0], Operand::Constant(Constant::Scalar(Scalar::Int(7, IntType::I32)))));
            assert!(matches!(args[1], Operand::Copy(_)));
        }
        _ => panic!("Expected call"),
    }
}

#[test]
fn test_dead_code_elimination() {
    let mut body = MirBody::new(0, 0..100);
    body.basic_blocks.push(block(
        vec![assign(1, Rvalue::Use(int_op(5, IntType::I64))), assign(0, Rvalue::Use(int_op(10, IntType::I64)))],
        ret(),
    ));
    DeadCodeElimination.run(&mut body);
    assert_eq!(body.basic_blocks[0].statements.len(), 1);
    match &body.basic_blocks[0].statements[0] {
        Statement::Assign(place, _) => assert_eq!(place.local, Local::return_place()),
        _ => panic!("Expected assignment"),
    }
}

#[test]
fn test_keep_used_assignments() {
    let mut body = MirBody::new(0, 0..100);
    body.basic_blocks.push(block(
        vec![
            assign(1, Rvalue::Use(int_op(5, IntType::I64))),
            assign(0, Rvalue::BinaryOp(BinOp::Add, Box::new(copy(1)), Box::new(int_op(3, IntType::I64)))),
        ],
        ret(),
    ));
    DeadCodeElimination.run(&mut body);
    assert_eq!(body.basic_blocks[0].statements.len(), 2);
}

#[test]
fn test_keep_side_effects() {
    let mut body = MirBody::new(0, 0..100);
    body.basic_blocks.push(block(vec![Statement::StorageLive(Local(1)), Statement::Nop], None));
    DeadCodeElimination.run(&mut body);
    assert_eq!(body.basic_blocks[0].statements.len(), 2);
}

#[test]
fn dead_code_keeps_arguments_and_effects() {
    let mut body = MirBody::new(2, 0..1);
    body.basic_blocks.push(block(
        vec![
            assign(2, Rvalue::Use(int_op(1, IntType::I64))),
            assign(3, Rvalue::Use(int_op(1, IntType::I64))),
            assign(4, Rvalue::Len(Place::from_local(Local(2)))),
        ],
        None,
    ));
    DeadCodeElimination.run(&mut body);
    assert_eq!(DeadCodeElimination.name(), "dead_code_elimination");
    let stmts = &body.basic_blocks[0].statements;
    assert_eq!(stmts.len(), 2);
    assert!(matches!(&stmts[0], Statement::Assign(p, _) if p.local == Local(2)));
    assert!(matches!(&stmts[1], Statement::Assign(p, Rvalue::Len(_)) if p.local == Local(4)));
}

#[test]
fn test_remove_unreachable_blocks() {
    let mut body = MirBody::new(0, 0..100);
    body.basic_blocks.push(block(vec![Statement::Nop], goto(1)));
    body.basic_blocks.push(block(vec![Statement::Nop], ret()));
    body.basic_blocks.push(block(vec![Statement::Nop], ret()));
    SimplifyCfg.run(&mut body);
    assert_eq!(body.basic_blocks.len(), 2);
}

#[test]
fn test_simplify_switch() {
    let mut body = MirBody::new(0, 0..100);
    body.basic_blocks.push(block(
        vec![],
        Some(Terminator {
            kind: TerminatorKind::SwitchInt {
                discr: int_op(0, IntType::I64),
                switch_ty: Type::Unit,
                targets: vec![(0, BasicBlock(1)), (1, BasicBlock(1))],
                otherwise: BasicBlock(1),
            },
            span: 0..10,
        }),
    ));
    body.basic_blocks.push(block(vec![], ret()));
    SimplifyCfg.run(&mut body);
    match &body.basic_blocks[0].terminator {
        Some(t) => assert!(matches!(t.kind, TerminatorKind::Goto { .. })),
        None => panic!("Expected terminator"),
    }
}

#[test]
fn pruning_renumbers_targets_and_merging_joins_straight_lines() {
    let mut body = MirBody::new(0, 0..1);
    body.basic_blocks.push(block(vec![Statement::Nop], goto(2)));
    body.basic_blocks.push(block(vec![Statement::Nop], ret()));
    body.basic_blocks.push(block(vec![], goto(3)));
    body.basic_blocks.push(block(vec![Statement::StorageLive(Local(5))], ret()));
    SimplifyCfg.run(&mut body);
    assert_eq!(SimplifyCfg.name(), "simplify_cfg");
    assert_eq!(body.basic_blocks.len(), 2);
    assert!(matches!(body.basic_blocks[0].terminator.as_ref().unwrap().kind, TerminatorKind::Goto { target: BasicBlock(1) }));
    assert_eq!(body.basic_blocks[1].statements.len(), 1);
    assert!(matches!(body.basic_blocks[1].terminator.as_ref().unwrap().kind, TerminatorKind::Return));
}

#[test]
fn test_cse_basic() {
    let mut body = MirBody::new(0, 0..100);
    let add = || Rvalue::BinaryOp(BinOp::Add, Box::new(copy(0)), Box::new(int_op(5, IntType::I64)));
    body.basic_blocks.push(block(vec![assign(1, add()), assign(2, add())], ret()));
    let pass = CommonSubexpressionElimination::new();
    pass.run(&mut body);
    match &body.basic_blocks[0].statements[1] {
        Statement::Assign(_, rvalue) => assert!(matches!(rvalue, Rvalue::Use(Operand::Copy(_)))),
        _ => panic!("Expected assignment"),
    }
}

#[test]
fn test_operand_key_creation() {
    let local_op = copy(5);
    assert_eq!(OperandKey::from_operand(&local_op), OperandKey::Local(5));
    let const_op = int_op(42, IntType::I64);
    assert_eq!(OperandKey::from_operand(&const_op), OperandKey::Constant(42, 0));
}

#[test]
fn test_expr_key_creation() {
    let rvalue = Rvalue::BinaryOp(BinOp::Add, Box::new(copy(1)), Box::new(int_op(5, IntType::I64)));
    let key = ExprKey::from_rvalue(&rvalue);
    assert!(key.is_some());
    match key.unwrap() {
        ExprKey::BinaryOp { op, left, right } => {
            assert_eq!(op, BinOp::Add);
            assert_eq!(left, OperandKey::Local(1));
            assert_eq!(right, OperandKey::Constant(5, 0));
        }
        _ => panic!("Expected BinaryOp"),
    }
}

#[test]
fn cse_reuses_the_first_local_and_skips_projections() {
    let mut body = MirBody::new(0, 0..1);
    let neg = || Rvalue::UnaryOp(UnOp::Neg, Box::new(copy(3)));
    let mut projected = Place::from_local(Local(4));
    projected = projected.project(boxlang_compiler::middle::mir::PlaceElem::Field(0));
    body.basic_blocks.push(block(
        vec![
            Statement::Assign(projected, neg()),
            assign(1, neg()),
            assign(2, neg()),
            assign(5, Rvalue::Len(Place::from_local(Local(3)))),
        ],
        None,
    ));
    body.basic_blocks.push(block(vec![assign(6, neg())], None));
    let pass = CommonSubexpressionElimination::new();
    pass.run(&mut body);
    assert_eq!(pass.name(), "common_subexpression_elimination");
    assert_eq!(pass.eliminated_count(), 0);
    let stmts = &body.basic_blocks[0].statements;
    assert!(matches!(stmts[0], Statement::Assign(_, Rvalue::UnaryOp(..))));
    assert!(matches!(stmts[1], Statement::Assign(_, Rvalue::UnaryOp(..))));
    match &stmts[2] {
        Statement::Assign(_, Rvalue::Use(Operand::Copy(p))) => assert_eq!(p.local, Local(1)),
        _ => panic!("Expected a copy of _1"),
    }
    assert!(matches!(body.basic_blocks[1].statements[0], Statement::Assign(_, Rvalue::UnaryOp(..))));
}

fn blocks_with(sizes: &[usize]) -> MirBody {
    let mut body = MirBody::new(0, 0..10);
    for &n in sizes {
        let mut b = BasicBlockData::new();
        for _ in 0..n {
            b.push_stmt(Statement::Nop);
        }
        body.basic_blocks.push(b);
    }
    body
}

#[test]
fn test_should_inline_small_function() {
    let inlining = FunctionInlining::new();
    let mut body = MirBody::new(0, 0..10);
    body.basic_blocks.push(BasicBlockData::new());
    assert!(inlining.should_inline(&body));
}

#[test]
fn test_should_not_inline_large_function() {
    let inlining = FunctionInlining::new();
    let mut body = MirBody::new(0, 0..10);
    for _ in 0..20 {
        body.basic_blocks.push(BasicBlockData::new());
    }
    assert!(!inlining.should_inline(&body));
}

#[test]
fn inlining_limits_blocks_and_statements() {
    let inlining = FunctionInlining::new();
    assert!(!inlining.should_inline(&blocks_with(&[21])));
    assert!(inlining.should_inline(&blocks_with(&[20; 10])));
    assert!(!inlining.should_inline(&blocks_with(&[0; 11])));
}

#[test]
fn test_local_mapping() {
    let mut caller_body = MirBody::new(0, 0..10);
    let i64_ty = Type::Path(Path { segments: vec![PathSegment { ident: Ident::new("i64"), generics: vec![] }] });
    caller_body.local_decls.push(LocalDecl::new(i64_ty, 0..3));
    let callee_body = MirBody::new(0, 0..10);
    let inlining = FunctionInlining::new();
    let args = vec![copy(0)];
    let map = inlining.create_local_mapping(&mut caller_body, &callee_body, &args);
    assert!(map.contains_key(&1));
}

#[test]
fn inlining_copies_the_callee_after_the_caller() {
    let mut caller = MirBody::new(0, 0..10);
    for _ in 0..3 {
        caller.local_decls.push(LocalDecl::new(Type::Unit, 0..1));
    }
    caller.basic_blocks.push(block(
        vec![],
        Some(Terminator {
            kind: TerminatorKind::Call { func: copy(9), args: vec![copy(2)], destination: Place::from_local(Local(1)), target: None },
            span: 0..1,
        }),
    ));
    let mut callee = MirBody::new(1, 0..10);
    for _ in 0..3 {
        callee.local_decls.push(LocalDecl::new(Type::Unit, 0..1));
    }
    callee.basic_blocks.push(block(
        vec![assign(2, Rvalue::Use(copy(1))), Statement::StorageDead(Local(7)), Statement::Nop],
        ret(),
    ));
    let mut inlining = FunctionInlining::new();
    let map = inlining.create_local_mapping(&mut caller, &callee, &[copy(2)]);
    assert_eq!(map.get(&1), Some(&2));
    assert_eq!(map.get(&0), Some(&3));
    assert_eq!(map.get(&2), Some(&4));
    inlining.inline_call(&mut caller, 0, 0, &callee, &[copy(2)], Place::from_local(Local(1)));
    assert_eq!(inlining.inlined_count(), 1);
    assert_eq!(caller.basic_blocks.len(), 2);
    assert!(matches!(
        caller.basic_blocks[0].terminator.as_ref().unwrap().kind,
        TerminatorKind::Call { target: Some(BasicBlock(1)), .. }
    ));
    let copied = &caller.basic_blocks[1];
    assert_eq!(copied.statements.len(), 2);
    match &copied.statements[0] {
        Statement::Assign(p, Rvalue::Use(Operand::Copy(q))) => {
            assert_eq!(p.local, Local(4));
            assert_eq!(q.local, Local(2));
        }
        _ => panic!("Expected a renamed assignment"),
    }
    assert!(matches!(copied.terminator.as_ref().unwrap().kind, TerminatorKind::Goto { target: BasicBlock(0) }));
}

#[test]
fn inlining_pass_leaves_call_free_bodies_alone() {
    let mut body = MirBody::new(0, 0..1);
    body.basic_blocks.push(block(vec![Statement::Nop], ret()));
    FunctionInlining::new().run(&mut body);
    assert_eq!(FunctionInlining::new().name(), "function_inlining");
    assert_eq!(body.basic_blocks.len(), 1);
    assert_eq!(body.basic_blocks[0].statements.len(), 1);
}

#[test]
fn test_lattice_meet() {
    let bottom = LatticeValue::Bottom;
    let top = LatticeValue::Top;
    let c1 = LatticeValue::Constant(Constant::Scalar(Scalar::Int(5, IntType::I64)));
    let c2 = LatticeValue::Constant(Constant::Scalar(Scalar::Int(10, IntType::I64)));
    assert_eq!(bottom.meet(&c1), c1);
    assert_eq!(c1.meet(&bottom), c1);
    assert_eq!(c1.meet(&c1), c1);
    assert_eq!(c1.meet(&c2), top);
    assert_eq!(top.meet(&c1), top);
}

#[test]
fn test_inter_block_propagation() {
    let mut body = MirBody::new(0, 0..100);
    body.basic_blocks.push(block(vec![assign(1, Rvalue::Use(int_op(5, IntType::I64)))], goto(1)));
    body.basic_blocks.push(block(
        vec![assign(2, Rvalue::BinaryOp(BinOp::Add, Box::new(copy(1)), Box::new(int_op(3, IntType::I64))))],
        Some(Terminator { kind: TerminatorKind::Return, span: 10..20 }),
    ));
    let pass = AdvancedConstantPropagation::new();
    pass.run(&mut body);
    match &body.basic_blocks[1].statements[0] {
        Statement::Assign(_, Rvalue::BinaryOp(_, left, _)) => assert!(matches!(left.as_ref(), Operand::Constant(_))),
        _ => panic!("Expected binary operation"),
    }
}

#[test]
fn lattice_evaluation_skips_remainders_and_shifts() {
    let c = |v| Constant::Scalar(Scalar::Int(v, IntType::I32));
    assert_eq!(eval_binary_op(BinOp::Add, &c(2), &c(3)), LatticeValue::Constant(c(5)));
    assert_eq!(eval_binary_op(BinOp::Rem, &c(7), &c(2)), LatticeValue::Top);
    assert_eq!(eval_binary_op(BinOp::Shl, &c(1), &c(2)), LatticeValue::Top);
    assert_eq!(eval_binary_op(BinOp::Div, &c(7), &c(0)), LatticeValue::Top);
    assert_eq!(eval_binary_op(BinOp::Lt, &c(1), &c(2)), LatticeValue::Constant(Constant::Scalar(Scalar::Int(1, IntType::I64))));
    assert!(LatticeValue::Constant(c(1)).is_constant());
    assert_eq!(LatticeValue::Top.as_constant(), None);
    assert_eq!(AdvancedConstantPropagation::new().name(), "advanced_constant_propagation");
}

#[test]
fn merged_tables_disagreeing_constants_become_top() {
    let mut body = MirBody::new(0, 0..1);
    body.basic_blocks.push(block(
        vec![assign(1, Rvalue::Use(int_op(1, IntType::I64)))],
        Some(Terminator {
            kind: TerminatorKind::SwitchInt { discr: copy(9), switch_ty: Type::Unit, targets: vec![(0, BasicBlock(1))], otherwise: BasicBlock(2) },
            span: 0..1,
        }),
    ));
    body.basic_blocks.push(block(vec![assign(1, Rvalue::Use(int_op(2, IntType::I64)))], goto(3)));
    body.basic_blocks.push(block(vec![], goto(3)));
    body.basic_blocks.push(block(vec![assign(4, Rvalue::Use(copy(1)))], ret()));
    AdvancedConstantPropagation::new().run(&mut body);
    assert!(matches!(body.basic_blocks[3].statements[0], Statement::Assign(_, Rvalue::Use(Operand::Copy(_)))));
}

#[test]
fn test_dead_assignment_removal() {
    let mut body = MirBody::new(0, 0..100);
    body.basic_blocks.push(block(
        vec![assign(1, Rvalue::Use(int_op(5, IntType::I64))), assign(0, Rvalue::Use(int_op(10, IntType::I64)))],
        ret(),
    ));
    let pass = AdvancedDeadCodeElimination::new();
    pass.run(&mut body);
    assert_eq!(body.basic_blocks[0].statements.len(), 1);
}

#[test]
fn test_unreachable_block_removal() {
    let mut body = MirBody::new(0, 0..100);
    body.basic_blocks.push(block(vec![], ret()));
    body.basic_blocks.push(block(vec![], Some(Terminator { kind: TerminatorKind::Return, span: 10..20 })));
    let pass = AdvancedDeadCodeElimination::new();
    pass.run(&mut body);
    assert_eq!(body.basic_blocks.len(), 1);
}

#[test]
fn test_used_value_preserved() {
    let mut body = MirBody::new(0, 0..100);
    body.basic_blocks.push(block(
        vec![assign(1, Rvalue::Use(int_op(5, IntType::I64))), assign(0, Rvalue::Use(copy(1)))],
        ret(),
    ));
    let pass = AdvancedDeadCodeElimination::new();
    pass.run(&mut body);
    assert_eq!(body.basic_blocks[0].statements.len(), 2);
}

#[test]
fn liveness_follows_chains_and_drops_dead_markers() {
    let mut body = MirBody::new(0, 0..1);
    body.basic_blocks.push(block(
        vec![
            Statement::StorageLive(Local(1)),
            Statement::StorageLive(Local(5)),
            assign(1, Rvalue::Use(int_op(1, IntType::I64))),
            assign(2, Rvalue::BinaryOp(BinOp::Add, Box::new(copy(1)), Box::new(int_op(1, IntType::I64)))),
            assign(5, Rvalue::Use(copy(2))),
            Statement::Nop,
            assign(0, Rvalue::Use(copy(2))),
        ],
        ret(),
    ));
    let mut pass = AdvancedDeadCodeElimination::new();
    pass.find_all_used_locals(&body);
    pass.remove_dead_statements(&mut body);
    assert_eq!(pass.removed_count(), 3);
    let stmts = &body.basic_blocks[0].statements;
    assert_eq!(stmts.len(), 4);
    assert!(matches!(stmts[0], Statement::StorageLive(Local(1))));
    assert!(matches!(&stmts[3], Statement::Assign(p, _) if p.local == Local(0)));
    assert_eq!(pass.name(), "advanced_dead_code_elimination");
}

#[test]
fn assertion_targets_keep_blocks_alive() {
    let mut body = MirBody::new(0, 0..1);
    body.basic_blocks.push(block(
        vec![],
        Some(Terminator {
            kind: TerminatorKind::Assert {
                cond: int_op(1, IntType::I64),
                expected: true,
                msg: boxlang_compiler::middle::mir::AssertMessage::DivisionByZero,
                target: BasicBlock(2),
                cleanup: None,
            },
            span: 0..1,
        }),
    ));
    body.basic_blocks.push(block(vec![], ret()));
    body.basic_blocks.push(block(vec![], ret()));
    let mut pass = AdvancedDeadCodeElimination::new();
    pass.remove_unreachable_blocks(&mut body);
    assert_eq!(pass.blocks_removed(), 1);
    assert_eq!(body.basic_blocks.len(), 2);
    assert!(matches!(body.basic_blocks[0].terminator.as_ref().unwrap().kind, TerminatorKind::Assert { target: BasicBlock(1), .. }));
}

#[test]
fn test_is_loop_invariant_constant() {
    let licm = LoopInvariantCodeMotion::new();
    let loop_info = LoopInfo::new(BasicBlock(1));
    let defined_outside: HashMap<u32, bool> = HashMap::new();
    let rvalue = Rvalue::Use(int_op(42, IntType::I64));
    assert!(licm.is_loop_invariant(&rvalue, &loop_info, &defined_outside));
}

#[test]
fn test_is_loop_invariant_binary_op() {
    let licm = LoopInvariantCodeMotion::new();
    let loop_info = LoopInfo::new(BasicBlock(1));
    let mut defined_outside = HashMap::new();
    defined_outside.insert(1u32, true);
    defined_outside.insert(2u32, true);
    let rvalue = Rvalue::BinaryOp(BinOp::Add, Box::new(copy(1)), Box::new(copy(2)));
    assert!(licm.is_loop_invariant(&rvalue, &loop_info, &defined_outside));
}

#[test]
fn test_is_loop_invariant_loop_defined() {
    let licm = LoopInvariantCodeMotion::new();
    let loop_info = LoopInfo::new(BasicBlock(1));
    let defined_outside: HashMap<u32, bool> = HashMap::new();
    let rvalue = Rvalue::Use(copy(1));
    assert!(!licm.is_loop_invariant(&rvalue, &loop_info, &defined_outside));
}

#[test]
fn test_can_hoist_safely_add() {
    let licm = LoopInvariantCodeMotion::new();
    let loop_info = LoopInfo::new(BasicBlock(1));
    let body = MirBody::new(0, 0..10);
    let rvalue = Rvalue::BinaryOp(BinOp::Add, Box::new(copy(1)), Box::new(copy(2)));
    let place = Place::from_local(Local(3));
    assert!(licm.can_hoist_safely(&place, &rvalue, &loop_info, &body));
}

#[test]
fn test_can_hoist_safely_div() {
    let licm = LoopInvariantCodeMotion::new();
    let loop_info = LoopInfo::new(BasicBlock(1));
    let body = MirBody::new(0, 0..10);
    let rvalue = Rvalue::BinaryOp(BinOp::Div, Box::new(copy(1)), Box::new(copy(2)));
    let place = Place::from_local(Local(3));
    assert!(!licm.can_hoist_safely(&place, &rvalue, &loop_info, &body));
}

#[test]
fn licm_moves_invariant_assignments_to_the_entry() {
    // bb0: _1 = 1; _9 = 0; goto bb1
    // bb1: _2 = _1 + _1; _3 = _2 + _1; _4 = _1 / _1; goto bb2
    // bb2: goto bb1
    let mut body = MirBody::new(0, 0..1);
    body.basic_blocks.push(block(vec![assign(1, Rvalue::Use(int_op(1, IntType::I64))), Statement::Nop], goto(1)));
    body.basic_blocks.push(block(
        vec![
            assign(2, Rvalue::BinaryOp(BinOp::Add, Box::new(copy(1)), Box::new(copy(1)))),
            assign(3, Rvalue::BinaryOp(BinOp::Add, Box::new(copy(2)), Box::new(copy(1)))),
            assign(4, Rvalue::BinaryOp(BinOp::Div, Box::new(copy(1)), Box::new(copy(1)))),
        ],
        goto(2),
    ));
    body.basic_blocks.push(block(vec![], goto(1)));
    let mut licm = LoopInvariantCodeMotion::new();
    licm.find_loops(&body);
    licm.hoist_invariants(&mut body);
    assert_eq!(licm.hoisted_count(), 1);
    assert_eq!(body.basic_blocks[0].statements.len(), 3);
    assert!(matches!(&body.basic_blocks[0].statements[1], Statement::Assign(p, Rvalue::BinaryOp(BinOp::Add, ..)) if p.local == Local(2)));
    assert!(matches!(body.basic_blocks[0].statements[2], Statement::Nop));
    assert_eq!(body.basic_blocks[1].statements.len(), 2);
    assert_eq!(licm.name(), "loop_invariant_code_motion");

    let mut again = MirBody::new(0, 0..1);
    again.basic_blocks.push(block(vec![], goto(1)));
    again.basic_blocks.push(block(vec![assign(5, Rvalue::Use(int_op(3, IntType::I8)))], goto(1)));
    LoopInvariantCodeMotion::new().run(&mut again);
    assert_eq!(again.basic_blocks[0].statements.len(), 1);
    assert_eq!(again.basic_blocks[1].statements.len(), 0);
}

struct TestPass;

impl MirPass for TestPass {
    fn name(&self) -> &'static str {
        "test"
    }

    fn run(&self, _body: &mut MirBody) {}
}

#[test]
fn test_pipeline_creation() {
    let pipeline = OptimizationPipeline::default_pipeline();
    assert!(pipeline.pass_count() > 0);
    assert_eq!(pipeline.level(), OptLevel::Default);
}

#[test]
fn test_add_pass() {
    let mut pipeline = OptimizationPipeline::new();
    pipeline.add_pass(TestPass);
    assert_eq!(pipeline.pass_count(), 1);
}

#[test]
fn test_optimization_levels() {
    let pipeline0 = OptimizationPipeline::from_level(0);
    assert_eq!(pipeline0.level(), OptLevel::NoOptimization);
    assert_eq!(pipeline0.pass_count(), 0);
    let pipeline1 = OptimizationPipeline::from_level(1);
    assert_eq!(pipeline1.level(), OptLevel::Minimal);
    let pipeline2 = OptimizationPipeline::from_level(2);
    assert_eq!(pipeline2.level(), OptLevel::Default);
    let pipeline3 = OptimizationPipeline::from_level(3);
    assert_eq!(pipeline3.level(), OptLevel::Aggressive);
}

#[test]
fn test_release_pipeline() {
    let pipeline = OptimizationPipeline::release_pipeline();
    assert!(pipeline.pass_count() > 5);
}

#[test]
fn pipelines_fold_propagate_and_clean_up() {
    let build = || {
        let mut body = MirBody::new(0, 0..1);
        body.basic_blocks.push(block(
            vec![
                assign(1, Rvalue::BinaryOp(BinOp::Mul, Box::new(int_op(6, IntType::I64)), Box::new(int_op(7, IntType::I64)))),
                assign(0, Rvalue::Use(copy(1))),
            ],
            ret(),
        ));
        body.basic_blocks.push(block(vec![Statement::Nop], ret()));
        body
    };
    let mut body = build();
    OptimizationPipeline::default_pipeline().run(&mut body);
    assert_eq!(body.basic_blocks.len(), 1);
    assert!(matches!(
        body.basic_blocks[0].statements.last().unwrap(),
        Statement::Assign(_, Rvalue::Use(Operand::Constant(Constant::Scalar(Scalar::Int(42, IntType::I64)))))
    ));
    let mut body = build();
    OptimizationPipeline::release_pipeline().run(&mut body);
    assert_eq!(body.basic_blocks.len(), 1);
    assert_eq!(body.basic_blocks[0].statements.len(), 1);
    let mut body = build();
    OptimizationPipeline::default().run(&mut body);
    assert_eq!(OptimizationPipeline::from_level(9).pass_count(), 14);
    assert_eq!(<ConstantFolding as MirPass>::name(&ConstantFolding), "constant_folding");
}

