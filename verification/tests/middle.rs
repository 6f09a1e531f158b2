use boxlang_compiler::ast::{Block, Expr, Ident, Literal, Path, PathSegment, Stmt, Type};
use boxlang_compiler::middle::async_transform::{AsyncState, AsyncStateMachineGenerator};
use boxlang_compiler::middle::borrowck::check_orphan_rules;
use boxlang_compiler::middle::borrowck::loan::{BorrowKind, BorrowState, LoanId, MoveState};
use boxlang_compiler::middle::borrowck::nll::{Point, Region, RegionConstraintSolver};
use boxlang_compiler::middle::borrowck::orphan_rules::check_impl;
use boxlang_compiler::middle::mir::optimize::const_fold::{would_overflow, ConstantFoldingWithErrors};
use boxlang_compiler::middle::mir::optimize::inline::{FunctionInlining, InlineConfig};
use boxlang_compiler::middle::mir::optimize::licm::{LoopInfo, LoopInvariantCodeMotion};
use boxlang_compiler::middle::mir::{BasicBlock, BinOp, Local, Place, PlaceElem};
use boxlang_compiler::middle::query::Database;

#[test]
fn test_async_state_machine_generator_creation() {
    let generator = AsyncStateMachineGenerator::new();
    assert_eq!(generator.state_counter(), 0);
    assert_eq!(generator.await_counter(), 0);
}

#[test]
fn test_collect_await_points_simple() {
    let mut generator = AsyncStateMachineGenerator::new();
    let await_expr = Expr::Await(Box::new(Expr::Ident(Ident::new("future"))));
    let block = Block { stmts: vec![Stmt::Expr(await_expr)], span: 0..10 };
    let points = generator.collect_await_points(&Expr::Block(block));
    assert_eq!(points.len(), 1);
    assert_eq!(points[0].id, 0);
}

#[test]
fn test_state_enum_generation() {
    let generator = AsyncStateMachineGenerator::new();
    let states = vec![AsyncState::Start, AsyncState::Awaiting(0), AsyncState::Completed];
    let state_enum = generator.generate_state_enum(&states);
    assert_eq!(state_enum.variants.len(), 3);
    assert_eq!(state_enum.variants[0].name.as_str(), "Start");
    assert_eq!(state_enum.variants[1].name.as_str(), "Awaiting0");
    assert_eq!(state_enum.variants[2].name.as_str(), "Completed");
}

#[test]
fn await_points_are_numbered_across_nested_expressions() {
    let mut generator = AsyncStateMachineGenerator::new();
    let a = Expr::Await(Box::new(Expr::Ident(Ident::new("a"))));
    let b = Expr::Await(Box::new(Expr::Ident(Ident::new("b"))));
    let call = Expr::Call(boxlang_compiler::ast::CallExpr { func: Box::new(Expr::Ident(Ident::new("f"))), args: vec![a, b] });
    let points = generator.collect_await_points(&call);
    assert_eq!(points.len(), 2);
    assert_eq!(points[0].id, 0);
    assert_eq!(points[1].id, 1);
    assert_eq!(points[1].next_state, AsyncState::Awaiting(1));
    assert_eq!(generator.await_counter(), 2);
    let more = generator.collect_await_points(&Expr::Await(Box::new(Expr::Literal(Literal::Integer(1)))));
    assert_eq!(more[0].id, 2);
}

#[test]
fn nested_await_operand_is_not_searched() {
    let mut generator = AsyncStateMachineGenerator::new();
    let inner = Expr::Await(Box::new(Expr::Ident(Ident::new("x"))));
    let outer = Expr::Await(Box::new(inner));
    assert_eq!(generator.collect_await_points(&outer).len(), 1);
}

#[test]
fn test_create_loan() {
    let mut state = BorrowState::new();
    let place = Place::from_local(Local(1));
    let loan_id = state.create_loan(place, BorrowKind::Shared, Local(2));
    assert_eq!(state.active_loans().len(), 1);
    assert!(state.has_loan(loan_id));
}

#[test]
fn test_borrow_kind_conflicts() {
    assert!(!BorrowKind::Shared.conflicts_with(BorrowKind::Shared));
    assert!(BorrowKind::Shared.conflicts_with(BorrowKind::Mut));
    assert!(BorrowKind::Mut.conflicts_with(BorrowKind::Shared));
    assert!(BorrowKind::Mut.conflicts_with(BorrowKind::Mut));
}

#[test]
fn test_move_state() {
    let mut state = BorrowState::new();
    assert!(!state.is_moved(Local(1)));
    state.mark_moved(Local(1));
    assert!(state.is_moved(Local(1)));
    assert_eq!(state.get_move_state(Local(1)), MoveState::Moved);
}

#[test]
fn loan_ids_are_fresh_and_writes_invalidate_conflicting_loans() {
    let mut state = BorrowState::new();
    let a = state.create_loan(Place::from_local(Local(1)), BorrowKind::Shared, Local(2));
    let b = state.create_loan(Place::from_local(Local(3)), BorrowKind::Mut, Local(4));
    assert_ne!(a, b);
    assert_eq!(a, LoanId(0));
    let gone = state.invalidate_conflicting_loans(&Place::from_local(Local(1)), true);
    assert_eq!(gone, vec![a]);
    assert!(!state.has_loan(a));
    assert!(state.has_loan(b));
    assert!(state.has_active_mut_borrow(Local(3)));
}

fn make_path(segments: &[&str]) -> Path {
    Path {
        segments: segments.iter().map(|s| PathSegment { ident: Ident::new(s), generics: vec![] }).collect(),
    }
}

#[test]
fn test_local_trait_local_type() {
    let trait_path = make_path(&["crate", "MyTrait"]);
    let impl_type = Type::Path(make_path(&["crate", "MyType"]));
    assert!(check_impl(&trait_path, &impl_type, "my_crate").is_ok());
}

#[test]
fn test_local_trait_foreign_type() {
    let trait_path = make_path(&["crate", "MyTrait"]);
    let impl_type = Type::Path(make_path(&["std", "String"]));
    assert!(check_impl(&trait_path, &impl_type, "my_crate").is_ok());
}

#[test]
fn test_foreign_trait_local_type() {
    let trait_path = make_path(&["std", "Display"]);
    let impl_type = Type::Path(make_path(&["crate", "MyType"]));
    assert!(check_impl(&trait_path, &impl_type, "my_crate").is_ok());
}

#[test]
fn test_foreign_trait_foreign_type_violation() {
    let trait_path = make_path(&["std", "Display"]);
    let impl_type = Type::Path(make_path(&["std", "String"]));
    assert!(check_impl(&trait_path, &impl_type, "my_crate").is_err());
}

#[test]
fn orphan_rule_looks_inside_references_and_tuples() {
    let trait_path = make_path(&["std", "Display"]);
    let local_ref = Type::Ref(Box::new(Type::Path(make_path(&["my_crate", "T"]))), false);
    assert!(check_orphan_rules(&trait_path, &local_ref, "my_crate").is_ok());
    let tuple = Type::Tuple(vec![Type::Unit, Type::Path(make_path(&["crate", "T"]))]);
    assert!(check_impl(&trait_path, &tuple, "my_crate").is_ok());
    let err = check_impl(&trait_path, &Type::Unit, "my_crate").unwrap_err();
    assert!(err.starts_with("Orphan rule violation: cannot implement foreign trait `std::Display` for foreign type `"));
    assert!(err.ends_with('`'));
}

#[test]
fn test_local_display() {
    assert_eq!(Local(0).to_string(), "_0");
    assert_eq!(Local(42).to_string(), "_42");
}

#[test]
fn test_basic_block_display() {
    assert_eq!(BasicBlock(0).to_string(), "bb0");
    assert_eq!(BasicBlock(5).to_string(), "bb5");
}

#[test]
fn test_place_construction() {
    let place = Place::from_local(Local(1));
    assert!(place.is_local());
    assert_eq!(place.local, Local(1));
    let place2 = place.project(PlaceElem::Field(0));
    assert!(!place2.is_local());
}

#[test]
fn test_would_overflow_function() {
    let result = would_overflow(BinOp::Add, i128::MAX, 1);
    assert!(result.is_some());
    let result = would_overflow(BinOp::Add, 10, 20);
    assert!(result.is_none());
    let result = would_overflow(BinOp::Div, 10, 0);
    assert!(result.is_some());
    let result = would_overflow(BinOp::Div, i128::MIN, -1);
    assert!(result.is_some());
}

#[test]
fn overflow_messages_name_the_operation() {
    assert_eq!(would_overflow(BinOp::Sub, i128::MIN, 1).unwrap().message, "integer overflow in subtraction");
    assert_eq!(would_overflow(BinOp::Mul, i128::MAX, 2).unwrap().message, "integer overflow in multiplication");
    assert_eq!(would_overflow(BinOp::Rem, 5, 0).unwrap().message, "remainder by zero");
    assert_eq!(would_overflow(BinOp::Rem, i128::MIN, -1).unwrap().message, "integer overflow in remainder (MIN % -1)");
    let e = would_overflow(BinOp::Div, 7, 0).unwrap();
    assert_eq!((e.operation, e.left, e.right), (BinOp::Div, 7, 0));
    assert!(would_overflow(BinOp::Eq, i128::MAX, i128::MAX).is_none());
    assert!(!ConstantFoldingWithErrors::new().has_errors());
}

#[test]
fn test_inline_config_default() {
    let config = InlineConfig::default();
    assert_eq!(config.max_blocks, 10);
    assert_eq!(config.max_stmts_per_block, 20);
    assert_eq!(config.max_depth, 5);
}

#[test]
fn test_inlined_count() {
    let inlining = FunctionInlining::new();
    assert_eq!(inlining.inlined_count(), 0);
}


#[test]
fn test_loop_info_creation() {
    let loop_info = LoopInfo::new(BasicBlock(1));
    assert_eq!(loop_info.header, BasicBlock(1));
    assert!(loop_info.body.is_empty());
}

#[test]
fn test_loop_info_contains() {
    let mut loop_info = LoopInfo::new(BasicBlock(1));
    loop_info.insert(BasicBlock(1));
    loop_info.insert(BasicBlock(2));
    loop_info.insert(BasicBlock(2));
    assert!(loop_info.contains(BasicBlock(1)));
    assert!(loop_info.contains(BasicBlock(2)));
    assert!(!loop_info.contains(BasicBlock(3)));
    assert_eq!(loop_info.body.len(), 2);
}

#[test]
fn test_licm_creation() {
    let licm = LoopInvariantCodeMotion::new();
    assert_eq!(licm.hoisted_count(), 0);
}

#[test]
fn test_database_creation() {
    let db = Database::new();
    assert!(db.is_empty());
}

#[test]
fn regions_merge_as_unions() {
    let mut a = Region::new();
    a.add_block(BasicBlock(1));
    a.add_point(BasicBlock(2), 3);
    let mut b = Region::new();
    b.add_point(BasicBlock(4), 0);
    assert!(!a.overlaps(&b));
    a.merge(&b);
    assert!(a.contains(BasicBlock(1), 7));
    assert!(a.contains(BasicBlock(2), 3));
    assert!(!a.contains(BasicBlock(2), 4));
    assert!(a.contains(BasicBlock(4), 0));
    assert!(a.overlaps(&b));
    assert!(b.overlaps(&a));
    let p = Point::new(BasicBlock(2), 3);
    assert_eq!((p.block, p.statement), (BasicBlock(2), 3));
    let mut solver = RegionConstraintSolver::new();
    solver.add_outlives_constraint(a, b);
    assert!(solver.solve().is_ok());
}
