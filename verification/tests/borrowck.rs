use boxlang_compiler::ast::Type;
use boxlang_compiler::middle::borrowck::loan::LoanId;
use boxlang_compiler::middle::borrowck::nll::{NllBorrowChecker, Point, RegionConstraintSolver};
use boxlang_compiler::middle::borrowck::check::BorrowChecker;
use boxlang_compiler::middle::borrowck::{check_borrows, BorrowError};
use boxlang_compiler::middle::mir::{
    BasicBlock, BasicBlockData, Constant, IntType, Local, LocalDecl, MirBody, Mutability, Operand, Place, PlaceElem,
    Rvalue, Scalar, Statement, Terminator, TerminatorKind,
};

fn two_borrows(first: Mutability, second: Mutability) -> MirBody {
    let mut body = MirBody::new(1, 0..100);
    body.push_local(LocalDecl::new(Type::Unit, 0..10));
    body.push_local(LocalDecl::new(Type::Unit, 10..20).arg());

    let mut block = BasicBlockData::new();
    block.statements.push(Statement::Assign(
        Place::from_local(Local(2)),
        Rvalue::Ref(Place::from_local(Local(1)), first),
    ));
    block.statements.push(Statement::Assign(
        Place::from_local(Local(3)),
        Rvalue::Ref(Place::from_local(Local(1)), second),
    ));
    block.set_terminator(Terminator { kind: TerminatorKind::Return, span: 0..100 });
    body.basic_blocks.push(block);
    body
}

#[test]
fn test_nll_basic() {
    let mut body = MirBody::new(0, 0..100);
    let block = BasicBlockData::new();
    body.basic_blocks.push(block);

    let checker = NllBorrowChecker::new(&body);
    assert!(checker.check().is_ok());
}

#[test]
fn test_nll_shared_borrows() {
    let body = two_borrows(Mutability::Not, Mutability::Not);
    let checker = NllBorrowChecker::new(&body);
    let result = checker.check();
    assert!(result.is_ok(), "Shared borrows should be allowed");
}

#[test]
fn test_nll_mut_borrow_conflict() {
    let body = two_borrows(Mutability::Mut, Mutability::Mut);
    let checker = NllBorrowChecker::new(&body);
    let result = checker.check();
    assert!(result.is_err(), "Conflicting mutable borrows should fail");
}

#[test]
fn test_nll_mixed_borrow_conflict() {
    let body = two_borrows(Mutability::Mut, Mutability::Not);
    let checker = NllBorrowChecker::new(&body);
    let result = checker.check();
    assert!(result.is_err(), "Mixed borrows should conflict");
}

#[test]
fn test_cfg_construction() {
    let mut body = MirBody::new(0, 0..100);

    let mut entry_block = BasicBlockData::new();
    entry_block.set_terminator(Terminator {
        kind: TerminatorKind::SwitchInt {
            discr: Operand::Constant(Constant::Scalar(Scalar::Int(1, IntType::I64))),
            switch_ty: Type::Unit,
            targets: vec![(1, BasicBlock(1))],
            otherwise: BasicBlock(2),
        },
        span: 0..10,
    });

    let mut then_block = BasicBlockData::new();
    then_block.set_terminator(Terminator { kind: TerminatorKind::Goto { target: BasicBlock(3) }, span: 10..20 });

    let mut else_block = BasicBlockData::new();
    else_block.set_terminator(Terminator { kind: TerminatorKind::Goto { target: BasicBlock(3) }, span: 20..30 });

    let mut end_block = BasicBlockData::new();
    end_block.set_terminator(Terminator { kind: TerminatorKind::Return, span: 30..40 });

    body.basic_blocks.push(entry_block);
    body.basic_blocks.push(then_block);
    body.basic_blocks.push(else_block);
    body.basic_blocks.push(end_block);

    let checker = NllBorrowChecker::new(&body);

    let cfg_entry = checker.cfg().get(0);
    assert!(cfg_entry.is_some(), "CFG entry should exist");
    let cfg_entry = cfg_entry.unwrap();
    assert_eq!(cfg_entry.len(), 2);
    assert!(cfg_entry.contains(&BasicBlock(1)));
    assert!(cfg_entry.contains(&BasicBlock(2)));
}

#[test]
fn nll_conflict_names_both_loans() {
    let body = two_borrows(Mutability::Mut, Mutability::Mut);
    let errors = NllBorrowChecker::new(&body).check().unwrap_err();
    assert_eq!(errors.len(), 1);
    match &errors[0] {
        BorrowError::ConflictingBorrows { loan1, loan2, place1, place2 } => {
            assert_eq!(*loan1, LoanId(0));
            assert_eq!(*loan2, LoanId(1));
            assert_eq!(place1.local, Local(1));
            assert_eq!(place2.local, Local(1));
        }
        other => panic!("unexpected error {:?}", other),
    }
}

#[test]
fn nll_write_to_shared_borrow() {
    let mut body = MirBody::new(1, 0..100);
    let mut block = BasicBlockData::new();
    block.statements.push(Statement::Assign(
        Place::from_local(Local(2)),
        Rvalue::Ref(Place::from_local(Local(1)), Mutability::Not),
    ));
    block.statements.push(Statement::Assign(
        Place::from_local(Local(1)),
        Rvalue::Use(Operand::Constant(Constant::Scalar(Scalar::Int(5, IntType::I64)))),
    ));
    block.set_terminator(Terminator { kind: TerminatorKind::Return, span: 0..100 });
    body.basic_blocks.push(block);

    let errors = NllBorrowChecker::new(&body).check().unwrap_err();
    assert_eq!(errors.len(), 1);
    assert!(matches!(&errors[0], BorrowError::WriteToSharedBorrowed { loan, place } if *loan == LoanId(0) && place.local == Local(1)));
}

#[test]
fn nll_borrow_ends_when_its_local_is_overwritten() {
    // _2 = &mut _1; _2 = const; _3 = &mut _1: the first loan ends before the second starts,
    // but both regions still share block 0, so the pair is reported.
    let mut body = MirBody::new(1, 0..100);
    let mut block = BasicBlockData::new();
    block.statements.push(Statement::Assign(
        Place::from_local(Local(2)),
        Rvalue::Ref(Place::from_local(Local(1)), Mutability::Mut),
    ));
    block.statements.push(Statement::StorageDead(Local(2)));
    block.statements.push(Statement::Assign(
        Place::from_local(Local(3)),
        Rvalue::Ref(Place::from_local(Local(1)), Mutability::Mut),
    ));
    block.set_terminator(Terminator { kind: TerminatorKind::Return, span: 0..100 });
    body.basic_blocks.push(block);

    let errors = NllBorrowChecker::new(&body).check().unwrap_err();
    assert_eq!(errors.len(), 1);
    assert!(matches!(&errors[0], BorrowError::ConflictingBorrows { .. }));
}

#[test]
fn nll_borrows_in_separate_blocks_do_not_conflict() {
    // bb0: _2 = &mut _1; StorageDead(_2); goto bb1.  bb1: _3 = &mut _1; return.
    let mut body = MirBody::new(1, 0..100);
    let mut first = BasicBlockData::new();
    first.statements.push(Statement::Assign(
        Place::from_local(Local(2)),
        Rvalue::Ref(Place::from_local(Local(1)), Mutability::Mut),
    ));
    first.statements.push(Statement::StorageDead(Local(2)));
    first.set_terminator(Terminator { kind: TerminatorKind::Goto { target: BasicBlock(1) }, span: 0..10 });
    let mut second = BasicBlockData::new();
    second.statements.push(Statement::Assign(
        Place::from_local(Local(3)),
        Rvalue::Ref(Place::from_local(Local(1)), Mutability::Mut),
    ));
    second.set_terminator(Terminator { kind: TerminatorKind::Return, span: 10..20 });
    body.basic_blocks.push(first);
    body.basic_blocks.push(second);

    assert!(NllBorrowChecker::new(&body).check().is_ok());
}

#[test]
fn nll_use_after_move_reported_once_per_pass() {
    // _2 = move _1; _3 = copy _1: the first pass records the move, the
    // second pass changes nothing, and each pass reports the read.
    let mut body = MirBody::new(1, 0..100);
    let mut block = BasicBlockData::new();
    block.statements.push(Statement::Assign(Place::from_local(Local(2)), Rvalue::Move(Place::from_local(Local(1)))));
    block.statements.push(Statement::Assign(Place::from_local(Local(3)), Rvalue::Copy(Place::from_local(Local(1)))));
    block.set_terminator(Terminator { kind: TerminatorKind::Return, span: 0..100 });
    body.basic_blocks.push(block);

    let errors = NllBorrowChecker::new(&body).check().unwrap_err();
    assert_eq!(errors.len(), 2);
    for e in &errors {
        assert!(matches!(e, BorrowError::UseOfMovedValue(l) if *l == Local(1)));
    }
}

#[test]
fn nll_fresh_checker_has_no_lifetimes() {
    let body = two_borrows(Mutability::Not, Mutability::Not);
    let checker = NllBorrowChecker::new(&body);
    assert!(checker.borrow_lifetimes().is_empty());
    assert!(checker.get_borrow_lifetime(LoanId(0)).is_none());
}

fn create_simple_body() -> MirBody {
    MirBody::new(0, 0..100)
}

#[test]
fn test_empty_body() {
    let mut body = create_simple_body();
    let block = BasicBlockData::new();
    body.basic_blocks.push(block);
    let checker = BorrowChecker::new(&body);
    assert!(checker.check().is_ok());
}

#[test]
fn test_shared_borrow_allowed() {
    let mut body = create_simple_body();
    let mut block = BasicBlockData::new();
    block.statements.push(Statement::Assign(
        Place::from_local(Local(1)),
        Rvalue::Ref(Place::from_local(Local::return_place()), Mutability::Not),
    ));
    block.statements.push(Statement::Assign(
        Place::from_local(Local(2)),
        Rvalue::Ref(Place::from_local(Local::return_place()), Mutability::Not),
    ));
    body.basic_blocks.push(block);
    let checker = BorrowChecker::new(&body);
    assert!(checker.check().is_ok());
}

#[test]
fn test_mut_borrow_conflict() {
    let mut body = create_simple_body();
    let mut block = BasicBlockData::new();
    block.statements.push(Statement::Assign(
        Place::from_local(Local(1)),
        Rvalue::Ref(Place::from_local(Local::return_place()), Mutability::Mut),
    ));
    block.statements.push(Statement::Assign(
        Place::from_local(Local(2)),
        Rvalue::Ref(Place::from_local(Local::return_place()), Mutability::Not),
    ));
    body.basic_blocks.push(block);
    let checker = BorrowChecker::new(&body);
    let result = checker.check();
    assert!(result.is_err(), "Expected error when creating shared borrow while mutable borrow is active");
}

#[test]
fn test_use_after_move() {
    let mut body = create_simple_body();
    let mut block = BasicBlockData::new();
    block.statements.push(Statement::Assign(
        Place::from_local(Local(1)),
        Rvalue::Use(Operand::Constant(Constant::Scalar(Scalar::Int(42, IntType::I64)))),
    ));
    block.statements.push(Statement::Assign(Place::from_local(Local(2)), Rvalue::Move(Place::from_local(Local(1)))));
    block.statements.push(Statement::Assign(
        Place::from_local(Local(3)),
        Rvalue::Use(Operand::Copy(Place::from_local(Local(1)))),
    ));
    body.basic_blocks.push(block);
    let checker = BorrowChecker::new(&body);
    let result = checker.check();
    assert!(result.is_err(), "Expected error when using value after move");
}

#[test]
fn test_borrow_checker_creation() {
    let mut body = MirBody::new(0, 0..100);
    let block = BasicBlockData::new();
    body.basic_blocks.push(block);
    let checker = BorrowChecker::new(&body);
    assert!(checker.check().is_ok());
}

#[test]
fn test_simple_valid_borrows() {
    let mut body = MirBody::new(0, 0..100);
    let mut block = BasicBlockData::new();
    block.statements.push(Statement::Assign(
        Place::from_local(Local(1)),
        Rvalue::Ref(Place::from_local(Local::return_place()), Mutability::Not),
    ));
    block.statements.push(Statement::Assign(
        Place::from_local(Local(2)),
        Rvalue::Use(Operand::Copy(Place { local: Local(1), projection: vec![PlaceElem::Deref] })),
    ));
    body.basic_blocks.push(block);
    assert!(check_borrows(&body).is_ok());
}

#[test]
fn test_double_mutable_borrow_fails() {
    let mut body = MirBody::new(0, 0..100);
    let mut block = BasicBlockData::new();
    block.statements.push(Statement::Assign(
        Place::from_local(Local(1)),
        Rvalue::Ref(Place::from_local(Local::return_place()), Mutability::Mut),
    ));
    block.statements.push(Statement::Assign(
        Place::from_local(Local(2)),
        Rvalue::Ref(Place::from_local(Local::return_place()), Mutability::Mut),
    ));
    body.basic_blocks.push(block);
    assert!(check_borrows(&body).is_err());
}

#[test]
fn test_mixed_borrows_fails() {
    let mut body = MirBody::new(0, 0..100);
    let mut block = BasicBlockData::new();
    block.statements.push(Statement::Assign(
        Place::from_local(Local(1)),
        Rvalue::Ref(Place::from_local(Local::return_place()), Mutability::Mut),
    ));
    block.statements.push(Statement::Assign(
        Place::from_local(Local(2)),
        Rvalue::Ref(Place::from_local(Local::return_place()), Mutability::Not),
    ));
    body.basic_blocks.push(block);
    assert!(check_borrows(&body).is_err());
}

#[test]
fn test_move_out_of_borrow_fails() {
    let mut body = MirBody::new(0, 0..100);
    let mut block = BasicBlockData::new();
    block.statements.push(Statement::Assign(
        Place::from_local(Local(1)),
        Rvalue::Ref(Place::from_local(Local::return_place()), Mutability::Not),
    ));
    block.statements.push(Statement::Assign(
        Place::from_local(Local(2)),
        Rvalue::Move(Place::from_local(Local::return_place())),
    ));
    body.basic_blocks.push(block);
    assert!(check_borrows(&body).is_err());
}

#[test]
fn lexical_errors_in_order() {
    // _1 = &mut _0; _2 = &mut _0 (refused); _3 = move _0 (refused: borrowed).
    let mut body = MirBody::new(0, 0..100);
    let mut block = BasicBlockData::new();
    block.statements.push(Statement::Assign(
        Place::from_local(Local(1)),
        Rvalue::Ref(Place::from_local(Local(0)), Mutability::Mut),
    ));
    block.statements.push(Statement::Assign(
        Place::from_local(Local(2)),
        Rvalue::Ref(Place::from_local(Local(0)), Mutability::Mut),
    ));
    block.statements.push(Statement::Assign(Place::from_local(Local(3)), Rvalue::Move(Place::from_local(Local(0)))));
    body.basic_blocks.push(block);
    let errors = check_borrows(&body).unwrap_err();
    assert_eq!(errors.len(), 2);
    assert!(matches!(errors[0], BorrowError::CannotBorrowMutably));
    assert!(matches!(errors[1], BorrowError::CannotMoveOutOfBorrow));
}

#[test]
fn lexical_write_to_borrowed_place_invalidates_the_loan() {
    // _1 = &_0; _0 = const (refused, and the loan goes); _2 = &mut _0 (now allowed).
    let mut body = MirBody::new(0, 0..100);
    let mut block = BasicBlockData::new();
    block.statements.push(Statement::Assign(
        Place::from_local(Local(1)),
        Rvalue::Ref(Place::from_local(Local(0)), Mutability::Not),
    ));
    block.statements.push(Statement::Assign(
        Place::from_local(Local(0)),
        Rvalue::Use(Operand::Constant(Constant::Scalar(Scalar::Int(1, IntType::I32)))),
    ));
    block.statements.push(Statement::Assign(
        Place::from_local(Local(2)),
        Rvalue::Ref(Place::from_local(Local(0)), Mutability::Mut),
    ));
    body.basic_blocks.push(block);
    let errors = check_borrows(&body).unwrap_err();
    assert_eq!(errors.len(), 1);
    assert!(matches!(errors[0], BorrowError::CannotBorrowMutably));
}

#[test]
fn lexical_blocks_visited_once_in_depth_first_order() {
    // bb0 jumps to bb1 and bb2 in a switch; both jump back to bb0.  A move
    // in bb1 makes the read in bb2 an error; bb0 is not visited twice.
    let mut body = MirBody::new(0, 0..100);
    let mut entry = BasicBlockData::new();
    entry.set_terminator(Terminator {
        kind: TerminatorKind::SwitchInt {
            discr: Operand::Constant(Constant::Scalar(Scalar::Int(0, IntType::I32))),
            switch_ty: Type::Unit,
            targets: vec![(0, BasicBlock(1))],
            otherwise: BasicBlock(2),
        },
        span: 0..10,
    });
    let mut first = BasicBlockData::new();
    first.statements.push(Statement::Assign(Place::from_local(Local(2)), Rvalue::Move(Place::from_local(Local(1)))));
    first.set_terminator(Terminator { kind: TerminatorKind::Goto { target: BasicBlock(0) }, span: 10..20 });
    let mut second = BasicBlockData::new();
    second.statements.push(Statement::Assign(Place::from_local(Local(3)), Rvalue::Copy(Place::from_local(Local(1)))));
    second.set_terminator(Terminator { kind: TerminatorKind::Goto { target: BasicBlock(0) }, span: 20..30 });
    body.basic_blocks.push(entry);
    body.basic_blocks.push(first);
    body.basic_blocks.push(second);
    let errors = check_borrows(&body).unwrap_err();
    assert_eq!(errors.len(), 1);
    assert!(matches!(errors[0], BorrowError::UseOfMovedValue(l) if l == Local(1)));
}

#[test]
fn precise_region_follows_control_flow() {
    // bb0: one statement, goto bb1.  bb1: return.  bb2: unreachable.
    let mut body = MirBody::new(0, 0..100);
    let mut first = BasicBlockData::new();
    first.statements.push(Statement::Nop);
    first.set_terminator(Terminator { kind: TerminatorKind::Goto { target: BasicBlock(1) }, span: 0..10 });
    let mut second = BasicBlockData::new();
    second.set_terminator(Terminator { kind: TerminatorKind::Return, span: 10..20 });
    let mut third = BasicBlockData::new();
    third.set_terminator(Terminator { kind: TerminatorKind::Return, span: 20..30 });
    body.basic_blocks.push(first);
    body.basic_blocks.push(second);
    body.basic_blocks.push(third);

    let solver = RegionConstraintSolver::new();
    let cfg = NllBorrowChecker::new(&body).cfg().clone();
    let region = solver.compute_precise_region(Point::new(BasicBlock(0), 0), Local(1), &body, &cfg);
    assert!(region.contains(BasicBlock(0), 0));
    assert!(region.contains(BasicBlock(0), 1));
    assert!(region.contains_block(BasicBlock(1)));
    assert!(!region.contains_block(BasicBlock(2)));
    assert_eq!(region.points.len(), 3);

    // A creation point past the last statement stands for the terminator.
    let region = solver.compute_precise_region(Point::new(BasicBlock(0), 5), Local(1), &body, &cfg);
    assert!(region.points.contains(&(BasicBlock(0), 5)));
    assert!(region.points.contains(&(BasicBlock(1), 0)));
    assert_eq!(region.points.len(), 2);
}
