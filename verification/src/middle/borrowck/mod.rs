//! Borrow checking: loans, regions and the orphan rules.

pub mod check;
pub mod flow;
pub mod loan;
pub mod moves;
pub mod nll;
pub mod orphan_rules;

use vstd::prelude::*;
use crate::ast::{Path, Type};
use crate::middle::mir::{Local, MirBody, Place, PlaceModel};
use crate::middle::borrowck::check::{BorrowChecker, lexical_errors, targets_in_range};
use crate::middle::borrowck::nll::ref_sites;
use crate::middle::borrowck::loan::LoanId;
use crate::middle::borrowck::orphan_rules::{local_path, local_type};
use crate::typeck::typeclass::path_text;
use crate::util::text::{decimal, push_decimal};

verus! {

/// A violation of the ownership and borrowing rules.
#[derive(Debug)]
pub enum BorrowError {
    CannotMoveOutOfBorrow,
    CannotBorrowMutably,
    CannotBorrowImmutably,
    UseOfMovedValue(Local),
    LifetimeMismatch,
    ConflictingBorrows { loan1: LoanId, loan2: LoanId, place1: Place, place2: Place },
    WriteToMutBorrowed { loan: LoanId, place: Place },
    WriteToSharedBorrowed { loan: LoanId, place: Place },
    MoveOutOfBorrowed { loan: LoanId, place: Place },
}

/// The mathematical value of a borrow error.
pub enum BorrowErrorModel {
    CannotMoveOutOfBorrow,
    CannotBorrowMutably,
    CannotBorrowImmutably,
    UseOfMovedValue(Local),
    LifetimeMismatch,
    ConflictingBorrows { loan1: LoanId, loan2: LoanId, place1: PlaceModel, place2: PlaceModel },
    WriteToMutBorrowed { loan: LoanId, place: PlaceModel },
    WriteToSharedBorrowed { loan: LoanId, place: PlaceModel },
    MoveOutOfBorrowed { loan: LoanId, place: PlaceModel },
}

impl View for BorrowError {
    type V = BorrowErrorModel;

    open spec fn view(&self) -> BorrowErrorModel {
        match *self {
            BorrowError::CannotMoveOutOfBorrow => BorrowErrorModel::CannotMoveOutOfBorrow,
            BorrowError::CannotBorrowMutably => BorrowErrorModel::CannotBorrowMutably,
            BorrowError::CannotBorrowImmutably => BorrowErrorModel::CannotBorrowImmutably,
            BorrowError::UseOfMovedValue(l) => BorrowErrorModel::UseOfMovedValue(l),
            BorrowError::LifetimeMismatch => BorrowErrorModel::LifetimeMismatch,
            BorrowError::ConflictingBorrows { loan1, loan2, place1, place2 } => BorrowErrorModel::ConflictingBorrows {
                loan1,
                loan2,
                place1: place1@,
                place2: place2@,
            },
            BorrowError::WriteToMutBorrowed { loan, place } => BorrowErrorModel::WriteToMutBorrowed { loan, place: place@ },
            BorrowError::WriteToSharedBorrowed { loan, place } => BorrowErrorModel::WriteToSharedBorrowed { loan, place: place@ },
            BorrowError::MoveOutOfBorrowed { loan, place } => BorrowErrorModel::MoveOutOfBorrowed { loan, place: place@ },
        }
    }
}

/// The values of a list of errors.
pub open spec fn error_views(es: Seq<BorrowError>) -> Seq<BorrowErrorModel> {
    es.map_values(|e: BorrowError| e@)
}

/// Checks a body with the lexical borrow checker (see `check`): `Ok`
/// exactly when it reports nothing.
pub fn check_borrows(body: &MirBody) -> (r: Result<(), Vec<BorrowError>>)
    requires
        body.basic_blocks@.len() > 0,
        targets_in_range(body.basic_blocks@),
        ref_sites(body.basic_blocks@).len() < u32::MAX,
    ensures
        match r {
            Ok(()) => lexical_errors(body.basic_blocks@).len() == 0,
            Err(es) => error_views(es@) == lexical_errors(body.basic_blocks@) && es@.len() > 0,
        },
{
    let checker = BorrowChecker::new(body);
    checker.check()
}

/// Checks the orphan rule for `impl trait_path for impl_type` in
/// `local_crate`; see `orphan_rules::check_impl`.
pub fn check_orphan_rules(trait_path: &Path, impl_type: &Type, local_crate: &str) -> (r: Result<(), String>)
    ensures
        r is Ok <==> (local_path(*trait_path, local_crate@) || local_type(*impl_type, local_crate@)),
        r matches Err(msg) ==> msg@ == orphan_rules::orphan_message(*trait_path, *impl_type),
{
    orphan_rules::check_impl(trait_path, impl_type, local_crate)
}

/// How a loan is shown in messages: `LoanId(n)`.
pub open spec fn loan_text(l: LoanId) -> Seq<char> {
    "LoanId("@ + decimal(l.0 as nat) + ")"@
}

/// The message of a borrow error.
pub open spec fn borrow_error_text(e: BorrowError) -> Seq<char> {
    match e {
        BorrowError::CannotMoveOutOfBorrow => "cannot move out of borrowed content"@,
        BorrowError::CannotBorrowMutably => "cannot borrow mutably while borrowed immutably"@,
        BorrowError::CannotBorrowImmutably => "cannot borrow immutably while borrowed mutably"@,
        BorrowError::UseOfMovedValue(l) => "use of moved value: Local("@ + decimal(l.0 as nat) + ")"@,
        BorrowError::LifetimeMismatch => "lifetime mismatch"@,
        BorrowError::ConflictingBorrows { loan1, loan2, .. } => "conflicting borrows: "@ + loan_text(loan1)
            + " and "@ + loan_text(loan2),
        BorrowError::WriteToMutBorrowed { loan, .. } => "cannot write to mutably borrowed place (loan "@ + loan_text(
            loan,
        ) + ")"@,
        BorrowError::WriteToSharedBorrowed { loan, .. } => "cannot write to shared borrowed place (loan "@
            + loan_text(loan) + ")"@,
        BorrowError::MoveOutOfBorrowed { loan, .. } => "cannot move out of borrowed place (loan "@ + loan_text(loan)
            + ")"@,
    }
}

fn push_loan(out: &mut String, l: LoanId)
    ensures
        final(out)@ == old(out)@ + loan_text(l),
{
    out.append("LoanId(");
    push_decimal(out, l.0 as u64);
    out.append(")");
    proof {
        assert(final(out)@ =~= old(out)@ + loan_text(l));
    }
}

impl BorrowError {
    /// The message that describes the error.
    pub fn message(&self) -> (s: String)
        ensures
            s@ == borrow_error_text(*self),
    {
        let mut s = String::new();
        match self {
            BorrowError::CannotMoveOutOfBorrow => s.append("cannot move out of borrowed content"),
            BorrowError::CannotBorrowMutably => s.append("cannot borrow mutably while borrowed immutably"),
            BorrowError::CannotBorrowImmutably => s.append("cannot borrow immutably while borrowed mutably"),
            BorrowError::UseOfMovedValue(l) => {
                s.append("use of moved value: Local(");
                push_decimal(&mut s, l.0 as u64);
                s.append(")");
            },
            BorrowError::LifetimeMismatch => s.append("lifetime mismatch"),
            BorrowError::ConflictingBorrows { loan1, loan2, .. } => {
                s.append("conflicting borrows: ");
                push_loan(&mut s, *loan1);
                s.append(" and ");
                push_loan(&mut s, *loan2);
            },
            BorrowError::WriteToMutBorrowed { loan, .. } => {
                s.append("cannot write to mutably borrowed place (loan ");
                push_loan(&mut s, *loan);
                s.append(")");
            },
            BorrowError::WriteToSharedBorrowed { loan, .. } => {
                s.append("cannot write to shared borrowed place (loan ");
                push_loan(&mut s, *loan);
                s.append(")");
            },
            BorrowError::MoveOutOfBorrowed { loan, .. } => {
                s.append("cannot move out of borrowed place (loan ");
                push_loan(&mut s, *loan);
                s.append(")");
            },
        }
        proof {
            assert(s@ =~= borrow_error_text(*self));
        }
        s
    }
}

} // verus!
