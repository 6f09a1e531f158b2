//! The lexical borrow checker: walks the blocks reachable from the entry
//! depth first, each once, threading one borrow state through them.

use vstd::prelude::*;
use crate::middle::borrowck::{BorrowError, BorrowErrorModel, error_views};
use crate::middle::borrowck::loan::{
    BorrowKind, BorrowState, Loan, LoanId, LoanModel, MoveState, borrow_locals_of, invalidated_loans, loans_with_local,
    surviving_loans,
};
use crate::middle::borrowck::nll::{block_ref_sites, kind_of, lemma_block_prefix_sites, ref_parts, ref_sites};
use crate::middle::mir::{
    BasicBlock, BasicBlockData, Local, MirBody, Mutability, Operand, Place, PlaceModel, Rvalue, Statement, Terminator,
    TerminatorKind,
};
use crate::middle::mir::optimize::simplify_cfg::{
    count_true, edge, entry_path, lemma_count_true_bound, lemma_count_true_none, lemma_count_true_set, reachable,
    successors,
};
use crate::middle::borrowck::flow::lemma_count_within;

verus! {

/// What the lexical checker knows: the blocks visited, the loans and
/// moves, and the errors reported so far.
pub struct LexState {
    pub visited: Seq<bool>,
    pub loans: Seq<LoanModel>,
    pub by_local: Map<u32, LoanId>,
    pub moves: Map<u32, MoveState>,
    pub next_id: nat,
    pub errors: Seq<BorrowErrorModel>,
}

/// The move state of a local: available unless marked.
pub open spec fn state_of(moves: Map<u32, MoveState>, k: u32) -> MoveState {
    if moves.contains_key(k) { moves[k] } else { MoveState::Available }
}

/// Reading a local that is not available is an error.
pub open spec fn read_errs(s: LexState, l: Local) -> Seq<BorrowErrorModel> {
    if state_of(s.moves, l.0) != MoveState::Available {
        seq![BorrowErrorModel::UseOfMovedValue(l)]
    } else {
        Seq::empty()
    }
}

/// The errors of reading an operand.
pub open spec fn operand_errs(s: LexState, o: Operand) -> Seq<BorrowErrorModel> {
    match o {
        Operand::Copy(p) => read_errs(s, p.local),
        Operand::Move(p) => read_errs(s, p.local),
        Operand::Constant(_) => Seq::empty(),
    }
}

/// The errors of reading a list of operands, in order.
pub open spec fn operands_errs(s: LexState, os: Seq<Operand>) -> Seq<BorrowErrorModel>
    decreases os.len(),
{
    if os.len() == 0 { Seq::empty() } else { operands_errs(s, os.drop_last()) + operand_errs(s, os.last()) }
}

/// The errors of reading what an rvalue reads.
pub open spec fn rvalue_errs(s: LexState, rv: Rvalue) -> Seq<BorrowErrorModel> {
    match rv {
        Rvalue::Use(o) => operand_errs(s, o),
        Rvalue::Cast(_, o, _) => operand_errs(s, *o),
        Rvalue::BinaryOp(_, l, r) => operand_errs(s, *l) + operand_errs(s, *r),
        Rvalue::UnaryOp(_, o) => operand_errs(s, *o),
        Rvalue::Ref(p, _) => read_errs(s, p.local),
        Rvalue::AddressOf(p, _) => read_errs(s, p.local),
        Rvalue::Copy(p) => read_errs(s, p.local),
        Rvalue::Move(p) => read_errs(s, p.local),
        Rvalue::Len(p) => read_errs(s, p.local),
        Rvalue::Discriminant(p) => read_errs(s, p.local),
        Rvalue::Aggregate(_, os) => operands_errs(s, os@),
    }
}

/// The state with more errors reported.
pub open spec fn add_errs(s: LexState, es: Seq<BorrowErrorModel>) -> LexState {
    LexState { errors: s.errors + es, ..s }
}

/// The state after a write to `place` removes the loans it invalidates.
pub open spec fn invalidate(s: LexState, place: PlaceModel) -> LexState {
    LexState {
        loans: surviving_loans(s.loans, place, true),
        by_local: s.by_local.remove_keys(borrow_locals_of(invalidated_loans(s.loans, place, true))),
        ..s
    }
}

/// A write to `place`: the loans it invalidates go, which is an error
/// when there are any, and writing a moved local is an error.
pub open spec fn write_access(s: LexState, place: PlaceModel) -> LexState {
    add_errs(
        invalidate(s, place),
        (if invalidated_loans(s.loans, place, true).len() > 0 {
            seq![BorrowErrorModel::CannotBorrowMutably]
        } else {
            Seq::empty()
        }) + read_errs(s, place.local),
    )
}

/// A borrow of `bp` into `bl`: a mutable borrow of a place with any loan,
/// or a shared one of a place with a mutable loan, is an error; so is
/// borrowing a moved local; otherwise the loan is created.
pub open spec fn borrow_access(s: LexState, bp: PlaceModel, m: Mutability, bl: Local) -> LexState {
    let kind = kind_of(m);
    let on = loans_with_local(s.loans, bp.local.0);
    if kind == BorrowKind::Mut && on.len() > 0 {
        add_errs(s, seq![BorrowErrorModel::CannotBorrowMutably])
    } else if kind == BorrowKind::Shared && exists|j: int| 0 <= j < on.len() && on[j].kind == BorrowKind::Mut {
        add_errs(s, seq![BorrowErrorModel::CannotBorrowImmutably])
    } else if state_of(s.moves, bp.local.0) != MoveState::Available {
        add_errs(s, seq![BorrowErrorModel::UseOfMovedValue(bp.local)])
    } else {
        LexState {
            loans: s.loans.push(LoanModel { id: LoanId(s.next_id as u32), place: bp, kind, borrow_local: bl }),
            by_local: s.by_local.insert(bl.0, LoanId(s.next_id as u32)),
            next_id: s.next_id + 1,
            ..s
        }
    }
}

/// A move out of `mp`: moving a borrowed local, or a moved one, is an
/// error; otherwise the local is marked moved.
pub open spec fn move_access(s: LexState, mp: PlaceModel) -> LexState {
    let on = loans_with_local(s.loans, mp.local.0);
    if (exists|j: int| 0 <= j < on.len() && on[j].kind == BorrowKind::Shared) || (exists|j: int|
        0 <= j < on.len() && on[j].kind == BorrowKind::Mut) {
        add_errs(s, seq![BorrowErrorModel::CannotMoveOutOfBorrow])
    } else if state_of(s.moves, mp.local.0) != MoveState::Available {
        add_errs(s, seq![BorrowErrorModel::UseOfMovedValue(mp.local)])
    } else {
        LexState { moves: s.moves.insert(mp.local.0, MoveState::Moved), ..s }
    }
}

/// An assignment: its reads, the write of its target, then a borrow or a
/// move.
pub open spec fn assign_access(s: LexState, place: PlaceModel, rv: Rvalue) -> LexState {
    let s2 = write_access(add_errs(s, rvalue_errs(s, rv)), place);
    match rv {
        Rvalue::Ref(bp, m) => borrow_access(s2, bp@, m, place.local),
        Rvalue::Move(mp) => move_access(s2, mp@),
        _ => s2,
    }
}

/// A statement: an assignment, or the end of a local's storage, which
/// invalidates the loans of the local.
pub open spec fn stmt_access(s: LexState, st: Statement) -> LexState {
    match st {
        Statement::Assign(place, rv) => assign_access(s, place@, rv),
        Statement::StorageDead(l) => invalidate(s, PlaceModel { local: l, projection: Seq::empty() }),
        _ => s,
    }
}

/// The first `i` statements.
pub open spec fn stmts_access(s: LexState, stmts: Seq<Statement>, i: int) -> LexState
    decreases i,
{
    if i <= 0 { s } else { stmt_access(stmts_access(s, stmts, i - 1), stmts[i - 1]) }
}

/// The reads of a terminator: a switch's discriminant, the return value,
/// a call's function and arguments, an assertion's condition.
pub open spec fn term_errs(s: LexState, t: Option<Terminator>) -> Seq<BorrowErrorModel> {
    match t {
        Some(t) => match t.kind {
            TerminatorKind::SwitchInt { discr, .. } => operand_errs(s, discr),
            TerminatorKind::Return => read_errs(s, Local(0)),
            TerminatorKind::Call { func, args, .. } => operand_errs(s, func) + operands_errs(s, args@),
            TerminatorKind::Assert { cond, .. } => operand_errs(s, cond),
            _ => Seq::empty(),
        },
        None => Seq::empty(),
    }
}

/// Visits block `b` unless it was visited: its statements, its
/// terminator's reads, then its successors in order.
pub open spec fn visit(bs: Seq<BasicBlockData>, b: int, s: LexState, fuel: nat) -> LexState
    decreases fuel, 0int,
{
    if fuel == 0 || !(0 <= b < bs.len()) || !(0 <= b < s.visited.len()) || s.visited[b] {
        s
    } else {
        let s1 = LexState { visited: s.visited.update(b, true), ..s };
        let s2 = stmts_access(s1, bs[b].statements@, bs[b].statements@.len() as int);
        let s3 = add_errs(s2, term_errs(s2, bs[b].terminator));
        visit_list(bs, successors(bs[b].terminator, true), s3, (fuel - 1) as nat)
    }
}

/// Visits the blocks of `ts` in order.
pub open spec fn visit_list(bs: Seq<BasicBlockData>, ts: Seq<BasicBlock>, s: LexState, fuel: nat) -> LexState
    decreases fuel, ts.len() + 1,
{
    if ts.len() == 0 { s } else { visit_list(bs, ts.drop_first(), visit(bs, ts[0].0 as int, s, fuel), fuel) }
}

/// Nothing visited, no loans, no moves, no errors.
pub open spec fn lex_start(n: nat) -> LexState {
    LexState {
        visited: Seq::new(n, |i: int| false),
        loans: Seq::empty(),
        by_local: Map::empty(),
        moves: Map::empty(),
        next_id: 0,
        errors: Seq::empty(),
    }
}

/// The errors the lexical checker reports for a body.
pub open spec fn lexical_errors(bs: Seq<BasicBlockData>) -> Seq<BorrowErrorModel> {
    visit(bs, 0, lex_start(bs.len()), (bs.len() + 1) as nat).errors
}

/// Every jump of a block the entry reaches lands on a block of the body.
pub open spec fn targets_in_range(bs: Seq<BasicBlockData>) -> bool {
    forall|b: int, k: int| 0 <= b < bs.len() && reachable(bs, b, true) && 0 <= k < successors(bs[b].terminator, true).len()
        ==> (#[trigger] successors(bs[b].terminator, true)[k]).0 < bs.len()
}

/// The number of reference-creating statements in the marked blocks.
pub open spec fn refs_in(bs: Seq<BasicBlockData>, marks: Seq<bool>) -> nat
    decreases bs.len(),
{
    if bs.len() == 0 || marks.len() == 0 {
        0
    } else {
        refs_in(bs.drop_last(), marks.drop_last()) + if marks.last() {
            block_ref_sites(bs.last().statements@, bs.len() - 1).len()
        } else {
            0
        }
    }
}

proof fn lemma_refs_mark(bs: Seq<BasicBlockData>, marks: Seq<bool>, b: int)
    requires
        marks.len() == bs.len(),
        0 <= b < bs.len(),
        !marks[b],
    ensures
        refs_in(bs, marks.update(b, true)) == refs_in(bs, marks) + block_ref_sites(bs[b].statements@, b).len(),
    decreases bs.len(),
{
    if b < bs.len() - 1 {
        assert(marks.update(b, true).drop_last() =~= marks.drop_last().update(b, true));
        lemma_refs_mark(bs.drop_last(), marks.drop_last(), b);
    } else {
        assert(marks.update(b, true).drop_last() =~= marks.drop_last());
    }
}

proof fn lemma_refs_bound(bs: Seq<BasicBlockData>, marks: Seq<bool>)
    requires
        marks.len() == bs.len(),
    ensures
        refs_in(bs, marks) <= ref_sites(bs).len(),
    decreases bs.len(),
{
    if bs.len() > 0 {
        lemma_refs_bound(bs.drop_last(), marks.drop_last());
    }
}

proof fn lemma_reach_step(bs: Seq<BasicBlockData>, a: int, t: int)
    requires
        reachable(bs, a, true),
        0 <= a < bs.len(),
        edge(bs, a, t, true),
    ensures
        reachable(bs, t, true),
{
    let p = choose|p: Seq<int>| entry_path(bs, p, true) && p.last() == a;
    let q = p.push(t);
    assert forall|i: int| 0 <= i < q.len() - 1 implies #[trigger] edge(bs, q[i], q[i + 1], true) by {
        if i < p.len() - 1 {
            assert(edge(bs, p[i], p[i + 1], true));
        }
    }
    assert(entry_path(bs, q, true));
    assert(q.last() == t);
}

/// The lexical borrow checker over one body.
pub struct BorrowChecker<'a> {
    body: &'a MirBody,
    state: BorrowState,
    errors: Vec<BorrowError>,
    visited_blocks: Vec<bool>,
}

impl<'a> BorrowChecker<'a> {
    /// The blocks of the body being checked.
    pub closed spec fn blocks(&self) -> Seq<BasicBlockData> {
        self.body.basic_blocks@
    }

    /// What the checker knows.
    pub closed spec fn lex(&self) -> LexState {
        LexState {
            visited: self.visited_blocks@,
            loans: self.state.loans(),
            by_local: self.state.by_local(),
            moves: self.state.moves(),
            next_id: self.state.next_id() as nat,
            errors: error_views(self.errors@),
        }
    }

    /// The borrow state is well formed and there is one mark per block.
    pub closed spec fn inv(&self) -> bool {
        &&& self.state.wf()
        &&& self.visited_blocks@.len() == self.body.basic_blocks@.len()
    }

    pub fn new(body: &'a MirBody) -> (c: Self)
        ensures
            c.blocks() == body.basic_blocks@,
            c.inv(),
            c.fresh(),
            c.lex() == lex_start(body.basic_blocks@.len()),
    {
        let n = body.basic_blocks.len();
        let mut visited_blocks: Vec<bool> = Vec::new();
        let mut i: usize = 0;
        while i < n
            invariant
                i <= n,
                visited_blocks@.len() == i,
                forall|j: int| 0 <= j < i ==> !#[trigger] visited_blocks@[j],
            decreases n - i,
        {
            visited_blocks.push(false);
            i += 1;
        }
        let c = BorrowChecker { body, state: BorrowState::new(), errors: Vec::new(), visited_blocks };
        proof {
            assert(c.lex().visited =~= lex_start(n as nat).visited);
            assert(error_views(c.errors@) =~= Seq::<BorrowErrorModel>::empty());
        }
        c
    }

    /// Nothing checked yet.
    pub closed spec fn fresh(&self) -> bool {
        &&& self.inv()
        &&& self.lex() == lex_start(self.body.basic_blocks@.len())
    }

    /// Runs the check from the entry block.  `Ok` exactly when nothing is
    /// reported.
    pub fn check(self) -> (r: Result<(), Vec<BorrowError>>)
        requires
            self.fresh(),
            self.blocks().len() > 0,
            targets_in_range(self.blocks()),
            ref_sites(self.blocks()).len() < u32::MAX,
        ensures
            match r {
                Ok(()) => lexical_errors(self.blocks()).len() == 0,
                Err(es) => error_views(es@) == lexical_errors(self.blocks()) && es@.len() > 0,
            },
    {
        let ghost bs = self.body.basic_blocks@;
        let ghost n = bs.len();
        let mut checker = self;
        proof {
            let p = seq![0int];
            assert(entry_path(bs, p, true));
            assert(p.last() == 0);
            assert(reachable(bs, 0, true));
            lemma_count_true_none(checker.visited_blocks@);
            assert(refs_in(bs, checker.visited_blocks@) >= 0);
        }
        checker.check_block(BasicBlock(0), Ghost((n + 1) as nat));
        if checker.errors.len() == 0 {
            Ok(())
        } else {
            Err(checker.errors)
        }
    }

    /// Visits a block unless it was visited: its statements, then its
    /// terminator.
    fn check_block(&mut self, block: BasicBlock, Ghost(fuel): Ghost<nat>)
        requires
            old(self).inv(),
            targets_in_range(old(self).body.basic_blocks@),
            ref_sites(old(self).body.basic_blocks@).len() < u32::MAX,
            block.0 < old(self).body.basic_blocks@.len(),
            reachable(old(self).body.basic_blocks@, block.0 as int, true),
            forall|b: int| 0 <= b < old(self).visited_blocks@.len() && #[trigger] old(self).visited_blocks@[b]
                ==> reachable(old(self).body.basic_blocks@, b, true),
            fuel >= old(self).body.basic_blocks@.len() - count_true(old(self).visited_blocks@) + 1,
            old(self).lex().next_id <= refs_in(old(self).body.basic_blocks@, old(self).visited_blocks@),
        ensures
            final(self).inv(),
            final(self).body == old(self).body,
            final(self).lex() == visit(old(self).body.basic_blocks@, block.0 as int, old(self).lex(), fuel),
            forall|b: int| 0 <= b < old(self).visited_blocks@.len() && #[trigger] old(self).visited_blocks@[b]
                ==> final(self).visited_blocks@[b],
            forall|b: int| 0 <= b < final(self).visited_blocks@.len() && #[trigger] final(self).visited_blocks@[b]
                ==> reachable(old(self).body.basic_blocks@, b, true),
            final(self).lex().next_id <= refs_in(old(self).body.basic_blocks@, final(self).visited_blocks@),
        decreases fuel, 0int,
    {
        let ghost bs = self.body.basic_blocks@;
        let ghost n = bs.len();
        let b = block.0 as usize;
        if self.visited_blocks[b] {
            return;
        }
        let ghost s0 = self.lex();
        let ghost vis0 = self.visited_blocks@;
        proof {
            lemma_count_true_set(vis0, b as int);
            lemma_count_true_bound(vis0.update(b as int, true));
            lemma_refs_mark(bs, vis0, b as int);
            lemma_refs_bound(bs, vis0.update(b as int, true));
        }
        self.visited_blocks.set(b, true);
        let ghost s1 = self.lex();
        proof {
            assert(s1 == LexState { visited: s0.visited.update(b as int, true), ..s0 });
        }
        let body = self.body;
        let block_data = body.basic_block(block);
        let stmts = &block_data.statements;
        let ghost r0 = refs_in(bs, vis0);
        let mut i: usize = 0;
        while i < stmts.len()
            invariant
                self.inv(),
                self.body == body,
                bs == body.basic_blocks@,
                n == bs.len(),
                b < n,
                stmts@ == bs[b as int].statements@,
                i <= stmts@.len(),
                self.visited_blocks@ == vis0.update(b as int, true),
                self.lex() == stmts_access(s1, stmts@, i as int),
                self.lex().next_id <= r0 + block_ref_sites(stmts@.take(i as int), b as int).len(),
                r0 + block_ref_sites(stmts@, b as int).len() <= ref_sites(bs).len(),
                ref_sites(bs).len() < u32::MAX,
            decreases stmts@.len() - i,
        {
            proof {
                assert(stmts@.take(i + 1).drop_last() =~= stmts@.take(i as int));
                lemma_block_prefix_sites(stmts@, b as int, i + 1);
                if ref_parts(stmts@[i as int]) is Some {
                    assert(block_ref_sites(stmts@.take(i + 1), b as int).len() == block_ref_sites(stmts@.take(i as int), b as int).len() + 1);
                }
            }
            self.check_statement(&stmts[i]);
            i += 1;
        }
        proof {
            assert(stmts@.take(stmts@.len() as int) =~= stmts@);
        }
        let ghost s2 = self.lex();
        match &block_data.terminator {
            Some(terminator) => {
                proof {
                    assert forall|k: int| 0 <= k < successors(Some(*terminator), true).len() implies (#[trigger] successors(
                        Some(*terminator), true)[k]).0 < n && reachable(bs, successors(Some(*terminator), true)[k].0 as int, true) by {
                        assert(successors(bs[b as int].terminator, true)[k].0 < n);
                        assert(edge(bs, b as int, successors(Some(*terminator), true)[k].0 as int, true));
                        lemma_reach_step(bs, b as int, successors(Some(*terminator), true)[k].0 as int);
                    }
                }
                let ghost vmid = self.visited_blocks@;
                self.check_terminator(terminator, Ghost((fuel - 1) as nat));
                proof {
                    assert forall|x: int| 0 <= x < vis0.len() && #[trigger] vis0[x] implies self.visited_blocks@[x] by {
                        assert(vmid[x]);
                    }
                }
            },
            None => {
                proof {
                    assert(add_errs(s2, term_errs(s2, bs[b as int].terminator)) == s2) by {
                        assert(s2.errors + Seq::<BorrowErrorModel>::empty() =~= s2.errors);
                    }
                    assert forall|x: int| 0 <= x < vis0.len() && #[trigger] vis0[x] implies self.visited_blocks@[x] by {
                        assert(self.visited_blocks@ == vis0.update(b as int, true));
                    }
                }
            },
        }
    }

    /// The reads of a terminator, then the blocks it jumps to, in order.
    fn check_terminator(&mut self, terminator: &Terminator, Ghost(fuel): Ghost<nat>)
        requires
            old(self).inv(),
            targets_in_range(old(self).body.basic_blocks@),
            ref_sites(old(self).body.basic_blocks@).len() < u32::MAX,
            forall|k: int| 0 <= k < successors(Some(*terminator), true).len() ==> (#[trigger] successors(Some(*terminator), true)[k]).0
                < old(self).body.basic_blocks@.len() && reachable(old(self).body.basic_blocks@,
                successors(Some(*terminator), true)[k].0 as int, true),
            forall|b: int| 0 <= b < old(self).visited_blocks@.len() && #[trigger] old(self).visited_blocks@[b]
                ==> reachable(old(self).body.basic_blocks@, b, true),
            fuel >= old(self).body.basic_blocks@.len() - count_true(old(self).visited_blocks@) + 1,
            old(self).lex().next_id <= refs_in(old(self).body.basic_blocks@, old(self).visited_blocks@),
        ensures
            final(self).inv(),
            final(self).body == old(self).body,
            final(self).lex() == visit_list(old(self).body.basic_blocks@, successors(Some(*terminator), true), add_errs(
                old(self).lex(), term_errs(old(self).lex(), Some(*terminator))), fuel),
            forall|b: int| 0 <= b < old(self).visited_blocks@.len() && #[trigger] old(self).visited_blocks@[b]
                ==> final(self).visited_blocks@[b],
            forall|b: int| 0 <= b < final(self).visited_blocks@.len() && #[trigger] final(self).visited_blocks@[b]
                ==> reachable(old(self).body.basic_blocks@, b, true),
            final(self).lex().next_id <= refs_in(old(self).body.basic_blocks@, final(self).visited_blocks@),
        decreases fuel, 1int,
    {
        let ghost bs = self.body.basic_blocks@;
        let ghost s0 = self.lex();
        let ghost succ = successors(Some(*terminator), true);
        match &terminator.kind {
            TerminatorKind::Goto { target } => {
                proof {
                    assert(succ =~= seq![*target]);
                    assert(add_errs(s0, term_errs(s0, Some(*terminator))) == s0) by {
                        assert(s0.errors + Seq::<BorrowErrorModel>::empty() =~= s0.errors);
                    }
                    assert(succ[0] == *target);
                }
                self.check_block(*target, Ghost(fuel));
                proof {
                    assert(succ.drop_first() =~= Seq::<BasicBlock>::empty());
                    assert(visit_list(bs, succ.drop_first(), self.lex(), fuel) == self.lex());
                }
            },
            TerminatorKind::SwitchInt { discr, targets, otherwise, .. } => {
                self.check_operand(discr);
                let ghost s3 = self.lex();
                proof {
                    assert(s3 == add_errs(s0, term_errs(s0, Some(*terminator))));
                    assert(succ.skip(0) =~= succ);
                }
                let mut k: usize = 0;
                while k < targets.len()
                    invariant
                        self.inv(),
                        self.body == old(self).body,
                        bs == self.body.basic_blocks@,
                        old(self).visited_blocks@.len() == bs.len(),
                        targets_in_range(bs),
                        ref_sites(bs).len() < u32::MAX,
                        succ == targets@.map_values(|p: (u128, BasicBlock)| p.1).push(*otherwise),
                        forall|j: int| 0 <= j < succ.len() ==> (#[trigger] succ[j]).0 < bs.len() && reachable(bs, succ[j].0 as int, true),
                        k <= targets@.len(),
                        visit_list(bs, succ, s3, fuel) == visit_list(bs, succ.skip(k as int), self.lex(), fuel),
                        forall|b: int| 0 <= b < old(self).visited_blocks@.len() && #[trigger] old(self).visited_blocks@[b]
                            ==> self.visited_blocks@[b],
                        forall|b: int| 0 <= b < self.visited_blocks@.len() && #[trigger] self.visited_blocks@[b]
                            ==> reachable(bs, b, true),
                        fuel >= bs.len() - count_true(self.visited_blocks@) + 1,
                        self.lex().next_id <= refs_in(bs, self.visited_blocks@),
                    decreases targets@.len() - k,
                {
                    let target = targets[k].1;
                    let ghost sk = self.lex();
                    let ghost vk = self.visited_blocks@;
                    proof {
                        assert(succ[k as int] == target);
                        assert(succ.skip(k as int)[0] == target);
                        assert(succ.skip(k as int).drop_first() =~= succ.skip(k + 1));
                    }
                    self.check_block(target, Ghost(fuel));
                    proof {
                        assert forall|d: int| 0 <= d < vk.len() && #[trigger] vk[d] implies self.visited_blocks@[d] by {}
                        lemma_count_within(vk, self.visited_blocks@);
                        assert forall|x: int| 0 <= x < old(self).visited_blocks@.len() && #[trigger] old(self).visited_blocks@[x]
                            implies self.visited_blocks@[x] by {
                            assert(vk[x]);
                        }
                    }
                    k += 1;
                }
                let ghost vk = self.visited_blocks@;
                proof {
                    assert(succ[k as int] == *otherwise);
                    assert(succ.skip(k as int)[0] == *otherwise);
                    assert(succ.skip(k as int).drop_first() =~= Seq::<BasicBlock>::empty());
                }
                let ghost sk = self.lex();
                self.check_block(*otherwise, Ghost(fuel));
                proof {
                    assert(visit_list(bs, succ.skip(k as int).drop_first(), self.lex(), fuel) == self.lex());
                    assert(visit_list(bs, succ.skip(k as int), sk, fuel) == self.lex());
                    assert forall|x: int| 0 <= x < old(self).visited_blocks@.len() && #[trigger] old(self).visited_blocks@[x]
                        implies self.visited_blocks@[x] by {
                        assert(vk[x]);
                    }
                }
            },
            TerminatorKind::Return => {
                let return_place = Place::from_local(Local::return_place());
                self.check_read_access(&return_place);
                proof {
                    assert(return_place.local == Local(0));
                    assert(succ =~= Seq::<BasicBlock>::empty());
                    assert(self.lex() == add_errs(s0, term_errs(s0, Some(*terminator))));
                }
            },
            TerminatorKind::Unwind => {
                proof {
                    assert(succ =~= Seq::<BasicBlock>::empty());
                    assert(add_errs(s0, term_errs(s0, Some(*terminator))) == s0) by {
                        assert(s0.errors + Seq::<BorrowErrorModel>::empty() =~= s0.errors);
                    }
                }
            },
            TerminatorKind::Call { func, args, target, .. } => {
                self.check_operand(func);
                let ghost sf = self.lex();
                let mut k: usize = 0;
                while k < args.len()
                    invariant
                        self.inv(),
                        self.body == old(self).body,
                        self.visited_blocks@ == old(self).visited_blocks@,
                        self.lex() == add_errs(sf, operands_errs(s0, args@.take(k as int))),
                        sf == add_errs(s0, operand_errs(s0, *func)),
                        k <= args@.len(),
                    decreases args@.len() - k,
                {
                    proof {
                        assert(args@.take(k + 1).drop_last() =~= args@.take(k as int));
                    }
                    self.check_operand(&args[k]);
                    proof {
                        assert(self.lex().errors =~= add_errs(sf, operands_errs(s0, args@.take(k + 1))).errors);
                    }
                    k += 1;
                }
                proof {
                    assert(args@.take(args@.len() as int) =~= args@);
                    assert(self.lex().errors =~= add_errs(s0, term_errs(s0, Some(*terminator))).errors);
                }
                match target {
                    Some(t) => {
                        proof {
                            assert(succ =~= seq![*t]);
                            assert(succ[0] == *t);
                        }
                        self.check_block(*t, Ghost(fuel));
                        proof {
                            assert(succ.drop_first() =~= Seq::<BasicBlock>::empty());
                            assert(visit_list(bs, succ.drop_first(), self.lex(), fuel) == self.lex());
                        }
                    },
                    None => {
                        proof {
                            assert(succ =~= Seq::<BasicBlock>::empty());
                            assert(self.lex() == add_errs(s0, term_errs(s0, Some(*terminator))));
                        }
                    },
                }
            },
            TerminatorKind::Assert { cond, target, .. } => {
                self.check_operand(cond);
                proof {
                    assert(succ =~= seq![*target]);
                    assert(succ[0] == *target);
                    assert(self.lex() == add_errs(s0, term_errs(s0, Some(*terminator))));
                }
                self.check_block(*target, Ghost(fuel));
                proof {
                    assert(succ.drop_first() =~= Seq::<BasicBlock>::empty());
                    assert(visit_list(bs, succ.drop_first(), self.lex(), fuel) == self.lex());
                }
            },
        }
    }

    /// A statement: an assignment, or the end of a local's storage.
    fn check_statement(&mut self, stmt: &Statement)
        requires
            old(self).inv(),
            ref_parts(*stmt) is Some ==> old(self).lex().next_id < u32::MAX,
        ensures
            final(self).inv(),
            final(self).body == old(self).body,
            final(self).visited_blocks == old(self).visited_blocks,
            final(self).lex() == stmt_access(old(self).lex(), *stmt),
            final(self).lex().next_id <= old(self).lex().next_id + if ref_parts(*stmt) is Some { 1int } else { 0int },
    {
        match stmt {
            Statement::Assign(place, rvalue) => {
                self.check_assign(place, rvalue);
            },
            Statement::StorageLive(_local) => {},
            Statement::StorageDead(local) => {
                let dead = Place::from_local(*local);
                let ghost s0 = self.lex();
                self.state.invalidate_conflicting_loans(&dead, true);
                proof {
                    assert(dead@ == PlaceModel { local: *local, projection: Seq::empty() });
                }
            },
            Statement::InlineAsm(_) => {},
            Statement::Nop => {},
        }
    }

    /// An assignment: the reads of its rvalue, the write of its place,
    /// then a borrow or a move.
    fn check_assign(&mut self, place: &Place, rvalue: &Rvalue)
        requires
            old(self).inv(),
            rvalue is Ref ==> old(self).lex().next_id < u32::MAX,
        ensures
            final(self).inv(),
            final(self).body == old(self).body,
            final(self).visited_blocks == old(self).visited_blocks,
            final(self).lex() == assign_access(old(self).lex(), place@, *rvalue),
            final(self).lex().next_id <= old(self).lex().next_id + if rvalue is Ref { 1int } else { 0int },
    {
        self.check_rvalue(rvalue);
        self.check_write_access(place);
        match rvalue {
            Rvalue::Ref(borrowed_place, mutability) => {
                self.check_borrow(borrowed_place, *mutability, place.local);
            },
            Rvalue::Move(moved_place) => {
                self.check_move(moved_place);
            },
            _ => {},
        }
    }

    /// The reads of an rvalue.
    fn check_rvalue(&mut self, rvalue: &Rvalue)
        requires
            old(self).inv(),
        ensures
            final(self).inv(),
            final(self).body == old(self).body,
            final(self).visited_blocks == old(self).visited_blocks,
            final(self).lex() == add_errs(old(self).lex(), rvalue_errs(old(self).lex(), *rvalue)),
    {
        let ghost s0 = self.lex();
        match rvalue {
            Rvalue::Use(operand) => {
                self.check_operand(operand);
            },
            Rvalue::Cast(_, operand, _) => {
                self.check_operand(operand);
            },
            Rvalue::BinaryOp(_, left, right) => {
                self.check_operand(left);
                self.check_operand(right);
                proof {
                    assert(self.lex().errors =~= s0.errors + rvalue_errs(s0, *rvalue));
                }
            },
            Rvalue::UnaryOp(_, operand) => {
                self.check_operand(operand);
            },
            Rvalue::Ref(place, _) => {
                self.check_read_access(place);
            },
            Rvalue::AddressOf(place, _) => {
                self.check_read_access(place);
            },
            Rvalue::Copy(place) => {
                self.check_read_access(place);
            },
            Rvalue::Move(place) => {
                self.check_read_access(place);
            },
            Rvalue::Len(place) => {
                self.check_read_access(place);
            },
            Rvalue::Discriminant(place) => {
                self.check_read_access(place);
            },
            Rvalue::Aggregate(_, operands) => {
                let mut k: usize = 0;
                while k < operands.len()
                    invariant
                        self.inv(),
                        self.body == old(self).body,
                        self.visited_blocks == old(self).visited_blocks,
                        self.lex() == add_errs(s0, operands_errs(s0, operands@.take(k as int))),
                        k <= operands@.len(),
                    decreases operands@.len() - k,
                {
                    proof {
                        assert(operands@.take(k + 1).drop_last() =~= operands@.take(k as int));
                    }
                    self.check_operand(&operands[k]);
                    proof {
                        assert(self.lex().errors =~= add_errs(s0, operands_errs(s0, operands@.take(k + 1))).errors);
                    }
                    k += 1;
                }
                proof {
                    assert(operands@.take(operands@.len() as int) =~= operands@);
                }
            },
        }
    }

    /// The read of an operand.
    fn check_operand(&mut self, operand: &Operand)
        requires
            old(self).inv(),
        ensures
            final(self).inv(),
            final(self).body == old(self).body,
            final(self).visited_blocks == old(self).visited_blocks,
            final(self).lex() == add_errs(old(self).lex(), operand_errs(old(self).lex(), *operand)),
    {
        match operand {
            Operand::Copy(place) => {
                self.check_read_access(place);
            },
            Operand::Move(place) => {
                self.check_read_access(place);
            },
            Operand::Constant(_) => {
                assert(self.lex().errors =~= self.lex().errors + Seq::<BorrowErrorModel>::empty());
            },
        }
    }

    /// A borrow of `borrowed_place` into `borrow_local`.
    fn check_borrow(&mut self, borrowed_place: &Place, mutability: Mutability, borrow_local: Local)
        requires
            old(self).inv(),
            old(self).lex().next_id < u32::MAX,
        ensures
            final(self).inv(),
            final(self).body == old(self).body,
            final(self).visited_blocks == old(self).visited_blocks,
            final(self).lex() == borrow_access(old(self).lex(), borrowed_place@, mutability, borrow_local),
            final(self).lex().next_id <= old(self).lex().next_id + 1,
    {
        let ghost s0 = self.lex();
        let borrow_kind = match mutability {
            Mutability::Mut => BorrowKind::Mut,
            Mutability::Not => BorrowKind::Shared,
        };
        let loans = self.state.get_loans_for_local(borrowed_place.local);
        let ghost on = loans_with_local(s0.loans, borrowed_place.local.0);
        let mut i: usize = 0;
        while i < loans.len()
            invariant
                self.inv(),
                self.body == old(self).body,
                self.visited_blocks == old(self).visited_blocks,
                self.lex() == s0,
                s0 == old(self).lex(),
                on == loans_with_local(s0.loans, borrowed_place.local.0),
                loans@.map_values(|l: &Loan| l@) == on,
                borrow_kind == kind_of(mutability),
                i <= loans@.len(),
                borrow_kind == BorrowKind::Mut ==> i == 0,
                forall|j: int| 0 <= j < i ==> on[j].kind != BorrowKind::Mut,
            decreases loans@.len() - i,
        {
            let loan = loans[i];
            proof {
                assert(on[i as int] == loan@);
            }
            match (borrow_kind, loan.kind) {
                (BorrowKind::Shared, BorrowKind::Shared) => {},
                (BorrowKind::Mut, _) => {
                    self.errors.push(BorrowError::CannotBorrowMutably);
                    proof {
                        assert(on.len() == loans@.len());
                        assert(self.lex().errors =~= s0.errors + seq![BorrowErrorModel::CannotBorrowMutably]);
                        assert(self.lex() == add_errs(s0, seq![BorrowErrorModel::CannotBorrowMutably]));
                        assert(kind_of(mutability) == BorrowKind::Mut);
                        assert(borrowed_place@.local == borrowed_place.local);
                        assert(loans_with_local(s0.loans, borrowed_place@.local.0) == on);
                        assert(on.len() > 0);
                        assert(borrow_access(s0, borrowed_place@, mutability, borrow_local) == add_errs(s0,
                            seq![BorrowErrorModel::CannotBorrowMutably]));
                    }
                    return;
                },
                (_, BorrowKind::Mut) => {
                    // Here the new borrow is shared: a mutable one was
                    // refused at the first loan.
                    self.errors.push(BorrowError::CannotBorrowImmutably);
                    proof {
                        assert(borrow_kind == BorrowKind::Shared);
                        assert(on[i as int].kind == BorrowKind::Mut);
                        assert(self.lex().errors =~= s0.errors + seq![BorrowErrorModel::CannotBorrowImmutably]);
                        assert(self.lex() == add_errs(s0, seq![BorrowErrorModel::CannotBorrowImmutably]));
                        assert(borrow_access(s0, borrowed_place@, mutability, borrow_local) == add_errs(s0,
                            seq![BorrowErrorModel::CannotBorrowImmutably]));
                    }
                    return;
                },
                _ => {},
            }
            i += 1;
        }
        proof {
            assert(on.len() == loans@.len());
            assert(borrow_kind == BorrowKind::Mut ==> on.len() == 0);
            assert(!(exists|j: int| 0 <= j < on.len() && on[j].kind == BorrowKind::Mut));
        }
        if self.state.is_moved(borrowed_place.local) {
            self.errors.push(BorrowError::UseOfMovedValue(borrowed_place.local));
            proof {
                assert(self.lex().errors =~= s0.errors + seq![BorrowErrorModel::UseOfMovedValue(borrowed_place.local)]);
                assert(self.lex() == add_errs(s0, seq![BorrowErrorModel::UseOfMovedValue(borrowed_place.local)]));
            }
            return;
        }
        self.state.create_loan(borrowed_place.copy(), borrow_kind, borrow_local);
    }

    /// A move out of `place`.
    fn check_move(&mut self, place: &Place)
        requires
            old(self).inv(),
        ensures
            final(self).inv(),
            final(self).body == old(self).body,
            final(self).visited_blocks == old(self).visited_blocks,
            final(self).lex() == move_access(old(self).lex(), place@),
            final(self).lex().next_id == old(self).lex().next_id,
    {
        let ghost s0 = self.lex();
        if self.state.has_active_shared_borrow(place.local) || self.state.has_active_mut_borrow(place.local) {
            self.errors.push(BorrowError::CannotMoveOutOfBorrow);
            proof {
                assert(self.lex().errors =~= s0.errors + seq![BorrowErrorModel::CannotMoveOutOfBorrow]);
                assert(self.lex() == add_errs(s0, seq![BorrowErrorModel::CannotMoveOutOfBorrow]));
            }
            return;
        }
        if self.state.is_moved(place.local) {
            self.errors.push(BorrowError::UseOfMovedValue(place.local));
            proof {
                assert(self.lex().errors =~= s0.errors + seq![BorrowErrorModel::UseOfMovedValue(place.local)]);
                assert(self.lex() == add_errs(s0, seq![BorrowErrorModel::UseOfMovedValue(place.local)]));
            }
            return;
        }
        self.state.mark_moved(place.local);
    }

    /// The read of a place: reading a moved local is an error (reading a
    /// mutably borrowed one is allowed, through the borrow).
    fn check_read_access(&mut self, place: &Place)
        requires
            old(self).inv(),
        ensures
            final(self).inv(),
            final(self).body == old(self).body,
            final(self).visited_blocks == old(self).visited_blocks,
            final(self).lex() == add_errs(old(self).lex(), read_errs(old(self).lex(), place.local)),
    {
        let ghost s0 = self.lex();
        if self.state.is_moved(place.local) {
            self.errors.push(BorrowError::UseOfMovedValue(place.local));
            proof {
                assert(self.lex().errors =~= s0.errors + read_errs(s0, place.local));
            }
        } else {
            proof {
                assert(self.lex().errors =~= s0.errors + read_errs(s0, place.local));
            }
        }
    }

    /// The write of a place: the loans it invalidates go, which is an
    /// error when there are any; writing a moved local is an error.
    fn check_write_access(&mut self, place: &Place)
        requires
            old(self).inv(),
        ensures
            final(self).inv(),
            final(self).body == old(self).body,
            final(self).visited_blocks == old(self).visited_blocks,
            final(self).lex() == write_access(old(self).lex(), place@),
    {
        let ghost s0 = self.lex();
        let invalidated = self.state.invalidate_conflicting_loans(place, true);
        let ghost s1 = self.lex();
        if invalidated.len() > 0 {
            self.errors.push(BorrowError::CannotBorrowMutably);
        }
        let ghost s2 = self.lex();
        if self.state.is_moved(place.local) {
            self.errors.push(BorrowError::UseOfMovedValue(place.local));
        }
        proof {
            assert(self.lex().errors =~= write_access(s0, place@).errors);
        }
    }
}

} // verus!
