//! Dead code elimination: drops assignments to locals that nothing reads,
//! unless computing the right-hand side may have an effect.

use vstd::prelude::*;
use std::collections::HashSet;
use crate::middle::mir::{BasicBlockData, MirBody, Operand, Rvalue, Statement, Terminator, TerminatorKind};

verus! {

broadcast use vstd::std_specs::hash::group_hash_axioms;

/// The dead code elimination pass.
#[derive(Debug, Clone, Copy, PartialEq, Eq, Structural)]
pub struct DeadCodeElimination;

/// The local an operand reads, if any.
pub open spec fn operand_reads(o: Operand) -> Set<u32> {
    match o.place() {
        Some(p) => set![p.local.0],
        None => Set::empty(),
    }
}

/// The locals a list of operands reads.
pub open spec fn operands_reads(ops: Seq<Operand>) -> Set<u32>
    decreases ops.len(),
{
    if ops.len() == 0 { Set::empty() } else { operands_reads(ops.drop_last()) + operand_reads(ops.last()) }
}

/// The locals an rvalue reads through its operands.
pub open spec fn rvalue_reads(rv: Rvalue) -> Set<u32> {
    match rv {
        Rvalue::Use(o) => operand_reads(o),
        Rvalue::BinaryOp(_, l, r) => operand_reads(*l) + operand_reads(*r),
        Rvalue::UnaryOp(_, o) => operand_reads(*o),
        Rvalue::Aggregate(_, ops) => operands_reads(ops@),
        _ => Set::empty(),
    }
}

/// The locals a statement reads.
pub open spec fn statement_reads(s: Statement) -> Set<u32> {
    match s {
        Statement::Assign(_, rv) => rvalue_reads(rv),
        _ => Set::empty(),
    }
}

/// The locals a list of statements reads.
pub open spec fn statements_reads(ss: Seq<Statement>) -> Set<u32>
    decreases ss.len(),
{
    if ss.len() == 0 { Set::empty() } else { statements_reads(ss.drop_last()) + statement_reads(ss.last()) }
}

/// The locals a terminator reads: the switch operand, the callee and its
/// arguments, and the return place on return.
pub open spec fn terminator_reads(t: Option<Terminator>) -> Set<u32> {
    match t {
        Some(t) => match t.kind {
            TerminatorKind::SwitchInt { discr, .. } => operand_reads(discr),
            TerminatorKind::Call { func, args, .. } => operand_reads(func) + operands_reads(args@),
            TerminatorKind::Return => set![0u32],
            _ => Set::empty(),
        },
        None => Set::empty(),
    }
}

/// The locals a list of blocks reads.
pub open spec fn blocks_reads(bs: Seq<BasicBlockData>) -> Set<u32>
    decreases bs.len(),
{
    if bs.len() == 0 {
        Set::empty()
    } else {
        blocks_reads(bs.drop_last()) + statements_reads(bs.last().statements@) + terminator_reads(bs.last().terminator)
    }
}

/// The locals counted as used: the return place, the arguments, and
/// whatever the body reads.
pub open spec fn used_locals(body: MirBody) -> Set<u32> {
    Set::new(|l: u32| l as int <= body.arg_count) + blocks_reads(body.basic_blocks@)
}

/// Whether an rvalue may have an effect: all but uses, operations,
/// aggregates and casts are taken to.
pub open spec fn side_effects(rv: Rvalue) -> bool {
    match rv {
        Rvalue::Use(_) | Rvalue::BinaryOp(..) | Rvalue::UnaryOp(..) | Rvalue::Aggregate(..) | Rvalue::Cast(..) => false,
        _ => true,
    }
}

/// Whether a statement stays: any but an assignment, or an assignment to a
/// used local or of an rvalue with an effect.
pub open spec fn stays(s: Statement, used: Set<u32>) -> bool {
    match s {
        Statement::Assign(p, rv) => used.contains(p.local.0) || side_effects(rv),
        _ => true,
    }
}

/// The statements that stay, in order.
pub open spec fn kept(ss: Seq<Statement>, used: Set<u32>) -> Seq<Statement>
    decreases ss.len(),
{
    if ss.len() == 0 {
        Seq::empty()
    } else if stays(ss.last(), used) {
        kept(ss.drop_last(), used).push(ss.last())
    } else {
        kept(ss.drop_last(), used)
    }
}

/// A body with the dead assignments removed from every block.
pub open spec fn without_dead_code(old: MirBody, new: MirBody) -> bool {
    &&& new.basic_blocks@.len() == old.basic_blocks@.len()
    &&& forall|b: int| 0 <= b < old.basic_blocks@.len() ==> {
        &&& #[trigger] new.basic_blocks@[b].statements@ == kept(old.basic_blocks@[b].statements@, used_locals(old))
        &&& new.basic_blocks@[b].terminator == old.basic_blocks@[b].terminator
        &&& new.basic_blocks@[b].is_cleanup == old.basic_blocks@[b].is_cleanup
    }
    &&& new.local_decls == old.local_decls
    &&& new.arg_count == old.arg_count
    &&& new.span == old.span
}

fn note_operand(o: &Operand, used: &mut HashSet<u32>)
    ensures
        final(used)@ == old(used)@ + operand_reads(*o),
{
    match o {
        Operand::Copy(p) | Operand::Move(p) => {
            used.insert(p.local.0);
        },
        Operand::Constant(_) => {},
    }
    assert(used@ =~= old(used)@ + operand_reads(*o));
}

fn note_operands(ops: &Vec<Operand>, used: &mut HashSet<u32>)
    ensures
        final(used)@ == old(used)@ + operands_reads(ops@),
{
    let mut i: usize = 0;
    assert(ops@.subrange(0, 0) =~= Seq::<Operand>::empty());
    while i < ops.len()
        invariant
            0 <= i <= ops@.len(),
            used@ == old(used)@ + operands_reads(ops@.subrange(0, i as int)),
        decreases ops.len() - i,
    {
        note_operand(&ops[i], used);
        assert(ops@.subrange(0, i + 1).drop_last() =~= ops@.subrange(0, i as int));
        assert(used@ =~= old(used)@ + operands_reads(ops@.subrange(0, i + 1)));
        i += 1;
    }
    assert(ops@.subrange(0, ops@.len() as int) =~= ops@);
}

fn note_rvalue(rv: &Rvalue, used: &mut HashSet<u32>)
    ensures
        final(used)@ == old(used)@ + rvalue_reads(*rv),
{
    match rv {
        Rvalue::Use(o) => note_operand(o, used),
        Rvalue::BinaryOp(_, l, r) => {
            note_operand(l, used);
            note_operand(r, used);
            assert(used@ =~= old(used)@ + rvalue_reads(*rv));
        },
        Rvalue::UnaryOp(_, o) => note_operand(o, used),
        Rvalue::Aggregate(_, ops) => note_operands(ops, used),
        _ => {
            assert(used@ =~= old(used)@ + rvalue_reads(*rv));
        },
    }
}

fn note_terminator(t: &Option<Terminator>, used: &mut HashSet<u32>)
    ensures
        final(used)@ == old(used)@ + terminator_reads(*t),
{
    match t {
        Some(t) => match &t.kind {
            TerminatorKind::SwitchInt { discr, .. } => note_operand(discr, used),
            TerminatorKind::Call { func, args, .. } => {
                note_operand(func, used);
                note_operands(args, used);
                assert(used@ =~= old(used)@ + terminator_reads(Some(*t)));
            },
            TerminatorKind::Return => {
                used.insert(0);
                assert(used@ =~= old(used)@ + terminator_reads(Some(*t)));
            },
            _ => {
                assert(used@ =~= old(used)@ + terminator_reads(Some(*t)));
            },
        },
        None => {
            assert(used@ =~= old(used)@ + terminator_reads(*t));
        },
    }
}

fn note_block(block: &BasicBlockData, used: &mut HashSet<u32>)
    ensures
        final(used)@ == old(used)@ + statements_reads(block.statements@) + terminator_reads(block.terminator),
{
    let ss = &block.statements;
    let mut i: usize = 0;
    assert(ss@.subrange(0, 0) =~= Seq::<Statement>::empty());
    assert(used@ =~= old(used)@ + statements_reads(ss@.subrange(0, 0)));
    while i < ss.len()
        invariant
            0 <= i <= ss@.len(),
            used@ == old(used)@ + statements_reads(ss@.subrange(0, i as int)),
        decreases ss.len() - i,
    {
        if let Statement::Assign(_, rv) = &ss[i] {
            note_rvalue(rv, used);
        }
        assert(ss@.subrange(0, i + 1).drop_last() =~= ss@.subrange(0, i as int));
        assert(used@ =~= old(used)@ + statements_reads(ss@.subrange(0, i + 1)));
        i += 1;
    }
    assert(ss@.subrange(0, ss@.len() as int) =~= ss@);
    note_terminator(&block.terminator, used);
}

/// The locals the body uses (see `used_locals`).
pub fn find_used_locals(body: &MirBody) -> (used: HashSet<u32>)
    ensures
        used@ == used_locals(*body),
{
    let mut used: HashSet<u32> = HashSet::new();
    let top: u64 = if body.arg_count < 0xffff_ffffusize { body.arg_count as u64 } else { 0xffff_ffffu64 };
    let mut l: u64 = 0;
    while l <= top
        invariant
            top <= 0xffff_ffff,
            top == (if body.arg_count < 0xffff_ffffusize { body.arg_count as int } else { 0xffff_ffff }),
            l <= top + 1,
            used@ == Set::new(|k: u32| (k as int) < l),
        decreases top + 1 - l,
    {
        used.insert(l as u32);
        assert(used@ =~= Set::new(|k: u32| (k as int) < l + 1));
        l += 1;
    }
    assert(used@ =~= Set::new(|k: u32| k as int <= body.arg_count));
    let bs = &body.basic_blocks;
    let ghost base = used@;
    let mut b: usize = 0;
    assert(bs@.subrange(0, 0) =~= Seq::<BasicBlockData>::empty());
    assert(used@ =~= base + blocks_reads(bs@.subrange(0, 0)));
    while b < bs.len()
        invariant
            0 <= b <= bs@.len(),
            used@ == base + blocks_reads(bs@.subrange(0, b as int)),
        decreases bs.len() - b,
    {
        note_block(&bs[b], &mut used);
        assert(bs@.subrange(0, b + 1).drop_last() =~= bs@.subrange(0, b as int));
        assert(used@ =~= base + blocks_reads(bs@.subrange(0, b + 1)));
        b += 1;
    }
    assert(bs@.subrange(0, bs@.len() as int) =~= bs@);
    used
}

/// Whether computing an rvalue may have an effect (see `side_effects`).
pub fn has_side_effects(rv: &Rvalue) -> (b: bool)
    ensures
        b == side_effects(*rv),
{
    match rv {
        Rvalue::Use(_) | Rvalue::BinaryOp(..) | Rvalue::UnaryOp(..) | Rvalue::Aggregate(..) | Rvalue::Cast(..) => false,
        _ => true,
    }
}

fn stays_exec(s: &Statement, used: &HashSet<u32>) -> (b: bool)
    ensures
        b == stays(*s, used@),
{
    match s {
        Statement::Assign(p, rv) => used.contains(&p.local.0) || has_side_effects(rv),
        _ => true,
    }
}

fn drop_dead(block: &mut BasicBlockData, used: &HashSet<u32>)
    ensures
        final(block).statements@ == kept(old(block).statements@, used@),
        final(block).terminator == old(block).terminator,
        final(block).is_cleanup == old(block).is_cleanup,
{
    let mut old_stmts = Vec::new();
    std::mem::swap(&mut block.statements, &mut old_stmts);
    let ghost start = old_stmts@;
    let n = old_stmts.len();
    let mut out: Vec<Statement> = Vec::new();
    let mut i: usize = 0;
    assert(start.subrange(0, 0) =~= Seq::<Statement>::empty());
    while i < n
        invariant
            n == start.len(),
            0 <= i <= n,
            old_stmts@.len() == n,
            forall|j: int| i <= j < n ==> #[trigger] old_stmts@[j] == start[j],
            out@ == kept(start.subrange(0, i as int), used@),
        decreases n - i,
    {
        let mut s = Statement::Nop;
        std::mem::swap(&mut old_stmts[i], &mut s);
        assert(start.subrange(0, i + 1).drop_last() =~= start.subrange(0, i as int));
        if stays_exec(&s, used) {
            out.push(s);
        }
        i += 1;
    }
    assert(start.subrange(0, n as int) =~= start);
    block.statements = out;
}

impl DeadCodeElimination {
    /// The pass's name.
    pub fn name(&self) -> (s: &'static str)
        ensures
            s@ == "dead_code_elimination"@,
    {
        "dead_code_elimination"
    }

    /// Removes, in every block, each assignment to a local outside
    /// `used_locals` whose rvalue has no effect.
    pub fn run(&self, body: &mut MirBody)
        ensures
            without_dead_code(*old(body), *final(body)),
    {
        let used = find_used_locals(body);
        let ghost start = *body;
        let n = body.basic_blocks.len();
        let mut b: usize = 0;
        while b < n
            invariant
                n == start.basic_blocks@.len(),
                0 <= b <= n,
                used@ == used_locals(start),
                body.basic_blocks@.len() == n,
                body.local_decls == start.local_decls,
                body.arg_count == start.arg_count,
                body.span == start.span,
                forall|j: int| 0 <= j < b ==> {
                    &&& #[trigger] body.basic_blocks@[j].statements@ == kept(start.basic_blocks@[j].statements@, used_locals(start))
                    &&& body.basic_blocks@[j].terminator == start.basic_blocks@[j].terminator
                    &&& body.basic_blocks@[j].is_cleanup == start.basic_blocks@[j].is_cleanup
                },
                forall|j: int| b <= j < n ==> #[trigger] body.basic_blocks@[j] == start.basic_blocks@[j],
            decreases n - b,
        {
            drop_dead(&mut body.basic_blocks[b], &used);
            b += 1;
        }
    }
}


/// Operand `o` reads local `l` (directly or through a projection).
pub open spec fn operand_reads_local(o: Operand, l: u32) -> bool {
    o.place() matches Some(q) && q.local.0 == l
}

/// Some part of `body` reads local `l`: a block's terminator (a switch on
/// it, a call of it or with it as an argument, or a return when `l` is the
/// return place), or an operand of an assignment's operation or use.
pub open spec fn body_reads_local(body: MirBody, l: u32) -> bool {
    exists|c: int| 0 <= c < body.basic_blocks@.len() && {
        let blk = #[trigger] body.basic_blocks@[c];
        ||| match blk.terminator {
            Some(t) => match t.kind {
                TerminatorKind::SwitchInt { discr, .. } => operand_reads_local(discr, l),
                TerminatorKind::Call { func, args, .. } => operand_reads_local(func, l)
                    || exists|i: int| 0 <= i < args@.len() && operand_reads_local(#[trigger] args@[i], l),
                TerminatorKind::Return => l == 0,
                _ => false,
            },
            None => false,
        }
        ||| exists|j: int| 0 <= j < blk.statements@.len() && match #[trigger] blk.statements@[j] {
            Statement::Assign(_, Rvalue::Use(o)) => operand_reads_local(o, l),
            Statement::Assign(_, Rvalue::BinaryOp(_, x, y)) => operand_reads_local(*x, l) || operand_reads_local(*y, l),
            Statement::Assign(_, Rvalue::UnaryOp(_, x)) => operand_reads_local(*x, l),
            Statement::Assign(_, Rvalue::Aggregate(_, ops)) => exists|i: int| 0 <= i < ops@.len()
                && operand_reads_local(#[trigger] ops@[i], l),
            _ => false,
        }
    }
}

proof fn lemma_operands_reads_has(ops: Seq<Operand>, i: int, l: u32)
    requires
        0 <= i < ops.len(),
        operand_reads_local(ops[i], l),
    ensures
        operands_reads(ops).contains(l),
    decreases ops.len(),
{
    if i < ops.len() - 1 {
        lemma_operands_reads_has(ops.drop_last(), i, l);
    }
}

proof fn lemma_statements_reads_has(ss: Seq<Statement>, j: int, l: u32)
    requires
        0 <= j < ss.len(),
        statement_reads(ss[j]).contains(l),
    ensures
        statements_reads(ss).contains(l),
    decreases ss.len(),
{
    if j < ss.len() - 1 {
        lemma_statements_reads_has(ss.drop_last(), j, l);
    }
}

proof fn lemma_blocks_reads_has(bs: Seq<BasicBlockData>, c: int, l: u32)
    requires
        0 <= c < bs.len(),
        statements_reads(bs[c].statements@).contains(l) || terminator_reads(bs[c].terminator).contains(l),
    ensures
        blocks_reads(bs).contains(l),
    decreases bs.len(),
{
    if c < bs.len() - 1 {
        lemma_blocks_reads_has(bs.drop_last(), c, l);
    }
}

proof fn lemma_kept_has(ss: Seq<Statement>, used: Set<u32>, k: int)
    requires
        0 <= k < ss.len(),
        stays(ss[k], used),
    ensures
        kept(ss, used).contains(ss[k]),
    decreases ss.len(),
{
    if k < ss.len() - 1 {
        lemma_kept_has(ss.drop_last(), used, k);
        let kd = kept(ss.drop_last(), used);
        let j = choose|j: int| 0 <= j < kd.len() && kd[j] == ss[k];
        if stays(ss.last(), used) {
            assert(kept(ss, used)[j] == ss[k]);
        }
    } else {
        assert(kept(ss, used).last() == ss[k]);
    }
}

/// Dead code elimination never removes an assignment to a local that the
/// body reads: not when a terminator reads it (a switch's discriminant, a
/// call's function or arguments, the return place on return), nor when an
/// operand of some assignment reads it; nor an assignment to the return
/// place or an argument.
pub proof fn law_dce_keeps_read_assignments(old: MirBody, new: MirBody, b: int, k: int)
    requires
        without_dead_code(old, new),
        0 <= b < old.basic_blocks@.len(),
        0 <= k < old.basic_blocks@[b].statements@.len(),
        old.basic_blocks@[b].statements@[k] matches Statement::Assign(p, _)
            && (body_reads_local(old, p.local.0) || p.local.0 <= old.arg_count),
    ensures
        new.basic_blocks@[b].statements@.contains(old.basic_blocks@[b].statements@[k]),
{
    let s = old.basic_blocks@[b].statements@[k];
    let l = s->Assign_0.local.0;
    let used = used_locals(old);
    if l as int <= old.arg_count {
        assert(used.contains(l));
    } else {
        let c = choose|c: int| 0 <= c < old.basic_blocks@.len() && {
            let blk = #[trigger] old.basic_blocks@[c];
            ||| match blk.terminator {
                Some(t) => match t.kind {
                    TerminatorKind::SwitchInt { discr, .. } => operand_reads_local(discr, l),
                    TerminatorKind::Call { func, args, .. } => operand_reads_local(func, l)
                        || exists|i: int| 0 <= i < args@.len() && operand_reads_local(#[trigger] args@[i], l),
                    TerminatorKind::Return => l == 0,
                    _ => false,
                },
                None => false,
            }
            ||| exists|j: int| 0 <= j < blk.statements@.len() && match #[trigger] blk.statements@[j] {
                Statement::Assign(_, Rvalue::Use(o)) => operand_reads_local(o, l),
                Statement::Assign(_, Rvalue::BinaryOp(_, x, y)) => operand_reads_local(*x, l) || operand_reads_local(*y, l),
                Statement::Assign(_, Rvalue::UnaryOp(_, x)) => operand_reads_local(*x, l),
                Statement::Assign(_, Rvalue::Aggregate(_, ops)) => exists|i: int| 0 <= i < ops@.len()
                    && operand_reads_local(#[trigger] ops@[i], l),
                _ => false,
            }
        };
        let blk = old.basic_blocks@[c];
        if terminator_reads(blk.terminator).contains(l) {
        } else {
            match blk.terminator {
                Some(t) => match t.kind {
                    TerminatorKind::Call { func, args, .. } => {
                        if !operand_reads_local(func, l) && exists|i: int| 0 <= i < args@.len() && operand_reads_local(#[trigger] args@[i], l) {
                            let i = choose|i: int| 0 <= i < args@.len() && operand_reads_local(#[trigger] args@[i], l);
                            lemma_operands_reads_has(args@, i, l);
                        }
                    },
                    _ => {},
                },
                None => {},
            }
        }
        if !terminator_reads(blk.terminator).contains(l) {
            let j = choose|j: int| 0 <= j < blk.statements@.len() && match #[trigger] blk.statements@[j] {
                Statement::Assign(_, Rvalue::Use(o)) => operand_reads_local(o, l),
                Statement::Assign(_, Rvalue::BinaryOp(_, x, y)) => operand_reads_local(*x, l) || operand_reads_local(*y, l),
                Statement::Assign(_, Rvalue::UnaryOp(_, x)) => operand_reads_local(*x, l),
                Statement::Assign(_, Rvalue::Aggregate(_, ops)) => exists|i: int| 0 <= i < ops@.len()
                    && operand_reads_local(#[trigger] ops@[i], l),
                _ => false,
            };
            match blk.statements@[j] {
                Statement::Assign(_, Rvalue::Aggregate(_, ops)) => {
                    let i = choose|i: int| 0 <= i < ops@.len() && operand_reads_local(#[trigger] ops@[i], l);
                    lemma_operands_reads_has(ops@, i, l);
                },
                _ => {},
            }
            lemma_statements_reads_has(blk.statements@, j, l);
        }
        lemma_blocks_reads_has(old.basic_blocks@, c, l);
        assert(used.contains(l));
    }
    lemma_kept_has(old.basic_blocks@[b].statements@, used, k);
}


/// Some assignment of `ss` reads `l` through an operand of its operation.
pub open spec fn statements_read_local(ss: Seq<Statement>, l: u32) -> bool {
    exists|j: int| 0 <= j < ss.len() && match #[trigger] ss[j] {
        Statement::Assign(_, Rvalue::Use(o)) => operand_reads_local(o, l),
        Statement::Assign(_, Rvalue::BinaryOp(_, x, y)) => operand_reads_local(*x, l) || operand_reads_local(*y, l),
        Statement::Assign(_, Rvalue::UnaryOp(_, x)) => operand_reads_local(*x, l),
        Statement::Assign(_, Rvalue::Aggregate(_, ops)) => exists|i: int| 0 <= i < ops@.len()
            && operand_reads_local(#[trigger] ops@[i], l),
        _ => false,
    }
}

proof fn lemma_operands_reads_from(ops: Seq<Operand>, l: u32)
    requires
        operands_reads(ops).contains(l),
    ensures
        exists|i: int| 0 <= i < ops.len() && operand_reads_local(#[trigger] ops[i], l),
    decreases ops.len(),
{
    if operands_reads(ops.drop_last()).contains(l) {
        lemma_operands_reads_from(ops.drop_last(), l);
        let i = choose|i: int| 0 <= i < ops.drop_last().len() && operand_reads_local(#[trigger] ops.drop_last()[i], l);
        assert(ops[i] == ops.drop_last()[i]);
    } else {
        assert(operand_reads_local(ops[ops.len() - 1], l));
    }
}

proof fn lemma_statements_reads_from(ss: Seq<Statement>, l: u32)
    requires
        statements_reads(ss).contains(l),
    ensures
        statements_read_local(ss, l),
    decreases ss.len(),
{
    if statements_reads(ss.drop_last()).contains(l) {
        lemma_statements_reads_from(ss.drop_last(), l);
        let j = choose|j: int| 0 <= j < ss.drop_last().len() && match #[trigger] ss.drop_last()[j] {
            Statement::Assign(_, Rvalue::Use(o)) => operand_reads_local(o, l),
            Statement::Assign(_, Rvalue::BinaryOp(_, x, y)) => operand_reads_local(*x, l) || operand_reads_local(*y, l),
            Statement::Assign(_, Rvalue::UnaryOp(_, x)) => operand_reads_local(*x, l),
            Statement::Assign(_, Rvalue::Aggregate(_, ops)) => exists|i: int| 0 <= i < ops@.len()
                && operand_reads_local(#[trigger] ops@[i], l),
            _ => false,
        };
        assert(ss[j] == ss.drop_last()[j]);
    } else {
        let j = ss.len() - 1;
        match ss[j] {
            Statement::Assign(_, Rvalue::Aggregate(_, ops)) => {
                lemma_operands_reads_from(ops@, l);
            },
            _ => {},
        }
        assert(ss[j] == ss.last());
    }
}

proof fn lemma_blocks_reads_from(bs: Seq<BasicBlockData>, l: u32)
    requires
        blocks_reads(bs).contains(l),
    ensures
        exists|c: int| 0 <= c < bs.len() && (statements_read_local((#[trigger] bs[c]).statements@, l)
            || terminator_reads(bs[c].terminator).contains(l)),
    decreases bs.len(),
{
    if blocks_reads(bs.drop_last()).contains(l) {
        lemma_blocks_reads_from(bs.drop_last(), l);
        let c = choose|c: int| 0 <= c < bs.drop_last().len() && (statements_read_local((#[trigger] bs.drop_last()[c]).statements@, l)
            || terminator_reads(bs.drop_last()[c].terminator).contains(l));
        assert(bs[c] == bs.drop_last()[c]);
    } else {
        let c = bs.len() - 1;
        assert(bs[c] == bs.last());
        if statements_reads(bs[c].statements@).contains(l) {
            lemma_statements_reads_from(bs[c].statements@, l);
        }
    }
}

proof fn lemma_kept_only_staying(ss: Seq<Statement>, used: Set<u32>, s: Statement)
    requires
        kept(ss, used).contains(s),
    ensures
        stays(s, used),
    decreases ss.len(),
{
    if ss.len() > 0 {
        let kd = kept(ss.drop_last(), used);
        if kd.contains(s) {
            lemma_kept_only_staying(ss.drop_last(), used, s);
        } else {
            let j = choose|j: int| 0 <= j < kept(ss, used).len() && kept(ss, used)[j] == s;
            assert(stays(ss.last(), used) && j == kd.len());
        }
    }
}

/// Dead code elimination removes every assignment, of an operation, a use,
/// a cast or an aggregate, to a local that is neither the return place nor
/// an argument and that nothing in the body reads: no terminator (switch,
/// call, return) and no operand of an assignment.
pub proof fn law_dce_removes_unread_assignments(old: MirBody, new: MirBody, b: int, k: int)
    requires
        without_dead_code(old, new),
        0 <= b < old.basic_blocks@.len(),
        0 <= k < old.basic_blocks@[b].statements@.len(),
        old.basic_blocks@[b].statements@[k] matches Statement::Assign(p, rv)
            && (rv is Use || rv is BinaryOp || rv is UnaryOp || rv is Cast || rv is Aggregate)
            && !body_reads_local(old, p.local.0) && p.local.0 > old.arg_count,
    ensures
        !new.basic_blocks@[b].statements@.contains(old.basic_blocks@[b].statements@[k]),
{
    let s = old.basic_blocks@[b].statements@[k];
    let l = s->Assign_0.local.0;
    let used = used_locals(old);
    if used.contains(l) {
        lemma_blocks_reads_from(old.basic_blocks@, l);
        let c = choose|c: int| 0 <= c < old.basic_blocks@.len() && (statements_read_local((#[trigger] old.basic_blocks@[c]).statements@, l)
            || terminator_reads(old.basic_blocks@[c].terminator).contains(l));
        let blk = old.basic_blocks@[c];
        if terminator_reads(blk.terminator).contains(l) {
            match blk.terminator {
                Some(t) => match t.kind {
                    TerminatorKind::Call { func, args, .. } => {
                        if !operand_reads_local(func, l) {
                            lemma_operands_reads_from(args@, l);
                        }
                    },
                    _ => {},
                },
                None => {},
            }
        }
        assert(body_reads_local(old, l));
    }
    if new.basic_blocks@[b].statements@.contains(s) {
        lemma_kept_only_staying(old.basic_blocks@[b].statements@, used, s);
    }
}

} // verus!
