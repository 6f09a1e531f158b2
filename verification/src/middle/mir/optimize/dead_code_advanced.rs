//! Dead code elimination to a fixpoint: a local is live when the return
//! place, an argument or a terminator needs it, or an assignment to a live
//! local reads it; dead assignments and storage markers of dead locals go,
//! then blocks the entry cannot reach, and this repeats while statements
//! are removed.

use vstd::prelude::*;
use std::collections::HashMap;
use crate::middle::mir::{
    BasicBlockData, Local, MirBody, Operand, Place, PlaceElem, Rvalue, Statement, Terminator, TerminatorKind,
};
use crate::middle::mir::optimize::simplify_cfg::{
    count_true, find_reachable_blocks, lemma_count_true_bound, pruned, reachable, remove_unreachable_blocks, total_statements,
};

verus! {

broadcast use vstd::std_specs::hash::group_hash_axioms;

/// The advanced dead code elimination pass: the liveness table of the named
/// locals, the locals written by effectful assignments, and what it removed.
#[derive(Debug)]
pub struct AdvancedDeadCodeElimination {
    used_locals: HashMap<u32, bool>,
    has_side_effects: HashMap<u32, bool>,
    removed_count: usize,
    blocks_removed: usize,
}

impl AdvancedDeadCodeElimination {
    pub closed spec fn removed(&self) -> nat {
        self.removed_count as nat
    }

    pub closed spec fn blocks(&self) -> nat {
        self.blocks_removed as nat
    }

    pub fn new() -> (p: Self)
        ensures
            p.removed() == 0,
            p.blocks() == 0,
    {
        AdvancedDeadCodeElimination {
            used_locals: HashMap::new(),
            has_side_effects: HashMap::new(),
            removed_count: 0,
            blocks_removed: 0,
        }
    }

    /// The number of statements removed.
    pub fn removed_count(&self) -> (n: usize)
        ensures
            n == self.removed(),
    {
        self.removed_count
    }

    /// The number of blocks removed.
    pub fn blocks_removed(&self) -> (n: usize)
        ensures
            n == self.blocks(),
    {
        self.blocks_removed
    }
}

impl Default for AdvancedDeadCodeElimination {
    fn default() -> (p: Self)
        ensures
            p.removed() == 0,
            p.blocks() == 0,
    {
        AdvancedDeadCodeElimination::new()
    }
}

/// The locals a place reads: its own and those it indexes by.
pub open spec fn place_reads(p: Place) -> Set<u32> {
    Set::new(|l: u32| l == p.local.0 || exists|k: int| 0 <= k < p.projection@.len() && p.projection@[k] == PlaceElem::Index(Local(l)))
}

/// The locals an operand reads.
pub open spec fn operand_reads(o: Operand) -> Set<u32> {
    match o.place() {
        Some(p) => place_reads(p),
        None => Set::empty(),
    }
}

/// The locals a list of operands reads.
pub open spec fn operands_reads(ops: Seq<Operand>) -> Set<u32> {
    Set::new(|l: u32| exists|k: int| 0 <= k < ops.len() && operand_reads(ops[k]).contains(l))
}

/// The locals an rvalue reads.
pub open spec fn rvalue_reads(rv: Rvalue) -> Set<u32> {
    match rv {
        Rvalue::Use(o) => operand_reads(o),
        Rvalue::Copy(p) | Rvalue::Move(p) | Rvalue::Ref(p, _) | Rvalue::AddressOf(p, _) | Rvalue::Len(p) | Rvalue::Discriminant(p) => place_reads(p),
        Rvalue::BinaryOp(_, l, r) => operand_reads(*l) + operand_reads(*r),
        Rvalue::UnaryOp(_, o) => operand_reads(*o),
        Rvalue::Cast(_, o, _) => operand_reads(*o),
        Rvalue::Aggregate(_, ops) => operands_reads(ops@),
    }
}

/// The locals a terminator reads: a switch's operand, a call's callee and
/// arguments, an assertion's condition, and the return place on return.
pub open spec fn terminator_reads(t: Option<Terminator>) -> Set<u32> {
    match t {
        Some(t) => match t.kind {
            TerminatorKind::SwitchInt { discr, .. } => operand_reads(discr),
            TerminatorKind::Call { func, args, .. } => operand_reads(func) + operands_reads(args@),
            TerminatorKind::Assert { cond, .. } => operand_reads(cond),
            TerminatorKind::Return => set![0u32],
            _ => Set::empty(),
        },
        None => Set::empty(),
    }
}

/// A set of locals that holds the return place and the arguments, what
/// every terminator reads, and what each assignment to one of its locals
/// reads.
pub open spec fn closed_set(body: MirBody, t: Set<u32>) -> bool {
    &&& forall|l: u32| (l as int) <= body.arg_count ==> #[trigger] t.contains(l)
    &&& forall|b: int| 0 <= b < body.basic_blocks@.len() ==> terminator_reads((#[trigger] body.basic_blocks@[b]).terminator).subset_of(t)
    &&& forall|b: int, i: int| 0 <= b < body.basic_blocks@.len() && 0 <= i < body.basic_blocks@[b].statements@.len() ==>
        match #[trigger] body.basic_blocks@[b].statements@[i] {
            Statement::Assign(p, rv) => t.contains(p.local.0) ==> rvalue_reads(rv).subset_of(t),
            _ => true,
        }
}

/// A live local: one in every set closed as above.
pub open spec fn live(body: MirBody, l: u32) -> bool {
    forall|t: Set<u32>| #[trigger] closed_set(body, t) ==> t.contains(l)
}

/// The locals a statement names.
pub open spec fn statement_locals(s: Statement) -> Set<u32> {
    match s {
        Statement::Assign(p, rv) => set![p.local.0] + rvalue_reads(rv),
        Statement::StorageLive(l) | Statement::StorageDead(l) => set![l.0],
        _ => Set::empty(),
    }
}

/// Whether a set holds every local the body names.
pub open spec fn covers(body: MirBody, d: Set<u32>) -> bool {
    &&& forall|b: int| 0 <= b < body.basic_blocks@.len() ==> terminator_reads((#[trigger] body.basic_blocks@[b]).terminator).subset_of(d)
    &&& forall|b: int, i: int| 0 <= b < body.basic_blocks@.len() && 0 <= i < body.basic_blocks@[b].statements@.len() ==>
        statement_locals(#[trigger] body.basic_blocks@[b].statements@[i]).subset_of(d)
}

/// The locals a table marks.
pub open spec fn marked(m: Map<u32, bool>) -> Set<u32> {
    Set::new(|k: u32| m.contains_key(k) && m[k])
}

/// What touching the locals `r` does to a table: when marking, they must
/// be in it and become marked, and `changed` records whether one was not;
/// otherwise the missing ones are added unmarked.
pub open spec fn touched(old: Map<u32, bool>, new: Map<u32, bool>, r: Set<u32>, mark: bool, old_changed: bool, changed: bool) -> bool {
    if mark {
        &&& new.dom() == old.dom()
        &&& marked(new) == marked(old) + r
        &&& changed == (old_changed || !r.subset_of(marked(old)))
    } else {
        &&& new.dom() == old.dom() + r
        &&& marked(new) == marked(old)
        &&& changed == old_changed
    }
}

fn touch(l: u32, m: &mut HashMap<u32, bool>, mark: bool, changed: &mut bool)
    requires
        mark ==> old(m)@.contains_key(l),
    ensures
        touched(old(m)@, final(m)@, set![l], mark, *old(changed), *final(changed)),
{
    if mark {
        let was = match m.get(&l) {
            Some(v) => *v,
            None => true,
        };
        if !was {
            m.insert(l, true);
            *changed = true;
        }
    } else {
        if !m.contains_key(&l) {
            m.insert(l, false);
        }
    }
    proof {
        assert(m@.dom() =~= if mark { old(m)@.dom() } else { old(m)@.dom() + set![l] });
        assert(marked(m@) =~= if mark { marked(old(m)@) + set![l] } else { marked(old(m)@) });
        if mark && !set![l].subset_of(marked(old(m)@)) {
            assert(!marked(old(m)@).contains(l));
        }
    }
}

proof fn lemma_touched_compose(m0: Map<u32, bool>, m1: Map<u32, bool>, m2: Map<u32, bool>, r1: Set<u32>, r2: Set<u32>, mark: bool, c0: bool, c1: bool, c2: bool)
    requires
        touched(m0, m1, r1, mark, c0, c1),
        touched(m1, m2, r2, mark, c1, c2),
    ensures
        touched(m0, m2, r1 + r2, mark, c0, c2),
{
    if mark {
        assert(marked(m2) =~= marked(m0) + (r1 + r2));
        if !(r1 + r2).subset_of(marked(m0)) {
            if r1.subset_of(marked(m0)) {
                let x = choose|x: u32| (r1 + r2).contains(x) && !marked(m0).contains(x);
                assert(r2.contains(x));
                assert(!marked(m1).contains(x)) by {
                    assert(marked(m1) =~= marked(m0) + r1);
                }
            }
        } else {
            assert(r1.subset_of(marked(m0)));
            assert(marked(m1) =~= marked(m0));
        }
    } else {
        assert(m2.dom() =~= m0.dom() + (r1 + r2));
    }
}

fn touch_place(p: &Place, m: &mut HashMap<u32, bool>, mark: bool, changed: &mut bool)
    requires
        mark ==> place_reads(*p).subset_of(old(m)@.dom()),
    ensures
        touched(old(m)@, final(m)@, place_reads(*p), mark, *old(changed), *final(changed)),
{
    let ghost m0 = m@;
    let ghost c0 = *changed;
    assert(place_reads(*p).contains(p.local.0));
    touch(p.local.0, m, mark, changed);
    assert(Set::new(|x: u32| x == p.local.0 || exists|j: int| 0 <= j < 0 && p.projection@[j] == PlaceElem::Index(Local(x)))
        =~= set![p.local.0]);
    let mut k: usize = 0;
    while k < p.projection.len()
        invariant
            0 <= k <= p.projection@.len(),
            mark ==> place_reads(*p).subset_of(m0.dom()),
            touched(m0, m@, Set::new(|x: u32| x == p.local.0 || exists|j: int| 0 <= j < k && p.projection@[j] == PlaceElem::Index(Local(x))),
                mark, c0, *changed),
        decreases p.projection.len() - k,
    {
        let ghost m1 = m@;
        let ghost c1 = *changed;
        let ghost r1 = Set::new(|x: u32| x == p.local.0 || exists|j: int| 0 <= j < k && p.projection@[j] == PlaceElem::Index(Local(x)));
        let ghost r2 = Set::new(|x: u32| x == p.local.0 || exists|j: int| 0 <= j < k + 1 && p.projection@[j] == PlaceElem::Index(Local(x)));
        if let PlaceElem::Index(l) = p.projection[k] {
            proof {
                assert(place_reads(*p).contains(l.0)) by {
                    assert(p.projection@[k as int] == PlaceElem::Index(Local(l.0)));
                }
                if mark {
                    assert(m1.dom() == m0.dom());
                }
            }
            touch(l.0, m, mark, changed);
            proof {
                lemma_touched_compose(m0, m1, m@, r1, set![l.0], mark, c0, c1, *changed);
                assert(r1 + set![l.0] =~= r2) by {
                    assert(p.projection@[k as int] == PlaceElem::Index(Local(l.0)));
                }
            }
        } else {
            proof {
                assert(r1 =~= r2) by {
                    assert forall|x: u32| r2.contains(x) implies r1.contains(x) by {
                        if x != p.local.0 {
                            let j = choose|j: int| 0 <= j < k + 1 && p.projection@[j] == PlaceElem::Index(Local(x));
                            if j == k {
                                assert(false);
                            }
                        }
                    }
                }
            }
        }
        k += 1;
    }
    proof {
        assert(Set::new(|x: u32| x == p.local.0 || exists|j: int| 0 <= j < p.projection@.len() && p.projection@[j] == PlaceElem::Index(Local(x)))
            =~= place_reads(*p));
    }
}

fn touch_operand(o: &Operand, m: &mut HashMap<u32, bool>, mark: bool, changed: &mut bool)
    requires
        mark ==> operand_reads(*o).subset_of(old(m)@.dom()),
    ensures
        touched(old(m)@, final(m)@, operand_reads(*o), mark, *old(changed), *final(changed)),
{
    match o {
        Operand::Copy(p) | Operand::Move(p) => touch_place(p, m, mark, changed),
        Operand::Constant(_) => {
            proof {
                assert(m@.dom() =~= m@.dom() + operand_reads(*o));
                assert(marked(m@) =~= marked(m@) + operand_reads(*o));
            }
        },
    }
}

fn touch_operands(ops: &Vec<Operand>, m: &mut HashMap<u32, bool>, mark: bool, changed: &mut bool)
    requires
        mark ==> operands_reads(ops@).subset_of(old(m)@.dom()),
    ensures
        touched(old(m)@, final(m)@, operands_reads(ops@), mark, *old(changed), *final(changed)),
{
    let ghost m0 = m@;
    let ghost c0 = *changed;
    let mut i: usize = 0;
    proof {
        assert(operands_reads(ops@.take(0)) =~= Set::<u32>::empty());
        assert(m@.dom() =~= m@.dom() + Set::<u32>::empty());
        assert(marked(m@) =~= marked(m@) + Set::<u32>::empty());
    }
    while i < ops.len()
        invariant
            0 <= i <= ops@.len(),
            mark ==> operands_reads(ops@).subset_of(m0.dom()),
            touched(m0, m@, operands_reads(ops@.take(i as int)), mark, c0, *changed),
        decreases ops.len() - i,
    {
        let ghost m1 = m@;
        let ghost c1 = *changed;
        proof {
            if mark {
                assert(operand_reads(ops@[i as int]).subset_of(m1.dom())) by {
                    assert forall|x: u32| operand_reads(ops@[i as int]).contains(x) implies m1.dom().contains(x) by {
                        assert(operands_reads(ops@).contains(x));
                    }
                }
            }
        }
        touch_operand(&ops[i], m, mark, changed);
        proof {
            lemma_touched_compose(m0, m1, m@, operands_reads(ops@.take(i as int)), operand_reads(ops@[i as int]), mark, c0, c1, *changed);
            assert(operands_reads(ops@.take(i as int)) + operand_reads(ops@[i as int]) =~= operands_reads(ops@.take(i + 1))) by {
                assert forall|x: u32| operands_reads(ops@.take(i + 1)).contains(x)
                    implies (operands_reads(ops@.take(i as int)) + operand_reads(ops@[i as int])).contains(x) by {
                    let k = choose|k: int| 0 <= k < i + 1 && #[trigger] operand_reads(ops@.take(i + 1)[k]).contains(x);
                    if k < i {
                        assert(ops@.take(i as int)[k] == ops@.take(i + 1)[k]);
                    }
                }
                assert forall|x: u32| operands_reads(ops@.take(i as int)).contains(x) implies operands_reads(ops@.take(i + 1)).contains(x) by {
                    let k = choose|k: int| 0 <= k < i && #[trigger] operand_reads(ops@.take(i as int)[k]).contains(x);
                    assert(ops@.take(i + 1)[k] == ops@.take(i as int)[k]);
                }
                assert forall|x: u32| operand_reads(ops@[i as int]).contains(x) implies operands_reads(ops@.take(i + 1)).contains(x) by {
                    assert(ops@.take(i + 1)[i as int] == ops@[i as int]);
                }
            }
        }
        i += 1;
    }
    proof { assert(ops@.take(ops@.len() as int) =~= ops@); }
}

fn touch_rvalue(rv: &Rvalue, m: &mut HashMap<u32, bool>, mark: bool, changed: &mut bool)
    requires
        mark ==> rvalue_reads(*rv).subset_of(old(m)@.dom()),
    ensures
        touched(old(m)@, final(m)@, rvalue_reads(*rv), mark, *old(changed), *final(changed)),
{
    match rv {
        Rvalue::Use(o) => touch_operand(o, m, mark, changed),
        Rvalue::Copy(p) | Rvalue::Move(p) | Rvalue::Ref(p, _) | Rvalue::AddressOf(p, _) | Rvalue::Len(p) | Rvalue::Discriminant(p) =>
            touch_place(p, m, mark, changed),
        Rvalue::BinaryOp(_, l, r) => {
            let ghost m0 = m@;
            let ghost c0 = *changed;
            touch_operand(l, m, mark, changed);
            let ghost m1 = m@;
            let ghost c1 = *changed;
            touch_operand(r, m, mark, changed);
            proof { lemma_touched_compose(m0, m1, m@, operand_reads(**l), operand_reads(**r), mark, c0, c1, *changed); }
        },
        Rvalue::UnaryOp(_, o) => touch_operand(o, m, mark, changed),
        Rvalue::Cast(_, o, _) => touch_operand(o, m, mark, changed),
        Rvalue::Aggregate(_, ops) => touch_operands(ops, m, mark, changed),
    }
}

fn touch_terminator(t: &Option<Terminator>, m: &mut HashMap<u32, bool>, mark: bool, changed: &mut bool)
    requires
        mark ==> terminator_reads(*t).subset_of(old(m)@.dom()),
    ensures
        touched(old(m)@, final(m)@, terminator_reads(*t), mark, *old(changed), *final(changed)),
{
    let ghost m0 = m@;
    let ghost c0 = *changed;
    match t {
        Some(term) => match &term.kind {
            TerminatorKind::SwitchInt { discr, .. } => touch_operand(discr, m, mark, changed),
            TerminatorKind::Call { func, args, .. } => {
                touch_operand(func, m, mark, changed);
                let ghost m1 = m@;
                let ghost c1 = *changed;
                touch_operands(args, m, mark, changed);
                proof { lemma_touched_compose(m0, m1, m@, operand_reads(*func), operands_reads(args@), mark, c0, c1, *changed); }
            },
            TerminatorKind::Assert { cond, .. } => touch_operand(cond, m, mark, changed),
            TerminatorKind::Return => {
                proof { assert(terminator_reads(*t) =~= set![0u32]); }
                touch(0, m, mark, changed);
            },
            _ => {
                proof {
                    assert(terminator_reads(*t) =~= Set::<u32>::empty());
                    assert(m@.dom() =~= m@.dom() + Set::<u32>::empty());
                    assert(marked(m@) =~= marked(m@) + Set::<u32>::empty());
                }
            },
        },
        None => {
            proof {
                assert(m@.dom() =~= m@.dom() + terminator_reads(*t));
                assert(marked(m@) =~= marked(m@) + terminator_reads(*t));
            }
        },
    }
}

fn note_statement(s: &Statement, m: &mut HashMap<u32, bool>)
    ensures
        final(m)@.dom() == old(m)@.dom() + statement_locals(*s),
        marked(final(m)@) == marked(old(m)@),
{
    let mut c = false;
    match s {
        Statement::Assign(p, rv) => {
            let ghost m0 = m@;
            touch(p.local.0, m, false, &mut c);
            let ghost m1 = m@;
            touch_rvalue(rv, m, false, &mut c);
            proof { lemma_touched_compose(m0, m1, m@, set![p.local.0], rvalue_reads(*rv), false, false, false, false); }
        },
        Statement::StorageLive(l) | Statement::StorageDead(l) => touch(l.0, m, false, &mut c),
        _ => {
            proof { assert(m@.dom() =~= m@.dom() + statement_locals(*s)); }
        },
    }
}

/// Builds the table of every local the body names, all unmarked.
fn name_locals(body: &MirBody) -> (m: HashMap<u32, bool>)
    ensures
        covers(*body, m@.dom()),
        marked(m@) == Set::<u32>::empty(),
{
    let mut m: HashMap<u32, bool> = HashMap::new();
    proof { assert(marked(m@) =~= Set::<u32>::empty()); }
    let bs = &body.basic_blocks;
    let mut b: usize = 0;
    while b < bs.len()
        invariant
            0 <= b <= bs@.len(),
            marked(m@) == Set::<u32>::empty(),
            forall|j: int| 0 <= j < b ==> terminator_reads((#[trigger] bs@[j]).terminator).subset_of(m@.dom()),
            forall|j: int, i: int| 0 <= j < b && 0 <= i < bs@[j].statements@.len() ==>
                statement_locals(#[trigger] bs@[j].statements@[i]).subset_of(m@.dom()),
        decreases bs.len() - b,
    {
        let ss = &bs[b].statements;
        let mut i: usize = 0;
        while i < ss.len()
            invariant
                0 <= i <= ss@.len(),
                b < bs@.len(),
                ss@ == bs@[b as int].statements@,
                marked(m@) == Set::<u32>::empty(),
                forall|j: int| 0 <= j < b ==> terminator_reads((#[trigger] bs@[j]).terminator).subset_of(m@.dom()),
                forall|j: int, k: int| 0 <= j < b && 0 <= k < bs@[j].statements@.len() ==>
                    statement_locals(#[trigger] bs@[j].statements@[k]).subset_of(m@.dom()),
                forall|k: int| 0 <= k < i ==> statement_locals(#[trigger] ss@[k]).subset_of(m@.dom()),
            decreases ss.len() - i,
        {
            note_statement(&ss[i], &mut m);
            i += 1;
        }
        let mut c = false;
        touch_terminator(&bs[b].terminator, &mut m, false, &mut c);
        b += 1;
    }
    m
}

/// The live locals of a body.
pub open spec fn live_set(body: MirBody) -> Set<u32> {
    Set::new(|l: u32| live(body, l))
}

proof fn lemma_base_live(body: MirBody, l: u32)
    requires
        (l as int) <= body.arg_count,
    ensures
        live(body, l),
{
    assert forall|t: Set<u32>| #[trigger] closed_set(body, t) implies t.contains(l) by {}
}

proof fn lemma_terminator_live(body: MirBody, b: int, l: u32)
    requires
        0 <= b < body.basic_blocks@.len(),
        terminator_reads(body.basic_blocks@[b].terminator).contains(l),
    ensures
        live(body, l),
{
    assert forall|t: Set<u32>| #[trigger] closed_set(body, t) implies t.contains(l) by {
        assert(terminator_reads(body.basic_blocks@[b].terminator).subset_of(t));
    }
}

proof fn lemma_assign_live(body: MirBody, b: int, i: int, p: Place, rv: Rvalue, l: u32)
    requires
        0 <= b < body.basic_blocks@.len(),
        0 <= i < body.basic_blocks@[b].statements@.len(),
        body.basic_blocks@[b].statements@[i] == Statement::Assign(p, rv),
        live(body, p.local.0),
        rvalue_reads(rv).contains(l),
    ensures
        live(body, l),
{
    assert forall|t: Set<u32>| #[trigger] closed_set(body, t) implies t.contains(l) by {
        assert(t.contains(p.local.0));
        let s = body.basic_blocks@[b].statements@[i];
        assert(match s {
            Statement::Assign(p2, rv2) => t.contains(p2.local.0) ==> rvalue_reads(rv2).subset_of(t),
            _ => true,
        });
    }
}

proof fn lemma_grows(old: Set<u32>, new: Set<u32>, dom: Set<u32>, x: u32)
    requires
        dom.finite(),
        old.subset_of(new),
        new.subset_of(dom),
        new.contains(x),
        !old.contains(x),
    ensures
        old.len() < new.len(),
        new.len() <= dom.len(),
{
    vstd::set_lib::lemma_len_subset(new, dom);
    vstd::set_lib::lemma_len_subset(old.insert(x), new);
}

/// Whether an operand goes through a projection.
pub open spec fn operand_effects(o: Operand) -> bool {
    match o.place() {
        Some(p) => p.projection@.len() > 0,
        None => false,
    }
}

/// Whether computing an rvalue is taken to have an effect: a use or an
/// operation with an operand that goes through a projection.
pub open spec fn rvalue_effects(rv: Rvalue) -> bool {
    match rv {
        Rvalue::Use(o) => operand_effects(o),
        Rvalue::BinaryOp(_, l, r) => operand_effects(*l) || operand_effects(*r),
        Rvalue::UnaryOp(_, o) => operand_effects(*o),
        _ => false,
    }
}

/// The locals some assignment with an effect writes.
pub open spec fn effect_dests(body: MirBody) -> Set<u32> {
    Set::new(|k: u32| exists|b: int, i: int| 0 <= b < body.basic_blocks@.len() && 0 <= i < body.basic_blocks@[b].statements@.len()
        && match #[trigger] body.basic_blocks@[b].statements@[i] {
            Statement::Assign(p, rv) => p.local.0 == k && rvalue_effects(rv),
            _ => false,
        })
}

fn operand_has_effects(o: &Operand) -> (r: bool)
    ensures
        r == operand_effects(*o),
{
    match o {
        Operand::Copy(p) | Operand::Move(p) => p.projection.len() > 0,
        Operand::Constant(_) => false,
    }
}

/// Whether computing an rvalue is taken to have an effect (see
/// `rvalue_effects`).
pub fn rvalue_has_side_effects(rv: &Rvalue) -> (r: bool)
    ensures
        r == rvalue_effects(*rv),
{
    match rv {
        Rvalue::Use(o) => operand_has_effects(o),
        Rvalue::BinaryOp(_, l, r) => operand_has_effects(l) || operand_has_effects(r),
        Rvalue::UnaryOp(_, o) => operand_has_effects(o),
        _ => false,
    }
}

/// The liveness table: every local the body names, marked when live.
fn live_locals(body: &MirBody) -> (m: HashMap<u32, bool>)
    ensures
        covers(*body, m@.dom()),
        forall|k: u32| #[trigger] m@.contains_key(k) ==> (m@[k] <==> live(*body, k)),
{
    let mut m = name_locals(body);
    let ghost dom0 = m@.dom();
    let top: u64 = if body.arg_count < 0xffff_ffffusize { body.arg_count as u64 } else { 0xffff_ffffu64 };
    let mut l: u64 = 0;
    let mut c = false;
    while l <= top
        invariant
            top <= 0xffff_ffff,
            top == (if body.arg_count < 0xffff_ffffusize { body.arg_count as int } else { 0xffff_ffff }),
            l <= top + 1,
            m@.dom() == dom0,
            covers(*body, dom0),
            marked(m@).subset_of(live_set(*body)),
            forall|k: u32| (k as int) < l && #[trigger] m@.contains_key(k) ==> m@[k],
        decreases top + 1 - l,
    {
        let k = l as u32;
        if m.contains_key(&k) {
            let ghost before = m@;
            touch(k, &mut m, true, &mut c);
            proof {
                assert(marked(m@) == marked(before) + set![k]);
                assert forall|x: u32| marked(m@).contains(x) implies live_set(*body).contains(x) by {
                    if x == k {
                        lemma_base_live(*body, k);
                    }
                }
                assert forall|x: u32| (x as int) < l + 1 && #[trigger] m@.contains_key(x) implies m@[x] by {
                    assert(marked(m@).contains(x) || (x as int) < l);
                    if (x as int) < l {
                        assert(marked(before).contains(x));
                    }
                }
            }
        }
        l += 1;
    }
    let mut b: usize = 0;
    while b < body.basic_blocks.len()
        invariant
            0 <= b <= body.basic_blocks@.len(),
            m@.dom() == dom0,
            covers(*body, dom0),
            marked(m@).subset_of(live_set(*body)),
            forall|k: u32| (k as int) <= body.arg_count && #[trigger] m@.contains_key(k) ==> m@[k],
            forall|j: int| 0 <= j < b ==> terminator_reads((#[trigger] body.basic_blocks@[j]).terminator).subset_of(marked(m@)),
        decreases body.basic_blocks.len() - b,
    {
        let ghost before = m@;
        proof {
            let blk = body.basic_blocks@[b as int];
            assert(terminator_reads(blk.terminator).subset_of(dom0));
        }
        touch_terminator(&body.basic_blocks[b].terminator, &mut m, true, &mut c);
        proof {
            assert forall|x: u32| marked(m@).contains(x) implies live_set(*body).contains(x) by {
                if !marked(before).contains(x) {
                    lemma_terminator_live(*body, b as int, x);
                }
            }
            assert forall|k: u32| (k as int) <= body.arg_count && #[trigger] m@.contains_key(k) implies m@[k] by {
                assert(before.contains_key(k));
                assert(marked(before).contains(k));
                assert(marked(m@).contains(k));
            }
        }
        b += 1;
    }
    proof { vstd::std_specs::hash::axiom_hashmap_view_finite_dom(m); }
    loop
        invariant
            m@.dom() == dom0,
            dom0.finite(),
            covers(*body, dom0),
            marked(m@).subset_of(live_set(*body)),
            marked(m@).subset_of(dom0),
            forall|k: u32| (k as int) <= body.arg_count && #[trigger] m@.contains_key(k) ==> m@[k],
            forall|j: int| 0 <= j < body.basic_blocks@.len() ==> terminator_reads((#[trigger] body.basic_blocks@[j]).terminator).subset_of(marked(m@)),
        ensures
            m@.dom() == dom0,
            marked(m@).subset_of(live_set(*body)),
            forall|k: u32| (k as int) <= body.arg_count && #[trigger] m@.contains_key(k) ==> m@[k],
            forall|j: int| 0 <= j < body.basic_blocks@.len() ==> terminator_reads((#[trigger] body.basic_blocks@[j]).terminator).subset_of(marked(m@)),
            forall|j: int, i: int| 0 <= j < body.basic_blocks@.len() && 0 <= i < body.basic_blocks@[j].statements@.len() ==>
                match #[trigger] body.basic_blocks@[j].statements@[i] {
                    Statement::Assign(p, rv) => marked(m@).contains(p.local.0) ==> rvalue_reads(rv).subset_of(marked(m@)),
                    _ => true,
                },
        decreases dom0.len() - marked(m@).len(),
    {
        proof { vstd::set_lib::lemma_len_subset(marked(m@), dom0); }
        let ghost start = m@;
        let mut changed = false;
        let mut j: usize = 0;
        while j < body.basic_blocks.len()
            invariant
                0 <= j <= body.basic_blocks@.len(),
                m@.dom() == dom0,
                dom0.finite(),
                covers(*body, dom0),
                marked(m@).subset_of(live_set(*body)),
                marked(m@).subset_of(dom0),
                marked(start).subset_of(marked(m@)),
                !changed ==> m@ == start,
                changed ==> marked(start).len() < marked(m@).len(),
                forall|k: u32| (k as int) <= body.arg_count && #[trigger] m@.contains_key(k) ==> m@[k],
                forall|q: int| 0 <= q < body.basic_blocks@.len() ==> terminator_reads((#[trigger] body.basic_blocks@[q]).terminator).subset_of(marked(m@)),
                !changed ==> forall|q: int, i: int| 0 <= q < j && 0 <= i < body.basic_blocks@[q].statements@.len() ==>
                    match #[trigger] body.basic_blocks@[q].statements@[i] {
                        Statement::Assign(p, rv) => marked(m@).contains(p.local.0) ==> rvalue_reads(rv).subset_of(marked(m@)),
                        _ => true,
                    },
            decreases body.basic_blocks.len() - j,
        {
            let ss = &body.basic_blocks[j].statements;
            let mut i: usize = 0;
            while i < ss.len()
                invariant
                    0 <= i <= ss@.len(),
                    j < body.basic_blocks@.len(),
                    ss@ == body.basic_blocks@[j as int].statements@,
                    m@.dom() == dom0,
                    dom0.finite(),
                    covers(*body, dom0),
                    marked(m@).subset_of(live_set(*body)),
                    marked(m@).subset_of(dom0),
                    marked(start).subset_of(marked(m@)),
                    !changed ==> m@ == start,
                    changed ==> marked(start).len() < marked(m@).len(),
                    forall|k: u32| (k as int) <= body.arg_count && #[trigger] m@.contains_key(k) ==> m@[k],
                    forall|q: int| 0 <= q < body.basic_blocks@.len() ==> terminator_reads((#[trigger] body.basic_blocks@[q]).terminator).subset_of(marked(m@)),
                    !changed ==> forall|q: int, k: int| 0 <= q < j && 0 <= k < body.basic_blocks@[q].statements@.len() ==>
                        match #[trigger] body.basic_blocks@[q].statements@[k] {
                            Statement::Assign(p, rv) => marked(m@).contains(p.local.0) ==> rvalue_reads(rv).subset_of(marked(m@)),
                            _ => true,
                        },
                    !changed ==> forall|k: int| 0 <= k < i ==>
                        match #[trigger] ss@[k] {
                            Statement::Assign(p, rv) => marked(m@).contains(p.local.0) ==> rvalue_reads(rv).subset_of(marked(m@)),
                            _ => true,
                        },
                decreases ss.len() - i,
            {
                if let Statement::Assign(p, rv) = &ss[i] {
                    let is_live = match m.get(&p.local.0) {
                        Some(v) => *v,
                        None => false,
                    };
                    if is_live {
                        let ghost before = m@;
                        let ghost was_changed = changed;
                        proof {
                            let blk = body.basic_blocks@[j as int];
                            assert(statement_locals(blk.statements@[i as int]).subset_of(dom0));
                            assert(rvalue_reads(*rv).subset_of(statement_locals(ss@[i as int])));
                        }
                        touch_rvalue(rv, &mut m, true, &mut changed);
                        proof {
                            assert forall|x: u32| marked(m@).contains(x) implies live_set(*body).contains(x) by {
                                if !marked(before).contains(x) {
                                    assert(marked(before).contains(p.local.0));
                                    lemma_assign_live(*body, j as int, i as int, *p, *rv, x);
                                }
                            }
                            if changed && !was_changed {
                                let x = choose|x: u32| rvalue_reads(*rv).contains(x) && !marked(before).contains(x);
                                lemma_grows(marked(before), marked(m@), dom0, x);
                            } else if changed {
                                vstd::set_lib::lemma_len_subset(marked(before), marked(m@));
                            } else {
                                assert(marked(m@) =~= marked(before));
                                assert forall|k: u32| #[trigger] m@.contains_key(k) implies m@[k] == before[k] by {
                                    assert(marked(m@).contains(k) == marked(before).contains(k));
                                }
                                assert(m@ =~= before);
                            }
                            assert forall|k: u32| (k as int) <= body.arg_count && #[trigger] m@.contains_key(k) implies m@[k] by {
                                assert(before.contains_key(k));
                                assert(marked(before).contains(k));
                                assert(marked(m@).contains(k));
                            }
                        }
                    }
                }
                i += 1;
            }
            j += 1;
        }
        proof { vstd::set_lib::lemma_len_subset(marked(m@), dom0); }
        if !changed {
            break;
        }
    }
    proof {
        let t = Set::new(|x: u32| !(dom0.contains(x) && !m@[x]));
        assert(closed_set(*body, t)) by {
            assert forall|l: u32| (l as int) <= body.arg_count implies #[trigger] t.contains(l) by {
                if dom0.contains(l) {
                    assert(m@.contains_key(l));
                }
            }
            assert forall|q: int| 0 <= q < body.basic_blocks@.len() implies terminator_reads((#[trigger] body.basic_blocks@[q]).terminator).subset_of(t) by {
                assert forall|x: u32| terminator_reads(body.basic_blocks@[q].terminator).contains(x) implies t.contains(x) by {
                    assert(marked(m@).contains(x));
                }
            }
            assert forall|q: int, i: int| 0 <= q < body.basic_blocks@.len() && 0 <= i < body.basic_blocks@[q].statements@.len() implies
                match #[trigger] body.basic_blocks@[q].statements@[i] {
                    Statement::Assign(p, rv) => t.contains(p.local.0) ==> rvalue_reads(rv).subset_of(t),
                    _ => true,
                } by {
                match body.basic_blocks@[q].statements@[i] {
                    Statement::Assign(p, rv) => {
                        if t.contains(p.local.0) {
                            assert(statement_locals(body.basic_blocks@[q].statements@[i]).subset_of(dom0));
                            assert(dom0.contains(p.local.0));
                            assert(marked(m@).contains(p.local.0));
                            assert forall|x: u32| rvalue_reads(rv).contains(x) implies t.contains(x) by {
                                assert(marked(m@).contains(x));
                            }
                        }
                    },
                    _ => {},
                }
            }
        }
        assert forall|k: u32| #[trigger] m@.contains_key(k) implies (m@[k] <==> live(*body, k)) by {
            if m@[k] {
                assert(marked(m@).contains(k));
                assert(live_set(*body).contains(k));
            } else {
                assert(!t.contains(k));
            }
        }
    }
    m
}

fn effect_table(body: &MirBody) -> (e: HashMap<u32, bool>)
    ensures
        e@.dom() == effect_dests(*body),
{
    let mut e: HashMap<u32, bool> = HashMap::new();
    let mut b: usize = 0;
    while b < body.basic_blocks.len()
        invariant
            0 <= b <= body.basic_blocks@.len(),
            e@.dom() == Set::new(|k: u32| exists|q: int, i: int| 0 <= q < b && 0 <= i < body.basic_blocks@[q].statements@.len()
                && match #[trigger] body.basic_blocks@[q].statements@[i] {
                    Statement::Assign(p, rv) => p.local.0 == k && rvalue_effects(rv),
                    _ => false,
                }),
        decreases body.basic_blocks.len() - b,
    {
        let ss = &body.basic_blocks[b].statements;
        let ghost prev = e@.dom();
        let mut i: usize = 0;
        while i < ss.len()
            invariant
                0 <= i <= ss@.len(),
                b < body.basic_blocks@.len(),
                ss@ == body.basic_blocks@[b as int].statements@,
                e@.dom() == prev + Set::new(|k: u32| exists|x: int| 0 <= x < i
                    && match #[trigger] ss@[x] {
                        Statement::Assign(p, rv) => p.local.0 == k && rvalue_effects(rv),
                        _ => false,
                    }),
            decreases ss.len() - i,
        {
            let ghost before = e@.dom();
            if let Statement::Assign(p, rv) = &ss[i] {
                if rvalue_has_side_effects(rv) {
                    e.insert(p.local.0, true);
                }
            }
            proof {
                assert(e@.dom() =~= prev + Set::new(|k: u32| exists|x: int| 0 <= x < i + 1
                    && match #[trigger] ss@[x] {
                        Statement::Assign(p, rv) => p.local.0 == k && rvalue_effects(rv),
                        _ => false,
                    })) by {
                    assert forall|k: u32| #[trigger] e@.dom().contains(k) implies (prev + Set::new(|k: u32| exists|x: int| 0 <= x < i + 1
                        && match #[trigger] ss@[x] {
                            Statement::Assign(p, rv) => p.local.0 == k && rvalue_effects(rv),
                            _ => false,
                        })).contains(k) by {
                        if !before.contains(k) {
                            assert(match ss@[i as int] {
                                Statement::Assign(p, rv) => p.local.0 == k && rvalue_effects(rv),
                                _ => false,
                            });
                        }
                    }
                }
            }
            i += 1;
        }
        proof {
            assert(e@.dom() =~= Set::new(|k: u32| exists|q: int, i: int| 0 <= q < b + 1 && 0 <= i < body.basic_blocks@[q].statements@.len()
                && match #[trigger] body.basic_blocks@[q].statements@[i] {
                    Statement::Assign(p, rv) => p.local.0 == k && rvalue_effects(rv),
                    _ => false,
                })) by {
                assert forall|k: u32| #[trigger] e@.dom().contains(k) implies Set::new(|k: u32| exists|q: int, i: int| 0 <= q < b + 1
                    && 0 <= i < body.basic_blocks@[q].statements@.len()
                    && match #[trigger] body.basic_blocks@[q].statements@[i] {
                        Statement::Assign(p, rv) => p.local.0 == k && rvalue_effects(rv),
                        _ => false,
                    }).contains(k) by {
                    if !prev.contains(k) {
                        let x = choose|x: int| 0 <= x < ss@.len() && match #[trigger] ss@[x] {
                            Statement::Assign(p, rv) => p.local.0 == k && rvalue_effects(rv),
                            _ => false,
                        };
                        assert(body.basic_blocks@[b as int].statements@[x] == ss@[x]);
                    }
                }
                assert forall|k: u32| Set::new(|k: u32| exists|q: int, i: int| 0 <= q < b + 1
                    && 0 <= i < body.basic_blocks@[q].statements@.len()
                    && match #[trigger] body.basic_blocks@[q].statements@[i] {
                        Statement::Assign(p, rv) => p.local.0 == k && rvalue_effects(rv),
                        _ => false,
                    }).contains(k) implies #[trigger] e@.dom().contains(k) by {
                    let (q, x) = choose|q: int, x: int| 0 <= q < b + 1 && 0 <= x < body.basic_blocks@[q].statements@.len()
                        && match #[trigger] body.basic_blocks@[q].statements@[x] {
                            Statement::Assign(p, rv) => p.local.0 == k && rvalue_effects(rv),
                            _ => false,
                        };
                    if q == b as int {
                        assert(ss@[x] == body.basic_blocks@[q].statements@[x]);
                    }
                }
            }
        }
        b += 1;
    }
    proof {
        assert(e@.dom() =~= effect_dests(*body));
    }
    e
}

/// Whether a statement survives: an assignment to a live local, to a
/// local some effectful assignment writes, or of an effectful rvalue; a
/// storage marker of a live local; inline assembly. No-ops go.
pub open spec fn survives(s: Statement, body: MirBody) -> bool {
    match s {
        Statement::Assign(p, rv) => live(body, p.local.0) || effect_dests(body).contains(p.local.0) || rvalue_effects(rv),
        Statement::StorageLive(l) | Statement::StorageDead(l) => live(body, l.0),
        Statement::InlineAsm(_) => true,
        Statement::Nop => false,
    }
}

/// The statements that survive, in order.
pub open spec fn surviving(ss: Seq<Statement>, body: MirBody) -> Seq<Statement>
    decreases ss.len(),
{
    if ss.len() == 0 {
        Seq::empty()
    } else if survives(ss.last(), body) {
        surviving(ss.drop_last(), body).push(ss.last())
    } else {
        surviving(ss.drop_last(), body)
    }
}

/// A body with every block's dead statements removed.
pub open spec fn dead_removed(old: MirBody, new: MirBody) -> bool {
    &&& new.basic_blocks@.len() == old.basic_blocks@.len()
    &&& forall|b: int| 0 <= b < old.basic_blocks@.len() ==> {
        &&& (#[trigger] new.basic_blocks@[b]).statements@ == surviving(old.basic_blocks@[b].statements@, old)
        &&& new.basic_blocks@[b].terminator == old.basic_blocks@[b].terminator
        &&& new.basic_blocks@[b].is_cleanup == old.basic_blocks@[b].is_cleanup
    }
    &&& new.local_decls == old.local_decls
    &&& new.arg_count == old.arg_count
    &&& new.span == old.span
}

/// A body with the blocks its entry cannot reach removed, counting the
/// targets of assertions as edges.
pub open spec fn unreachable_removed(old: MirBody, new: MirBody) -> bool {
    &&& exists|marks: Seq<bool>| {
        &&& marks.len() == old.basic_blocks@.len()
        &&& forall|i: int| 0 <= i < marks.len() ==> (#[trigger] marks[i] <==> reachable(old.basic_blocks@, i, true))
        &&& pruned(old.basic_blocks@, new.basic_blocks@, marks, true)
    }
    &&& new.local_decls == old.local_decls
    &&& new.arg_count == old.arg_count
    &&& new.span == old.span
}

/// A run of rounds: each removes dead statements, then unreachable
/// blocks; every round but the last removed a statement, the last none.
pub open spec fn rounds(chain: Seq<MirBody>, mids: Seq<MirBody>) -> bool {
    &&& mids.len() >= 1
    &&& chain.len() == mids.len() + 1
    &&& forall|k: int| 0 <= k < mids.len() ==> dead_removed(chain[k], #[trigger] mids[k]) && unreachable_removed(mids[k], chain[k + 1])
    &&& forall|k: int| 0 <= k < mids.len() - 1 ==>
        total_statements((#[trigger] mids[k]).basic_blocks@) < total_statements(chain[k].basic_blocks@)
    &&& total_statements(mids.last().basic_blocks@) == total_statements(chain[mids.len() - 1].basic_blocks@)
}

proof fn lemma_surviving_len(ss: Seq<Statement>, body: MirBody)
    ensures
        surviving(ss, body).len() <= ss.len(),
    decreases ss.len(),
{
    if ss.len() > 0 {
        lemma_surviving_len(ss.drop_last(), body);
    }
}

proof fn lemma_total_take(bs: Seq<BasicBlockData>, b: int)
    requires
        0 <= b < bs.len(),
    ensures
        total_statements(bs.take(b + 1)) == total_statements(bs.take(b)) + bs[b].statements@.len(),
{
    assert(bs.take(b + 1).drop_last() =~= bs.take(b));
}

impl AdvancedDeadCodeElimination {
    /// The liveness table last computed.
    pub closed spec fn used_table(&self) -> Map<u32, bool> {
        self.used_locals@
    }

    /// The locals last found written by effectful assignments.
    pub closed spec fn effect_table(&self) -> Set<u32> {
        self.has_side_effects@.dom()
    }

    /// Whether the tables describe `body`.
    pub open spec fn describes(&self, body: MirBody) -> bool {
        &&& covers(body, self.used_table().dom())
        &&& forall|k: u32| #[trigger] self.used_table().contains_key(k) ==> (self.used_table()[k] <==> live(body, k))
        &&& self.effect_table() == effect_dests(body)
    }

    /// Computes which locals are live and which are written with effects.
    pub fn find_all_used_locals(&mut self, body: &MirBody)
        ensures
            final(self).describes(*body),
            final(self).removed() == old(self).removed(),
            final(self).blocks() == old(self).blocks(),
    {
        self.used_locals = live_locals(body);
        self.has_side_effects = effect_table(body);
    }

    fn survives_exec(&self, s: &Statement, Ghost(body): Ghost<MirBody>) -> (r: bool)
        requires
            self.describes(body),
            statement_locals(*s).subset_of(self.used_table().dom()),
        ensures
            r == survives(*s, body),
    {
        match s {
            Statement::Assign(p, rv) => {
                assert(self.used_table().contains_key(p.local.0));
                let used = match self.used_locals.get(&p.local.0) {
                    Some(v) => *v,
                    None => false,
                };
                used || self.has_side_effects.contains_key(&p.local.0) || rvalue_has_side_effects(rv)
            },
            Statement::StorageLive(l) | Statement::StorageDead(l) => {
                assert(self.used_table().contains_key(l.0));
                match self.used_locals.get(&l.0) {
                    Some(v) => *v,
                    None => false,
                }
            },
            Statement::InlineAsm(_) => true,
            Statement::Nop => false,
        }
    }

    /// Removes the dead statements of every block and counts them.
    pub fn remove_dead_statements(&mut self, body: &mut MirBody)
        requires
            old(self).describes(*old(body)),
            old(self).removed() + total_statements(old(body).basic_blocks@) <= usize::MAX,
        ensures
            dead_removed(*old(body), *final(body)),
            final(self).removed() + total_statements(final(body).basic_blocks@)
                == old(self).removed() + total_statements(old(body).basic_blocks@),
            final(self).blocks() == old(self).blocks(),
            final(self).used_table() == old(self).used_table(),
            final(self).effect_table() == old(self).effect_table(),
    {
        let ghost start = *body;
        let ghost r0 = self.removed();
        let n = body.basic_blocks.len();
        let mut b: usize = 0;
        proof { assert(start.basic_blocks@.take(0) =~= Seq::<BasicBlockData>::empty()); }
        while b < n
            invariant
                n == start.basic_blocks@.len(),
                0 <= b <= n,
                self.describes(start),
                r0 + total_statements(start.basic_blocks@) <= usize::MAX,
                body.basic_blocks@.len() == n,
                body.local_decls == start.local_decls,
                body.arg_count == start.arg_count,
                body.span == start.span,
                self.used_table() == old(self).used_table(),
                self.effect_table() == old(self).effect_table(),
                self.blocks() == old(self).blocks(),
                forall|j: int| 0 <= j < b ==> {
                    &&& (#[trigger] body.basic_blocks@[j]).statements@ == surviving(start.basic_blocks@[j].statements@, start)
                    &&& body.basic_blocks@[j].terminator == start.basic_blocks@[j].terminator
                    &&& body.basic_blocks@[j].is_cleanup == start.basic_blocks@[j].is_cleanup
                },
                forall|j: int| b <= j < n ==> #[trigger] body.basic_blocks@[j] == start.basic_blocks@[j],
                self.removed() + total_statements(body.basic_blocks@.take(b as int)) == r0 + total_statements(start.basic_blocks@.take(b as int)),
            decreases n - b,
        {
            proof {
                lemma_total_take(start.basic_blocks@, b as int);
                lemma_total_bound(start.basic_blocks@, b as int + 1);
            }
            let ghost body_before = body.basic_blocks@;
            let mut old_stmts: Vec<Statement> = Vec::new();
            std::mem::swap(&mut body.basic_blocks[b].statements, &mut old_stmts);
            let ghost src = old_stmts@;
            let original_len = old_stmts.len();
            let mut out: Vec<Statement> = Vec::new();
            let mut i: usize = 0;
            proof { assert(src.take(0) =~= Seq::<Statement>::empty()); }
            while i < original_len
                invariant
                    original_len == src.len(),
                    src == start.basic_blocks@[b as int].statements@,
                    b < n,
                    n == start.basic_blocks@.len(),
                    self.describes(start),
                    0 <= i <= original_len,
                    old_stmts@.len() == original_len,
                    forall|j: int| i <= j < original_len ==> #[trigger] old_stmts@[j] == src[j],
                    out@ == surviving(src.take(i as int), start),
                decreases original_len - i,
            {
                let mut st = Statement::Nop;
                std::mem::swap(&mut old_stmts[i], &mut st);
                proof {
                    assert(src.take(i + 1).drop_last() =~= src.take(i as int));
                    let blk = start.basic_blocks@[b as int];
                    assert(statement_locals(blk.statements@[i as int]).subset_of(self.used_table().dom()));
                }
                if self.survives_exec(&st, Ghost(start)) {
                    out.push(st);
                }
                i += 1;
            }
            proof {
                assert(src.take(original_len as int) =~= src);
                lemma_surviving_len(src, start);
            }
            let kept_len = out.len();
            body.basic_blocks[b].statements = out;
            self.removed_count = self.removed_count + (original_len - kept_len);
            proof {
                assert(body.basic_blocks@.take(b as int) =~= body_before.take(b as int));
                lemma_total_take(body.basic_blocks@, b as int);
            }
            b += 1;
        }
        proof {
            assert(body.basic_blocks@.take(n as int) =~= body.basic_blocks@);
            assert(start.basic_blocks@.take(n as int) =~= start.basic_blocks@);
        }
    }

    /// Removes the blocks the entry cannot reach (assertion targets count
    /// as edges) and records how many went.
    pub fn remove_unreachable_blocks(&mut self, body: &mut MirBody)
        requires
            old(body).basic_blocks@.len() <= u32::MAX,
        ensures
            unreachable_removed(*old(body), *final(body)),
            final(self).blocks() == old(body).basic_blocks@.len() - final(body).basic_blocks@.len(),
            total_statements(final(body).basic_blocks@) <= total_statements(old(body).basic_blocks@),
            final(self).removed() == old(self).removed(),
            final(self).used_table() == old(self).used_table(),
            final(self).effect_table() == old(self).effect_table(),
    {
        let ghost start = *body;
        let original_len = body.basic_blocks.len();
        let marks = find_reachable_blocks(body, true);
        proof { lemma_count_true_bound(marks@); }
        remove_unreachable_blocks(body, &marks, true);
        self.blocks_removed = original_len - body.basic_blocks.len();
        proof {
            assert(unreachable_removed(start, *body)) by {
                assert(pruned(start.basic_blocks@, body.basic_blocks@, marks@, true));
            }
        }
    }

    /// The pass's name.
    pub fn name(&self) -> (s: &'static str)
        ensures
            s@ == "advanced_dead_code_elimination"@,
    {
        "advanced_dead_code_elimination"
    }

    /// Repeats rounds of liveness, dead statement removal and unreachable
    /// block removal until a round removes no statement.
    pub fn run(&self, body: &mut MirBody)
        requires
            old(body).basic_blocks@.len() <= u32::MAX,
            total_statements(old(body).basic_blocks@) <= usize::MAX,
        ensures
            exists|chain: Seq<MirBody>, mids: Seq<MirBody>|
                rounds(chain, mids) && chain[0] == *old(body) && chain.last() == *final(body),
    {
        let mut this = AdvancedDeadCodeElimination::new();
        let ghost start = *body;
        let ghost mut chain: Seq<MirBody> = seq![start];
        let ghost mut mids: Seq<MirBody> = Seq::empty();
        loop
            invariant_except_break
                forall|k: int| 0 <= k < mids.len() ==>
                    total_statements((#[trigger] mids[k]).basic_blocks@) < total_statements(chain[k].basic_blocks@),
            invariant
                body.basic_blocks@.len() <= u32::MAX,
                this.removed() + total_statements(body.basic_blocks@) <= total_statements(start.basic_blocks@),
                total_statements(start.basic_blocks@) <= usize::MAX,
                chain.len() == mids.len() + 1,
                chain[0] == start,
                chain.last() == *body,
                forall|k: int| 0 <= k < mids.len() ==> dead_removed(chain[k], #[trigger] mids[k]) && unreachable_removed(mids[k], chain[k + 1]),
            ensures
                rounds(chain, mids),
                chain[0] == start,
                chain.last() == *body,
            decreases total_statements(body.basic_blocks@),
        {
            let prev = this.removed_count;
            let ghost before = *body;
            this.find_all_used_locals(body);
            this.remove_dead_statements(body);
            let ghost mid = *body;
            proof { lemma_dead_removed_len(before, mid); }
            this.remove_unreachable_blocks(body);
            proof {
                let c2 = chain.push(*body);
                let m2 = mids.push(mid);
                assert forall|k: int| 0 <= k < m2.len() implies dead_removed(c2[k], #[trigger] m2[k]) && unreachable_removed(m2[k], c2[k + 1]) by {
                    if k < mids.len() {
                        assert(c2[k] == chain[k] && m2[k] == mids[k] && c2[k + 1] == chain[k + 1]);
                    }
                }
                if this.removed_count == prev {
                    assert forall|k: int| 0 <= k < m2.len() - 1 implies
                        total_statements((#[trigger] m2[k]).basic_blocks@) < total_statements(c2[k].basic_blocks@) by {
                        assert(m2[k] == mids[k] && c2[k] == chain[k]);
                    }
                    assert(c2[m2.len() - 1] == before);
                    assert(rounds(c2, m2));
                } else {
                    assert forall|k: int| 0 <= k < m2.len() implies
                        total_statements((#[trigger] m2[k]).basic_blocks@) < total_statements(c2[k].basic_blocks@) by {
                        if k < mids.len() {
                            assert(m2[k] == mids[k] && c2[k] == chain[k]);
                        }
                    }
                }
                chain = c2;
                mids = m2;
            }
            if this.removed_count == prev {
                break;
            }
        }
    }
}

proof fn lemma_total_bound(bs: Seq<BasicBlockData>, b: int)
    requires
        0 <= b <= bs.len(),
    ensures
        total_statements(bs.take(b)) <= total_statements(bs),
    decreases bs.len() - b,
{
    if b < bs.len() {
        lemma_total_bound(bs, b + 1);
        lemma_total_take(bs, b);
    } else {
        assert(bs.take(b) =~= bs);
    }
}

proof fn lemma_dead_removed_len(old: MirBody, new: MirBody)
    requires
        dead_removed(old, new),
    ensures
        total_statements(new.basic_blocks@) <= total_statements(old.basic_blocks@),
{
    lemma_dead_removed_prefix(old, new, old.basic_blocks@.len() as int);
    assert(old.basic_blocks@.take(old.basic_blocks@.len() as int) =~= old.basic_blocks@);
    assert(new.basic_blocks@.take(new.basic_blocks@.len() as int) =~= new.basic_blocks@);
}

proof fn lemma_dead_removed_prefix(old: MirBody, new: MirBody, b: int)
    requires
        dead_removed(old, new),
        0 <= b <= old.basic_blocks@.len(),
    ensures
        total_statements(new.basic_blocks@.take(b)) <= total_statements(old.basic_blocks@.take(b)),
    decreases b,
{
    if b > 0 {
        lemma_dead_removed_prefix(old, new, b - 1);
        lemma_total_take(old.basic_blocks@, b - 1);
        lemma_total_take(new.basic_blocks@, b - 1);
        lemma_surviving_len(old.basic_blocks@[b - 1].statements@, old);
    } else {
        assert(old.basic_blocks@.take(0) =~= Seq::<BasicBlockData>::empty());
        assert(new.basic_blocks@.take(0) =~= Seq::<BasicBlockData>::empty());
    }
}

} // verus!
