//! The move state of locals, and the dataflow equations by which the
//! borrow checker follows moves through a body.

use vstd::prelude::*;
use crate::middle::borrowck::BorrowErrorModel;
use crate::middle::borrowck::flow::{flows, names};
use crate::middle::borrowck::loan::MoveState;
use crate::middle::mir::{BasicBlock, BasicBlockData, Local, Operand, Rvalue, Statement};

verus! {

/// A finite map from locals to move states, as a list of entries with
/// distinct locals.
pub struct MoveMap {
    entries: Vec<(Local, MoveState)>,
}

impl View for MoveMap {
    type V = Map<Local, MoveState>;

    closed spec fn view(&self) -> Map<Local, MoveState> {
        Map::new(|k: Local| exists|i: int| 0 <= i < self.entries@.len() && self.entries@[i].0 == k,
            |k: Local| self.entries@[choose|i: int| 0 <= i < self.entries@.len() && self.entries@[i].0 == k].1)
    }
}

impl MoveMap {
    /// Entries have distinct locals.
    pub closed spec fn wf(&self) -> bool {
        forall|i: int, j: int| 0 <= i < j < self.entries@.len() ==> (#[trigger] self.entries@[i]).0 != (#[trigger] self.entries@[j]).0
    }

    /// The number of entries.
    pub closed spec fn size(&self) -> nat {
        self.entries@.len()
    }

    /// The local of entry `i`.
    pub closed spec fn key_at(&self, i: int) -> Local {
        self.entries@[i].0
    }

    pub fn new() -> (t: MoveMap)
        ensures
            t.wf(),
            t@ == Map::<Local, MoveState>::empty(),
    {
        let t = MoveMap { entries: Vec::new() };
        assert(t@ =~= Map::<Local, MoveState>::empty());
        t
    }

    fn position(&self, local: Local) -> (r: Option<usize>)
        requires
            self.wf(),
        ensures
            match r {
                Some(i) => i < self.entries@.len() && self.entries@[i as int].0 == local,
                None => !self@.contains_key(local),
            },
    {
        let mut i: usize = 0;
        while i < self.entries.len()
            invariant
                0 <= i <= self.entries@.len(),
                forall|j: int| 0 <= j < i ==> (#[trigger] self.entries@[j]).0 != local,
            decreases self.entries.len() - i,
        {
            if self.entries[i].0 == local {
                return Some(i);
            }
            i += 1;
        }
        None
    }

    proof fn lemma_at(&self, i: int)
        requires
            self.wf(),
            0 <= i < self.entries@.len(),
        ensures
            self@.contains_key(self.entries@[i].0),
            self@[self.entries@[i].0] == self.entries@[i].1,
    {
        let k = self.entries@[i].0;
        assert(self@.contains_key(k));
        let j = choose|j: int| 0 <= j < self.entries@.len() && self.entries@[j].0 == k;
        if j != i {
            if j < i {
                assert(self.entries@[j].0 != self.entries@[i].0);
            } else {
                assert(self.entries@[i].0 != self.entries@[j].0);
            }
        }
    }

    /// The locals of the entries are exactly the map's locals.
    pub proof fn lemma_keys(&self)
        ensures
            forall|k: Local| self@.contains_key(k) <==> exists|i: int| 0 <= i < self.size() && #[trigger] self.key_at(i) == k,
    {
        assert forall|k: Local| self@.contains_key(k) implies exists|i: int| 0 <= i < self.size() && #[trigger] self.key_at(i) == k by {
            let j = choose|j: int| 0 <= j < self.entries@.len() && self.entries@[j].0 == k;
            assert(self.key_at(j) == k);
        }
    }

    /// The locals of distinct entries differ.
    pub proof fn lemma_distinct(&self)
        requires
            self.wf(),
        ensures
            forall|i: int, j: int| 0 <= i < self.size() && 0 <= j < self.size() && i != j ==> #[trigger] self.key_at(i)
                != #[trigger] self.key_at(j),
    {
        assert forall|i: int, j: int| 0 <= i < self.size() && 0 <= j < self.size() && i != j implies #[trigger] self.key_at(i)
            != #[trigger] self.key_at(j) by {
            if i < j {
                assert(self.entries@[i].0 != self.entries@[j].0);
            } else {
                assert(self.entries@[j].0 != self.entries@[i].0);
            }
        }
    }

    /// The state recorded for a local.
    pub fn get(&self, local: Local) -> (r: Option<MoveState>)
        requires
            self.wf(),
        ensures
            r == (if self@.contains_key(local) { Some(self@[local]) } else { None }),
    {
        match self.position(local) {
            Some(i) => {
                proof { self.lemma_at(i as int); }
                Some(self.entries[i].1)
            },
            None => None,
        }
    }

    /// Records a state for a local, replacing any earlier one.
    pub fn insert(&mut self, local: Local, state: MoveState)
        requires
            old(self).wf(),
        ensures
            final(self).wf(),
            final(self)@ == old(self)@.insert(local, state),
    {
        let ghost before = self@;
        match self.position(local) {
            Some(i) => {
                self.entries.set(i, (local, state));
                proof {
                    assert forall|k: Local| #[trigger] self@.contains_key(k) <==> before.insert(local, state).contains_key(k) by {
                        if before.contains_key(k) {
                            let j = choose|j: int| 0 <= j < old(self).entries@.len() && old(self).entries@[j].0 == k;
                            assert(self.entries@[j].0 == k);
                        }
                        if self@.contains_key(k) {
                            let j = choose|j: int| 0 <= j < self.entries@.len() && self.entries@[j].0 == k;
                            if j != i as int {
                                assert(old(self).entries@[j].0 == k);
                            }
                        }
                    }
                    assert forall|k: Local| self@.contains_key(k) implies #[trigger] self@[k] == before.insert(local, state)[k] by {
                        let j = choose|j: int| 0 <= j < self.entries@.len() && self.entries@[j].0 == k;
                        self.lemma_at(j);
                        if j != i as int {
                            old(self).lemma_at(j);
                        }
                    }
                    assert(self@ =~= before.insert(local, state));
                }
            },
            None => {
                self.entries.push((local, state));
                proof {
                    let n = self.entries@.len() - 1;
                    assert forall|k: Local| #[trigger] self@.contains_key(k) <==> before.insert(local, state).contains_key(k) by {
                        if before.contains_key(k) {
                            let j = choose|j: int| 0 <= j < old(self).entries@.len() && old(self).entries@[j].0 == k;
                            assert(self.entries@[j].0 == k);
                        }
                        if k == local {
                            assert(self.entries@[n].0 == k);
                        }
                        if self@.contains_key(k) && k != local {
                            let j = choose|j: int| 0 <= j < self.entries@.len() && self.entries@[j].0 == k;
                            assert(old(self).entries@[j].0 == k);
                        }
                    }
                    assert forall|k: Local| self@.contains_key(k) implies #[trigger] self@[k] == before.insert(local, state)[k] by {
                        let j = choose|j: int| 0 <= j < self.entries@.len() && self.entries@[j].0 == k;
                        self.lemma_at(j);
                        if j != n {
                            old(self).lemma_at(j);
                        }
                    }
                    assert(self@ =~= before.insert(local, state));
                }
            },
        }
    }

    /// Forgets a local.
    pub fn remove(&mut self, local: Local)
        requires
            old(self).wf(),
        ensures
            final(self).wf(),
            final(self)@ == old(self)@.remove(local),
    {
        let ghost before = self@;
        match self.position(local) {
            Some(i) => {
                let ghost old_entries = self.entries@;
                self.entries.remove(i);
                proof {
                    assert(self.entries@ =~= old_entries.remove(i as int));
                    assert forall|a: int, b: int| 0 <= a < b < self.entries@.len() implies (#[trigger] self.entries@[a]).0
                        != (#[trigger] self.entries@[b]).0 by {
                        let a2 = if a < i { a } else { a + 1 };
                        let b2 = if b < i { b } else { b + 1 };
                        assert(self.entries@[a] == old_entries[a2]);
                        assert(self.entries@[b] == old_entries[b2]);
                        assert(old_entries[a2].0 != old_entries[b2].0);
                    }
                    assert forall|k: Local| #[trigger] self@.contains_key(k) <==> before.remove(local).contains_key(k) by {
                        if self@.contains_key(k) {
                            let j = choose|j: int| 0 <= j < self.entries@.len() && self.entries@[j].0 == k;
                            let j2 = if j < i { j } else { j + 1 };
                            assert(old_entries[j2].0 == k);
                            if k == local {
                                assert(old_entries[j2].0 == old_entries[i as int].0);
                                if j2 < i {
                                    assert(old_entries[j2].0 != old_entries[i as int].0);
                                } else {
                                    assert(old_entries[i as int].0 != old_entries[j2].0);
                                }
                            }
                        }
                        if before.contains_key(k) && k != local {
                            let j = choose|j: int| 0 <= j < old_entries.len() && old_entries[j].0 == k;
                            assert(j != i);
                            let j2 = if j < i { j } else { j - 1 };
                            assert(self.entries@[j2].0 == k);
                        }
                    }
                    assert forall|k: Local| self@.contains_key(k) implies #[trigger] self@[k] == before.remove(local)[k] by {
                        let j = choose|j: int| 0 <= j < self.entries@.len() && self.entries@[j].0 == k;
                        self.lemma_at(j);
                        let j2 = if j < i { j } else { j + 1 };
                        assert(old_entries[j2] == self.entries@[j]);
                        old(self).lemma_at(j2);
                    }
                    assert(self@ =~= before.remove(local));
                }
            },
            None => {
                assert(self@ =~= before.remove(local));
            },
        }
    }

    /// A copy of the map.
    pub fn copy(&self) -> (t: MoveMap)
        requires
            self.wf(),
        ensures
            t.wf(),
            t@ == self@,
    {
        let mut entries: Vec<(Local, MoveState)> = Vec::new();
        let mut i: usize = 0;
        while i < self.entries.len()
            invariant
                0 <= i <= self.entries@.len(),
                entries@ == self.entries@.take(i as int),
            decreases self.entries.len() - i,
        {
            entries.push(self.entries[i]);
            assert(self.entries@.take(i + 1) =~= self.entries@.take(i as int).push(self.entries@[i as int]));
            i += 1;
        }
        assert(self.entries@.take(self.entries@.len() as int) =~= self.entries@);
        let t = MoveMap { entries };
        assert(t@ =~= self@);
        t
    }

    pub fn len(&self) -> (n: usize)
        ensures
            n == self.size(),
    {
        self.entries.len()
    }

    /// The entry at position `i`.
    pub fn entry(&self, i: usize) -> (e: (Local, MoveState))
        requires
            self.wf(),
            i < self.size(),
        ensures
            e.0 == self.key_at(i as int),
            self@.contains_key(e.0),
            self@[e.0] == e.1,
    {
        proof { self.lemma_at(i as int); }
        self.entries[i]
    }

    /// Whether every entry of this map is an entry of `other`.
    fn within(&self, other: &MoveMap) -> (b: bool)
        requires
            self.wf(),
            other.wf(),
        ensures
            b == forall|k: Local| #[trigger] self@.contains_key(k) ==> other@.contains_key(k) && other@[k] == self@[k],
    {
        let mut i: usize = 0;
        while i < self.entries.len()
            invariant
                self.wf(),
                other.wf(),
                0 <= i <= self.entries@.len(),
                forall|j: int| 0 <= j < i ==> other@.contains_key((#[trigger] self.entries@[j]).0)
                    && other@[self.entries@[j].0] == self.entries@[j].1,
            decreases self.entries.len() - i,
        {
            let (k, v) = self.entries[i];
            proof { self.lemma_at(i as int); }
            match other.get(k) {
                Some(w) => {
                    if w != v {
                        return false;
                    }
                },
                None => {
                    return false;
                },
            }
            i += 1;
        }
        proof {
            assert forall|k: Local| #[trigger] self@.contains_key(k) implies other@.contains_key(k) && other@[k] == self@[k] by {
                let j = choose|j: int| 0 <= j < self.entries@.len() && self.entries@[j].0 == k;
                self.lemma_at(j);
            }
        }
        true
    }

    /// Whether the two maps are equal.
    pub fn same_as(&self, other: &MoveMap) -> (b: bool)
        requires
            self.wf(),
            other.wf(),
        ensures
            b == (self@ == other@),
    {
        let r = self.within(other) && other.within(self);
        proof {
            if r {
                assert(self@ =~= other@);
            }
        }
        r
    }
}

/// The locals an operand reads.
pub open spec fn operand_locals(o: Operand) -> Seq<Local> {
    match o {
        Operand::Copy(p) => seq![p.local],
        Operand::Move(p) => seq![p.local],
        Operand::Constant(_) => Seq::empty(),
    }
}

/// The locals of a list of operands, in order.
pub open spec fn operands_locals(os: Seq<Operand>) -> Seq<Local>
    decreases os.len(),
{
    if os.len() == 0 { Seq::empty() } else { operands_locals(os.drop_last()) + operand_locals(os.last()) }
}

/// The locals an rvalue reads, in order.
pub open spec fn rvalue_locals(rv: Rvalue) -> Seq<Local> {
    match rv {
        Rvalue::Use(o) => operand_locals(o),
        Rvalue::Cast(_, o, _) => operand_locals(*o),
        Rvalue::Copy(p) => seq![p.local],
        Rvalue::Move(p) => seq![p.local],
        Rvalue::Ref(p, _) => seq![p.local],
        Rvalue::AddressOf(p, _) => seq![p.local],
        Rvalue::BinaryOp(_, l, r) => operand_locals(*l) + operand_locals(*r),
        Rvalue::UnaryOp(_, o) => operand_locals(*o),
        Rvalue::Len(p) => seq![p.local],
        Rvalue::Discriminant(p) => seq![p.local],
        Rvalue::Aggregate(_, os) => operands_locals(os@),
    }
}

/// A use-after-move error for each local of `ls` that is moved or partly
/// moved in `cur`, in order.
pub open spec fn flagged(cur: Map<Local, MoveState>, ls: Seq<Local>) -> Seq<BorrowErrorModel>
    decreases ls.len(),
{
    if ls.len() == 0 {
        Seq::empty()
    } else {
        flagged(cur, ls.drop_last()) + if cur.contains_key(ls.last()) && (cur[ls.last()] == MoveState::Moved
            || cur[ls.last()] == MoveState::PartiallyMoved) {
            seq![BorrowErrorModel::UseOfMovedValue(ls.last())]
        } else {
            Seq::empty()
        }
    }
}

/// The errors of a statement in state `cur`: an assignment reads the
/// locals of its rvalue.
pub open spec fn stmt_move_errors(cur: Map<Local, MoveState>, st: Statement) -> Seq<BorrowErrorModel> {
    match st {
        Statement::Assign(_, rv) => flagged(cur, rvalue_locals(rv)),
        _ => Seq::empty(),
    }
}

/// The state after a statement: a move marks its source moved, another
/// assignment makes its target available again, and the end of a local's
/// storage forgets it.
pub open spec fn after_stmt(cur: Map<Local, MoveState>, st: Statement) -> Map<Local, MoveState> {
    match st {
        Statement::Assign(place, rv) => match rv {
            Rvalue::Move(mp) => cur.insert(mp.local, MoveState::Moved),
            _ => cur.remove(place.local),
        },
        Statement::StorageDead(l) => cur.remove(l),
        _ => cur,
    }
}

/// The state after the first `i` statements, from `cur`.
pub open spec fn state_after(cur: Map<Local, MoveState>, stmts: Seq<Statement>, i: int) -> Map<Local, MoveState>
    decreases i,
{
    if i <= 0 { cur } else { after_stmt(state_after(cur, stmts, i - 1), stmts[i - 1]) }
}

/// The errors of the first `i` statements, from `cur`.
pub open spec fn run_errors(cur: Map<Local, MoveState>, stmts: Seq<Statement>, i: int) -> Seq<BorrowErrorModel>
    decreases i,
{
    if i <= 0 {
        Seq::empty()
    } else {
        run_errors(cur, stmts, i - 1) + stmt_move_errors(state_after(cur, stmts, i - 1), stmts[i - 1])
    }
}

/// The state recorded at the end of block `a`.
pub open spec fn exit_state(bs: Seq<BasicBlockData>, st: Seq<Seq<Map<Local, MoveState>>>, a: int) -> Map<Local, MoveState> {
    st[a][bs[a].statements@.len() as int]
}

/// Two predecessors of `b` disagree on `l`.
pub open spec fn preds_disagree(bs: Seq<BasicBlockData>, st: Seq<Seq<Map<Local, MoveState>>>, b: int, l: Local) -> bool {
    exists|a1: int, a2: int| #![trigger flows(bs, a1, b), flows(bs, a2, b)]
        flows(bs, a1, b) && flows(bs, a2, b) && exit_state(bs, st, a1).contains_key(l)
        && exit_state(bs, st, a2).contains_key(l) && exit_state(bs, st, a1)[l] != exit_state(bs, st, a2)[l]
}

/// Some predecessor of `b` records `l`.
pub open spec fn pred_has(bs: Seq<BasicBlockData>, st: Seq<Seq<Map<Local, MoveState>>>, b: int, l: Local) -> bool {
    exists|a: int| #[trigger] flows(bs, a, b) && exit_state(bs, st, a).contains_key(l)
}

/// The state at the entry of block `b`: each local some predecessor
/// records, with the state they agree on, or partly moved where they
/// disagree.
pub open spec fn entry_state(bs: Seq<BasicBlockData>, st: Seq<Seq<Map<Local, MoveState>>>, b: int) -> Map<Local, MoveState> {
    Map::new(
        |l: Local| pred_has(bs, st, b, l),
        |l: Local|
            if preds_disagree(bs, st, b, l) {
                MoveState::PartiallyMoved
            } else {
                exit_state(bs, st, choose|a: int| #[trigger] flows(bs, a, b) && exit_state(bs, st, a).contains_key(l))[l]
            },
    )
}

/// The states after processing block `b`: each point after a statement
/// holds the state reached from the block's entry.
pub open spec fn update_block(bs: Seq<BasicBlockData>, st: Seq<Seq<Map<Local, MoveState>>>, b: int) -> Seq<Seq<Map<Local, MoveState>>> {
    let entry = entry_state(bs, st, b);
    let stmts = bs[b].statements@;
    st.update(b, Seq::new(stmts.len() + 1, |i: int| if i == 0 { st[b][0] } else { state_after(entry, stmts, i) }))
}

/// Processing block `b` changes a recorded state.
pub open spec fn block_changed(bs: Seq<BasicBlockData>, st: Seq<Seq<Map<Local, MoveState>>>, b: int) -> bool {
    let entry = entry_state(bs, st, b);
    let stmts = bs[b].statements@;
    exists|i: int| 1 <= i <= stmts.len() && #[trigger] st[b][i] != state_after(entry, stmts, i)
}

/// The states after processing the blocks below `b_end` in order.
pub open spec fn pass_states(bs: Seq<BasicBlockData>, st: Seq<Seq<Map<Local, MoveState>>>, b_end: int) -> Seq<Seq<Map<Local, MoveState>>>
    decreases b_end,
{
    if b_end <= 0 { st } else { update_block(bs, pass_states(bs, st, b_end - 1), b_end - 1) }
}

/// The errors of processing the blocks below `b_end` in order.
pub open spec fn pass_errors(bs: Seq<BasicBlockData>, st: Seq<Seq<Map<Local, MoveState>>>, b_end: int) -> Seq<BorrowErrorModel>
    decreases b_end,
{
    if b_end <= 0 {
        Seq::empty()
    } else {
        let prev = pass_states(bs, st, b_end - 1);
        pass_errors(bs, st, b_end - 1) + run_errors(entry_state(bs, prev, b_end - 1), bs[b_end - 1].statements@,
            bs[b_end - 1].statements@.len() as int)
    }
}

/// Processing the blocks below `b_end` changes a recorded state.
pub open spec fn pass_changed(bs: Seq<BasicBlockData>, st: Seq<Seq<Map<Local, MoveState>>>, b_end: int) -> bool
    decreases b_end,
{
    if b_end <= 0 { false } else { pass_changed(bs, st, b_end - 1) || block_changed(bs, pass_states(bs, st, b_end - 1), b_end - 1) }
}

/// The errors of at most `fuel` passes over the body, stopping after a
/// pass that changes nothing.
pub open spec fn move_passes(bs: Seq<BasicBlockData>, st: Seq<Seq<Map<Local, MoveState>>>, fuel: nat) -> Seq<BorrowErrorModel>
    decreases fuel,
{
    if fuel == 0 {
        Seq::empty()
    } else {
        pass_errors(bs, st, bs.len() as int) + if pass_changed(bs, st, bs.len() as int) {
            move_passes(bs, pass_states(bs, st, bs.len() as int), (fuel - 1) as nat)
        } else {
            Seq::empty()
        }
    }
}

/// No state recorded at any point.
pub open spec fn initial_states(bs: Seq<BasicBlockData>) -> Seq<Seq<Map<Local, MoveState>>> {
    Seq::new(bs.len(), |b: int| Seq::new(bs[b].statements@.len() + 1, |i: int| Map::<Local, MoveState>::empty()))
}

/// The use-after-move errors of a body: at most ten passes per block.
pub open spec fn use_after_move_errors(bs: Seq<BasicBlockData>) -> Seq<BorrowErrorModel> {
    move_passes(bs, initial_states(bs), (bs.len() * 10) as nat)
}


/// Some block of the list records `l` at its end.
pub open spec fn list_has(bs: Seq<BasicBlockData>, st: Seq<Seq<Map<Local, MoveState>>>, ps: Seq<BasicBlock>, l: Local) -> bool {
    exists|k: int| 0 <= k < ps.len() && #[trigger] exit_state(bs, st, ps[k].0 as int).contains_key(l)
}

/// Two blocks of the list record different states for `l` at their ends.
pub open spec fn list_disagree(bs: Seq<BasicBlockData>, st: Seq<Seq<Map<Local, MoveState>>>, ps: Seq<BasicBlock>, l: Local) -> bool {
    exists|k1: int, k2: int| #![trigger exit_state(bs, st, ps[k1].0 as int), exit_state(bs, st, ps[k2].0 as int)]
        0 <= k1 < ps.len() && 0 <= k2 < ps.len() && exit_state(bs, st, ps[k1].0 as int).contains_key(l)
        && exit_state(bs, st, ps[k2].0 as int).contains_key(l) && exit_state(bs, st, ps[k1].0 as int)[l] != exit_state(
        bs, st, ps[k2].0 as int)[l]
}

/// The merged state of `l` over the list: the state the blocks agree on,
/// or partly moved where they disagree.
pub open spec fn list_value(bs: Seq<BasicBlockData>, st: Seq<Seq<Map<Local, MoveState>>>, ps: Seq<BasicBlock>, l: Local) -> MoveState {
    if list_disagree(bs, st, ps, l) {
        MoveState::PartiallyMoved
    } else {
        exit_state(bs, st, ps[choose|k: int| 0 <= k < ps.len() && #[trigger] exit_state(bs, st, ps[k].0 as int).contains_key(l)].0 as int)[l]
    }
}

/// Merging one more block into the list's state.
pub proof fn lemma_merge_step(bs: Seq<BasicBlockData>, st: Seq<Seq<Map<Local, MoveState>>>, ps: Seq<BasicBlock>, k: int, l: Local)
    requires
        0 <= k < ps.len(),
    ensures
        list_has(bs, st, ps.take(k + 1), l) == (list_has(bs, st, ps.take(k), l) || exit_state(bs, st, ps[k].0 as int).contains_key(l)),
        list_has(bs, st, ps.take(k + 1), l) ==> list_value(bs, st, ps.take(k + 1), l) == (if exit_state(bs, st, ps[k].0 as int).contains_key(l) {
            if list_has(bs, st, ps.take(k), l) {
                if list_value(bs, st, ps.take(k), l) != exit_state(bs, st, ps[k].0 as int)[l] {
                    MoveState::PartiallyMoved
                } else {
                    list_value(bs, st, ps.take(k), l)
                }
            } else {
                exit_state(bs, st, ps[k].0 as int)[l]
            }
        } else {
            list_value(bs, st, ps.take(k), l)
        }),
{
    let m = ps.take(k);
    let nn = ps.take(k + 1);
    let e = exit_state(bs, st, ps[k].0 as int);
    assert forall|j: int| 0 <= j < k implies nn[j] == m[j] by {}
    assert(nn[k] == ps[k]);
    if list_has(bs, st, m, l) {
        let j = choose|j: int| 0 <= j < m.len() && #[trigger] exit_state(bs, st, m[j].0 as int).contains_key(l);
        assert(exit_state(bs, st, nn[j].0 as int).contains_key(l));
    }
    if e.contains_key(l) {
        assert(exit_state(bs, st, nn[k].0 as int).contains_key(l));
    }
    if list_has(bs, st, nn, l) {
        let j = choose|j: int| 0 <= j < nn.len() && #[trigger] exit_state(bs, st, nn[j].0 as int).contains_key(l);
        if j < k {
            assert(exit_state(bs, st, m[j].0 as int).contains_key(l));
        }
    }
    // Disagreement over the prefix carries over.
    if list_disagree(bs, st, m, l) {
        let (k1, k2) = choose|k1: int, k2: int| #![trigger exit_state(bs, st, m[k1].0 as int), exit_state(bs, st, m[k2].0 as int)]
            0 <= k1 < m.len() && 0 <= k2 < m.len() && exit_state(bs, st, m[k1].0 as int).contains_key(l)
            && exit_state(bs, st, m[k2].0 as int).contains_key(l) && exit_state(bs, st, m[k1].0 as int)[l] != exit_state(
            bs, st, m[k2].0 as int)[l];
        assert(exit_state(bs, st, nn[k1].0 as int) == exit_state(bs, st, m[k1].0 as int));
        assert(exit_state(bs, st, nn[k2].0 as int) == exit_state(bs, st, m[k2].0 as int));
        assert(list_disagree(bs, st, nn, l));
    }
    if list_has(bs, st, nn, l) {
        if !list_disagree(bs, st, m, l) && list_has(bs, st, m, l) {
            // All of the prefix agrees with the chosen witness.
            let w = choose|j: int| 0 <= j < m.len() && #[trigger] exit_state(bs, st, m[j].0 as int).contains_key(l);
            let v = exit_state(bs, st, m[w].0 as int)[l];
            assert(list_value(bs, st, m, l) == v);
            assert forall|j: int| 0 <= j < m.len() && #[trigger] exit_state(bs, st, m[j].0 as int).contains_key(l)
                implies exit_state(bs, st, m[j].0 as int)[l] == v by {
                if exit_state(bs, st, m[j].0 as int)[l] != v {
                    assert(list_disagree(bs, st, m, l));
                }
            }
            if e.contains_key(l) && e[l] != v {
                assert(exit_state(bs, st, nn[w].0 as int) == exit_state(bs, st, m[w].0 as int));
                assert(exit_state(bs, st, nn[k].0 as int) == e);
                assert(list_disagree(bs, st, nn, l));
            } else {
                assert(!list_disagree(bs, st, nn, l)) by {
                    if list_disagree(bs, st, nn, l) {
                        let (k1, k2) = choose|k1: int, k2: int| #![trigger exit_state(bs, st, nn[k1].0 as int), exit_state(bs, st, nn[k2].0 as int)]
                            0 <= k1 < nn.len() && 0 <= k2 < nn.len() && exit_state(bs, st, nn[k1].0 as int).contains_key(l)
                            && exit_state(bs, st, nn[k2].0 as int).contains_key(l) && exit_state(bs, st, nn[k1].0 as int)[l] != exit_state(
                            bs, st, nn[k2].0 as int)[l];
                        if k1 < k {
                            assert(exit_state(bs, st, m[k1].0 as int).contains_key(l));
                        }
                        if k2 < k {
                            assert(exit_state(bs, st, m[k2].0 as int).contains_key(l));
                        }
                    }
                }
                let w2 = choose|j: int| 0 <= j < nn.len() && #[trigger] exit_state(bs, st, nn[j].0 as int).contains_key(l);
                if w2 < k {
                    assert(exit_state(bs, st, m[w2].0 as int).contains_key(l));
                }
            }
        }
        if !list_has(bs, st, m, l) {
            assert(e.contains_key(l));
            assert(!list_disagree(bs, st, nn, l)) by {
                if list_disagree(bs, st, nn, l) {
                    let (k1, k2) = choose|k1: int, k2: int| #![trigger exit_state(bs, st, nn[k1].0 as int), exit_state(bs, st, nn[k2].0 as int)]
                        0 <= k1 < nn.len() && 0 <= k2 < nn.len() && exit_state(bs, st, nn[k1].0 as int).contains_key(l)
                        && exit_state(bs, st, nn[k2].0 as int).contains_key(l) && exit_state(bs, st, nn[k1].0 as int)[l] != exit_state(
                        bs, st, nn[k2].0 as int)[l];
                    if k1 < k {
                        assert(exit_state(bs, st, m[k1].0 as int).contains_key(l));
                    }
                    if k2 < k {
                        assert(exit_state(bs, st, m[k2].0 as int).contains_key(l));
                    }
                }
            }
            let w2 = choose|j: int| 0 <= j < nn.len() && #[trigger] exit_state(bs, st, nn[j].0 as int).contains_key(l);
            if w2 < k {
                assert(exit_state(bs, st, m[w2].0 as int).contains_key(l));
            }
        }
        if list_disagree(bs, st, m, l) {
            assert(list_has(bs, st, m, l)) by {
                let (k1, k2) = choose|k1: int, k2: int| #![trigger exit_state(bs, st, m[k1].0 as int), exit_state(bs, st, m[k2].0 as int)]
                    0 <= k1 < m.len() && 0 <= k2 < m.len() && exit_state(bs, st, m[k1].0 as int).contains_key(l)
                    && exit_state(bs, st, m[k2].0 as int).contains_key(l) && exit_state(bs, st, m[k1].0 as int)[l] != exit_state(
                    bs, st, m[k2].0 as int)[l];
                assert(exit_state(bs, st, m[k1].0 as int).contains_key(l));
            }
        }
    }
}


/// Merging over a list that names exactly the predecessors of `b` gives
/// the entry state of `b`.
pub proof fn lemma_list_entry(bs: Seq<BasicBlockData>, st: Seq<Seq<Map<Local, MoveState>>>, ps: Seq<BasicBlock>, b: int, l: Local)
    requires
        forall|a: int| #[trigger] names(ps, a) <==> flows(bs, a, b),
    ensures
        list_has(bs, st, ps, l) == entry_state(bs, st, b).contains_key(l),
        list_has(bs, st, ps, l) ==> list_value(bs, st, ps, l) == entry_state(bs, st, b)[l],
{
    if list_has(bs, st, ps, l) {
        let k = choose|k: int| 0 <= k < ps.len() && #[trigger] exit_state(bs, st, ps[k].0 as int).contains_key(l);
        assert(names(ps, ps[k].0 as int));
        assert(flows(bs, ps[k].0 as int, b));
        assert(pred_has(bs, st, b, l));
    }
    if pred_has(bs, st, b, l) {
        let a = choose|a: int| #[trigger] flows(bs, a, b) && exit_state(bs, st, a).contains_key(l);
        assert(names(ps, a));
        let k = choose|k: int| 0 <= k < ps.len() && ps[k].0 == a;
        assert(exit_state(bs, st, ps[k].0 as int).contains_key(l));
    }
    if list_disagree(bs, st, ps, l) {
        let (k1, k2) = choose|k1: int, k2: int| #![trigger exit_state(bs, st, ps[k1].0 as int), exit_state(bs, st, ps[k2].0 as int)]
            0 <= k1 < ps.len() && 0 <= k2 < ps.len() && exit_state(bs, st, ps[k1].0 as int).contains_key(l)
            && exit_state(bs, st, ps[k2].0 as int).contains_key(l) && exit_state(bs, st, ps[k1].0 as int)[l] != exit_state(
            bs, st, ps[k2].0 as int)[l];
        assert(names(ps, ps[k1].0 as int));
        assert(names(ps, ps[k2].0 as int));
        assert(flows(bs, ps[k1].0 as int, b) && flows(bs, ps[k2].0 as int, b));
        assert(preds_disagree(bs, st, b, l));
    }
    if preds_disagree(bs, st, b, l) {
        let (a1, a2) = choose|a1: int, a2: int| #![trigger flows(bs, a1, b), flows(bs, a2, b)]
            flows(bs, a1, b) && flows(bs, a2, b) && exit_state(bs, st, a1).contains_key(l)
            && exit_state(bs, st, a2).contains_key(l) && exit_state(bs, st, a1)[l] != exit_state(bs, st, a2)[l];
        assert(names(ps, a1) && names(ps, a2));
        let k1 = choose|k: int| 0 <= k < ps.len() && ps[k].0 == a1;
        let k2 = choose|k: int| 0 <= k < ps.len() && ps[k].0 == a2;
        assert(exit_state(bs, st, ps[k1].0 as int) == exit_state(bs, st, a1));
        assert(exit_state(bs, st, ps[k2].0 as int) == exit_state(bs, st, a2));
        assert(list_disagree(bs, st, ps, l));
    }
    if list_has(bs, st, ps, l) && !list_disagree(bs, st, ps, l) {
        let k = choose|k: int| 0 <= k < ps.len() && #[trigger] exit_state(bs, st, ps[k].0 as int).contains_key(l);
        let a = choose|a: int| #[trigger] flows(bs, a, b) && exit_state(bs, st, a).contains_key(l);
        assert(names(ps, a));
        let k2 = choose|k2: int| 0 <= k2 < ps.len() && ps[k2].0 == a;
        assert(exit_state(bs, st, ps[k2].0 as int) == exit_state(bs, st, a));
        if exit_state(bs, st, ps[k].0 as int)[l] != exit_state(bs, st, a)[l] {
            assert(list_disagree(bs, st, ps, l));
        }
    }
}


/// The states of a matrix of maps.
pub open spec fn sview(v: Seq<Vec<MoveMap>>) -> Seq<Seq<Map<Local, MoveState>>> {
    v.map_values(|r: Vec<MoveMap>| r@.map_values(|m: MoveMap| m@))
}

/// One map per point of the body, each well formed.
pub open spec fn states_ok(bs: Seq<BasicBlockData>, v: Seq<Vec<MoveMap>>) -> bool {
    &&& v.len() == bs.len()
    &&& forall|b: int| 0 <= b < bs.len() ==> #[trigger] v[b]@.len() == bs[b].statements@.len() + 1
    &&& forall|b: int, i: int| 0 <= b < bs.len() && 0 <= i < v[b]@.len() ==> (#[trigger] v[b]@[i]).wf()
}

} // verus!
