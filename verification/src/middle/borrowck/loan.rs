//! Loans (active borrows) and the move state of locals.

use vstd::prelude::*;
use std::collections::HashMap;
use crate::middle::mir::{Local, Place, PlaceElem, PlaceModel};

verus! {

broadcast use vstd::std_specs::hash::group_hash_axioms;

/// Identifier of a loan.
#[derive(Debug, Clone, Copy, PartialEq, Eq, Hash, Structural)]
pub struct LoanId(pub u32);

impl LoanId {
    pub fn new(id: u32) -> (l: LoanId)
        ensures
            l.0 == id,
    {
        LoanId(id)
    }
}

/// The kind of borrow.
#[derive(Debug, Clone, Copy, PartialEq, Eq, Hash, Structural)]
pub enum BorrowKind {
    Shared,
    Mut,
    Unique,
}

/// Two borrows conflict unless both are shared.
pub open spec fn kinds_conflict(a: BorrowKind, b: BorrowKind) -> bool {
    !(a == BorrowKind::Shared && b == BorrowKind::Shared)
}

impl BorrowKind {
    pub fn conflicts_with(self, other: BorrowKind) -> (b: bool)
        ensures
            b == kinds_conflict(self, other),
    {
        match (self, other) {
            (BorrowKind::Shared, BorrowKind::Shared) => false,
            _ => true,
        }
    }

    pub fn is_mut(&self) -> (b: bool)
        ensures
            b == (*self == BorrowKind::Mut),
    {
        match self {
            BorrowKind::Mut => true,
            _ => false,
        }
    }
}

/// One borrow that has been created.
#[derive(Debug)]
pub struct Loan {
    pub id: LoanId,
    pub borrowed_place: Place,
    pub kind: BorrowKind,
    pub borrow_local: Local,
}

/// The mathematical value of a loan.
pub struct LoanModel {
    pub id: LoanId,
    pub place: PlaceModel,
    pub kind: BorrowKind,
    pub borrow_local: Local,
}

impl View for Loan {
    type V = LoanModel;

    open spec fn view(&self) -> LoanModel {
        LoanModel { id: self.id, place: self.borrowed_place@, kind: self.kind, borrow_local: self.borrow_local }
    }
}

impl Clone for Loan {
    fn clone(&self) -> (r: Self)
        ensures
            r@ == self@,
    {
        Loan {
            id: self.id,
            borrowed_place: self.borrowed_place.copy(),
            kind: self.kind,
            borrow_local: self.borrow_local,
        }
    }
}

impl Loan {
    pub fn new(id: LoanId, borrowed_place: Place, kind: BorrowKind, borrow_local: Local) -> (l: Loan)
        ensures
            l == (Loan { id, borrowed_place, kind, borrow_local }),
    {
        Loan { id, borrowed_place, kind, borrow_local }
    }
}

/// Whether a local still holds its value.
#[derive(Debug, Clone, Copy, PartialEq, Eq, Structural)]
pub enum MoveState {
    Available,
    Moved,
    PartiallyMoved,
}

/// Two projection paths overlap when one is a prefix of the other.
pub open spec fn projections_overlap(p1: Seq<PlaceElem>, p2: Seq<PlaceElem>) -> bool {
    forall|i: int| 0 <= i < p1.len() && i < p2.len() ==> p1[i] == p2[i]
}

/// Two places conflict when they share the local and their projections overlap.
pub open spec fn places_conflict(p1: PlaceModel, p2: PlaceModel) -> bool {
    p1.local == p2.local && projections_overlap(p1.projection, p2.projection)
}

/// An access to `place` (a write when `is_write`) invalidates `loan`:
/// the places conflict, and a read only invalidates non-shared loans.
pub open spec fn invalidated_by(loan: LoanModel, place: PlaceModel, is_write: bool) -> bool {
    places_conflict(loan.place, place) && (is_write || loan.kind != BorrowKind::Shared)
}

/// The loans of `loans` that an access to `place` invalidates, in order.
pub open spec fn invalidated_loans(loans: Seq<LoanModel>, place: PlaceModel, is_write: bool) -> Seq<LoanModel> {
    loans.filter(|l: LoanModel| invalidated_by(l, place, is_write))
}

/// The loans of `loans` that survive an access to `place`, in order.
pub open spec fn surviving_loans(loans: Seq<LoanModel>, place: PlaceModel, is_write: bool) -> Seq<LoanModel> {
    loans.filter(|l: LoanModel| !invalidated_by(l, place, is_write))
}

/// The loans of `loans` that borrow from the local with index `k`, in order.
pub open spec fn loans_with_local(loans: Seq<LoanModel>, k: u32) -> Seq<LoanModel> {
    loans.filter(|l: LoanModel| l.place.local.0 == k)
}

proof fn lemma_local_step(loans: Seq<LoanModel>, i: int, k: u32)
    requires
        0 <= i < loans.len(),
    ensures
        loans_with_local(loans.take(i + 1), k) == (if loans[i].place.local.0 == k {
            loans_with_local(loans.take(i), k).push(loans[i])
        } else {
            loans_with_local(loans.take(i), k)
        }),
{
    reveal_with_fuel(Seq::<_>::filter, 1);
    assert(loans.take(i + 1).drop_last() =~= loans.take(i));
    assert(loans.take(i + 1).last() == loans[i]);
}

proof fn lemma_split_step(loans: Seq<LoanModel>, i: int, place: PlaceModel, is_write: bool)
    requires
        0 <= i < loans.len(),
    ensures
        invalidated_loans(loans.take(i + 1), place, is_write) == (if invalidated_by(loans[i], place, is_write) {
            invalidated_loans(loans.take(i), place, is_write).push(loans[i])
        } else {
            invalidated_loans(loans.take(i), place, is_write)
        }),
        surviving_loans(loans.take(i + 1), place, is_write) == (if invalidated_by(loans[i], place, is_write) {
            surviving_loans(loans.take(i), place, is_write)
        } else {
            surviving_loans(loans.take(i), place, is_write).push(loans[i])
        }),
{
    reveal_with_fuel(Seq::<_>::filter, 1);
    assert(loans.take(i + 1).drop_last() =~= loans.take(i));
    assert(loans.take(i + 1).last() == loans[i]);
}

/// The ids of a sequence of loans, in order.
pub open spec fn loan_ids(loans: Seq<LoanModel>) -> Seq<LoanId> {
    loans.map_values(|l: LoanModel| l.id)
}

/// The set of borrow locals (by index) of a sequence of loans.
pub open spec fn borrow_locals_of(loans: Seq<LoanModel>) -> Set<u32> {
    Set::new(|k: u32| exists|j: int| 0 <= j < loans.len() && loans[j].borrow_local.0 == k)
}

/// Borrow and move state of one function body.
#[derive(Debug)]
pub struct BorrowState {
    /// Active loans, in creation order.
    active_loans: Vec<Loan>,
    /// The loan most recently created into each borrow local (by local index).
    loans_by_local: HashMap<u32, LoanId>,
    /// Move state of each local that was ever marked (by local index).
    move_states: HashMap<u32, MoveState>,
    /// The id the next loan gets.
    next_loan_id: u32,
}

fn elems_equal_prefix(p1: &Vec<PlaceElem>, p2: &Vec<PlaceElem>) -> (b: bool)
    ensures
        b == projections_overlap(p1@, p2@),
{
    let n = if p1.len() < p2.len() { p1.len() } else { p2.len() };
    let mut i: usize = 0;
    while i < n
        invariant
            n <= p1.len(),
            n <= p2.len(),
            n == p1.len() || n == p2.len(),
            i <= n,
            forall|j: int| 0 <= j < i ==> p1@[j] == p2@[j],
        decreases n - i,
    {
        if p1[i] != p2[i] {
            return false;
        }
        i += 1;
    }
    true
}

/// Whether two places conflict.
pub fn place_conflicts(p1: &Place, p2: &Place) -> (b: bool)
    ensures
        b == places_conflict(p1@, p2@),
{
    if p1.local == p2.local {
        elems_equal_prefix(&p1.projection, &p2.projection)
    } else {
        false
    }
}

impl Clone for BorrowState {
    /// A copy with the same loans, records, move states and next id.
    fn clone(&self) -> (r: Self)
        ensures
            r.loans() == self.loans(),
            r.by_local() == self.by_local(),
            r.moves() == self.moves(),
            r.next_id() == self.next_id(),
            self.wf() ==> r.wf(),
    {
        let mut loans: Vec<Loan> = Vec::new();
        let mut i: usize = 0;
        while i < self.active_loans.len()
            invariant
                i <= self.active_loans@.len(),
                loans@.len() == i,
                forall|j: int| 0 <= j < i ==> #[trigger] loans@[j]@ == self.active_loans@[j]@,
            decreases self.active_loans@.len() - i,
        {
            loans.push(self.active_loans[i].clone());
            i += 1;
        }
        let r = BorrowState {
            active_loans: loans,
            loans_by_local: self.loans_by_local.clone(),
            move_states: self.move_states.clone(),
            next_loan_id: self.next_loan_id,
        };
        proof {
            assert(r.loans() =~= self.loans());
            assert forall|j: int| 0 <= j < r.active_loans@.len() implies #[trigger] r.active_loans@[j].id == self.active_loans@[j].id
                && r.active_loans@[j].borrow_local == self.active_loans@[j].borrow_local by {
                assert(r.active_loans@[j]@ == self.active_loans@[j]@);
            }
        }
        r
    }
}

impl BorrowState {
    /// Active loans, in creation order.
    pub closed spec fn loans(&self) -> Seq<LoanModel> {
        self.active_loans@.map_values(|l: Loan| l@)
    }

    /// Borrow local index to the loan most recently created into it.
    pub closed spec fn by_local(&self) -> Map<u32, LoanId> {
        self.loans_by_local@
    }

    /// Move state of each marked local.
    pub closed spec fn moves(&self) -> Map<u32, MoveState> {
        self.move_states@
    }

    /// The id the next loan gets.
    pub closed spec fn next_id(&self) -> u32 {
        self.next_loan_id
    }

    /// Loan ids are increasing in creation order and below the next id.
    pub closed spec fn wf(&self) -> bool {
        &&& forall|i: int, j: int| 0 <= i < j < self.active_loans@.len()
            ==> self.active_loans@[i].id.0 < self.active_loans@[j].id.0
        &&& forall|i: int| 0 <= i < self.active_loans@.len()
            ==> self.active_loans@[i].id.0 < self.next_loan_id
        &&& forall|k: u32| #[trigger] self.loans_by_local@.contains_key(k) ==> self.loans_by_local@[k].0 < self.next_loan_id
        &&& forall|k: u32, i: int|
            #![trigger self.loans_by_local@[k], self.active_loans@[i]]
            self.loans_by_local@.contains_key(k) && 0 <= i < self.active_loans@.len()
                && self.active_loans@[i].id == self.loans_by_local@[k] ==> self.active_loans@[i].borrow_local.0 == k
    }

    /// Active loans have distinct, increasing ids, and the loan recorded for
    /// a borrow local, while active, is held by that local.
    pub proof fn lemma_wf_facts(&self)
        requires
            self.wf(),
        ensures
            forall|i: int, j: int| 0 <= i < j < self.loans().len() ==> self.loans()[i].id.0 < self.loans()[j].id.0,
            forall|i: int| 0 <= i < self.loans().len() ==> self.loans()[i].id.0 < self.next_id(),
            forall|k: u32, i: int|
                #![trigger self.by_local()[k], self.loans()[i]]
                self.by_local().contains_key(k) && 0 <= i < self.loans().len() && self.loans()[i].id == self.by_local()[k]
                    ==> self.loans()[i].borrow_local.0 == k,
    {
        assert forall|k: u32, i: int|
            #![trigger self.by_local()[k], self.loans()[i]]
            self.by_local().contains_key(k) && 0 <= i < self.loans().len() && self.loans()[i].id == self.by_local()[k]
                implies self.loans()[i].borrow_local.0 == k by {
            assert(self.loans()[i] == self.active_loans@[i]@);
        }
    }

    /// The move state that `get_move_state` reports for the local with index `k`.
    pub open spec fn move_state_of(&self, k: u32) -> MoveState {
        if self.moves().contains_key(k) { self.moves()[k] } else { MoveState::Available }
    }

    /// The active loans that borrow from the local with index `k`.
    pub open spec fn loans_on(&self, k: u32) -> Seq<LoanModel> {
        loans_with_local(self.loans(), k)
    }

    pub fn new() -> (s: BorrowState)
        ensures
            s.wf(),
            s.loans() == Seq::<LoanModel>::empty(),
            s.by_local() == Map::<u32, LoanId>::empty(),
            s.moves() == Map::<u32, MoveState>::empty(),
            s.next_id() == 0,
    {
        BorrowState {
            active_loans: Vec::new(),
            loans_by_local: HashMap::new(),
            move_states: HashMap::new(),
            next_loan_id: 0,
        }
    }

    /// Records a new loan of `borrowed_place` held by `borrow_local`.
    pub fn create_loan(&mut self, borrowed_place: Place, kind: BorrowKind, borrow_local: Local) -> (id: LoanId)
        requires
            old(self).wf(),
            old(self).next_id() < u32::MAX,
        ensures
            final(self).wf(),
            id.0 == old(self).next_id(),
            final(self).next_id() == old(self).next_id() + 1,
            final(self).loans() == old(self).loans().push(
                LoanModel { id, place: borrowed_place@, kind, borrow_local },
            ),
            final(self).by_local() == old(self).by_local().insert(borrow_local.0, id),
            final(self).moves() == old(self).moves(),
    {
        let id = LoanId::new(self.next_loan_id);
        self.next_loan_id = self.next_loan_id + 1;
        let loan = Loan::new(id, borrowed_place, kind, borrow_local);
        self.active_loans.push(loan);
        self.loans_by_local.insert(borrow_local.0, id);
        id
    }

    /// Removes the loans that an access to `place` invalidates and returns
    /// their ids in creation order.  The borrow-local entries of the removed
    /// loans are dropped as well.
    pub fn invalidate_conflicting_loans(&mut self, place: &Place, is_write: bool) -> (ids: Vec<LoanId>)
        requires
            old(self).wf(),
        ensures
            final(self).wf(),
            ids@ == loan_ids(invalidated_loans(old(self).loans(), place@, is_write)),
            forall|a: int, b: int| 0 <= a < b < ids@.len() ==> ids@[a].0 < ids@[b].0,
            final(self).loans() == surviving_loans(old(self).loans(), place@, is_write),
            final(self).by_local() == old(self).by_local().remove_keys(
                borrow_locals_of(invalidated_loans(old(self).loans(), place@, is_write)),
            ),
            final(self).moves() == old(self).moves(),
            final(self).next_id() == old(self).next_id(),
    {
        let ghost old_loans = self.loans();
        let ghost old_vec = self.active_loans@;
        let ghost old_by_local = self.loans_by_local@;
        let mut kept: Vec<Loan> = Vec::new();
        let mut ids: Vec<LoanId> = Vec::new();
        let ghost mut removed: Seq<LoanModel> = Seq::empty();
        let n = self.active_loans.len();
        let mut i: usize = 0;
        while i < n
            invariant
                n == old_loans.len(),
                n == old_vec.len(),
                self.active_loans@ == old_vec,
                old_loans == old_vec.map_values(|l: Loan| l@),
                self.next_loan_id == old(self).next_loan_id,
                self.move_states == old(self).move_states,
                forall|a: int, b: int| 0 <= a < b < old_vec.len() ==> old_vec[a].id.0 < old_vec[b].id.0,
                forall|a: int| 0 <= a < old_vec.len() ==> old_vec[a].id.0 < self.next_loan_id,
                i <= n,
                kept@.map_values(|l: Loan| l@) == surviving_loans(old_loans.take(i as int), place@, is_write),
                removed == invalidated_loans(old_loans.take(i as int), place@, is_write),
                ids@ == loan_ids(removed),
                self.loans_by_local@ == old_by_local.remove_keys(borrow_locals_of(removed)),
                forall|a: int, b: int| 0 <= a < b < kept@.len() ==> kept@[a].id.0 < kept@[b].id.0,
                forall|a: int| 0 <= a < kept@.len() ==> kept@[a].id.0 < self.next_loan_id,
                forall|a: int, b: int| 0 <= a < kept@.len() && i <= b < n ==> kept@[a].id.0 < old_vec[b].id.0,
                forall|a: int, b: int| 0 <= a < b < ids@.len() ==> ids@[a].0 < ids@[b].0,
                forall|a: int, b: int| 0 <= a < ids@.len() && i <= b < n ==> ids@[a].0 < old_vec[b].id.0,
                forall|k: u32| #[trigger] self.loans_by_local@.contains_key(k) ==> old_by_local.contains_key(k)
                    && self.loans_by_local@[k] == old_by_local[k],
                forall|k: u32| #[trigger] old_by_local.contains_key(k) ==> old_by_local[k].0 < self.next_loan_id,
                forall|k: u32, b: int|
                    #![trigger old_by_local[k], old_vec[b]]
                    old_by_local.contains_key(k) && 0 <= b < n && old_vec[b].id == old_by_local[k]
                        ==> old_vec[b].borrow_local.0 == k,
                forall|k: u32, a: int|
                    #![trigger self.loans_by_local@[k], kept@[a]]
                    self.loans_by_local@.contains_key(k) && 0 <= a < kept@.len() && kept@[a].id == self.loans_by_local@[k]
                        ==> kept@[a].borrow_local.0 == k,
            decreases n - i,
        {
            proof {
                lemma_split_step(old_loans, i as int, place@, is_write);
            }
            let loan = self.active_loans[i].clone();
            let pc = place_conflicts(&loan.borrowed_place, place);
            let shared = match loan.kind {
                BorrowKind::Shared => true,
                _ => false,
            };
            let hit = pc && (is_write || !shared);
            proof {
                assert(loan@ == old_loans[i as int]);
                assert(pc == places_conflict(loan@.place, place@));
                assert(shared == (loan@.kind == BorrowKind::Shared));
                assert(hit == invalidated_by(loan@, place@, is_write));
            }
            if hit {
                ids.push(loan.id);
                self.loans_by_local.remove(&loan.borrow_local.0);
                let ghost prev = removed;
                proof {
                    removed = prev.push(loan@);
                    assert(ids@ =~= loan_ids(removed));
                    assert forall|k: u32| #[trigger] borrow_locals_of(removed).contains(k)
                        == borrow_locals_of(prev).insert(loan.borrow_local.0).contains(k) by {
                        if borrow_locals_of(prev).contains(k) {
                            let j = choose|j: int| 0 <= j < prev.len() && prev[j].borrow_local.0 == k;
                            assert(removed[j] == prev[j]);
                        }
                        if k == loan.borrow_local.0 {
                            assert(removed[prev.len() as int] == loan@);
                        }
                        if borrow_locals_of(removed).contains(k) {
                            let j = choose|j: int| 0 <= j < removed.len() && removed[j].borrow_local.0 == k;
                            if j < prev.len() {
                                assert(removed[j] == prev[j]);
                            }
                        }
                    }
                    assert(borrow_locals_of(removed) =~= borrow_locals_of(prev).insert(loan.borrow_local.0));
                    assert(self.loans_by_local@ =~= old_by_local.remove_keys(borrow_locals_of(removed)));
                }
            } else {
                let ghost prevk = kept@;
                kept.push(loan);
                proof {
                    assert(kept@ == prevk.push(loan));
                    assert(kept@.map_values(|l: Loan| l@) =~= prevk.map_values(|l: Loan| l@).push(loan@));
                }
            }
            i += 1;
        }
        proof {
            assert(old_loans.take(n as int) =~= old_loans);
        }
        self.active_loans = kept;
        ids
    }
}

impl BorrowState {
    /// The active loans that borrow from `local`, in creation order.
    pub fn get_loans_for_local(&self, local: Local) -> (r: Vec<&Loan>)
        ensures
            r@.map_values(|l: &Loan| l@) == self.loans_on(local.0),
    {
        let ghost all = self.loans();
        let mut r: Vec<&Loan> = Vec::new();
        let n = self.active_loans.len();
        let mut i: usize = 0;
        while i < n
            invariant
                n == self.active_loans@.len(),
                all == self.loans(),
                i <= n,
                r@.map_values(|l: &Loan| l@) == loans_with_local(all.take(i as int), local.0),
            decreases n - i,
        {
            proof {
                lemma_local_step(all, i as int, local.0);
                assert(all[i as int] == self.active_loans@[i as int]@);
            }
            let loan = &self.active_loans[i];
            if loan.borrowed_place.local.0 == local.0 {
                let ghost prev = r@;
                r.push(loan);
                proof {
                    assert(r@.map_values(|l: &Loan| l@) =~= prev.map_values(|l: &Loan| l@).push(loan@));
                }
            }
            i += 1;
        }
        proof {
            assert(all.take(n as int) =~= all);
        }
        r
    }

    /// The active loan recorded for the borrow local `local`, if any.
    pub fn get_loan_by_borrow_local(&self, local: Local) -> (r: Option<&Loan>)
        requires
            self.wf(),
        ensures
            match r {
                Some(l) => self.by_local().contains_key(local.0)
                    && l@.id == self.by_local()[local.0]
                    && l.borrow_local == local
                    && self.loans().contains(l@),
                None => !self.by_local().contains_key(local.0)
                    || (forall|j: int| 0 <= j < self.loans().len()
                        ==> self.loans()[j].id != self.by_local()[local.0]),
            },
    {
        match self.loans_by_local.get(&local.0) {
            Some(id) => {
                let id = *id;
                let n = self.active_loans.len();
                let mut i: usize = 0;
                while i < n
                    invariant
                        n == self.active_loans@.len(),
                        i <= n,
                        self.wf(),
                        self.by_local().contains_key(local.0),
                        id == self.by_local()[local.0],
                        forall|j: int| 0 <= j < i ==> self.loans()[j].id != id,
                    decreases n - i,
                {
                    proof { assert(self.loans()[i as int] == self.active_loans@[i as int]@); }
                    if self.active_loans[i].id == id {
                        proof {
                            assert(self.loans()[i as int] == self.active_loans@[i as int]@);
                            assert(self.active_loans@[i as int].borrow_local.0 == local.0);
                        }
                        return Some(&self.active_loans[i]);
                    }
                    i += 1;
                }
                None
            },
            None => None,
        }
    }

    /// Whether some active loan of `local` is a mutable borrow.
    pub fn has_active_mut_borrow(&self, local: Local) -> (b: bool)
        ensures
            b == exists|j: int| 0 <= j < self.loans_on(local.0).len()
                && self.loans_on(local.0)[j].kind == BorrowKind::Mut,
    {
        let loans = self.get_loans_for_local(local);
        let ghost ls = self.loans_on(local.0);
        proof { assert(ls.len() == loans@.len()); }
        let mut i: usize = 0;
        while i < loans.len()
            invariant
                loans@.map_values(|l: &Loan| l@) == ls,
                ls == self.loans_on(local.0),
                i <= loans@.len(),
                forall|j: int| 0 <= j < i ==> ls[j].kind != BorrowKind::Mut,
            decreases loans.len() - i,
        {
            proof { assert(ls[i as int] == loans@[i as int]@); }
            let l: &Loan = loans[i];
            proof { assert(l@ == ls[i as int]); }
            if l.kind.is_mut() {
                proof {
                    assert(ls[i as int].kind == BorrowKind::Mut);
                    assert(0 <= i < self.loans_on(local.0).len() && self.loans_on(local.0)[i as int].kind == BorrowKind::Mut);
                }
                return true;
            }
            i += 1;
        }
        proof { assert(ls.len() == loans@.len()); }
        false
    }

    /// Whether some active loan of `local` is a shared borrow.
    pub fn has_active_shared_borrow(&self, local: Local) -> (b: bool)
        ensures
            b == exists|j: int| 0 <= j < self.loans_on(local.0).len()
                && self.loans_on(local.0)[j].kind == BorrowKind::Shared,
    {
        let loans = self.get_loans_for_local(local);
        let ghost ls = self.loans_on(local.0);
        proof { assert(ls.len() == loans@.len()); }
        let mut i: usize = 0;
        while i < loans.len()
            invariant
                loans@.map_values(|l: &Loan| l@) == ls,
                ls == self.loans_on(local.0),
                i <= loans@.len(),
                forall|j: int| 0 <= j < i ==> ls[j].kind != BorrowKind::Shared,
            decreases loans.len() - i,
        {
            proof { assert(ls[i as int] == loans@[i as int]@); }
            let l: &Loan = loans[i];
            proof { assert(l@ == ls[i as int]); }
            if l.kind == BorrowKind::Shared {
                proof {
                    assert(ls[i as int].kind == BorrowKind::Shared);
                    assert(0 <= i < self.loans_on(local.0).len() && self.loans_on(local.0)[i as int].kind == BorrowKind::Shared);
                }
                return true;
            }
            i += 1;
        }
        proof { assert(ls.len() == loans@.len()); }
        false
    }

    /// Marks `local` as moved.
    pub fn mark_moved(&mut self, local: Local)
        requires
            old(self).wf(),
        ensures
            final(self).wf(),
            final(self).moves() == old(self).moves().insert(local.0, MoveState::Moved),
            final(self).loans() == old(self).loans(),
            final(self).by_local() == old(self).by_local(),
            final(self).next_id() == old(self).next_id(),
    {
        self.move_states.insert(local.0, MoveState::Moved);
    }

    /// The move state of `local` (available unless marked).
    pub fn get_move_state(&self, local: Local) -> (m: MoveState)
        ensures
            m == self.move_state_of(local.0),
    {
        match self.move_states.get(&local.0) {
            Some(m) => *m,
            None => MoveState::Available,
        }
    }

    /// Whether `local` is moved or partially moved.
    pub fn is_moved(&self, local: Local) -> (b: bool)
        ensures
            b == (self.move_state_of(local.0) != MoveState::Available),
    {
        match self.get_move_state(local) {
            MoveState::Moved | MoveState::PartiallyMoved => true,
            MoveState::Available => false,
        }
    }

    /// All active loans, in creation order.
    pub fn active_loans(&self) -> (r: &Vec<Loan>)
        ensures
            r@.map_values(|l: Loan| l@) == self.loans(),
    {
        &self.active_loans
    }

    /// Whether a loan with id `id` is active.
    pub fn has_loan(&self, id: LoanId) -> (b: bool)
        ensures
            b == exists|j: int| 0 <= j < self.loans().len() && self.loans()[j].id == id,
    {
        let mut i: usize = 0;
        while i < self.active_loans.len()
            invariant
                i <= self.active_loans@.len(),
                forall|j: int| 0 <= j < i ==> self.loans()[j].id != id,
            decreases self.active_loans.len() - i,
        {
            proof { assert(self.loans()[i as int] == self.active_loans@[i as int]@); }
            if self.active_loans[i].id == id {
                return true;
            }
            i += 1;
        }
        false
    }
}

impl Default for BorrowState {
    fn default() -> (s: BorrowState)
        ensures
            s.wf(),
            s.loans() == Seq::<LoanModel>::empty(),
            s.by_local() == Map::<u32, LoanId>::empty(),
            s.moves() == Map::<u32, MoveState>::empty(),
            s.next_id() == 0,
    {
        BorrowState::new()
    }
}

} // verus!
