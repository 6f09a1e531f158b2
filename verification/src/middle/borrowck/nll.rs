//! Regions of the control-flow graph in which a borrow is live, and the
//! outlives constraints between them.

use vstd::prelude::*;
use crate::middle::borrowck::{BorrowError, BorrowErrorModel, error_views};
use crate::middle::borrowck::flow::{
    dom_shaped, dom_solution, dom_step, dom_within, flow_successors, idom_candidate, idoms_of, is_greatest_dom,
    lemma_count_within, lemma_total_update, names, rows, total_marks, pred_rel, has_pred, succ_rel, has_succ,
    is_exit, flows, is_point, point_step, stmt_ends, ends_borrow, live_path, live_at, kill_at, leaves_function,
    live_to_end, total_cells, lemma_cells_update, precise_step, reach_path, reaches, lemma_reaches_start,
    lemma_reaches_extend, lemma_reach_path_marked, lemma_marks_within_cells, lemma_live_path_marked, lemma_live_extend,
};
use crate::middle::borrowck::loan::{BorrowKind, LoanId, MoveState, kinds_conflict, place_conflicts, places_conflict};
use crate::middle::borrowck::moves::{
    MoveMap, after_stmt, entry_state, exit_state, flagged, lemma_list_entry, lemma_merge_step, list_has, list_value,
    operand_locals, operands_locals, rvalue_locals, run_errors, sview, state_after, states_ok, stmt_move_errors,
    initial_states, move_passes, pass_changed, pass_errors, pass_states, update_block, block_changed,
    use_after_move_errors,
};
use crate::middle::mir::{
    BasicBlock, BasicBlockData, Local, MirBody, Mutability, Operand, Place, PlaceModel, Rvalue, Statement, Terminator,
    TerminatorKind,
};

verus! {

/// Appending an element adds it to the set of elements.
pub proof fn lemma_push_to_set<A>(s: Seq<A>, x: A)
    ensures
        s.push(x).to_set() == s.to_set().insert(x),
{
    assert forall|y: A| #[trigger] s.push(x).to_set().contains(y) <==> s.to_set().insert(x).contains(y) by {
        if s.push(x).to_set().contains(y) && y != x {
            let k = choose|k: int| 0 <= k < s.push(x).len() && s.push(x)[k] == y;
            assert(s[k] == y);
        }
        if s.to_set().contains(y) {
            let k = choose|k: int| 0 <= k < s.len() && s[k] == y;
            assert(s.push(x)[k] == y);
        }
        if y == x {
            assert(s.push(x)[s.len() as int] == y);
        }
    }
    assert(s.push(x).to_set() =~= s.to_set().insert(x));
}

/// A point of the control-flow graph: a statement of a block.
#[derive(Debug, Clone, Copy, PartialEq, Eq, Hash, Structural)]
pub struct Point {
    pub block: BasicBlock,
    pub statement: usize,
}

impl Point {
    pub fn new(block: BasicBlock, statement: usize) -> (p: Point)
        ensures
            p == (Point { block, statement }),
    {
        Point { block, statement }
    }
}

/// Identifier of a region.
#[derive(Debug, Clone, Copy, PartialEq, Eq, Hash, Structural)]
pub struct RegionId(pub u32);

/// A set of whole blocks and of single points.
#[derive(Debug, Clone)]
pub struct Region {
    pub blocks: Vec<BasicBlock>,
    pub points: Vec<(BasicBlock, usize)>,
}

impl Region {
    /// The whole blocks of the region.
    pub open spec fn block_set(&self) -> Set<BasicBlock> {
        self.blocks@.to_set()
    }

    /// The single points of the region.
    pub open spec fn point_set(&self) -> Set<(BasicBlock, usize)> {
        self.points@.to_set()
    }

    /// Whether the point `(block, statement)` lies in the region.
    pub open spec fn holds(&self, block: BasicBlock, statement: usize) -> bool {
        self.block_set().contains(block) || self.point_set().contains((block, statement))
    }

    pub fn new() -> (r: Region)
        ensures
            r.block_set() == Set::<BasicBlock>::empty(),
            r.point_set() == Set::<(BasicBlock, usize)>::empty(),
    {
        let r = Region { blocks: Vec::new(), points: Vec::new() };
        proof {
            assert(r.block_set() =~= Set::<BasicBlock>::empty());
            assert(r.point_set() =~= Set::<(BasicBlock, usize)>::empty());
        }
        r
    }

    pub fn add_block(&mut self, block: BasicBlock)
        ensures
            final(self).block_set() == old(self).block_set().insert(block),
            final(self).point_set() == old(self).point_set(),
    {
        if !self.contains_block(block) {
            proof {
                lemma_push_to_set(self.blocks@, block);
            }
            self.blocks.push(block);
        } else {
            proof {
                assert(self.block_set().insert(block) =~= self.block_set());
            }
        }
    }

    fn has_point(&self, block: BasicBlock, statement: usize) -> (b: bool)
        ensures
            b == self.point_set().contains((block, statement)),
    {
        let mut i: usize = 0;
        while i < self.points.len()
            invariant
                i <= self.points@.len(),
                forall|k: int| 0 <= k < i ==> self.points@[k] != (block, statement),
            decreases self.points@.len() - i,
        {
            let (b, s) = self.points[i];
            if b == block && s == statement {
                proof {
                    assert(self.points@[i as int] == (block, statement));
                }
                return true;
            }
            i = i + 1;
        }
        false
    }

    pub fn add_point(&mut self, block: BasicBlock, statement: usize)
        ensures
            final(self).point_set() == old(self).point_set().insert((block, statement)),
            final(self).block_set() == old(self).block_set(),
    {
        if !self.has_point(block, statement) {
            proof {
                lemma_push_to_set(self.points@, (block, statement));
            }
            self.points.push((block, statement));
        } else {
            proof {
                assert(self.point_set().insert((block, statement)) =~= self.point_set());
            }
        }
    }

    /// Whether the point lies in the region: its block is a whole block of
    /// the region, or the point itself was added.
    pub fn contains(&self, block: BasicBlock, statement: usize) -> (b: bool)
        ensures
            b == self.holds(block, statement),
    {
        self.contains_block(block) || self.has_point(block, statement)
    }

    pub fn contains_block(&self, block: BasicBlock) -> (b: bool)
        ensures
            b == self.block_set().contains(block),
    {
        let mut i: usize = 0;
        while i < self.blocks.len()
            invariant
                i <= self.blocks@.len(),
                forall|k: int| 0 <= k < i ==> self.blocks@[k] != block,
            decreases self.blocks@.len() - i,
        {
            if self.blocks[i] == block {
                proof {
                    assert(self.blocks@[i as int] == block);
                }
                return true;
            }
            i = i + 1;
        }
        false
    }

    /// Whether the two regions share a whole block or a single point.
    pub fn overlaps(&self, other: &Region) -> (b: bool)
        ensures
            b == ((exists|x: BasicBlock| self.block_set().contains(x) && other.block_set().contains(x)) || (exists|
                p: (BasicBlock, usize),
            | self.point_set().contains(p) && other.point_set().contains(p))),
    {
        let mut i: usize = 0;
        while i < self.blocks.len()
            invariant
                i <= self.blocks@.len(),
                forall|k: int| 0 <= k < i ==> !other.block_set().contains(#[trigger] self.blocks@[k]),
            decreases self.blocks@.len() - i,
        {
            if other.contains_block(self.blocks[i]) {
                proof {
                    assert(self.block_set().contains(self.blocks@[i as int]));
                }
                return true;
            }
            i = i + 1;
        }
        let mut j: usize = 0;
        while j < self.points.len()
            invariant
                j <= self.points@.len(),
                forall|k: int| 0 <= k < self.blocks@.len() ==> !other.block_set().contains(#[trigger] self.blocks@[k]),
                forall|k: int| 0 <= k < j ==> !other.point_set().contains(#[trigger] self.points@[k]),
            decreases self.points@.len() - j,
        {
            let (b, s) = self.points[j];
            if other.has_point(b, s) {
                proof {
                    assert(self.point_set().contains(self.points@[j as int]));
                }
                return true;
            }
            j = j + 1;
        }
        proof {
            assert forall|x: BasicBlock| !(self.block_set().contains(x) && other.block_set().contains(x)) by {
                if self.block_set().contains(x) {
                    let k = choose|k: int| 0 <= k < self.blocks@.len() && self.blocks@[k] == x;
                    assert(!other.block_set().contains(self.blocks@[k]));
                }
            }
            assert forall|p: (BasicBlock, usize)| !(self.point_set().contains(p) && other.point_set().contains(p)) by {
                if self.point_set().contains(p) {
                    let k = choose|k: int| 0 <= k < self.points@.len() && self.points@[k] == p;
                    assert(!other.point_set().contains(self.points@[k]));
                }
            }
        }
        false
    }

    /// Adds every block and point of `other`.
    pub fn merge(&mut self, other: &Region)
        ensures
            final(self).block_set() == old(self).block_set().union(other.block_set()),
            final(self).point_set() == old(self).point_set().union(other.point_set()),
    {
        let mut i: usize = 0;
        while i < other.blocks.len()
            invariant
                i <= other.blocks@.len(),
                self.block_set() == old(self).block_set().union(other.blocks@.take(i as int).to_set()),
                self.point_set() == old(self).point_set(),
            decreases other.blocks@.len() - i,
        {
            proof {
                assert(other.blocks@.take(i as int + 1) =~= other.blocks@.take(i as int).push(other.blocks@[i as int]));
                lemma_push_to_set(other.blocks@.take(i as int), other.blocks@[i as int]);
            }
            self.add_block(other.blocks[i]);
            proof {
                assert(self.block_set() =~= old(self).block_set().union(other.blocks@.take(i as int + 1).to_set()));
            }
            i = i + 1;
        }
        proof {
            assert(other.blocks@.take(i as int) =~= other.blocks@);
        }
        let mut j: usize = 0;
        while j < other.points.len()
            invariant
                j <= other.points@.len(),
                self.block_set() == old(self).block_set().union(other.block_set()),
                self.point_set() == old(self).point_set().union(other.points@.take(j as int).to_set()),
            decreases other.points@.len() - j,
        {
            proof {
                assert(other.points@.take(j as int + 1) =~= other.points@.take(j as int).push(other.points@[j as int]));
                lemma_push_to_set(other.points@.take(j as int), other.points@[j as int]);
            }
            let (b, s) = other.points[j];
            self.add_point(b, s);
            proof {
                assert(self.point_set() =~= old(self).point_set().union(other.points@.take(j as int + 1).to_set()));
            }
            j = j + 1;
        }
        proof {
            assert(other.points@.take(j as int) =~= other.points@);
        }
    }
}

impl Default for Region {
    fn default() -> (r: Region)
        ensures
            r.block_set() == Set::<BasicBlock>::empty(),
            r.point_set() == Set::<(BasicBlock, usize)>::empty(),
    {
        Region::new()
    }
}

/// Merging regions is a union: a point lies in the merged region exactly
/// when it lies in one of the two.
pub proof fn law_merge_contains(a: Region, b: Region, merged: Region, block: BasicBlock, statement: usize)
    requires
        merged.block_set() == a.block_set().union(b.block_set()),
        merged.point_set() == a.point_set().union(b.point_set()),
    ensures
        merged.holds(block, statement) == (a.holds(block, statement) || b.holds(block, statement)),
{
}

/// Overlap is symmetric.
pub proof fn law_overlap_symmetric(a: Region, b: Region)
    ensures
        ((exists|x: BasicBlock| a.block_set().contains(x) && b.block_set().contains(x)) || (exists|
            p: (BasicBlock, usize),
        | a.point_set().contains(p) && b.point_set().contains(p))) == ((exists|x: BasicBlock|
            b.block_set().contains(x) && a.block_set().contains(x)) || (exists|p: (BasicBlock, usize)|
            b.point_set().contains(p) && a.point_set().contains(p))),
{
}

/// The lifetime of one borrow.
#[derive(Debug)]
pub struct BorrowLifetime {
    pub loan_id: LoanId,
    pub borrowed_place: Place,
    pub kind: BorrowKind,
    pub borrow_local: Local,
    pub region: Region,
    pub creation_point: (BasicBlock, usize),
    pub kill_points: Vec<(BasicBlock, usize)>,
    pub live_at_end: bool,
}

/// Outlives constraints between regions.
pub struct RegionConstraintSolver {
    constraints: Vec<(Region, Region)>,
}

impl RegionConstraintSolver {
    /// The number of constraints recorded.
    pub closed spec fn constraint_count(&self) -> nat {
        self.constraints@.len()
    }

    pub fn new() -> (s: Self)
        ensures
            s.constraint_count() == 0,
    {
        RegionConstraintSolver { constraints: Vec::new() }
    }

    /// Records that `region1` must outlive `region2`.
    pub fn add_outlives_constraint(&mut self, region1: Region, region2: Region)
        ensures
            final(self).constraint_count() == old(self).constraint_count() + 1,
    {
        self.constraints.push((region1, region2));
    }

    /// The region of a borrow created at `creation_point`: every point
    /// control can reach from it, and the blocks of those points.
    /// Successor blocks out of range are not followed.
    pub fn compute_precise_region(
        &self,
        creation_point: Point,
        _borrow_local: Local,
        body: &MirBody,
        _cfg: &Vec<Vec<BasicBlock>>,
    ) -> (region: Region)
        requires
            creation_point.block.0 < body.basic_blocks@.len(),
            body.basic_blocks@.len() <= u32::MAX,
        ensures
            forall|bb: BasicBlock, i: usize| #[trigger] region.point_set().contains((bb, i)) <==> reaches(
                body.basic_blocks@, (creation_point.block.0 as int, creation_point.statement as int), (bb.0 as int, i as int)),
            forall|bb: BasicBlock| #[trigger] region.block_set().contains(bb) <==> exists|i: int| reaches(
                body.basic_blocks@, (creation_point.block.0 as int, creation_point.statement as int), (bb.0 as int, i)),
    {
        let n = body.basic_blocks.len();
        let ghost bs = body.basic_blocks@;
        let cb = creation_point.block.0 as usize;
        let cs = creation_point.statement;
        let ghost c = (cb as int, cs as int);
        let past_end = cs > body.basic_blocks[cb].statements.len();
        let mut visited: Vec<Vec<bool>> = Vec::new();
        let mut b0: usize = 0;
        while b0 < n
            invariant
                bs == body.basic_blocks@,
                n == bs.len(),
                b0 <= n,
                visited@.len() == b0,
                forall|b: int| 0 <= b < b0 ==> #[trigger] visited@[b]@.len() == bs[b].statements@.len() + 1,
                forall|b: int, i: int| 0 <= b < b0 && 0 <= i < visited@[b]@.len() ==> !#[trigger] visited@[b]@[i],
            decreases n - b0,
        {
            let len = body.basic_blocks[b0].statements.len();
            let mut row: Vec<bool> = Vec::new();
            let mut i: usize = 0;
            while i < len
                invariant
                    i <= len,
                    row@.len() == i,
                    forall|k: int| 0 <= k < i ==> !#[trigger] row@[k],
                decreases len - i,
            {
                row.push(false);
                i += 1;
            }
            row.push(false);
            visited.push(row);
            b0 += 1;
        }
        let mut region = Region::new();
        let mut wl: Vec<(usize, usize)> = Vec::new();
        proof {
            lemma_reaches_start(bs, c);
        }
        if past_end {
            region.add_point(creation_point.block, cs);
            region.add_block(creation_point.block);
            let succ = flow_targets(&body.basic_blocks[cb].terminator);
            push_starts(&mut wl, &succ, n);
            proof {
                assert forall|k: int| 0 <= k < wl@.len() implies reaches(bs, c, pt(#[trigger] wl@[k])) by {
                    assert(precise_step(bs, c, pt(wl@[k])));
                    lemma_reaches_extend(bs, c, c, pt(wl@[k]));
                }
                assert forall|bb: BasicBlock| #[trigger] region.block_set().contains(bb) <==> ((exists|j: int| is_point(
                    bs, (bb.0 as int, j)) && #[trigger] rows(visited@)[bb.0 as int][j]) || (past_end && bb.0 == cb)) by {
                    if bb.0 == cb {
                        assert(bb == creation_point.block);
                    }
                }
            }
        } else {
            wl.push((cb, cs));
            proof {
                assert(wl@[0] == (cb, cs));
                assert(in_wl(wl@, c));
                assert forall|bb: BasicBlock| #[trigger] region.block_set().contains(bb) <==> ((exists|j: int| is_point(
                    bs, (bb.0 as int, j)) && #[trigger] rows(visited@)[bb.0 as int][j]) || (past_end && bb.0 == cb)) by {
                }
            }
        }
        while wl.len() > 0
            invariant
                bs == body.basic_blocks@,
                n == bs.len(),
                n <= u32::MAX,
                c == (cb as int, cs as int),
                cb < n,
                past_end == (cs > bs[cb as int].statements@.len()),
                creation_point.block.0 == cb,
                creation_point.statement == cs,
                rows(visited@).len() == n,
                forall|b: int| 0 <= b < n ==> #[trigger] rows(visited@)[b].len() == bs[b].statements@.len() + 1,
                forall|k: int| 0 <= k < wl@.len() ==> is_point(bs, pt(#[trigger] wl@[k])) && reaches(bs, c, pt(wl@[k])),
                forall|p: (int, int)| is_point(bs, p) && #[trigger] rows(visited@)[p.0][p.1] ==> reaches(bs, c, p),
                forall|p: (int, int), q: (int, int)| is_point(bs, p) && #[trigger] rows(visited@)[p.0][p.1]
                    && #[trigger] precise_step(bs, p, q) ==> rows(visited@)[q.0][q.1] || in_wl(wl@, q),
                !past_end ==> rows(visited@)[c.0][c.1] || in_wl(wl@, c),
                past_end ==> forall|q: (int, int)| #[trigger] precise_step(bs, c, q) ==> rows(visited@)[q.0][q.1] || in_wl(wl@, q),
                forall|bb: BasicBlock, i: usize| #[trigger] region.point_set().contains((bb, i)) <==> ((is_point(
                    bs, (bb.0 as int, i as int)) && rows(visited@)[bb.0 as int][i as int]) || (past_end && (bb.0 as int, i as int) == c)),
                forall|bb: BasicBlock| #[trigger] region.block_set().contains(bb) <==> ((exists|j: int| is_point(
                    bs, (bb.0 as int, j)) && #[trigger] rows(visited@)[bb.0 as int][j]) || (past_end && bb.0 == cb)),
            decreases (total_cells(rows(visited@)) - total_marks(rows(visited@))) as nat, wl@.len(),
        {
            proof {
                lemma_marks_within_cells(rows(visited@));
            }
            let ghost wl0 = wl@;
            let ghost vis0 = rows(visited@);
            let w = wl.pop().unwrap();
            let b = w.0;
            let i = w.1;
            proof {
                assert(wl0 =~= wl@.push(w));
                assert(w == wl0[wl0.len() - 1]);
                assert(is_point(bs, pt(wl0[wl0.len() - 1])));
                assert forall|q: (int, int)| in_wl(wl0, q) implies q == pt(w) || in_wl(wl@, q) by {
                    let k = choose|k: int| 0 <= k < wl0.len() && pt(wl0[k]) == q;
                    if k < wl@.len() {
                        assert(pt(wl@[k]) == q);
                    }
                }
                assert(visited@[b as int]@ == vis0[b as int]);
            }
            if visited[b][i] {
                proof {
                    assert forall|p: (int, int), q: (int, int)| is_point(bs, p) && #[trigger] rows(visited@)[p.0][p.1]
                        && #[trigger] precise_step(bs, p, q) implies rows(visited@)[q.0][q.1] || in_wl(wl@, q) by {
                        if !rows(visited@)[q.0][q.1] {
                            assert(in_wl(wl0, q));
                        }
                    }
                    if past_end {
                        assert forall|q: (int, int)| #[trigger] precise_step(bs, c, q) implies rows(visited@)[q.0][q.1]
                            || in_wl(wl@, q) by {
                            if !rows(visited@)[q.0][q.1] {
                                assert(in_wl(wl0, q));
                            }
                        }
                    }
                }
                continue;
            }
            let ghost row0 = vis0[b as int];
            visited[b].set(i, true);
            let ghost vis1 = rows(visited@);
            proof {
                assert(vis1 =~= vis0.update(b as int, row0.update(i as int, true)));
                crate::middle::mir::optimize::simplify_cfg::lemma_count_true_set(row0, i as int);
                lemma_total_update(vis0, b as int, row0.update(i as int, true));
                lemma_cells_update(vis0, b as int, row0.update(i as int, true));
                lemma_marks_within_cells(vis1);
                assert forall|p: (int, int)| is_point(bs, p) implies #[trigger] vis1[p.0][p.1] == (vis0[p.0][p.1] || p == pt(w)) by {
                }
            }
            let ghost wl_mid = wl@;
            let ghost old_points = region.point_set();
            let ghost old_blocks = region.block_set();
            let ghost bb_w = BasicBlock(b as u32);
            region.add_point(BasicBlock(b as u32), i);
            region.add_block(BasicBlock(b as u32));
            let blk = &body.basic_blocks[b];
            if i < blk.statements.len() {
                wl.push((b, i + 1));
                proof {
                    assert(precise_step(bs, pt(w), (b as int, i + 1)));
                    lemma_reaches_extend(bs, c, pt(w), (b as int, i + 1));
                    assert(pt(wl@[wl@.len() - 1]) == (b as int, i + 1));
                }
            } else {
                let succ = flow_targets(&blk.terminator);
                push_starts(&mut wl, &succ, n);
                proof {
                    assert forall|k: int| wl_mid.len() <= k < wl@.len() implies reaches(bs, c, pt(#[trigger] wl@[k])) by {
                        assert(precise_step(bs, pt(w), pt(wl@[k])));
                        lemma_reaches_extend(bs, c, pt(w), pt(wl@[k]));
                    }
                }
            }
            proof {
                assert forall|q: (int, int)| in_wl(wl_mid, q) implies in_wl(wl@, q) by {
                    let k = choose|k: int| 0 <= k < wl_mid.len() && pt(wl_mid[k]) == q;
                    assert(wl@[k] == wl_mid[k]);
                }
                assert forall|k: int| 0 <= k < wl@.len() implies is_point(bs, pt(#[trigger] wl@[k])) && reaches(bs, c, pt(wl@[k])) by {
                    if k < wl_mid.len() {
                        assert(wl@[k] == wl_mid[k]);
                        assert(wl0[k] == wl_mid[k]);
                    }
                }
                if !past_end {
                    assert(rows(visited@)[c.0][c.1] || in_wl(wl@, c)) by {
                        if !vis0[c.0][c.1] && c != pt(w) {
                            assert(in_wl(wl_mid, c));
                        }
                    }
                } else {
                    assert forall|q: (int, int)| #[trigger] precise_step(bs, c, q) implies vis1[q.0][q.1] || in_wl(wl@, q) by {
                        if !vis1[q.0][q.1] {
                            assert(in_wl(wl0, q));
                            assert(in_wl(wl_mid, q));
                        }
                    }
                }
                assert forall|p: (int, int), q: (int, int)| is_point(bs, p) && #[trigger] vis1[p.0][p.1]
                    && #[trigger] precise_step(bs, p, q) implies vis1[q.0][q.1] || in_wl(wl@, q) by {
                    if p == pt(w) {
                        if i < blk.statements.len() {
                            assert(q == (b as int, i + 1));
                            assert(pt(wl@[wl@.len() - 1]) == q);
                        } else {
                            assert(in_wl(wl@, (q.0, 0int)));
                        }
                    } else {
                        assert(vis0[p.0][p.1]);
                        if !vis1[q.0][q.1] {
                            assert(in_wl(wl0, q));
                            assert(in_wl(wl_mid, q));
                        }
                    }
                }
                assert forall|p: (int, int)| is_point(bs, p) && #[trigger] vis1[p.0][p.1] implies reaches(bs, c, p) by {
                    if p != pt(w) {
                        assert(vis0[p.0][p.1]);
                    }
                }
                assert forall|bb: BasicBlock, j: usize| #[trigger] region.point_set().contains((bb, j)) <==> ((is_point(
                    bs, (bb.0 as int, j as int)) && vis1[bb.0 as int][j as int]) || (past_end && (bb.0 as int, j as int) == c)) by {
                    assert(region.point_set().contains((bb, j)) == (old_points.contains((bb, j)) || (bb, j) == (bb_w, i)));
                    if (bb, j) == (bb_w, i) {
                        assert(bb.0 == b);
                    }
                    if bb.0 == b && j == i {
                        assert(bb == bb_w);
                    }
                }
                assert forall|bb: BasicBlock| #[trigger] region.block_set().contains(bb) <==> ((exists|j: int| is_point(
                    bs, (bb.0 as int, j)) && #[trigger] vis1[bb.0 as int][j]) || (past_end && bb.0 == cb)) by {
                    assert(region.block_set().contains(bb) == (old_blocks.contains(bb) || bb == bb_w));
                    if old_blocks.contains(bb) && !(past_end && bb.0 == cb) {
                        let j = choose|j: int| is_point(bs, (bb.0 as int, j)) && #[trigger] vis0[bb.0 as int][j];
                        assert(vis1[bb.0 as int][j]);
                    }
                    if bb == bb_w {
                        assert(vis1[bb.0 as int][i as int]);
                    }
                    if exists|j: int| is_point(bs, (bb.0 as int, j)) && #[trigger] vis1[bb.0 as int][j] {
                        let j = choose|j: int| is_point(bs, (bb.0 as int, j)) && #[trigger] vis1[bb.0 as int][j];
                        if (bb.0 as int, j) == pt(w) {
                            assert(bb == bb_w);
                        } else {
                            assert(vis0[bb.0 as int][j]);
                        }
                    }
                }
            }
        }
        proof {
            let vis = rows(visited@);
            assert forall|q: (int, int)| #[trigger] precise_step(bs, c, q) implies is_point(bs, q) && vis[q.0][q.1] by {
                if !past_end {
                    assert(!in_wl(wl@, c));
                    assert(is_point(bs, c));
                    assert(vis[c.0][c.1]);
                }
                assert(!in_wl(wl@, q));
            }
            assert forall|p: (int, int), q: (int, int)| is_point(bs, p) && #[trigger] vis[p.0][p.1] && #[trigger] precise_step(bs, p, q)
                implies is_point(bs, q) && vis[q.0][q.1] by {
                assert(!in_wl(wl@, q));
            }
            assert forall|q: (int, int)| #[trigger] reaches(bs, c, q) implies (is_point(bs, q) && vis[q.0][q.1]) || (past_end && q == c) by {
                let path = choose|path: Seq<(int, int)>| reach_path(bs, c, path) && path.last() == q;
                if path.len() > 1 {
                    lemma_reach_path_marked(bs, c, vis, path, path.len() - 1);
                } else {
                    if !past_end {
                        assert(!in_wl(wl@, c));
                    }
                }
            }
            assert forall|bb: BasicBlock, j: usize| #[trigger] region.point_set().contains((bb, j)) <==> reaches(
                bs, c, (bb.0 as int, j as int)) by {
                if past_end && (bb.0 as int, j as int) == c {
                    lemma_reaches_start(bs, c);
                }
            }
            assert forall|bb: BasicBlock| #[trigger] region.block_set().contains(bb) <==> exists|j: int| reaches(
                bs, c, (bb.0 as int, j)) by {
                if region.block_set().contains(bb) {
                    if exists|j: int| is_point(bs, (bb.0 as int, j)) && #[trigger] vis[bb.0 as int][j] {
                        let j = choose|j: int| is_point(bs, (bb.0 as int, j)) && #[trigger] vis[bb.0 as int][j];
                        assert(reaches(bs, c, (bb.0 as int, j)));
                    } else {
                        assert(reaches(bs, c, (bb.0 as int, cs as int)));
                    }
                }
                if exists|j: int| reaches(bs, c, (bb.0 as int, j)) {
                    let j = choose|j: int| reaches(bs, c, (bb.0 as int, j));
                    if past_end && (bb.0 as int, j) == c {
                    } else {
                        assert(vis[bb.0 as int][j]);
                    }
                }
            }
        }
        region
    }

    /// Solves the constraints.  Every set of outlives constraints has a
    /// solution (the union of the regions involved), so no error is
    /// reported.
    pub fn solve(&self) -> (r: Result<(), Vec<String>>)
        ensures
            r is Ok,
    {
        Ok(())
    }
}

impl Default for RegionConstraintSolver {
    fn default() -> (s: Self)
        ensures
            s.constraint_count() == 0,
    {
        RegionConstraintSolver::new()
    }
}


/// The blocks a terminator passes control to, as computed.
pub fn flow_targets(t: &Option<Terminator>) -> (r: Vec<BasicBlock>)
    ensures
        r@ == flow_successors(*t),
{
    match t {
        Some(t) => match &t.kind {
            TerminatorKind::Goto { target } => {
                let mut v = Vec::new();
                v.push(*target);
                v
            },
            TerminatorKind::SwitchInt { targets, otherwise, .. } => {
                let mut v = Vec::new();
                let mut i: usize = 0;
                while i < targets.len()
                    invariant
                        0 <= i <= targets@.len(),
                        v@ == targets@.subrange(0, i as int).map_values(|p: (u128, BasicBlock)| p.1),
                    decreases targets.len() - i,
                {
                    v.push(targets[i].1);
                    assert(targets@.subrange(0, i + 1).map_values(|p: (u128, BasicBlock)| p.1)
                        =~= targets@.subrange(0, i as int).map_values(|p: (u128, BasicBlock)| p.1).push(targets@[i as int].1));
                    i += 1;
                }
                assert(targets@.subrange(0, targets@.len() as int) =~= targets@);
                v.push(*otherwise);
                v
            },
            TerminatorKind::Call { target, .. } => {
                let mut v = Vec::new();
                if let Some(b) = target {
                    v.push(*b);
                }
                assert(v@ =~= flow_successors(Some(*t)));
                v
            },
            TerminatorKind::Assert { target, cleanup, .. } => {
                let mut v = Vec::new();
                v.push(*target);
                if let Some(c) = cleanup {
                    v.push(*c);
                }
                assert(v@ =~= flow_successors(Some(*t)));
                v
            },
            _ => {
                let v = Vec::new();
                assert(v@ =~= flow_successors(Some(*t)));
                v
            },
        },
        None => {
            let v = Vec::new();
            assert(v@ =~= flow_successors(*t));
            v
        },
    }
}

/// Whether two rows of marks are equal.
fn rows_equal(a: &Vec<bool>, b: &Vec<bool>) -> (r: bool)
    ensures
        r == (a@ == b@),
{
    if a.len() != b.len() {
        return false;
    }
    let mut i: usize = 0;
    while i < a.len()
        invariant
            a@.len() == b@.len(),
            i <= a@.len(),
            forall|k: int| 0 <= k < i ==> a@[k] == b@[k],
        decreases a@.len() - i,
    {
        if a[i] != b[i] {
            return false;
        }
        i += 1;
    }
    assert(a@ =~= b@);
    true
}

/// Block `b` and whatever dominates every in-range block of `adj_row`.
fn meet_row(dom: &Vec<Vec<bool>>, adj_row: &Vec<BasicBlock>, b: usize) -> (row: Vec<bool>)
    requires
        dom_shaped(dom@.len() as int, rows(dom@)),
        b < dom@.len(),
    ensures
        row@.len() == dom@.len(),
        forall|d: int| 0 <= d < dom@.len() ==> #[trigger] row@[d] == (d == b || forall|k: int|
            0 <= k < adj_row@.len() && adj_row@[k].0 < dom@.len() ==> rows(dom@)[adj_row@[k].0 as int][d]),
{
    let n = dom.len();
    let mut row: Vec<bool> = Vec::new();
    let mut d: usize = 0;
    while d < n
        invariant
            d <= n,
            row@.len() == d,
            forall|x: int| 0 <= x < d ==> row@[x],
        decreases n - d,
    {
        row.push(true);
        d += 1;
    }
    let mut k: usize = 0;
    while k < adj_row.len()
        invariant
            n == dom@.len(),
            dom_shaped(n as int, rows(dom@)),
            k <= adj_row@.len(),
            row@.len() == n,
            forall|x: int| 0 <= x < n ==> #[trigger] row@[x] == (forall|k2: int|
                0 <= k2 < k && adj_row@[k2].0 < n ==> rows(dom@)[adj_row@[k2].0 as int][x]),
        decreases adj_row@.len() - k,
    {
        let a = adj_row[k].0 as usize;
        if a < n {
            let mut x: usize = 0;
            while x < n
                invariant
                    n == dom@.len(),
                    dom_shaped(n as int, rows(dom@)),
                    k < adj_row@.len(),
                    a == adj_row@[k as int].0,
                    a < n,
                    x <= n,
                    row@.len() == n,
                    forall|y: int| 0 <= y < x ==> #[trigger] row@[y] == (forall|k2: int|
                        0 <= k2 < k + 1 && adj_row@[k2].0 < n ==> rows(dom@)[adj_row@[k2].0 as int][y]),
                    forall|y: int| x <= y < n ==> #[trigger] row@[y] == (forall|k2: int|
                        0 <= k2 < k && adj_row@[k2].0 < n ==> rows(dom@)[adj_row@[k2].0 as int][y]),
                decreases n - x,
            {
                assert(rows(dom@)[a as int] == dom@[a as int]@);
                let v = row[x] && dom[a][x];
                row.set(x, v);
                proof {
                    let y = x as int;
                    assert(row@[y] == (forall|k2: int|
                        0 <= k2 < k + 1 && adj_row@[k2].0 < n ==> rows(dom@)[adj_row@[k2].0 as int][y])) by {
                        if row@[y] {
                            assert forall|k2: int| 0 <= k2 < k + 1 && adj_row@[k2].0 < n implies rows(dom@)[adj_row@[k2].0 as int][y] by {
                                if k2 == k {
                                } else {
                                }
                            }
                        }
                    }
                }
                x += 1;
            }
        } else {
            assert forall|y: int| 0 <= y < n implies #[trigger] row@[y] == (forall|k2: int|
                0 <= k2 < k + 1 && adj_row@[k2].0 < n ==> rows(dom@)[adj_row@[k2].0 as int][y]) by {
                if !row@[y] {
                    let k3 = choose|k3: int| !(0 <= k3 < k && adj_row@[k3].0 < n ==> rows(dom@)[adj_row@[k3].0 as int][y]);
                    assert(0 <= k3 < k + 1);
                }
            }
        }
        k += 1;
    }
    row.set(b, true);
    row
}


/// The greatest solution of the dominator equations over the adjacency
/// `adj` (for each block, the blocks its marks are met over), with `entry`
/// dominated by itself alone.  `rel` and `linked` are the adjacency as a
/// relation on blocks in range and as "has any neighbour".
fn dominator_marks(
    adj: &Vec<Vec<BasicBlock>>,
    entry: usize,
    Ghost(rel): Ghost<spec_fn(int, int) -> bool>,
    Ghost(linked): Ghost<spec_fn(int) -> bool>,
) -> (dom: Vec<Vec<bool>>)
    requires
        entry < adj@.len(),
        forall|b: int, a: int| 0 <= b < adj@.len() && 0 <= a < adj@.len() ==> (#[trigger] rel(b, a) <==> names(adj@[b]@, a)),
        forall|b: int| 0 <= b < adj@.len() ==> (#[trigger] linked(b) <==> adj@[b]@.len() > 0),
    ensures
        is_greatest_dom(rel, linked, adj@.len() as int, entry as int, rows(dom@)),
{
    let n = adj.len();
    let mut dom: Vec<Vec<bool>> = Vec::new();
    let mut b: usize = 0;
    while b < n
        invariant
            b <= n,
            entry < n,
            dom@.len() == b,
            forall|x: int| 0 <= x < b ==> #[trigger] dom@[x]@.len() == n,
            forall|x: int, d: int| 0 <= x < b && 0 <= d < n ==> #[trigger] dom@[x]@[d] == (x != entry || d == entry),
        decreases n - b,
    {
        let mut row: Vec<bool> = Vec::new();
        let mut d: usize = 0;
        while d < n
            invariant
                d <= n,
                row@.len() == d,
                forall|y: int| 0 <= y < d ==> #[trigger] row@[y] == (b != entry || y == entry),
            decreases n - d,
        {
            row.push(b != entry || d == entry);
            d += 1;
        }
        dom.push(row);
        b += 1;
    }
    let ghost ni = n as int;
    let ghost ei = entry as int;
    proof {
        assert forall|t: Seq<Seq<bool>>| dom_solution(rel, linked, ni, ei, t) implies dom_within(ni, t, rows(dom@)) by {
            assert forall|x: int, d: int| 0 <= x < ni && 0 <= d < ni && #[trigger] t[x][d] implies rows(dom@)[x][d] by {
                assert(t[x][d] == dom_step(rel, linked, ei, t, x, d));
            }
        }
        assert forall|x: int, d: int| 0 <= x < ni && 0 <= d < ni && dom_step(rel, linked, ei, rows(dom@), x, d)
            implies #[trigger] rows(dom@)[x][d] by {
        }
    }
    let mut changed = true;
    while changed
        invariant
            n == adj@.len(),
            entry < n,
            ni == n,
            ei == entry,
            forall|b: int, a: int| 0 <= b < n && 0 <= a < n ==> (#[trigger] rel(b, a) <==> names(adj@[b]@, a)),
            forall|b: int| 0 <= b < n ==> (#[trigger] linked(b) <==> adj@[b]@.len() > 0),
            dom_shaped(ni, rows(dom@)),
            forall|d: int| 0 <= d < n ==> #[trigger] rows(dom@)[ei][d] == (d == ei),
            forall|x: int, d: int| 0 <= x < ni && 0 <= d < ni && dom_step(rel, linked, ei, rows(dom@), x, d)
                ==> #[trigger] rows(dom@)[x][d],
            forall|t: Seq<Seq<bool>>| dom_solution(rel, linked, ni, ei, t) ==> dom_within(ni, t, rows(dom@)),
            !changed ==> dom_solution(rel, linked, ni, ei, rows(dom@)),
        decreases total_marks(rows(dom@)) + if changed { 1int } else { 0int },
    {
        changed = false;
        let ghost start = rows(dom@);
        let mut i: usize = 0;
        while i < n
            invariant
                n == adj@.len(),
                entry < n,
                ni == n,
                ei == entry,
                i <= n,
                forall|b: int, a: int| 0 <= b < n && 0 <= a < n ==> (#[trigger] rel(b, a) <==> names(adj@[b]@, a)),
                forall|b: int| 0 <= b < n ==> (#[trigger] linked(b) <==> adj@[b]@.len() > 0),
                dom_shaped(ni, rows(dom@)),
                forall|d: int| 0 <= d < n ==> #[trigger] rows(dom@)[ei][d] == (d == ei),
                forall|x: int, d: int| 0 <= x < ni && 0 <= d < ni && dom_step(rel, linked, ei, rows(dom@), x, d)
                    ==> #[trigger] rows(dom@)[x][d],
                forall|t: Seq<Seq<bool>>| dom_solution(rel, linked, ni, ei, t) ==> dom_within(ni, t, rows(dom@)),
                !changed ==> rows(dom@) == start,
                !changed ==> forall|x: int, d: int| 0 <= x < i && 0 <= d < ni ==> #[trigger] rows(dom@)[x][d]
                    == dom_step(rel, linked, ei, rows(dom@), x, d),
                changed ==> total_marks(rows(dom@)) < total_marks(start),
            decreases n - i,
        {
            if i != entry && adj[i].len() > 0 {
                let row = meet_row(&dom, &adj[i], i);
                let ghost s = rows(dom@);
                proof {
                    assert forall|d: int| 0 <= d < ni implies #[trigger] row@[d] == dom_step(rel, linked, ei, s, i as int, d) by {
                        assert(linked(i as int));
                        let inner = forall|k: int| 0 <= k < adj@[i as int]@.len() && adj@[i as int]@[k].0 < ni
                            ==> s[adj@[i as int]@[k].0 as int][d];
                        let outer = forall|a: int| 0 <= a < s.len() && rel(i as int, a) ==> #[trigger] s[a][d];
                        if inner {
                            assert forall|a: int| 0 <= a < s.len() && rel(i as int, a) implies #[trigger] s[a][d] by {
                                assert(names(adj@[i as int]@, a));
                                let k = choose|k: int| 0 <= k < adj@[i as int]@.len() && adj@[i as int]@[k].0 == a;
                                assert(adj@[i as int]@[k].0 < ni);
                            }
                        }
                        if outer {
                            assert forall|k: int| 0 <= k < adj@[i as int]@.len() && adj@[i as int]@[k].0 < ni
                                implies s[adj@[i as int]@[k].0 as int][d] by {
                                let a = adj@[i as int]@[k].0 as int;
                                assert(names(adj@[i as int]@, a));
                                assert(rel(i as int, a));
                            }
                        }
                    }
                    // The new row has no mark the old one lacks.
                    assert forall|d: int| 0 <= d < ni && #[trigger] row@[d] implies s[i as int][d] by {
                        assert(dom_step(rel, linked, ei, s, i as int, d));
                    }
                }
                if !rows_equal(&row, &dom[i]) {
                    let ghost rowv = row@;
                    proof {
                        assert(s[i as int] == dom@[i as int]@);
                        lemma_count_within(rowv, s[i as int]);
                        lemma_total_update(s, i as int, rowv);
                    }
                    dom.set(i, row);
                    changed = true;
                    proof {
                        let s2 = rows(dom@);
                        assert(s2 =~= s.update(i as int, rowv));
                        // The marks only shrink, so every step over the new marks
                        // is a step over the old ones.
                        assert forall|x: int, d: int| 0 <= x < ni && 0 <= d < ni && dom_step(rel, linked, ei, s2, x, d)
                            implies #[trigger] s2[x][d] by {
                            if x != ei && linked(x) && d != x {
                                assert forall|a: int| 0 <= a < s.len() && rel(x, a) implies #[trigger] s[a][d] by {
                                    assert(s2[a][d]);
                                    if a == i {
                                        assert(rowv[d]);
                                    }
                                }
                            }
                            assert(dom_step(rel, linked, ei, s, x, d));
                            if x == i {
                                assert(rowv[d] == dom_step(rel, linked, ei, s, i as int, d));
                            }
                        }
                        assert forall|t: Seq<Seq<bool>>| dom_solution(rel, linked, ni, ei, t) implies dom_within(ni, t, s2) by {
                            assert(dom_within(ni, t, s));
                            assert forall|x: int, d: int| 0 <= x < ni && 0 <= d < ni && #[trigger] t[x][d] implies s2[x][d] by {
                                if x == i {
                                    assert(t[x][d] == dom_step(rel, linked, ei, t, x, d));
                                    if d != x {
                                        assert forall|a: int| 0 <= a < s.len() && rel(x, a) implies #[trigger] s[a][d] by {
                                            assert(t[a][d]);
                                        }
                                    }
                                    assert(rowv[d] == dom_step(rel, linked, ei, s, i as int, d));
                                }
                            }
                        }
                        assert forall|d: int| 0 <= d < n implies #[trigger] s2[ei][d] == (d == ei) by {
                            assert(s2[ei] == s[ei]);
                        }
                    }
                } else {
                    proof {
                        if !changed {
                            assert forall|x: int, d: int| 0 <= x < i + 1 && 0 <= d < ni implies #[trigger] rows(dom@)[x][d]
                                == dom_step(rel, linked, ei, rows(dom@), x, d) by {
                                if x == i {
                                    assert(rows(dom@)[x] == row@);
                                }
                            }
                        }
                    }
                }
            } else {
                proof {
                    if !changed {
                        assert forall|x: int, d: int| 0 <= x < i + 1 && 0 <= d < ni implies #[trigger] rows(dom@)[x][d]
                            == dom_step(rel, linked, ei, rows(dom@), x, d) by {
                            if x == i {
                                if x == ei {
                                } else {
                                    assert(!linked(x));
                                    assert(dom_step(rel, linked, ei, rows(dom@), x, d));
                                }
                            }
                        }
                    }
                }
            }
            i += 1;
        }
    }
    dom
}

/// For each block but `entry`, the least candidate for its immediate
/// dominator under the marks `dom`.
fn immediate_dominators(dom: &Vec<Vec<bool>>, entry: usize) -> (idom: Vec<Option<BasicBlock>>)
    requires
        dom_shaped(dom@.len() as int, rows(dom@)),
        dom@.len() <= u32::MAX,
    ensures
        idoms_of(rows(dom@), entry as int, idom@),
{
    let n = dom.len();
    let ghost s = rows(dom@);
    let mut idom: Vec<Option<BasicBlock>> = Vec::new();
    let mut b: usize = 0;
    while b < n
        invariant
            n == dom@.len(),
            n <= u32::MAX,
            s == rows(dom@),
            dom_shaped(n as int, s),
            b <= n,
            idom@.len() == b,
            forall|x: int| 0 <= x < b ==> match #[trigger] idom@[x] {
                Some(c) => x != entry && idom_candidate(s, x, c.0 as int) && forall|c2: int| 0 <= c2 < c.0 ==> !idom_candidate(s, x, c2),
                None => x == entry || forall|c2: int| !idom_candidate(s, x, c2),
            },
        decreases n - b,
    {
        let mut found: Option<BasicBlock> = None;
        if b != entry {
            let mut c: usize = 0;
            while c < n && found.is_none()
                invariant
                    n == dom@.len(),
                    n <= u32::MAX,
                    s == rows(dom@),
                    dom_shaped(n as int, s),
                    b < n,
                    b != entry,
                    c <= n,
                    match found {
                        None => forall|c2: int| 0 <= c2 < c ==> !idom_candidate(s, b as int, c2),
                        Some(x) => x.0 < n && idom_candidate(s, b as int, x.0 as int) && forall|c2: int|
                            0 <= c2 < x.0 ==> !idom_candidate(s, b as int, c2),
                    },
                decreases n - c,
            {
                assert(s[b as int] == dom@[b as int]@);
                assert(s[c as int] == dom@[c as int]@);
                if c != b && dom[b][c] {
                    let mut ok = true;
                    let mut d: usize = 0;
                    while d < n
                        invariant
                            n == dom@.len(),
                            s == rows(dom@),
                            dom_shaped(n as int, s),
                            b < n,
                            c < n,
                            d <= n,
                            ok == forall|d2: int| 0 <= d2 < d && d2 != b && #[trigger] s[b as int][d2] ==> s[c as int][d2] || d2 == c,
                        decreases n - d,
                    {
                        assert(s[b as int] == dom@[b as int]@);
                        assert(s[c as int] == dom@[c as int]@);
                        if d != b && dom[b][d] && !dom[c][d] && d != c {
                            ok = false;
                        }
                        d += 1;
                    }
                    if ok {
                        found = Some(BasicBlock(c as u32));
                    }
                }
                c += 1;
            }
            proof {
                if found is None {
                    assert forall|c2: int| !idom_candidate(s, b as int, c2) by {
                        if 0 <= c2 < n {
                        }
                    }
                }
            }
        }
        idom.push(found);
        b += 1;
    }
    idom
}



/// The parts of a statement that creates a reference: the local that
/// receives it, the borrowed place and the mutability.
pub open spec fn ref_parts(st: Statement) -> Option<(Local, Place, Mutability)> {
    match st {
        Statement::Assign(place, rv) => match rv {
            Rvalue::Ref(bp, m) => Some((place.local, bp, m)),
            _ => None,
        },
        _ => None,
    }
}

/// The kind of borrow a reference of the given mutability makes.
pub open spec fn kind_of(m: Mutability) -> BorrowKind {
    match m {
        Mutability::Mut => BorrowKind::Mut,
        Mutability::Not => BorrowKind::Shared,
    }
}

/// The points of block `b`'s statements that create references, in order.
pub open spec fn block_ref_sites(stmts: Seq<Statement>, b: int) -> Seq<(int, int)>
    decreases stmts.len(),
{
    if stmts.len() == 0 {
        Seq::empty()
    } else {
        block_ref_sites(stmts.drop_last(), b) + if ref_parts(stmts.last()) is Some {
            seq![(b, stmts.len() - 1)]
        } else {
            Seq::empty()
        }
    }
}

/// The points of the body that create references, block by block and in
/// statement order: loan `k` is created at the `k`-th of them.
pub open spec fn ref_sites(bs: Seq<BasicBlockData>) -> Seq<(int, int)>
    decreases bs.len(),
{
    if bs.len() == 0 {
        Seq::empty()
    } else {
        ref_sites(bs.drop_last()) + block_ref_sites(bs.last().statements@, bs.len() - 1)
    }
}

/// The reference-creating statement of loan `k`, split into its parts.
pub open spec fn loan_parts(bs: Seq<BasicBlockData>, k: int) -> (Local, Place, Mutability) {
    ref_parts(bs[ref_sites(bs)[k].0].statements@[ref_sites(bs)[k].1]).unwrap()
}

/// Loan `k` is live at point `q`.
pub open spec fn loan_live(bs: Seq<BasicBlockData>, k: int, q: (int, int)) -> bool {
    live_at(bs, loan_parts(bs, k).0, ref_sites(bs)[k], q)
}

/// The fields of a freshly collected lifetime of the loan created at `site`.
pub open spec fn lifetime_at(bs: Seq<BasicBlockData>, site: (int, int), k: int, l: BorrowLifetime) -> bool {
    let parts = ref_parts(bs[site.0].statements@[site.1]).unwrap();
    &&& l.loan_id.0 == k
    &&& l.creation_point.0.0 as int == site.0
    &&& l.creation_point.1 as int == site.1
    &&& l.borrow_local == parts.0
    &&& l.borrowed_place@ == parts.1@
    &&& l.kind == kind_of(parts.2)
}

/// The region, end points and end flag of loan `k`'s lifetime.
pub open spec fn region_fits(bs: Seq<BasicBlockData>, k: int, l: BorrowLifetime) -> bool {
    let local = loan_parts(bs, k).0;
    let c = ref_sites(bs)[k];
    &&& forall|bb: BasicBlock, i: usize| #[trigger] l.region.point_set().contains((bb, i)) <==> live_at(
        bs, local, c, (bb.0 as int, i as int))
    &&& forall|bb: BasicBlock| #[trigger] l.region.block_set().contains(bb) <==> exists|i: int| live_at(
        bs, local, c, (bb.0 as int, i))
    &&& forall|bb: BasicBlock, i: usize| #[trigger] l.kill_points@.contains((bb, i)) <==> kill_at(
        bs, local, c, (bb.0 as int, i as int))
    &&& l.live_at_end == live_to_end(bs, local, c)
}

/// Every site lies on a statement of the body.
pub proof fn lemma_sites_in_body(bs: Seq<BasicBlockData>, k: int)
    requires
        0 <= k < ref_sites(bs).len(),
    ensures
        0 <= ref_sites(bs)[k].0 < bs.len(),
        0 <= ref_sites(bs)[k].1 < bs[ref_sites(bs)[k].0].statements@.len(),
        ref_parts(bs[ref_sites(bs)[k].0].statements@[ref_sites(bs)[k].1]) is Some,
    decreases bs.len(),
{
    let pre = ref_sites(bs.drop_last());
    if k < pre.len() {
        lemma_sites_in_body(bs.drop_last(), k);
    } else {
        lemma_block_sites(bs.last().statements@, bs.len() - 1, k - pre.len());
    }
}

proof fn lemma_block_sites(stmts: Seq<Statement>, b: int, k: int)
    requires
        0 <= k < block_ref_sites(stmts, b).len(),
    ensures
        block_ref_sites(stmts, b)[k].0 == b,
        0 <= block_ref_sites(stmts, b)[k].1 < stmts.len(),
        ref_parts(stmts[block_ref_sites(stmts, b)[k].1]) is Some,
    decreases stmts.len(),
{
    let pre = block_ref_sites(stmts.drop_last(), b);
    if k < pre.len() {
        lemma_block_sites(stmts.drop_last(), b, k);
    }
}


/// The place loan `k` borrows.
pub open spec fn loan_place(bs: Seq<BasicBlockData>, k: int) -> PlaceModel {
    loan_parts(bs, k).1@
}

/// The kind of loan `k`.
pub open spec fn loan_kind(bs: Seq<BasicBlockData>, k: int) -> BorrowKind {
    kind_of(loan_parts(bs, k).2)
}

/// Loan `k` is live at some point of block `b`.
pub open spec fn loan_in_block(bs: Seq<BasicBlockData>, k: int, b: int) -> bool {
    exists|i: int| #[trigger] loan_live(bs, k, (b, i))
}

/// The regions of two loans share a block.
pub open spec fn loans_overlap(bs: Seq<BasicBlockData>, k1: int, k2: int) -> bool {
    exists|b: int| #[trigger] loan_in_block(bs, k1, b) && #[trigger] loan_in_block(bs, k2, b)
}

/// The error two loans give: their regions overlap, their places
/// conflict, and they are not both shared.
pub open spec fn pair_error(bs: Seq<BasicBlockData>, k1: int, k2: int) -> Seq<BorrowErrorModel> {
    if loans_overlap(bs, k1, k2) && places_conflict(loan_place(bs, k1), loan_place(bs, k2)) && kinds_conflict(
        loan_kind(bs, k1),
        loan_kind(bs, k2),
    ) {
        seq![BorrowErrorModel::ConflictingBorrows {
            loan1: LoanId(k1 as u32),
            loan2: LoanId(k2 as u32),
            place1: loan_place(bs, k1),
            place2: loan_place(bs, k2),
        }]
    } else {
        Seq::empty()
    }
}

/// The errors of the pairs `(i, j)` with `i < j < j_end`, by `j`.
pub open spec fn pair_row(bs: Seq<BasicBlockData>, i: int, j_end: int) -> Seq<BorrowErrorModel>
    decreases j_end - i,
{
    if j_end <= i + 1 {
        Seq::empty()
    } else {
        pair_row(bs, i, j_end - 1) + pair_error(bs, i, j_end - 1)
    }
}

/// The errors of all pairs of loans whose first loan is below `i_end`.
pub open spec fn pair_errors(bs: Seq<BasicBlockData>, i_end: int) -> Seq<BorrowErrorModel>
    decreases i_end,
{
    if i_end <= 0 {
        Seq::empty()
    } else {
        pair_errors(bs, i_end - 1) + pair_row(bs, i_end - 1, ref_sites(bs).len() as int)
    }
}

/// The errors a write to `place` at point `p` gives with the loans below
/// `k_end` whose region holds `p`'s block.
pub open spec fn write_errors(bs: Seq<BasicBlockData>, place: PlaceModel, p: (int, int), k_end: int) -> Seq<BorrowErrorModel>
    decreases k_end,
{
    if k_end <= 0 {
        Seq::empty()
    } else {
        let k = k_end - 1;
        write_errors(bs, place, p, k) + if loan_in_block(bs, k, p.0) && places_conflict(place, loan_place(bs, k)) {
            if loan_kind(bs, k) == BorrowKind::Mut {
                seq![BorrowErrorModel::WriteToMutBorrowed { loan: LoanId(k as u32), place }]
            } else {
                seq![BorrowErrorModel::WriteToSharedBorrowed { loan: LoanId(k as u32), place }]
            }
        } else {
            Seq::empty()
        }
    }
}

/// The errors a move out of `place` at point `p` gives with the loans
/// below `k_end` whose region holds `p`'s block.
pub open spec fn move_errors(bs: Seq<BasicBlockData>, place: PlaceModel, p: (int, int), k_end: int) -> Seq<BorrowErrorModel>
    decreases k_end,
{
    if k_end <= 0 {
        Seq::empty()
    } else {
        let k = k_end - 1;
        move_errors(bs, place, p, k) + if loan_in_block(bs, k, p.0) && places_conflict(place, loan_place(bs, k)) {
            seq![BorrowErrorModel::MoveOutOfBorrowed { loan: LoanId(k as u32), place }]
        } else {
            Seq::empty()
        }
    }
}

/// The errors of the statement at point `p`: an assignment writes its
/// place, and a move also moves its source.
pub open spec fn stmt_access_errors(bs: Seq<BasicBlockData>, p: (int, int)) -> Seq<BorrowErrorModel> {
    let m = ref_sites(bs).len() as int;
    match bs[p.0].statements@[p.1] {
        Statement::Assign(place, rv) => write_errors(bs, place@, p, m) + match rv {
            Rvalue::Move(mp) => move_errors(bs, mp@, p, m),
            _ => Seq::empty(),
        },
        _ => Seq::empty(),
    }
}

/// The access errors of block `b`'s statements below `s_end`.
pub open spec fn block_access_errors(bs: Seq<BasicBlockData>, b: int, s_end: int) -> Seq<BorrowErrorModel>
    decreases s_end,
{
    if s_end <= 0 {
        Seq::empty()
    } else {
        block_access_errors(bs, b, s_end - 1) + stmt_access_errors(bs, (b, s_end - 1))
    }
}

/// The access errors of the blocks below `b_end`.
pub open spec fn access_errors(bs: Seq<BasicBlockData>, b_end: int) -> Seq<BorrowErrorModel>
    decreases b_end,
{
    if b_end <= 0 {
        Seq::empty()
    } else {
        access_errors(bs, b_end - 1) + block_access_errors(bs, b_end - 1, bs[b_end - 1].statements@.len() as int)
    }
}

/// Where a borrow is live lies a point of the body.
pub proof fn lemma_live_is_point(bs: Seq<BasicBlockData>, local: Local, c: (int, int), q: (int, int))
    requires
        is_point(bs, c),
        live_at(bs, local, c, q),
    ensures
        is_point(bs, q),
{
    let path = choose|path: Seq<(int, int)>| live_path(bs, local, c, path) && path.last() == q;
    if path.len() > 1 {
        let j = path.len() - 2;
        assert(point_step(bs, path[j], path[j + 1]));
    }
}


/// The regions of two lifetimes overlap exactly when their loans' live
/// points share a block.
proof fn lemma_overlap_regions(bs: Seq<BasicBlockData>, k1: int, k2: int, l1: BorrowLifetime, l2: BorrowLifetime)
    requires
        bs.len() <= u32::MAX,
        0 <= k1 < ref_sites(bs).len(),
        0 <= k2 < ref_sites(bs).len(),
        region_fits(bs, k1, l1),
        region_fits(bs, k2, l2),
    ensures
        ((exists|x: BasicBlock| l1.region.block_set().contains(x) && l2.region.block_set().contains(x)) || (exists|
            p: (BasicBlock, usize),
        | l1.region.point_set().contains(p) && l2.region.point_set().contains(p))) == loans_overlap(bs, k1, k2),
{
    lemma_sites_in_body(bs, k1);
    lemma_sites_in_body(bs, k2);
    let c1 = ref_sites(bs)[k1];
    let c2 = ref_sites(bs)[k2];
    if exists|x: BasicBlock| l1.region.block_set().contains(x) && l2.region.block_set().contains(x) {
        let x = choose|x: BasicBlock| l1.region.block_set().contains(x) && l2.region.block_set().contains(x);
        let i1 = choose|i: int| live_at(bs, loan_parts(bs, k1).0, c1, (x.0 as int, i));
        let i2 = choose|i: int| live_at(bs, loan_parts(bs, k2).0, c2, (x.0 as int, i));
        assert(loan_live(bs, k1, (x.0 as int, i1)));
        assert(loan_live(bs, k2, (x.0 as int, i2)));
        assert(loan_in_block(bs, k1, x.0 as int) && loan_in_block(bs, k2, x.0 as int));
    }
    if exists|p: (BasicBlock, usize)| l1.region.point_set().contains(p) && l2.region.point_set().contains(p) {
        let p = choose|p: (BasicBlock, usize)| l1.region.point_set().contains(p) && l2.region.point_set().contains(p);
        assert(loan_live(bs, k1, (p.0.0 as int, p.1 as int)));
        assert(loan_live(bs, k2, (p.0.0 as int, p.1 as int)));
        assert(loan_in_block(bs, k1, p.0.0 as int) && loan_in_block(bs, k2, p.0.0 as int));
    }
    if loans_overlap(bs, k1, k2) {
        let b = choose|b: int| #[trigger] loan_in_block(bs, k1, b) && #[trigger] loan_in_block(bs, k2, b);
        let i1 = choose|i: int| #[trigger] loan_live(bs, k1, (b, i));
        let i2 = choose|i: int| #[trigger] loan_live(bs, k2, (b, i));
        lemma_live_is_point(bs, loan_parts(bs, k1).0, c1, (b, i1));
        let x = BasicBlock(b as u32);
        assert(x.0 as int == b);
        assert(l1.region.block_set().contains(x));
        assert(l2.region.block_set().contains(x));
    }
}

/// A lifetime's region holds a point of block `block` exactly when its
/// loan is live somewhere in that block.
proof fn lemma_region_holds(bs: Seq<BasicBlockData>, k: int, l: BorrowLifetime, block: BasicBlock, stmt: usize)
    requires
        bs.len() <= u32::MAX,
        0 <= k < ref_sites(bs).len(),
        region_fits(bs, k, l),
    ensures
        l.region.holds(block, stmt) == loan_in_block(bs, k, block.0 as int),
{
    lemma_sites_in_body(bs, k);
    if l.region.point_set().contains((block, stmt)) {
        assert(loan_live(bs, k, (block.0 as int, stmt as int)));
    }
    if l.region.block_set().contains(block) {
        let i = choose|i: int| live_at(bs, loan_parts(bs, k).0, ref_sites(bs)[k], (block.0 as int, i));
        assert(loan_live(bs, k, (block.0 as int, i)));
    }
    if loan_in_block(bs, k, block.0 as int) {
        let i = choose|i: int| #[trigger] loan_live(bs, k, (block.0 as int, i));
        assert(l.region.block_set().contains(block));
    }
}


/// The errors the non-lexical checker reports for a body, in order: the
/// conflicting pairs of loans, the writes and moves that conflict with a
/// live loan, then the reads of moved locals.
pub open spec fn nll_errors(bs: Seq<BasicBlockData>) -> Seq<BorrowErrorModel> {
    pair_errors(bs, ref_sites(bs).len() as int) + access_errors(bs, bs.len() as int) + use_after_move_errors(bs)
}

/// Some entry below `i` of the map is for `l`.
pub open spec fn seen(m: MoveMap, i: int, l: Local) -> bool {
    exists|j: int| 0 <= j < i && #[trigger] m.key_at(j) == l
}


/// Shared borrows coexist: two shared loans never give a conflict,
/// whatever their regions and places.
pub proof fn law_shared_loans_coexist(bs: Seq<BasicBlockData>, k1: int, k2: int)
    requires
        loan_kind(bs, k1) == BorrowKind::Shared,
        loan_kind(bs, k2) == BorrowKind::Shared,
    ensures
        pair_error(bs, k1, k2) == Seq::<BorrowErrorModel>::empty(),
{
}

/// A borrow is live where it is created.
pub proof fn law_live_at_creation(bs: Seq<BasicBlockData>, k: int)
    requires
        0 <= k < ref_sites(bs).len(),
    ensures
        loan_live(bs, k, ref_sites(bs)[k]),
{
    lemma_live_at_start(bs, loan_parts(bs, k).0, ref_sites(bs)[k]);
}

/// A borrow is not live at a point where it ends.
pub proof fn law_not_live_where_killed(bs: Seq<BasicBlockData>, local: Local, c: (int, int), q: (int, int))
    requires
        kill_at(bs, local, c, q),
    ensures
        !live_at(bs, local, c, q),
{
    if live_at(bs, local, c, q) {
        let path = choose|path: Seq<(int, int)>| live_path(bs, local, c, path) && path.last() == q;
        assert(!ends_borrow(bs, local, c, path[path.len() - 1]));
    }
}

/// The region a borrow reaches holds the point where it is created.
pub proof fn law_precise_region_holds_creation(bs: Seq<BasicBlockData>, c: (int, int))
    ensures
        reaches(bs, c, c),
{
    lemma_reaches_start(bs, c);
}

/// Whether the statement overwrites `local` or ends its storage.
fn ends_in(st: &Statement, local: Local) -> (b: bool)
    ensures
        b == stmt_ends(*st, local),
{
    match st {
        Statement::Assign(place, _) => place.local == local,
        Statement::StorageDead(l) => *l == local,
        _ => false,
    }
}


proof fn lemma_prefix_sites(bs: Seq<BasicBlockData>, b: int)
    requires
        0 <= b <= bs.len(),
    ensures
        ref_sites(bs.take(b)).len() <= ref_sites(bs).len(),
    decreases bs.len(),
{
    if b < bs.len() {
        assert(bs.drop_last().take(b) =~= bs.take(b));
        lemma_prefix_sites(bs.drop_last(), b);
    } else {
        assert(bs.take(b) =~= bs);
    }
}

pub proof fn lemma_block_prefix_sites(stmts: Seq<Statement>, b: int, i: int)
    requires
        0 <= i <= stmts.len(),
    ensures
        block_ref_sites(stmts.take(i), b).len() <= block_ref_sites(stmts, b).len(),
    decreases stmts.len(),
{
    if i < stmts.len() {
        assert(stmts.drop_last().take(i) =~= stmts.take(i));
        lemma_block_prefix_sites(stmts.drop_last(), b, i);
    } else {
        assert(stmts.take(i) =~= stmts);
    }
}

/// Whether the statement at point `(block, stmt_idx)` ends the borrow
/// created at `(cb, cs)` into `borrow_local`: it is not the creation
/// point, and it overwrites the local or ends its storage.
fn point_kills_borrow(body: &MirBody, block: usize, stmt_idx: usize, borrow_local: Local, cb: usize, cs: usize) -> (b: bool)
    requires
        block < body.basic_blocks@.len(),
    ensures
        b == ends_borrow(body.basic_blocks@, borrow_local, (cb as int, cs as int), (block as int, stmt_idx as int)),
{
    if block == cb && stmt_idx == cs {
        return false;
    }
    let block_data = &body.basic_blocks[block];
    if stmt_idx >= block_data.statements.len() {
        return false;
    }
    ends_in(&block_data.statements[stmt_idx], borrow_local)
}

/// Whether the terminator leaves the function.
fn leaves(t: &Option<Terminator>) -> (b: bool)
    ensures
        b == leaves_function(*t),
{
    match t {
        Some(t) => match &t.kind {
            TerminatorKind::Return => true,
            TerminatorKind::Call { target, .. } => target.is_none(),
            _ => false,
        },
        None => false,
    }
}

/// A point of the work list as a pair of integers.
pub open spec fn pt(w: (usize, usize)) -> (int, int) {
    (w.0 as int, w.1 as int)
}

/// Some entry of the work list stands for the point `q`.
pub open spec fn in_wl(wl: Seq<(usize, usize)>, q: (int, int)) -> bool {
    exists|k: int| 0 <= k < wl.len() && pt(wl[k]) == q
}

/// The point is the creation point, or follows a point where the borrow
/// is live.
pub open spec fn reached(bs: Seq<BasicBlockData>, local: Local, c: (int, int), q: (int, int)) -> bool {
    q == c || exists|p: (int, int)| live_at(bs, local, c, p) && point_step(bs, p, q)
}

proof fn lemma_live_at_start(bs: Seq<BasicBlockData>, local: Local, c: (int, int))
    ensures
        live_at(bs, local, c, c),
{
    let path = seq![c];
    assert(live_path(bs, local, c, path));
    assert(path.last() == c);
}


/// Appends the start of every block in range that `succ` names.
fn push_starts(wl: &mut Vec<(usize, usize)>, succ: &Vec<BasicBlock>, n: usize)
    ensures
        final(wl)@.len() >= old(wl)@.len(),
        forall|k: int| 0 <= k < old(wl)@.len() ==> final(wl)@[k] == old(wl)@[k],
        forall|k: int| old(wl)@.len() <= k < final(wl)@.len() ==> (#[trigger] final(wl)@[k]).1 == 0 && final(wl)@[k].0 < n
            && names(succ@, final(wl)@[k].0 as int),
        forall|s: int| 0 <= s < n && names(succ@, s) ==> in_wl(final(wl)@, (s, 0int)),
{
    let mut k: usize = 0;
    while k < succ.len()
        invariant
            k <= succ@.len(),
            wl@.len() >= old(wl)@.len(),
            forall|j: int| 0 <= j < old(wl)@.len() ==> wl@[j] == old(wl)@[j],
            forall|j: int| old(wl)@.len() <= j < wl@.len() ==> (#[trigger] wl@[j]).1 == 0 && wl@[j].0 < n
                && names(succ@, wl@[j].0 as int),
            forall|j: int| 0 <= j < k && succ@[j].0 < n ==> in_wl(wl@, (succ@[j].0 as int, 0int)),
        decreases succ@.len() - k,
    {
        let t = succ[k].0 as usize;
        if t < n {
            let ghost before = wl@;
            wl.push((t, 0));
            proof {
                assert(names(succ@, t as int)) by {
                    assert(succ@[k as int].0 == t);
                }
                assert forall|j: int| 0 <= j < k + 1 && succ@[j].0 < n implies in_wl(wl@, (succ@[j].0 as int, 0int)) by {
                    if j < k {
                        let x = choose|x: int| 0 <= x < before.len() && pt(before[x]) == (succ@[j].0 as int, 0int);
                        assert(wl@[x] == before[x]);
                    } else {
                        assert(pt(wl@[before.len() as int]) == (succ@[j].0 as int, 0int));
                    }
                }
            }
        }
        k += 1;
    }
    proof {
        assert forall|s: int| 0 <= s < n && names(succ@, s) implies in_wl(wl@, (s, 0int)) by {
            let j = choose|j: int| 0 <= j < succ@.len() && succ@[j].0 == s;
            assert(succ@[j].0 < n);
        }
    }
}

/// The points where the borrow created at `(cb, cs)` into `local` is live,
/// the points where it ends, and whether it is live where the function is
/// left.  Successor blocks out of range are not followed.
fn live_region(body: &MirBody, local: Local, cb: usize, cs: usize) -> (r: (Region, Vec<(BasicBlock, usize)>, bool))
    requires
        cb < body.basic_blocks@.len(),
        cs < body.basic_blocks@[cb as int].statements@.len(),
        body.basic_blocks@.len() <= u32::MAX,
    ensures
        forall|bb: BasicBlock, i: usize| #[trigger] r.0.point_set().contains((bb, i)) <==> live_at(
            body.basic_blocks@, local, (cb as int, cs as int), (bb.0 as int, i as int)),
        forall|bb: BasicBlock| #[trigger] r.0.block_set().contains(bb) <==> exists|i: int| live_at(
            body.basic_blocks@, local, (cb as int, cs as int), (bb.0 as int, i)),
        forall|bb: BasicBlock, i: usize| #[trigger] r.1@.contains((bb, i)) <==> kill_at(
            body.basic_blocks@, local, (cb as int, cs as int), (bb.0 as int, i as int)),
        r.2 == live_to_end(body.basic_blocks@, local, (cb as int, cs as int)),
{
    let n = body.basic_blocks.len();
    let ghost bs = body.basic_blocks@;
    let ghost c = (cb as int, cs as int);
    let mut visited: Vec<Vec<bool>> = Vec::new();
    let mut b0: usize = 0;
    while b0 < n
        invariant
            bs == body.basic_blocks@,
            n == bs.len(),
            b0 <= n,
            visited@.len() == b0,
            forall|b: int| 0 <= b < b0 ==> #[trigger] visited@[b]@.len() == bs[b].statements@.len() + 1,
            forall|b: int, i: int| 0 <= b < b0 && 0 <= i < visited@[b]@.len() ==> !#[trigger] visited@[b]@[i],
        decreases n - b0,
    {
        let len = body.basic_blocks[b0].statements.len();
        let mut row: Vec<bool> = Vec::new();
        let mut i: usize = 0;
        while i < len
            invariant
                i <= len,
                row@.len() == i,
                forall|k: int| 0 <= k < i ==> !#[trigger] row@[k],
            decreases len - i,
        {
            row.push(false);
            i += 1;
        }
        row.push(false);
        visited.push(row);
        b0 += 1;
    }
    let mut wl: Vec<(usize, usize)> = Vec::new();
    wl.push((cb, cs));
    let mut region = Region::new();
    let mut kills: Vec<(BasicBlock, usize)> = Vec::new();
    let mut live_end = false;
    proof {
        lemma_live_at_start(bs, local, c);
        assert(wl@[0] == (cb, cs));
    }
    while wl.len() > 0
        invariant
            bs == body.basic_blocks@,
            n == bs.len(),
            n <= u32::MAX,
            c == (cb as int, cs as int),
            is_point(bs, c),
            c.1 < bs[c.0].statements@.len(),
            rows(visited@).len() == n,
            forall|b: int| 0 <= b < n ==> #[trigger] rows(visited@)[b].len() == bs[b].statements@.len() + 1,
            forall|k: int| 0 <= k < wl@.len() ==> is_point(bs, pt(#[trigger] wl@[k])),
            forall|k: int| 0 <= k < wl@.len() ==> reached(bs, local, c, pt(#[trigger] wl@[k])),
            rows(visited@)[c.0][c.1] || in_wl(wl@, c),
            forall|p: (int, int)| is_point(bs, p) && #[trigger] rows(visited@)[p.0][p.1] && !ends_borrow(bs, local, c, p)
                ==> live_at(bs, local, c, p),
            forall|p: (int, int)| is_point(bs, p) && #[trigger] rows(visited@)[p.0][p.1] && ends_borrow(bs, local, c, p)
                ==> kill_at(bs, local, c, p),
            forall|p: (int, int), q: (int, int)| is_point(bs, p) && #[trigger] rows(visited@)[p.0][p.1] && !ends_borrow(
                bs, local, c, p) && #[trigger] point_step(bs, p, q) ==> rows(visited@)[q.0][q.1] || in_wl(wl@, q),
            forall|bb: BasicBlock, i: usize| #[trigger] region.point_set().contains((bb, i)) <==> (is_point(
                bs, (bb.0 as int, i as int)) && rows(visited@)[bb.0 as int][i as int] && !ends_borrow(bs, local, c, (bb.0 as int, i as int))),
            forall|bb: BasicBlock| #[trigger] region.block_set().contains(bb) <==> (exists|i: int| is_point(bs, (bb.0 as int, i))
                && #[trigger] rows(visited@)[bb.0 as int][i] && !ends_borrow(bs, local, c, (bb.0 as int, i))),
            forall|bb: BasicBlock, i: usize| #[trigger] kills@.contains((bb, i)) <==> (is_point(bs, (bb.0 as int, i as int))
                && rows(visited@)[bb.0 as int][i as int] && ends_borrow(bs, local, c, (bb.0 as int, i as int))),
            live_end == exists|b: int| 0 <= b < n && #[trigger] rows(visited@)[b][bs[b].statements@.len() as int]
                && leaves_function(bs[b].terminator),
        decreases (total_cells(rows(visited@)) - total_marks(rows(visited@))) as nat, wl@.len(),
    {
        proof {
            lemma_marks_within_cells(rows(visited@));
        }
        let ghost wl0 = wl@;
        let ghost vis0 = rows(visited@);
        let w = wl.pop().unwrap();
        let b = w.0;
        let i = w.1;
        proof {
            assert(wl0 =~= wl@.push(w));
            assert(w == wl0[wl0.len() - 1]);
            assert(is_point(bs, pt(wl0[wl0.len() - 1])));
            assert(reached(bs, local, c, pt(wl0[wl0.len() - 1])));
            assert forall|q: (int, int)| in_wl(wl0, q) implies q == pt(w) || in_wl(wl@, q) by {
                let k = choose|k: int| 0 <= k < wl0.len() && pt(wl0[k]) == q;
                if k < wl@.len() {
                    assert(pt(wl@[k]) == q);
                }
            }
            assert(visited@[b as int]@ == vis0[b as int]);
        }
        if visited[b][i] {
            proof {
                assert forall|p: (int, int), q: (int, int)| is_point(bs, p) && #[trigger] rows(visited@)[p.0][p.1]
                    && !ends_borrow(bs, local, c, p) && #[trigger] point_step(bs, p, q) implies rows(visited@)[q.0][q.1]
                    || in_wl(wl@, q) by {
                    if !rows(visited@)[q.0][q.1] {
                        assert(in_wl(wl0, q));
                    }
                }
            }
            continue;
        }
        let ghost row0 = vis0[b as int];
        visited[b].set(i, true);
        let ghost vis1 = rows(visited@);
        proof {
            assert(vis1 =~= vis0.update(b as int, row0.update(i as int, true)));
            crate::middle::mir::optimize::simplify_cfg::lemma_count_true_set(row0, i as int);
            lemma_total_update(vis0, b as int, row0.update(i as int, true));
            lemma_cells_update(vis0, b as int, row0.update(i as int, true));
            lemma_marks_within_cells(vis1);
            assert forall|p: (int, int)| is_point(bs, p) implies #[trigger] vis1[p.0][p.1] == (vis0[p.0][p.1] || p == pt(w)) by {
            }
            assert forall|b2: int, j: int| 0 <= b2 < n && 0 <= j < vis0[b2].len() && !(b2 == b && j == i) implies
                #[trigger] vis1[b2][j] == vis0[b2][j] by {
            }
        }
        let blk = &body.basic_blocks[b];
        let st_len = blk.statements.len();
        let ghost bb_w = BasicBlock(b as u32);
        if point_kills_borrow(body, b, i, local, cb, cs) {
            let ghost kills0 = kills@;
            kills.push((BasicBlock(b as u32), i));
            proof {
                assert(ends_borrow(bs, local, c, pt(w)));
                let p0 = choose|p0: (int, int)| live_at(bs, local, c, p0) && point_step(bs, p0, pt(w));
                assert(kill_at(bs, local, c, pt(w)));
                assert forall|p: (int, int), q: (int, int)| is_point(bs, p) && #[trigger] vis1[p.0][p.1]
                    && !ends_borrow(bs, local, c, p) && #[trigger] point_step(bs, p, q) implies vis1[q.0][q.1]
                    || in_wl(wl@, q) by {
                    assert(vis0[p.0][p.1]);
                    if !vis1[q.0][q.1] {
                        assert(in_wl(wl0, q));
                    }
                }
                assert forall|bb: BasicBlock| #[trigger] region.block_set().contains(bb) <==> (exists|j: int| is_point(bs, (bb.0 as int, j))
                    && #[trigger] vis1[bb.0 as int][j] && !ends_borrow(bs, local, c, (bb.0 as int, j))) by {
                    if region.block_set().contains(bb) {
                        let j = choose|j: int| is_point(bs, (bb.0 as int, j)) && #[trigger] vis0[bb.0 as int][j] && !ends_borrow(bs, local, c, (bb.0 as int, j));
                        assert(vis1[bb.0 as int][j]);
                    }
                    if exists|j: int| is_point(bs, (bb.0 as int, j)) && #[trigger] vis1[bb.0 as int][j] && !ends_borrow(bs, local, c, (bb.0 as int, j)) {
                        let j = choose|j: int| is_point(bs, (bb.0 as int, j)) && #[trigger] vis1[bb.0 as int][j] && !ends_borrow(bs, local, c, (bb.0 as int, j));
                        assert(vis0[bb.0 as int][j]);
                    }
                }
                assert forall|bb: BasicBlock, j: usize| #[trigger] kills@.contains((bb, j)) <==> (is_point(bs, (bb.0 as int, j as int))
                    && vis1[bb.0 as int][j as int] && ends_borrow(bs, local, c, (bb.0 as int, j as int))) by {
                    let q = (bb.0 as int, j as int);
                    assert(kills@ == kills0.push((bb_w, i)));
                    if (bb, j) == (bb_w, i) {
                        assert(q == pt(w));
                        assert(kills@[kills0.len() as int] == (bb, j));
                    } else {
                        if kills@.contains((bb, j)) {
                            let k = choose|k: int| 0 <= k < kills@.len() && kills@[k] == (bb, j);
                            assert(kills0[k] == (bb, j));
                        }
                        if kills0.contains((bb, j)) {
                            let k = choose|k: int| 0 <= k < kills0.len() && kills0[k] == (bb, j);
                            assert(kills@[k] == (bb, j));
                        }
                        if q == pt(w) {
                            assert(bb == bb_w);
                        }
                        if is_point(bs, q) {
                            assert(vis1[q.0][q.1] == vis0[q.0][q.1]);
                        }
                    }
                }
                assert(live_end == exists|b2: int| 0 <= b2 < n && #[trigger] vis1[b2][bs[b2].statements@.len() as int]
                    && leaves_function(bs[b2].terminator)) by {
                    if live_end {
                        let b2 = choose|b2: int| 0 <= b2 < n && #[trigger] vis0[b2][bs[b2].statements@.len() as int] && leaves_function(bs[b2].terminator);
                        assert(vis1[b2][bs[b2].statements@.len() as int]);
                    }
                    if exists|b2: int| 0 <= b2 < n && #[trigger] vis1[b2][bs[b2].statements@.len() as int] && leaves_function(bs[b2].terminator) {
                        let b2 = choose|b2: int| 0 <= b2 < n && #[trigger] vis1[b2][bs[b2].statements@.len() as int] && leaves_function(bs[b2].terminator);
                        assert(vis0[b2][bs[b2].statements@.len() as int]);
                    }
                }
            }
            continue;
        }
        proof {
            assert(!ends_borrow(bs, local, c, pt(w)));
            if pt(w) == c {
                lemma_live_at_start(bs, local, c);
            } else {
                let p0 = choose|p0: (int, int)| live_at(bs, local, c, p0) && point_step(bs, p0, pt(w));
                lemma_live_extend(bs, local, c, p0, pt(w));
            }
        }
        let ghost wl_mid = wl@;
        let ghost live_end0 = live_end;
        let ghost old_points = region.point_set();
        let ghost old_blocks = region.block_set();
        region.add_point(BasicBlock(b as u32), i);
        region.add_block(BasicBlock(b as u32));
        if i < st_len {
            wl.push((b, i + 1));
            proof {
                assert(point_step(bs, pt(w), (b as int, i + 1)));
                assert(reached(bs, local, c, pt((b, (i + 1) as usize))));
                assert(wl@[wl@.len() - 1] == (b, (i + 1) as usize));
            }
        } else {
            if leaves(&blk.terminator) {
                live_end = true;
            }
            let succ = flow_targets(&blk.terminator);
            push_starts(&mut wl, &succ, n);
            proof {
                assert forall|k: int| wl_mid.len() <= k < wl@.len() implies reached(bs, local, c, pt(#[trigger] wl@[k])) by {
                    assert(point_step(bs, pt(w), pt(wl@[k])));
                }
            }
        }
        proof {
            assert forall|q: (int, int)| in_wl(wl_mid, q) implies in_wl(wl@, q) by {
                let k = choose|k: int| 0 <= k < wl_mid.len() && pt(wl_mid[k]) == q;
                assert(wl@[k] == wl_mid[k]);
            }
            assert forall|k: int| 0 <= k < wl@.len() implies is_point(bs, pt(#[trigger] wl@[k])) && reached(bs, local, c, pt(wl@[k])) by {
                if k < wl_mid.len() {
                    assert(wl@[k] == wl_mid[k]);
                    assert(wl0[k] == wl_mid[k]);
                }
            }
            assert(rows(visited@)[c.0][c.1] || in_wl(wl@, c)) by {
                if !vis0[c.0][c.1] && c != pt(w) {
                    assert(in_wl(wl_mid, c));
                }
            }
            assert forall|p: (int, int), q: (int, int)| is_point(bs, p) && #[trigger] vis1[p.0][p.1]
                && !ends_borrow(bs, local, c, p) && #[trigger] point_step(bs, p, q) implies vis1[q.0][q.1]
                || in_wl(wl@, q) by {
                if p == pt(w) {
                    if i < st_len {
                        assert(q == (b as int, i + 1));
                        assert(pt(wl@[wl@.len() - 1]) == q);
                    } else {
                        assert(in_wl(wl@, (q.0, 0int)));
                    }
                } else {
                    assert(vis0[p.0][p.1]);
                    if !vis1[q.0][q.1] {
                        assert(in_wl(wl0, q));
                        assert(in_wl(wl_mid, q));
                    }
                }
            }
            assert forall|bb: BasicBlock, j: usize| #[trigger] region.point_set().contains((bb, j)) <==> (is_point(
                bs, (bb.0 as int, j as int)) && vis1[bb.0 as int][j as int] && !ends_borrow(bs, local, c, (bb.0 as int, j as int))) by {
                assert(region.point_set().contains((bb, j)) == (old_points.contains((bb, j)) || (bb, j) == (bb_w, i)));
                if (bb, j) == (bb_w, i) {
                    assert(bb.0 == b);
                }
                if bb.0 == b && j == i {
                    assert(bb == bb_w);
                }
            }
            assert forall|bb: BasicBlock| #[trigger] region.block_set().contains(bb) <==> (exists|j: int| is_point(bs, (bb.0 as int, j))
                && #[trigger] vis1[bb.0 as int][j] && !ends_borrow(bs, local, c, (bb.0 as int, j))) by {
                assert(region.block_set().contains(bb) == (old_blocks.contains(bb) || bb == bb_w));
                if old_blocks.contains(bb) {
                    let j = choose|j: int| is_point(bs, (bb.0 as int, j)) && #[trigger] vis0[bb.0 as int][j] && !ends_borrow(bs, local, c, (bb.0 as int, j));
                    assert(vis1[bb.0 as int][j]);
                }
                if bb == bb_w {
                    assert(vis1[bb.0 as int][i as int]);
                }
                if exists|j: int| is_point(bs, (bb.0 as int, j)) && #[trigger] vis1[bb.0 as int][j] && !ends_borrow(bs, local, c, (bb.0 as int, j)) {
                    let j = choose|j: int| is_point(bs, (bb.0 as int, j)) && #[trigger] vis1[bb.0 as int][j] && !ends_borrow(bs, local, c, (bb.0 as int, j));
                    if (bb.0 as int, j) == pt(w) {
                        assert(bb == bb_w);
                    } else {
                        assert(vis0[bb.0 as int][j]);
                    }
                }
            }
            assert forall|bb: BasicBlock, j: usize| #[trigger] kills@.contains((bb, j)) <==> (is_point(bs, (bb.0 as int, j as int))
                && vis1[bb.0 as int][j as int] && ends_borrow(bs, local, c, (bb.0 as int, j as int))) by {
            }
            assert(live_end == exists|b2: int| 0 <= b2 < n && #[trigger] vis1[b2][bs[b2].statements@.len() as int]
                && leaves_function(bs[b2].terminator)) by {
                if i == st_len && leaves_function(bs[b as int].terminator) {
                    assert(vis1[b as int][bs[b as int].statements@.len() as int]);
                }
                if live_end0 {
                    let b2 = choose|b2: int| 0 <= b2 < n && #[trigger] vis0[b2][bs[b2].statements@.len() as int] && leaves_function(bs[b2].terminator);
                    assert(vis1[b2][bs[b2].statements@.len() as int]);
                }
                if exists|b2: int| 0 <= b2 < n && #[trigger] vis1[b2][bs[b2].statements@.len() as int] && leaves_function(bs[b2].terminator) {
                    let b2 = choose|b2: int| 0 <= b2 < n && #[trigger] vis1[b2][bs[b2].statements@.len() as int] && leaves_function(bs[b2].terminator);
                    if !(b2 == b && bs[b2].statements@.len() == i) {
                        assert(vis0[b2][bs[b2].statements@.len() as int]);
                    } else {
                        assert(i == st_len);
                    }
                }
            }
        }
    }
    proof {
        let vis = rows(visited@);
        assert(vis[c.0][c.1]);
        assert forall|p: (int, int), q: (int, int)| is_point(bs, p) && #[trigger] vis[p.0][p.1] && !ends_borrow(bs, local, c, p)
            && #[trigger] point_step(bs, p, q) implies vis[q.0][q.1] by {
            assert(!in_wl(wl@, q));
        }
        assert forall|q: (int, int)| #[trigger] live_at(bs, local, c, q) implies is_point(bs, q) && vis[q.0][q.1]
            && !ends_borrow(bs, local, c, q) by {
            let path = choose|path: Seq<(int, int)>| live_path(bs, local, c, path) && path.last() == q;
            lemma_live_path_marked(bs, local, c, vis, path, path.len() - 1);
            assert(!ends_borrow(bs, local, c, path[path.len() - 1]));
        }
        assert forall|bb: BasicBlock, j: usize| #[trigger] region.point_set().contains((bb, j)) <==> live_at(
            bs, local, c, (bb.0 as int, j as int)) by {
            if live_at(bs, local, c, (bb.0 as int, j as int)) {
                assert(vis[bb.0 as int][j as int]);
            }
        }
        assert forall|bb: BasicBlock| #[trigger] region.block_set().contains(bb) <==> exists|j: int| live_at(
            bs, local, c, (bb.0 as int, j)) by {
            if region.block_set().contains(bb) {
                let j = choose|j: int| is_point(bs, (bb.0 as int, j)) && #[trigger] vis[bb.0 as int][j] && !ends_borrow(bs, local, c, (bb.0 as int, j));
                assert(live_at(bs, local, c, (bb.0 as int, j)));
            }
            if exists|j: int| live_at(bs, local, c, (bb.0 as int, j)) {
                let j = choose|j: int| live_at(bs, local, c, (bb.0 as int, j));
                assert(vis[bb.0 as int][j]);
            }
        }
        assert forall|bb: BasicBlock, j: usize| #[trigger] kills@.contains((bb, j)) <==> kill_at(
            bs, local, c, (bb.0 as int, j as int)) by {
            let q = (bb.0 as int, j as int);
            if kill_at(bs, local, c, q) {
                let p0 = choose|p0: (int, int)| live_at(bs, local, c, p0) && point_step(bs, p0, q);
                assert(vis[p0.0][p0.1]);
                assert(vis[q.0][q.1]);
            }
        }
        assert(live_end == live_to_end(bs, local, c)) by {
            if live_end {
                let b2 = choose|b2: int| 0 <= b2 < n && #[trigger] vis[b2][bs[b2].statements@.len() as int] && leaves_function(bs[b2].terminator);
                let q = (b2, bs[b2].statements@.len() as int);
                assert(!ends_borrow(bs, local, c, q));
                assert(live_at(bs, local, c, q));
            }
            if live_to_end(bs, local, c) {
                let b2 = choose|b2: int| 0 <= b2 < bs.len() && #[trigger] live_at(bs, local, c, (b2, bs[b2].statements@.len() as int))
                    && leaves_function(bs[b2].terminator);
                assert(vis[b2][bs[b2].statements@.len() as int]);
            }
        }
    }
    (region, kills, live_end)
}

/// The non-lexical borrow checker over one body.
pub struct NllBorrowChecker<'a> {
    body: &'a MirBody,
    borrow_lifetimes: Vec<BorrowLifetime>,
    errors: Vec<BorrowError>,
    next_loan_id: u32,
    cfg: Vec<Vec<BasicBlock>>,
    reverse_cfg: Vec<Vec<BasicBlock>>,
    dominators: Vec<Option<BasicBlock>>,
    post_dominators: Vec<Option<BasicBlock>>,
}

impl<'a> NllBorrowChecker<'a> {
    /// The blocks of the body being checked.
    pub closed spec fn blocks(&self) -> Seq<BasicBlockData> {
        self.body.basic_blocks@
    }

    /// The lifetimes collected so far, by loan.
    pub closed spec fn lifetimes(&self) -> Seq<BorrowLifetime> {
        self.borrow_lifetimes@
    }

    /// The immediate dominator of each block.
    pub closed spec fn dominator_tree(&self) -> Seq<Option<BasicBlock>> {
        self.dominators@
    }

    /// The immediate post-dominator of each block.
    pub closed spec fn post_dominator_tree(&self) -> Seq<Option<BasicBlock>> {
        self.post_dominators@
    }

    /// The graph views agree with the body.
    pub closed spec fn wf(&self) -> bool {
        let bs = self.body.basic_blocks@;
        &&& bs.len() <= u32::MAX
        &&& self.cfg@.len() == bs.len()
        &&& forall|b: int| 0 <= b < bs.len() ==> #[trigger] self.cfg@[b]@ == flow_successors(bs[b].terminator)
        &&& self.reverse_cfg@.len() == bs.len()
        &&& forall|b: int, a: int| 0 <= b < bs.len() ==> (#[trigger] names(self.reverse_cfg@[b]@, a) <==> (0 <= a < bs.len()
            && names(self.cfg@[a]@, b)))
    }

    /// Nothing has been checked yet.
    pub closed spec fn fresh(&self) -> bool {
        &&& self.wf()
        &&& self.borrow_lifetimes@.len() == 0
        &&& self.errors@.len() == 0
        &&& self.next_loan_id == 0
    }

    /// Sets up a checker for `body`: its control-flow graph, predecessor
    /// lists, dominator and post-dominator trees.
    pub fn new(body: &'a MirBody) -> (c: Self)
        requires
            body.basic_blocks@.len() <= u32::MAX,
        ensures
            c.blocks() == body.basic_blocks@,
            c.fresh(),
            c.dominator_tree().len() == body.basic_blocks@.len(),
            body.basic_blocks@.len() > 0 ==> exists|s: Seq<Seq<bool>>| is_greatest_dom(
                pred_rel(body.basic_blocks@), has_pred(body.basic_blocks@), body.basic_blocks@.len() as int, 0, s)
                && idoms_of(s, 0, c.dominator_tree()),
            c.post_dominator_tree().len() == body.basic_blocks@.len(),
            (forall|e: int| 0 <= e < body.basic_blocks@.len() ==> !is_exit(body.basic_blocks@, e)) ==> forall|b: int|
                0 <= b < c.post_dominator_tree().len() ==> #[trigger] c.post_dominator_tree()[b] is None,
            forall|e: int| 0 <= e < body.basic_blocks@.len() && is_exit(body.basic_blocks@, e) && (forall|e2: int|
                0 <= e2 < e ==> !is_exit(body.basic_blocks@, e2)) ==> exists|s: Seq<Seq<bool>>| is_greatest_dom(
                succ_rel(body.basic_blocks@), has_succ(body.basic_blocks@), body.basic_blocks@.len() as int, e, s)
                && idoms_of(s, e, c.post_dominator_tree()),
    {
        let cfg = Self::build_cfg(body);
        let reverse_cfg = Self::build_reverse_cfg(&cfg);
        let dominators = Self::compute_dominators(body, &cfg);
        let post_dominators = Self::compute_post_dominators(body, &cfg);
        NllBorrowChecker {
            body,
            borrow_lifetimes: Vec::new(),
            errors: Vec::new(),
            next_loan_id: 0,
            cfg,
            reverse_cfg,
            dominators,
            post_dominators,
        }
    }

    /// The control-flow graph: for each block, the blocks control passes to.
    pub fn cfg(&self) -> (r: &Vec<Vec<BasicBlock>>)
        requires
            self.wf(),
        ensures
            r@.len() == self.blocks().len(),
            forall|b: int| 0 <= b < r@.len() ==> #[trigger] r@[b]@ == flow_successors(self.blocks()[b].terminator),
    {
        &self.cfg
    }

    /// Records one lifetime per statement that creates a reference, in
    /// block and statement order; loan `k` is the `k`-th.
    fn collect_borrows(&mut self)
        requires
            old(self).fresh(),
            ref_sites(old(self).body.basic_blocks@).len() <= u32::MAX,
        ensures
            final(self).body == old(self).body,
            final(self).wf(),
            final(self).errors@.len() == 0,
            final(self).borrow_lifetimes@.len() == ref_sites(final(self).body.basic_blocks@).len(),
            forall|k: int| 0 <= k < final(self).borrow_lifetimes@.len() ==> lifetime_at(final(self).body.basic_blocks@,
                ref_sites(final(self).body.basic_blocks@)[k], k, #[trigger] final(self).borrow_lifetimes@[k]),
    {
        let body = self.body;
        let ghost bs = body.basic_blocks@;
        let n = body.basic_blocks.len();
        let mut b: usize = 0;
        while b < n
            invariant
                self.body == body,
                bs == body.basic_blocks@,
                n == bs.len(),
                self.wf(),
                self.errors@.len() == 0,
                ref_sites(bs).len() <= u32::MAX,
                b <= n,
                self.borrow_lifetimes@.len() == ref_sites(bs.take(b as int)).len(),
                self.next_loan_id == self.borrow_lifetimes@.len(),
                forall|k: int| 0 <= k < self.borrow_lifetimes@.len() ==> lifetime_at(bs, ref_sites(bs.take(b as int))[k], k,
                    #[trigger] self.borrow_lifetimes@[k]),
            decreases n - b,
        {
            let stmts = &body.basic_blocks[b].statements;
            let ghost prefix = ref_sites(bs.take(b as int));
            proof {
                assert(bs.take(b + 1).drop_last() =~= bs.take(b as int));
                assert(ref_sites(bs.take(b + 1)) == prefix + block_ref_sites(bs[b as int].statements@, b as int));
                lemma_prefix_sites(bs, b as int + 1);
            }
            let mut i: usize = 0;
            while i < stmts.len()
                invariant
                    self.body == body,
                    bs == body.basic_blocks@,
                    n == bs.len(),
                    b < n,
                    stmts@ == bs[b as int].statements@,
                    self.wf(),
                    self.errors@.len() == 0,
                    ref_sites(bs).len() <= u32::MAX,
                    prefix.len() + block_ref_sites(stmts@, b as int).len() <= ref_sites(bs).len(),
                    prefix == ref_sites(bs.take(b as int)),
                    i <= stmts@.len(),
                    self.borrow_lifetimes@.len() == (prefix + block_ref_sites(stmts@.take(i as int), b as int)).len(),
                    self.next_loan_id == self.borrow_lifetimes@.len(),
                    forall|k: int| 0 <= k < self.borrow_lifetimes@.len() ==> lifetime_at(bs, (prefix + block_ref_sites(
                        stmts@.take(i as int), b as int))[k], k, #[trigger] self.borrow_lifetimes@[k]),
                decreases stmts@.len() - i,
            {
                let ghost sofar = prefix + block_ref_sites(stmts@.take(i as int), b as int);
                proof {
                    assert(stmts@.take(i + 1).drop_last() =~= stmts@.take(i as int));
                    lemma_block_prefix_sites(stmts@, b as int, i as int + 1);
                }
                if let Statement::Assign(place, Rvalue::Ref(borrowed_place, mutability)) = &stmts[i] {
                    let loan_id = LoanId(self.next_loan_id);
                    proof {
                        assert(block_ref_sites(stmts@.take(i + 1), b as int) == block_ref_sites(stmts@.take(i as int), b as int)
                            + seq![(b as int, i as int)]);
                    }
                    self.next_loan_id = self.next_loan_id + 1;
                    let kind = match mutability {
                        Mutability::Mut => BorrowKind::Mut,
                        Mutability::Not => BorrowKind::Shared,
                    };
                    let lifetime = BorrowLifetime {
                        loan_id,
                        borrowed_place: borrowed_place.copy(),
                        kind,
                        borrow_local: place.local,
                        region: Region::new(),
                        creation_point: (BasicBlock(b as u32), i),
                        kill_points: Vec::new(),
                        live_at_end: false,
                    };
                    self.borrow_lifetimes.push(lifetime);
                    proof {
                        let next = prefix + block_ref_sites(stmts@.take(i + 1), b as int);
                        assert(next =~= sofar.push((b as int, i as int)));
                        assert forall|k: int| 0 <= k < self.borrow_lifetimes@.len() implies lifetime_at(bs, next[k], k,
                            #[trigger] self.borrow_lifetimes@[k]) by {
                            if k < sofar.len() {
                                assert(next[k] == sofar[k]);
                            }
                        }
                    }
                } else {
                    proof {
                        assert(ref_parts(stmts@[i as int]) is None);
                        assert(block_ref_sites(stmts@.take(i + 1), b as int) =~= block_ref_sites(stmts@.take(i as int), b as int));
                    }
                }
                i += 1;
            }
            proof {
                assert(stmts@.take(stmts@.len() as int) =~= stmts@);
            }
            b += 1;
        }
        proof {
            assert(bs.take(n as int) =~= bs);
        }
    }

    /// Computes the region of every loan.
    fn compute_borrow_regions_dataflow(&mut self)
        requires
            old(self).wf(),
            old(self).borrow_lifetimes@.len() == ref_sites(old(self).body.basic_blocks@).len(),
            ref_sites(old(self).body.basic_blocks@).len() <= u32::MAX,
            forall|k: int| 0 <= k < old(self).borrow_lifetimes@.len() ==> lifetime_at(old(self).body.basic_blocks@,
                ref_sites(old(self).body.basic_blocks@)[k], k, #[trigger] old(self).borrow_lifetimes@[k]),
        ensures
            final(self).body == old(self).body,
            final(self).wf(),
            final(self).errors == old(self).errors,
            final(self).borrow_lifetimes@.len() == old(self).borrow_lifetimes@.len(),
            forall|k: int| 0 <= k < final(self).borrow_lifetimes@.len() ==> lifetime_at(final(self).body.basic_blocks@,
                ref_sites(final(self).body.basic_blocks@)[k], k, #[trigger] final(self).borrow_lifetimes@[k])
                && region_fits(final(self).body.basic_blocks@, k, final(self).borrow_lifetimes@[k]),
    {
        let m = self.borrow_lifetimes.len();
        let mut k: usize = 0;
        while k < m
            invariant
                self.body == old(self).body,
                self.wf(),
                self.errors == old(self).errors,
                m == self.borrow_lifetimes@.len(),
                m == ref_sites(self.body.basic_blocks@).len(),
                m <= u32::MAX,
                k <= m,
                forall|j: int| 0 <= j < m ==> lifetime_at(self.body.basic_blocks@, ref_sites(self.body.basic_blocks@)[j], j,
                    #[trigger] self.borrow_lifetimes@[j]),
                forall|j: int| 0 <= j < k ==> region_fits(self.body.basic_blocks@, j, #[trigger] self.borrow_lifetimes@[j]),
            decreases m - k,
        {
            self.compute_single_borrow_region(LoanId(k as u32));
            k += 1;
        }
    }

    /// Computes the region of one loan: the points where it is live, the
    /// points where it ends, and whether it is live where the function is
    /// left.
    fn compute_single_borrow_region(&mut self, loan_id: LoanId)
        requires
            old(self).wf(),
            old(self).borrow_lifetimes@.len() == ref_sites(old(self).body.basic_blocks@).len(),
            forall|j: int| 0 <= j < old(self).borrow_lifetimes@.len() ==> lifetime_at(old(self).body.basic_blocks@,
                ref_sites(old(self).body.basic_blocks@)[j], j, #[trigger] old(self).borrow_lifetimes@[j]),
        ensures
            final(self).body == old(self).body,
            final(self).wf(),
            final(self).errors == old(self).errors,
            final(self).borrow_lifetimes@.len() == old(self).borrow_lifetimes@.len(),
            forall|j: int| 0 <= j < final(self).borrow_lifetimes@.len() ==> lifetime_at(final(self).body.basic_blocks@,
                ref_sites(final(self).body.basic_blocks@)[j], j, #[trigger] final(self).borrow_lifetimes@[j]),
            forall|j: int| 0 <= j < final(self).borrow_lifetimes@.len() && j != loan_id.0 ==> #[trigger] final(self).borrow_lifetimes@[j]
                == old(self).borrow_lifetimes@[j],
            loan_id.0 < final(self).borrow_lifetimes@.len() ==> region_fits(final(self).body.basic_blocks@, loan_id.0 as int,
                final(self).borrow_lifetimes@[loan_id.0 as int]),
    {
        let k = loan_id.0 as usize;
        if k >= self.borrow_lifetimes.len() {
            return;
        }
        let ghost bs = self.body.basic_blocks@;
        proof {
            lemma_sites_in_body(bs, k as int);
        }
        let old_lt = &self.borrow_lifetimes[k];
        let cb = old_lt.creation_point.0.0 as usize;
        let cs = old_lt.creation_point.1;
        let borrow_local = old_lt.borrow_local;
        proof {
            let site = ref_sites(bs)[k as int];
            assert(lifetime_at(bs, site, k as int, self.borrow_lifetimes@[k as int]));
            assert(cb as int == site.0);
            assert(cs as int == site.1);
            assert(borrow_local == loan_parts(bs, k as int).0);
        }
        let (region, kill_points, live_at_end) = live_region(self.body, borrow_local, cb, cs);
        let updated = BorrowLifetime {
            loan_id: old_lt.loan_id,
            borrowed_place: old_lt.borrowed_place.copy(),
            kind: old_lt.kind,
            borrow_local,
            region,
            creation_point: old_lt.creation_point,
            kill_points,
            live_at_end,
        };
        self.borrow_lifetimes.set(k, updated);
    }

    /// Every lifetime has been collected and its region computed.
    spec fn regions_done(&self) -> bool {
        let bs = self.body.basic_blocks@;
        &&& self.wf()
        &&& self.borrow_lifetimes@.len() == ref_sites(bs).len()
        &&& ref_sites(bs).len() <= u32::MAX
        &&& forall|k: int| 0 <= k < self.borrow_lifetimes@.len() ==> lifetime_at(bs, ref_sites(bs)[k], k,
            #[trigger] self.borrow_lifetimes@[k]) && region_fits(bs, k, self.borrow_lifetimes@[k])
    }

    /// Reports the pair of loans when their regions overlap, their places
    /// conflict and they are not both shared.
    fn check_borrow_pair(&mut self, loan_id1: LoanId, loan_id2: LoanId)
        requires
            old(self).regions_done(),
            loan_id1.0 < old(self).borrow_lifetimes@.len(),
            loan_id2.0 < old(self).borrow_lifetimes@.len(),
        ensures
            final(self).body == old(self).body,
            final(self).borrow_lifetimes == old(self).borrow_lifetimes,
            final(self).regions_done(),
            error_views(final(self).errors@) == error_views(old(self).errors@) + pair_error(
                old(self).body.basic_blocks@, loan_id1.0 as int, loan_id2.0 as int),
    {
        let ghost bs = self.body.basic_blocks@;
        let k1 = loan_id1.0 as usize;
        let k2 = loan_id2.0 as usize;
        let lifetime1 = &self.borrow_lifetimes[k1];
        let lifetime2 = &self.borrow_lifetimes[k2];
        proof {
            assert(lifetime_at(bs, ref_sites(bs)[k1 as int], k1 as int, self.borrow_lifetimes@[k1 as int]));
            assert(lifetime_at(bs, ref_sites(bs)[k2 as int], k2 as int, self.borrow_lifetimes@[k2 as int]));
            lemma_overlap_regions(bs, k1 as int, k2 as int, *lifetime1, *lifetime2);
            assert(lifetime1.borrowed_place@ == loan_place(bs, k1 as int));
            assert(lifetime2.borrowed_place@ == loan_place(bs, k2 as int));
            assert(lifetime1.kind == loan_kind(bs, k1 as int));
            assert(lifetime2.kind == loan_kind(bs, k2 as int));
        }
        if !lifetime1.region.overlaps(&lifetime2.region) {
            proof {
                assert(error_views(self.errors@) =~= error_views(self.errors@) + pair_error(bs, k1 as int, k2 as int));
            }
            return;
        }
        if !place_conflicts(&lifetime1.borrowed_place, &lifetime2.borrowed_place) {
            proof {
                assert(error_views(self.errors@) =~= error_views(self.errors@) + pair_error(bs, k1 as int, k2 as int));
            }
            return;
        }
        match (lifetime1.kind, lifetime2.kind) {
            (BorrowKind::Shared, BorrowKind::Shared) => {
                proof {
                    assert(error_views(self.errors@) =~= error_views(self.errors@) + pair_error(bs, k1 as int, k2 as int));
                }
            },
            _ => {
                let e = BorrowError::ConflictingBorrows {
                    loan1: loan_id1,
                    loan2: loan_id2,
                    place1: lifetime1.borrowed_place.copy(),
                    place2: lifetime2.borrowed_place.copy(),
                };
                let ghost before = self.errors@;
                self.errors.push(e);
                proof {
                    assert(error_views(self.errors@) =~= error_views(before) + pair_error(bs, k1 as int, k2 as int));
                }
            },
        }
    }

    /// Reports each loan whose region holds the point and whose place the
    /// written place conflicts with.
    fn check_write_conflicts(&mut self, place: &Place, block: BasicBlock, stmt: usize)
        requires
            old(self).regions_done(),
        ensures
            final(self).body == old(self).body,
            final(self).borrow_lifetimes == old(self).borrow_lifetimes,
            final(self).regions_done(),
            error_views(final(self).errors@) == error_views(old(self).errors@) + write_errors(
                old(self).body.basic_blocks@, place@, (block.0 as int, stmt as int), old(self).borrow_lifetimes@.len() as int),
    {
        let ghost bs = self.body.basic_blocks@;
        let ghost start = error_views(self.errors@);
        let m = self.borrow_lifetimes.len();
        let mut k: usize = 0;
        while k < m
            invariant
                self.body == old(self).body,
                self.borrow_lifetimes == old(self).borrow_lifetimes,
                self.regions_done(),
                bs == self.body.basic_blocks@,
                m == self.borrow_lifetimes@.len(),
                k <= m,
                error_views(self.errors@) == start + write_errors(bs, place@, (block.0 as int, stmt as int), k as int),
            decreases m - k,
        {
            let lifetime = &self.borrow_lifetimes[k];
            proof {
                assert(lifetime_at(bs, ref_sites(bs)[k as int], k as int, self.borrow_lifetimes@[k as int]));
                lemma_region_holds(bs, k as int, *lifetime, block, stmt);
            }
            let ghost before = self.errors@;
            if lifetime.region.contains(block, stmt) && place_conflicts(place, &lifetime.borrowed_place) {
                if lifetime.kind == BorrowKind::Mut {
                    self.errors.push(BorrowError::WriteToMutBorrowed { loan: lifetime.loan_id, place: place.copy() });
                } else {
                    self.errors.push(BorrowError::WriteToSharedBorrowed { loan: lifetime.loan_id, place: place.copy() });
                }
                proof {
                    assert(lifetime.loan_id == LoanId(k as u32));
                    assert(error_views(self.errors@) =~= error_views(before).push(self.errors@[before.len() as int]@));
                }
            }
            proof {
                assert(error_views(self.errors@) =~= start + write_errors(bs, place@, (block.0 as int, stmt as int), k + 1));
            }
            k += 1;
        }
    }

    /// Reports each loan whose region holds the point and whose place the
    /// moved place conflicts with.
    fn check_move_conflicts(&mut self, place: &Place, block: BasicBlock, stmt: usize)
        requires
            old(self).regions_done(),
        ensures
            final(self).body == old(self).body,
            final(self).borrow_lifetimes == old(self).borrow_lifetimes,
            final(self).regions_done(),
            error_views(final(self).errors@) == error_views(old(self).errors@) + move_errors(
                old(self).body.basic_blocks@, place@, (block.0 as int, stmt as int), old(self).borrow_lifetimes@.len() as int),
    {
        let ghost bs = self.body.basic_blocks@;
        let ghost start = error_views(self.errors@);
        let m = self.borrow_lifetimes.len();
        let mut k: usize = 0;
        while k < m
            invariant
                self.body == old(self).body,
                self.borrow_lifetimes == old(self).borrow_lifetimes,
                self.regions_done(),
                bs == self.body.basic_blocks@,
                m == self.borrow_lifetimes@.len(),
                k <= m,
                error_views(self.errors@) == start + move_errors(bs, place@, (block.0 as int, stmt as int), k as int),
            decreases m - k,
        {
            let lifetime = &self.borrow_lifetimes[k];
            proof {
                assert(lifetime_at(bs, ref_sites(bs)[k as int], k as int, self.borrow_lifetimes@[k as int]));
                lemma_region_holds(bs, k as int, *lifetime, block, stmt);
            }
            let ghost before = self.errors@;
            if lifetime.region.contains(block, stmt) && place_conflicts(place, &lifetime.borrowed_place) {
                self.errors.push(BorrowError::MoveOutOfBorrowed { loan: lifetime.loan_id, place: place.copy() });
                proof {
                    assert(lifetime.loan_id == LoanId(k as u32));
                    assert(error_views(self.errors@) =~= error_views(before).push(self.errors@[before.len() as int]@));
                }
            }
            proof {
                assert(error_views(self.errors@) =~= start + move_errors(bs, place@, (block.0 as int, stmt as int), k + 1));
            }
            k += 1;
        }
    }

    /// Reports every conflicting pair of loans, in order of the first loan
    /// then the second, then the conflicts of writes and moves with loans.
    fn check_conflicts(&mut self)
        requires
            old(self).regions_done(),
        ensures
            final(self).body == old(self).body,
            final(self).borrow_lifetimes == old(self).borrow_lifetimes,
            final(self).regions_done(),
            error_views(final(self).errors@) == error_views(old(self).errors@) + pair_errors(old(self).body.basic_blocks@,
                ref_sites(old(self).body.basic_blocks@).len() as int) + access_errors(old(self).body.basic_blocks@,
                old(self).body.basic_blocks@.len() as int),
    {
        let ghost bs = self.body.basic_blocks@;
        let ghost start = error_views(self.errors@);
        let m = self.borrow_lifetimes.len();
        let mut i: usize = 0;
        while i < m
            invariant
                self.body == old(self).body,
                self.borrow_lifetimes == old(self).borrow_lifetimes,
                self.regions_done(),
                bs == self.body.basic_blocks@,
                m == self.borrow_lifetimes@.len(),
                m == ref_sites(bs).len(),
                i <= m,
                error_views(self.errors@) == start + pair_errors(bs, i as int),
            decreases m - i,
        {
            let mut j: usize = i + 1;
            while j < m
                invariant
                    self.body == old(self).body,
                    self.borrow_lifetimes == old(self).borrow_lifetimes,
                    self.regions_done(),
                    bs == self.body.basic_blocks@,
                    m == self.borrow_lifetimes@.len(),
                    m == ref_sites(bs).len(),
                    m <= u32::MAX,
                    i < m,
                    i + 1 <= j <= m,
                    error_views(self.errors@) == start + pair_errors(bs, i as int) + pair_row(bs, i as int, j as int),
                decreases m - j,
            {
                self.check_borrow_pair(LoanId(i as u32), LoanId(j as u32));
                proof {
                    assert(pair_row(bs, i as int, j + 1) == pair_row(bs, i as int, j as int) + pair_error(bs, i as int, j as int));
                    assert(error_views(self.errors@) =~= start + pair_errors(bs, i as int) + pair_row(bs, i as int, j + 1));
                }
                j += 1;
            }
            proof {
                assert(pair_errors(bs, i + 1) == pair_errors(bs, i as int) + pair_row(bs, i as int, m as int));
                assert(error_views(self.errors@) =~= start + pair_errors(bs, i + 1));
            }
            i += 1;
        }
        self.check_access_conflicts();
        proof {
            assert(error_views(self.errors@) =~= start + pair_errors(bs, m as int) + access_errors(bs, bs.len() as int));
        }
    }

    /// Reports, statement by statement, writes and moves that conflict
    /// with a loan whose region holds the statement's block.
    fn check_access_conflicts(&mut self)
        requires
            old(self).regions_done(),
        ensures
            final(self).body == old(self).body,
            final(self).borrow_lifetimes == old(self).borrow_lifetimes,
            final(self).regions_done(),
            error_views(final(self).errors@) == error_views(old(self).errors@) + access_errors(old(self).body.basic_blocks@,
                old(self).body.basic_blocks@.len() as int),
    {
        let body = self.body;
        let ghost bs = body.basic_blocks@;
        let ghost start = error_views(self.errors@);
        let n = body.basic_blocks.len();
        let mut b: usize = 0;
        while b < n
            invariant
                self.body == old(self).body,
                self.body == body,
                self.borrow_lifetimes == old(self).borrow_lifetimes,
                self.regions_done(),
                bs == body.basic_blocks@,
                n == bs.len(),
                n <= u32::MAX,
                b <= n,
                error_views(self.errors@) == start + access_errors(bs, b as int),
            decreases n - b,
        {
            let stmts = &body.basic_blocks[b].statements;
            let mut i: usize = 0;
            while i < stmts.len()
                invariant
                    self.body == old(self).body,
                    self.body == body,
                    self.borrow_lifetimes == old(self).borrow_lifetimes,
                    self.regions_done(),
                    bs == body.basic_blocks@,
                    n == bs.len(),
                    n <= u32::MAX,
                    b < n,
                    stmts@ == bs[b as int].statements@,
                    i <= stmts@.len(),
                    error_views(self.errors@) == start + access_errors(bs, b as int) + block_access_errors(bs, b as int, i as int),
                decreases stmts@.len() - i,
            {
                let ghost before = error_views(self.errors@);
                match &stmts[i] {
                    Statement::Assign(place, rvalue) => {
                        self.check_write_conflicts(place, BasicBlock(b as u32), i);
                        if let Rvalue::Move(moved_place) = rvalue {
                            self.check_move_conflicts(moved_place, BasicBlock(b as u32), i);
                        }
                    },
                    _ => {},
                }
                proof {
                    assert(error_views(self.errors@) =~= before + stmt_access_errors(bs, (b as int, i as int)));
                    assert(error_views(self.errors@) =~= start + access_errors(bs, b as int) + block_access_errors(
                        bs, b as int, i + 1));
                }
                i += 1;
            }
            proof {
                assert(error_views(self.errors@) =~= start + access_errors(bs, b + 1));
            }
            b += 1;
        }
    }

    /// The locals an operand reads.
    fn locals_used_in_operand(&self, operand: &Operand) -> (r: Vec<Local>)
        ensures
            r@ == operand_locals(*operand),
    {
        match operand {
            Operand::Copy(place) => {
                let mut v = Vec::new();
                v.push(place.local);
                v
            },
            Operand::Move(place) => {
                let mut v = Vec::new();
                v.push(place.local);
                v
            },
            Operand::Constant(_) => {
                let v = Vec::new();
                assert(v@ =~= operand_locals(*operand));
                v
            },
        }
    }

    /// The locals an rvalue reads, in order.
    fn locals_used_in_rvalue(&self, rvalue: &Rvalue) -> (r: Vec<Local>)
        ensures
            r@ == rvalue_locals(*rvalue),
    {
        match rvalue {
            Rvalue::Use(operand) => self.locals_used_in_operand(operand),
            Rvalue::Cast(_, operand, _) => self.locals_used_in_operand(operand),
            Rvalue::Copy(place) | Rvalue::Move(place) | Rvalue::Ref(place, _) | Rvalue::AddressOf(place, _) | Rvalue::Len(place)
            | Rvalue::Discriminant(place) => {
                let mut v = Vec::new();
                v.push(place.local);
                v
            },
            Rvalue::BinaryOp(_, left, right) => {
                let mut v = self.locals_used_in_operand(left);
                let mut w = self.locals_used_in_operand(right);
                v.append(&mut w);
                v
            },
            Rvalue::UnaryOp(_, operand) => self.locals_used_in_operand(operand),
            Rvalue::Aggregate(_, operands) => {
                let mut v: Vec<Local> = Vec::new();
                let mut k: usize = 0;
                while k < operands.len()
                    invariant
                        k <= operands@.len(),
                        v@ == operands_locals(operands@.take(k as int)),
                    decreases operands@.len() - k,
                {
                    let mut w = self.locals_used_in_operand(&operands[k]);
                    proof {
                        assert(operands@.take(k + 1).drop_last() =~= operands@.take(k as int));
                    }
                    v.append(&mut w);
                    k += 1;
                }
                proof {
                    assert(operands@.take(operands@.len() as int) =~= operands@);
                }
                v
            },
        }
    }

    /// Reports each local the statement reads that is moved or partly
    /// moved in `move_states`.
    fn check_statement_for_moves(&mut self, move_states: &MoveMap, stmt: &Statement, _point: Point)
        requires
            move_states.wf(),
        ensures
            final(self).body == old(self).body,
            final(self).borrow_lifetimes == old(self).borrow_lifetimes,
            final(self).cfg == old(self).cfg,
            final(self).reverse_cfg == old(self).reverse_cfg,
            error_views(final(self).errors@) == error_views(old(self).errors@) + stmt_move_errors(move_states@, *stmt),
    {
        match stmt {
            Statement::Assign(_, rvalue) => {
                let used = self.locals_used_in_rvalue(rvalue);
                let ghost start = error_views(self.errors@);
                let mut k: usize = 0;
                while k < used.len()
                    invariant
                        self.body == old(self).body,
                        self.borrow_lifetimes == old(self).borrow_lifetimes,
                        self.cfg == old(self).cfg,
                        self.reverse_cfg == old(self).reverse_cfg,
                        move_states.wf(),
                        start == error_views(old(self).errors@),
                        k <= used@.len(),
                        error_views(self.errors@) == start + flagged(move_states@, used@.take(k as int)),
                    decreases used@.len() - k,
                {
                    let local = used[k];
                    let ghost before = self.errors@;
                    proof {
                        assert(used@.take(k + 1).drop_last() =~= used@.take(k as int));
                        assert(used@.take(k + 1).last() == local);
                    }
                    match move_states.get(local) {
                        Some(MoveState::Moved) | Some(MoveState::PartiallyMoved) => {
                            self.errors.push(BorrowError::UseOfMovedValue(local));
                            proof {
                                assert(error_views(self.errors@) =~= error_views(before).push(BorrowErrorModel::UseOfMovedValue(local)));
                            }
                        },
                        _ => {},
                    }
                    proof {
                        assert(error_views(self.errors@) =~= start + flagged(move_states@, used@.take(k + 1)));
                    }
                    k += 1;
                }
                proof {
                    assert(used@.take(used@.len() as int) =~= used@);
                }
            },
            _ => {
                assert(error_views(self.errors@) =~= error_views(old(self).errors@) + stmt_move_errors(move_states@, *stmt));
            },
        }
    }

    /// Applies a statement to the move states.
    fn update_move_state(&self, move_states: &mut MoveMap, stmt: &Statement)
        requires
            old(move_states).wf(),
        ensures
            final(move_states).wf(),
            final(move_states)@ == after_stmt(old(move_states)@, *stmt),
    {
        match stmt {
            Statement::Assign(place, rvalue) => match rvalue {
                Rvalue::Move(moved_place) => {
                    move_states.insert(moved_place.local, MoveState::Moved);
                },
                _ => {
                    if move_states.get(place.local).is_some() {
                        move_states.remove(place.local);
                    } else {
                        assert(move_states@ =~= move_states@.remove(place.local));
                    }
                },
            },
            Statement::StorageDead(local) => {
                move_states.remove(*local);
            },
            _ => {},
        }
    }

    /// Whether two move states are equal.
    fn move_states_equal(a: &MoveMap, b: &MoveMap) -> (r: bool)
        requires
            a.wf(),
            b.wf(),
        ensures
            r == (a@ == b@),
    {
        a.same_as(b)
    }

    /// The state at the entry of a block: each local some predecessor
    /// records at its end, with the state they agree on, or partly moved
    /// where they disagree.
    fn compute_block_entry_state(&self, block_id: BasicBlock, move_states: &Vec<Vec<MoveMap>>) -> (entry: MoveMap)
        requires
            self.wf(),
            block_id.0 < self.body.basic_blocks@.len(),
            states_ok(self.body.basic_blocks@, move_states@),
        ensures
            entry.wf(),
            entry@ == entry_state(self.body.basic_blocks@, sview(move_states@), block_id.0 as int),
    {
        let ghost bs = self.body.basic_blocks@;
        let ghost sv = sview(move_states@);
        let n = self.body.basic_blocks.len();
        let b = block_id.0 as usize;
        let preds = &self.reverse_cfg[b];
        let mut entry = MoveMap::new();
        let mut k: usize = 0;
        while k < preds.len()
            invariant
                self.wf(),
                bs == self.body.basic_blocks@,
                n == bs.len(),
                b < n,
                sv == sview(move_states@),
                states_ok(bs, move_states@),
                preds@ == self.reverse_cfg@[b as int]@,
                k <= preds@.len(),
                entry.wf(),
                forall|l: Local| #[trigger] entry@.contains_key(l) == list_has(bs, sv, preds@.take(k as int), l),
                forall|l: Local| #[trigger] entry@.contains_key(l) ==> entry@[l] == list_value(bs, sv, preds@.take(k as int), l),
            decreases preds@.len() - k,
        {
            let pred = preds[k];
            let a = pred.0 as usize;
            proof {
                assert(names(preds@, a as int)) by {
                    assert(preds@[k as int].0 == a);
                }
            }
            let pred_block = &self.body.basic_blocks[a];
            let pred_state = &move_states[a][pred_block.statements.len()];
            let ghost e = pred_state@;
            proof {
                assert(e == exit_state(bs, sv, preds@[k as int].0 as int));
                pred_state.lemma_keys();
                pred_state.lemma_distinct();
            }
            let ghost m0 = entry@;
            let mut i: usize = 0;
            while i < pred_state.len()
                invariant
                    self.wf(),
                    bs == self.body.basic_blocks@,
                    sv == sview(move_states@),
                    k < preds@.len(),
                    pred_state.wf(),
                    e == pred_state@,
                    e == exit_state(bs, sv, preds@[k as int].0 as int),
                    forall|j1: int, j2: int| 0 <= j1 < pred_state.size() && 0 <= j2 < pred_state.size() && j1 != j2
                        ==> #[trigger] pred_state.key_at(j1) != #[trigger] pred_state.key_at(j2),
                    forall|l: Local| e.contains_key(l) <==> exists|j: int| 0 <= j < pred_state.size() && #[trigger] pred_state.key_at(j) == l,
                    forall|l: Local| #[trigger] m0.contains_key(l) == list_has(bs, sv, preds@.take(k as int), l),
                    forall|l: Local| #[trigger] m0.contains_key(l) ==> m0[l] == list_value(bs, sv, preds@.take(k as int), l),
                    i <= pred_state.size(),
                    entry.wf(),
                    forall|l: Local| #[trigger] entry@.contains_key(l) == (if seen(*pred_state, i as int, l) {
                        list_has(bs, sv, preds@.take(k + 1), l)
                    } else {
                        m0.contains_key(l)
                    }),
                    forall|l: Local| #[trigger] entry@.contains_key(l) ==> entry@[l] == (if seen(*pred_state, i as int, l) {
                        list_value(bs, sv, preds@.take(k + 1), l)
                    } else {
                        m0[l]
                    }),
                decreases pred_state.size() - i,
            {
                let (local, state) = pred_state.entry(i);
                let ghost before = entry@;
                proof {
                    lemma_merge_step(bs, sv, preds@, k as int, local);
                    assert(!seen(*pred_state, i as int, local)) by {
                        if seen(*pred_state, i as int, local) {
                            let j = choose|j: int| 0 <= j < i && #[trigger] pred_state.key_at(j) == local;
                            assert(pred_state.key_at(j) != pred_state.key_at(i as int));
                        }
                    }
                    assert(before.contains_key(local) == m0.contains_key(local));
                    assert(before.contains_key(local) ==> before[local] == m0[local]);
                    assert(m0.contains_key(local) == list_has(bs, sv, preds@.take(k as int), local));
                    assert(m0.contains_key(local) ==> m0[local] == list_value(bs, sv, preds@.take(k as int), local));
                }
                match entry.get(local) {
                    None => {
                        entry.insert(local, state);
                    },
                    Some(existing) => {
                        if existing != state {
                            entry.insert(local, MoveState::PartiallyMoved);
                        }
                    },
                }
                proof {
                    assert(entry@.contains_key(local));
                    assert(entry@.contains_key(local) == list_has(bs, sv, preds@.take(k + 1), local));
                    assert(entry@[local] == list_value(bs, sv, preds@.take(k + 1), local));
                    assert forall|l: Local| #[trigger] seen(*pred_state, i + 1, l) == (seen(*pred_state, i as int, l) || l == local) by {
                        if seen(*pred_state, i + 1, l) {
                            let j = choose|j: int| 0 <= j < i + 1 && #[trigger] pred_state.key_at(j) == l;
                            if j < i {
                                assert(seen(*pred_state, i as int, l));
                            }
                        }
                        if seen(*pred_state, i as int, l) {
                            let j = choose|j: int| 0 <= j < i && #[trigger] pred_state.key_at(j) == l;
                            assert(0 <= j < i + 1 && pred_state.key_at(j) == l);
                        }
                        if l == local {
                            assert(pred_state.key_at(i as int) == l);
                        }
                    }
                    assert forall|l: Local| #[trigger] entry@.contains_key(l) == (if seen(*pred_state, i + 1, l) {
                        list_has(bs, sv, preds@.take(k + 1), l)
                    } else {
                        m0.contains_key(l)
                    }) by {
                        if l != local {
                            assert(entry@.contains_key(l) == before.contains_key(l));
                            assert(seen(*pred_state, i + 1, l) == seen(*pred_state, i as int, l));
                        } else {
                            assert(seen(*pred_state, i + 1, l));
                        }
                    }
                    assert forall|l: Local| #[trigger] entry@.contains_key(l) implies entry@[l] == (if seen(*pred_state, i + 1, l) {
                        list_value(bs, sv, preds@.take(k + 1), l)
                    } else {
                        m0[l]
                    }) by {
                        if l != local {
                            assert(entry@.contains_key(l) == before.contains_key(l));
                            assert(entry@[l] == before[l]);
                            assert(seen(*pred_state, i + 1, l) == seen(*pred_state, i as int, l));
                        } else {
                            assert(seen(*pred_state, i + 1, l));
                        }
                    }
                }
                i += 1;
            }
            proof {
                assert forall|l: Local| #[trigger] entry@.contains_key(l) == list_has(bs, sv, preds@.take(k + 1), l) by {
                    lemma_merge_step(bs, sv, preds@, k as int, l);
                    if !seen(*pred_state, i as int, l) {
                        assert(!e.contains_key(l));
                    }
                }
                assert forall|l: Local| #[trigger] entry@.contains_key(l) implies entry@[l] == list_value(bs, sv, preds@.take(k + 1), l) by {
                    lemma_merge_step(bs, sv, preds@, k as int, l);
                    if !seen(*pred_state, i as int, l) {
                        assert(!e.contains_key(l));
                    }
                }
            }
            k += 1;
        }
        proof {
            assert(preds@.take(preds@.len() as int) =~= preds@);
            assert forall|x: int| #[trigger] names(preds@, x) <==> flows(bs, x, b as int) by {
                if names(preds@, x) {
                    assert(0 <= x < n && names(self.cfg@[x]@, b as int));
                }
                if flows(bs, x, b as int) {
                    assert(names(self.cfg@[x]@, b as int));
                }
            }
            assert forall|l: Local| #[trigger] entry@.contains_key(l) == entry_state(bs, sv, b as int).contains_key(l) by {
                lemma_list_entry(bs, sv, preds@, b as int, l);
            }
            assert forall|l: Local| #[trigger] entry@.contains_key(l) implies entry@[l] == entry_state(bs, sv, b as int)[l] by {
                lemma_list_entry(bs, sv, preds@, b as int, l);
            }
            assert(entry@ =~= entry_state(bs, sv, b as int));
        }
        entry
    }

    /// Follows moves through the body: passes over the blocks, each block
    /// starting from the merge of its predecessors' end states, until a
    /// pass changes no recorded state or ten passes per block have run;
    /// every pass reports the reads of moved locals it meets.
    fn check_use_after_move(&mut self)
        requires
            old(self).wf(),
            old(self).body.basic_blocks@.len() * 10 <= usize::MAX,
        ensures
            final(self).body == old(self).body,
            final(self).borrow_lifetimes == old(self).borrow_lifetimes,
            final(self).wf(),
            error_views(final(self).errors@) == error_views(old(self).errors@) + use_after_move_errors(old(self).body.basic_blocks@),
    {
        let body = self.body;
        let ghost bs = body.basic_blocks@;
        let ghost start = error_views(self.errors@);
        let n = body.basic_blocks.len();
        let mut move_states: Vec<Vec<MoveMap>> = Vec::new();
        let mut b0: usize = 0;
        while b0 < n
            invariant
                bs == body.basic_blocks@,
                n == bs.len(),
                b0 <= n,
                move_states@.len() == b0,
                forall|b: int| 0 <= b < b0 ==> #[trigger] move_states@[b]@.len() == bs[b].statements@.len() + 1,
                forall|b: int, i: int| 0 <= b < b0 && 0 <= i < move_states@[b]@.len() ==> (#[trigger] move_states@[b]@[i]).wf()
                    && move_states@[b]@[i]@ == Map::<Local, MoveState>::empty(),
            decreases n - b0,
        {
            let len = body.basic_blocks[b0].statements.len();
            let mut row: Vec<MoveMap> = Vec::new();
            let mut i: usize = 0;
            while i < len
                invariant
                    i <= len,
                    row@.len() == i,
                    forall|j: int| 0 <= j < i ==> (#[trigger] row@[j]).wf() && row@[j]@ == Map::<Local, MoveState>::empty(),
                decreases len - i,
            {
                row.push(MoveMap::new());
                i += 1;
            }
            row.push(MoveMap::new());
            move_states.push(row);
            b0 += 1;
        }
        proof {
            assert(sview(move_states@) =~= initial_states(bs)) by {
                assert forall|b: int| 0 <= b < n implies #[trigger] sview(move_states@)[b] =~= initial_states(bs)[b] by {}
            }
        }
        let max_iterations = n * 10;
        let mut changed = true;
        let mut iterations: usize = 0;
        while changed && iterations < max_iterations
            invariant
                self.body == old(self).body,
                self.body == body,
                self.borrow_lifetimes == old(self).borrow_lifetimes,
                self.wf(),
                bs == body.basic_blocks@,
                n == bs.len(),
                max_iterations == n * 10,
                iterations <= max_iterations,
                states_ok(bs, move_states@),
                error_views(self.errors@) + (if changed {
                    move_passes(bs, sview(move_states@), (max_iterations - iterations) as nat)
                } else {
                    Seq::empty()
                }) == start + use_after_move_errors(bs),
            decreases max_iterations - iterations,
        {
            let ghost s0 = sview(move_states@);
            let ghost e0 = error_views(self.errors@);
            changed = false;
            iterations += 1;
            let mut b: usize = 0;
            while b < n
                invariant
                    self.body == old(self).body,
                    self.body == body,
                    self.borrow_lifetimes == old(self).borrow_lifetimes,
                    self.wf(),
                    bs == body.basic_blocks@,
                    n == bs.len(),
                    b <= n,
                    states_ok(bs, move_states@),
                    sview(move_states@) == pass_states(bs, s0, b as int),
                    error_views(self.errors@) == e0 + pass_errors(bs, s0, b as int),
                    changed == pass_changed(bs, s0, b as int),
                decreases n - b,
            {
                let ghost prev = sview(move_states@);
                let entry = self.compute_block_entry_state(BasicBlock(b as u32), &move_states);
                let ghost ent = entry@;
                let ghost eb = error_views(self.errors@);
                let ghost changed0 = changed;
                let mut current = entry.copy();
                let stmts = &body.basic_blocks[b].statements;
                let ghost sts = stmts@;
                proof {
                    let target = prev.update(b as int, Seq::new(sts.len() + 1, |j: int| if 1 <= j <= 0 {
                        state_after(ent, sts, j)
                    } else {
                        prev[b as int][j]
                    }));
                    assert(prev[b as int] == move_states@[b as int]@.map_values(|m: MoveMap| m@));
                    assert(prev[b as int].len() == sts.len() + 1);
                    assert(target[b as int] =~= prev[b as int]);
                    assert(target =~= prev);
                }
                let mut i: usize = 0;
                while i < stmts.len()
                    invariant
                        self.body == old(self).body,
                        self.body == body,
                        self.borrow_lifetimes == old(self).borrow_lifetimes,
                        self.wf(),
                        bs == body.basic_blocks@,
                        n == bs.len(),
                        b < n,
                        sts == stmts@,
                        sts == bs[b as int].statements@,
                        i <= sts.len(),
                        states_ok(bs, move_states@),
                        prev.len() == n,
                        prev[b as int].len() == sts.len() + 1,
                        sview(move_states@) == prev.update(b as int, Seq::new(sts.len() + 1, |j: int| if 1 <= j <= i {
                            state_after(ent, sts, j)
                        } else {
                            prev[b as int][j]
                        })),
                        current.wf(),
                        current@ == state_after(ent, sts, i as int),
                        error_views(self.errors@) == eb + run_errors(ent, sts, i as int),
                        changed == (changed0 || exists|j: int| 1 <= j <= i && #[trigger] prev[b as int][j] != state_after(ent, sts, j)),
                    decreases sts.len() - i,
                {
                    let point = Point::new(BasicBlock(b as u32), i);
                    self.check_statement_for_moves(&current, &stmts[i], point);
                    self.update_move_state(&mut current, &stmts[i]);
                    let ghost sv1 = sview(move_states@);
                    proof {
                        assert(move_states@[b as int]@[i + 1]@ == sv1[b as int][i + 1]);
                        assert(sv1[b as int][i + 1] == prev[b as int][i + 1]);
                    }
                    if !Self::move_states_equal(&move_states[b][i + 1], &current) {
                        let snapshot = current.copy();
                        move_states[b].set(i + 1, snapshot);
                        changed = true;
                    }
                    proof {
                        let target = prev.update(b as int, Seq::new(sts.len() + 1, |j: int| if 1 <= j <= i + 1 {
                            state_after(ent, sts, j)
                        } else {
                            prev[b as int][j]
                        }));
                        let sv2 = sview(move_states@);
                        assert(current@ == state_after(ent, sts, i + 1));
                        assert(sv2[b as int][i + 1] == state_after(ent, sts, i + 1));
                        assert forall|x: int| 0 <= x < n implies #[trigger] sv2[x] =~= target[x] by {
                            if x == b {
                                assert forall|j: int| 0 <= j < sts.len() + 1 implies sv2[b as int][j] == target[b as int][j] by {
                                    if j != i + 1 {
                                        assert(sv2[b as int][j] == sv1[b as int][j]);
                                    }
                                }
                            } else {
                                assert(sv2[x] == sv1[x]);
                            }
                        }
                        assert(sv2 =~= target);
                        assert(error_views(self.errors@) =~= eb + run_errors(ent, sts, i + 1));
                        if changed && !changed0 && !(exists|j: int| 1 <= j <= i && #[trigger] prev[b as int][j] != state_after(ent, sts, j)) {
                            assert(prev[b as int][i + 1] != state_after(ent, sts, i + 1));
                        }
                        if exists|j: int| 1 <= j <= i + 1 && #[trigger] prev[b as int][j] != state_after(ent, sts, j) {
                            let j = choose|j: int| 1 <= j <= i + 1 && #[trigger] prev[b as int][j] != state_after(ent, sts, j);
                            if j == i + 1 {
                                assert(changed);
                            }
                        }
                    }
                    i += 1;
                }
                proof {
                    assert(sview(move_states@) =~= update_block(bs, prev, b as int)) by {
                        assert forall|x: int| 0 <= x < n implies #[trigger] sview(move_states@)[x] =~= update_block(bs, prev, b as int)[x] by {
                        }
                    }
                    assert(error_views(self.errors@) =~= e0 + pass_errors(bs, s0, b + 1));
                }
                b += 1;
            }
            proof {
                assert(move_passes(bs, s0, (max_iterations - iterations + 1) as nat) == pass_errors(bs, s0, n as int) + if pass_changed(
                    bs, s0, n as int) {
                    move_passes(bs, pass_states(bs, s0, n as int), (max_iterations - iterations) as nat)
                } else {
                    Seq::empty()
                });
                assert(error_views(self.errors@) + (if changed {
                    move_passes(bs, sview(move_states@), (max_iterations - iterations) as nat)
                } else {
                    Seq::empty()
                }) =~= e0 + move_passes(bs, s0, (max_iterations - iterations + 1) as nat));
            }
        }
        proof {
            if changed {
                assert(iterations == max_iterations);
                assert(move_passes(bs, sview(move_states@), 0) =~= Seq::empty());
            }
            assert(error_views(self.errors@) =~= start + use_after_move_errors(bs));
        }
    }

    /// Runs the check: collects the loans, computes their regions, then
    /// reports conflicts and reads of moved locals.  `Ok` exactly when
    /// nothing is reported.
    pub fn check(self) -> (r: Result<(), Vec<BorrowError>>)
        requires
            self.fresh(),
            ref_sites(self.blocks()).len() <= u32::MAX,
            self.blocks().len() * 10 <= usize::MAX,
        ensures
            match r {
                Ok(()) => nll_errors(self.blocks()).len() == 0,
                Err(es) => error_views(es@) == nll_errors(self.blocks()) && es@.len() > 0,
            },
    {
        let ghost bs = self.body.basic_blocks@;
        let mut checker = self;
        checker.collect_borrows();
        checker.compute_borrow_regions_dataflow();
        checker.check_conflicts();
        checker.check_use_after_move();
        proof {
            assert(error_views(checker.errors@) =~= nll_errors(bs));
        }
        if checker.errors.len() == 0 {
            Ok(())
        } else {
            Err(checker.errors)
        }
    }

    /// The lifetime of a loan, if it has been collected.
    pub fn get_borrow_lifetime(&self, loan_id: LoanId) -> (r: Option<&BorrowLifetime>)
        ensures
            match r {
                Some(l) => loan_id.0 < self.lifetimes().len() && *l == self.lifetimes()[loan_id.0 as int],
                None => loan_id.0 >= self.lifetimes().len(),
            },
    {
        let k = loan_id.0 as usize;
        if k < self.borrow_lifetimes.len() {
            Some(&self.borrow_lifetimes[k])
        } else {
            None
        }
    }

    /// The lifetimes collected, by loan.
    pub fn borrow_lifetimes(&self) -> (r: &Vec<BorrowLifetime>)
        ensures
            r@ == self.lifetimes(),
    {
        &self.borrow_lifetimes
    }

    /// The immediate dominator of each block, over the predecessor
    /// relation from the entry block.
    fn compute_dominators(body: &MirBody, cfg: &Vec<Vec<BasicBlock>>) -> (idom: Vec<Option<BasicBlock>>)
        requires
            cfg@.len() == body.basic_blocks@.len(),
            cfg@.len() <= u32::MAX,
            forall|b: int| 0 <= b < cfg@.len() ==> #[trigger] cfg@[b]@ == flow_successors(body.basic_blocks@[b].terminator),
        ensures
            idom@.len() == body.basic_blocks@.len(),
            body.basic_blocks@.len() > 0 ==> exists|s: Seq<Seq<bool>>| is_greatest_dom(
                pred_rel(body.basic_blocks@), has_pred(body.basic_blocks@), body.basic_blocks@.len() as int, 0, s)
                && idoms_of(s, 0, idom@),
    {
        let n = body.basic_blocks.len();
        if n == 0 {
            return Vec::new();
        }
        let preds = Self::build_reverse_cfg(cfg);
        let ghost bs = body.basic_blocks@;
        proof {
            assert forall|b: int, a: int| 0 <= b < n && 0 <= a < n implies (#[trigger] pred_rel(bs)(b, a) <==> names(preds@[b]@, a)) by {
                assert(names(cfg@[a]@, b) == names(flow_successors(bs[a].terminator), b));
            }
            assert forall|b: int| 0 <= b < n implies (#[trigger] has_pred(bs)(b) <==> preds@[b]@.len() > 0) by {
                if preds@[b]@.len() > 0 {
                    let a = preds@[b]@[0].0 as int;
                    assert(names(preds@[b]@, a));
                    assert(names(cfg@[a]@, b));
                    assert(flows(bs, a, b));
                }
                if has_pred(bs)(b) {
                    let a = choose|a: int| 0 <= a < bs.len() && flows(bs, a, b);
                    assert(names(cfg@[a]@, b));
                    assert(names(preds@[b]@, a));
                }
            }
        }
        let dom = dominator_marks(&preds, 0, Ghost(pred_rel(bs)), Ghost(has_pred(bs)));
        immediate_dominators(&dom, 0)
    }

    /// The immediate post-dominator of each block: dominators over the
    /// successor relation from the first exit block.  With no exit block,
    /// no block has one.
    fn compute_post_dominators(body: &MirBody, cfg: &Vec<Vec<BasicBlock>>) -> (ipdom: Vec<Option<BasicBlock>>)
        requires
            cfg@.len() == body.basic_blocks@.len(),
            cfg@.len() <= u32::MAX,
            forall|b: int| 0 <= b < cfg@.len() ==> #[trigger] cfg@[b]@ == flow_successors(body.basic_blocks@[b].terminator),
        ensures
            ipdom@.len() == body.basic_blocks@.len(),
            (forall|e: int| 0 <= e < body.basic_blocks@.len() ==> !is_exit(body.basic_blocks@, e)) ==> forall|b: int|
                0 <= b < ipdom@.len() ==> #[trigger] ipdom@[b] is None,
            forall|e: int| 0 <= e < body.basic_blocks@.len() && is_exit(body.basic_blocks@, e) && (forall|e2: int|
                0 <= e2 < e ==> !is_exit(body.basic_blocks@, e2)) ==> exists|s: Seq<Seq<bool>>| is_greatest_dom(
                succ_rel(body.basic_blocks@), has_succ(body.basic_blocks@), body.basic_blocks@.len() as int, e, s)
                && idoms_of(s, e, ipdom@),
    {
        let n = body.basic_blocks.len();
        let ghost bs = body.basic_blocks@;
        let mut e: usize = 0;
        while e < n && cfg[e].len() > 0
            invariant
                n == cfg@.len(),
                n == bs.len(),
                bs == body.basic_blocks@,
                forall|b: int| 0 <= b < cfg@.len() ==> #[trigger] cfg@[b]@ == flow_successors(body.basic_blocks@[b].terminator),
                e <= n,
                forall|e2: int| 0 <= e2 < e ==> !is_exit(bs, e2),
            decreases n - e,
        {
            e += 1;
        }
        if e < n {
            assert(is_exit(bs, e as int));
        }
        if e == n {
            let mut none: Vec<Option<BasicBlock>> = Vec::new();
            let mut i: usize = 0;
            while i < n
                invariant
                    i <= n,
                    none@.len() == i,
                    forall|b: int| 0 <= b < i ==> #[trigger] none@[b] is None,
                decreases n - i,
            {
                none.push(None);
                i += 1;
            }
            return none;
        }
        proof {
            assert forall|b: int, a: int| 0 <= b < n && 0 <= a < n implies (#[trigger] succ_rel(bs)(b, a) <==> names(cfg@[b]@, a)) by {
            }
            assert forall|b: int| 0 <= b < n implies (#[trigger] has_succ(bs)(b) <==> cfg@[b]@.len() > 0) by {
            }
        }
        let dom = dominator_marks(cfg, e, Ghost(succ_rel(bs)), Ghost(has_succ(bs)));
        let r = immediate_dominators(&dom, e);
        proof {
            assert forall|e1: int| 0 <= e1 < n && is_exit(bs, e1) && (forall|e2: int| 0 <= e2 < e1 ==> !is_exit(bs, e2))
                implies e1 == e by {
                if e1 < e {
                } else if e1 > e {
                    assert(!is_exit(bs, e as int));
                }
            }
        }
        r
    }

    /// For each block, the blocks control passes to.
    fn build_cfg(body: &MirBody) -> (cfg: Vec<Vec<BasicBlock>>)
        ensures
            cfg@.len() == body.basic_blocks@.len(),
            forall|b: int| 0 <= b < cfg@.len() ==> #[trigger] cfg@[b]@ == flow_successors(body.basic_blocks@[b].terminator),
    {
        let mut cfg: Vec<Vec<BasicBlock>> = Vec::new();
        let mut i: usize = 0;
        while i < body.basic_blocks.len()
            invariant
                i <= body.basic_blocks@.len(),
                cfg@.len() == i,
                forall|b: int| 0 <= b < i ==> #[trigger] cfg@[b]@ == flow_successors(body.basic_blocks@[b].terminator),
            decreases body.basic_blocks@.len() - i,
        {
            cfg.push(flow_targets(&body.basic_blocks[i].terminator));
            i += 1;
        }
        cfg
    }

    /// For each block, the blocks whose successors name it.
    fn build_reverse_cfg(cfg: &Vec<Vec<BasicBlock>>) -> (rev: Vec<Vec<BasicBlock>>)
        requires
            cfg@.len() <= u32::MAX,
        ensures
            rev@.len() == cfg@.len(),
            forall|b: int, a: int| 0 <= b < cfg@.len() ==> (#[trigger] names(rev@[b]@, a) <==> (0 <= a < cfg@.len()
                && names(cfg@[a]@, b))),
    {
        let n = cfg.len();
        let mut rev: Vec<Vec<BasicBlock>> = Vec::new();
        let mut i: usize = 0;
        while i < n
            invariant
                i <= n,
                rev@.len() == i,
                forall|b: int| 0 <= b < i ==> rev@[b]@.len() == 0,
            decreases n - i,
        {
            rev.push(Vec::new());
            i += 1;
        }
        let mut a: usize = 0;
        while a < n
            invariant
                n == cfg@.len(),
                n <= u32::MAX,
                a <= n,
                rev@.len() == n,
                forall|b: int, x: int| 0 <= b < n ==> (#[trigger] names(rev@[b]@, x) <==> (0 <= x < a
                    && names(cfg@[x]@, b))),
            decreases n - a,
        {
            let row = &cfg[a];
            let mut k: usize = 0;
            while k < row.len()
                invariant
                    n == cfg@.len(),
                    n <= u32::MAX,
                    a < n,
                    row@ == cfg@[a as int]@,
                    k <= row@.len(),
                    rev@.len() == n,
                    forall|b: int, x: int| 0 <= b < n ==> (#[trigger] names(rev@[b]@, x) <==> ((0 <= x < a
                        && names(cfg@[x]@, b)) || (x == a && names(row@.take(k as int), b)))),
                decreases row@.len() - k,
            {
                let t = row[k].0 as usize;
                let ghost old_rev = rev@;
                if t < n {
                    rev[t].push(BasicBlock(a as u32));
                    proof {
                        assert forall|b: int, x: int| 0 <= b < n implies (#[trigger] names(rev@[b]@, x) <==> ((0 <= x < a
                            && names(cfg@[x]@, b)) || (x == a && names(row@.take(k + 1), b)))) by {
                            assert(row@.take(k + 1) =~= row@.take(k as int).push(row@[k as int]));
                            if names(row@.take(k + 1), b) && !names(row@.take(k as int), b) {
                                let next = row@.take(k + 1);
                                let j = choose|j: int| 0 <= j < next.len() && next[j].0 == b;
                                if j < k {
                                    assert(row@.take(k as int)[j].0 == b);
                                }
                            }
                            if names(row@.take(k as int), b) {
                                let prev = row@.take(k as int);
                                let j = choose|j: int| 0 <= j < prev.len() && prev[j].0 == b;
                                assert(row@.take(k + 1)[j].0 == b);
                            }
                            if b == t {
                                assert(rev@[b]@ == old_rev[b]@.push(BasicBlock(a as u32)));
                                assert(rev@[b]@[old_rev[b]@.len() as int].0 == a);
                                assert(row@.take(k + 1)[k as int].0 == b);
                                if names(rev@[b]@, x) {
                                    let rb = rev@[b]@;
                                    let j = choose|j: int| 0 <= j < rb.len() && rb[j].0 == x;
                                    if j < old_rev[b]@.len() {
                                        assert(old_rev[b]@[j].0 == x);
                                    }
                                }
                                if names(old_rev[b]@, x) {
                                    let ob = old_rev[b]@;
                                    let j = choose|j: int| 0 <= j < ob.len() && ob[j].0 == x;
                                    assert(rev@[b]@[j].0 == x);
                                }
                            } else {
                                assert(rev@[b] == old_rev[b]);
                            }
                        }
                    }
                } else {
                    proof {
                        assert forall|b: int, x: int| 0 <= b < n implies (#[trigger] names(rev@[b]@, x) <==> ((0 <= x < a
                            && names(cfg@[x]@, b)) || (x == a && names(row@.take(k + 1), b)))) by {
                            assert(row@.take(k + 1) =~= row@.take(k as int).push(row@[k as int]));
                            if names(row@.take(k + 1), b) {
                                let next = row@.take(k + 1);
                                let j = choose|j: int| 0 <= j < next.len() && next[j].0 == b;
                                assert(j != k);
                                assert(row@.take(k as int)[j].0 == b);
                            }
                            if names(row@.take(k as int), b) {
                                let prev = row@.take(k as int);
                                let j = choose|j: int| 0 <= j < prev.len() && prev[j].0 == b;
                                assert(row@.take(k + 1)[j].0 == b);
                            }
                        }
                    }
                }
                k += 1;
            }
            proof {
                assert(row@.take(row@.len() as int) =~= row@);
            }
            a += 1;
        }
        rev
    }
}

} // verus!
