//! The control-flow graph of a body as the borrow checker sees it, and the
//! equations that define dominator sets over it.

use vstd::prelude::*;
use crate::middle::mir::{BasicBlock, BasicBlockData, Local, Statement, Terminator, TerminatorKind};
use crate::middle::mir::optimize::simplify_cfg::count_true;

verus! {

/// The blocks control can pass to after a terminator, in order: a jump's
/// target, a switch's arms then its default, a call's return block, an
/// assertion's target then its cleanup block.
pub open spec fn flow_successors(t: Option<Terminator>) -> Seq<BasicBlock> {
    match t {
        Some(t) => match t.kind {
            TerminatorKind::Goto { target } => seq![target],
            TerminatorKind::SwitchInt { targets, otherwise, .. } => targets@.map_values(|p: (u128, BasicBlock)| p.1).push(otherwise),
            TerminatorKind::Call { target, .. } => match target {
                Some(b) => seq![b],
                None => Seq::empty(),
            },
            TerminatorKind::Assert { target, cleanup, .. } => match cleanup {
                Some(c) => seq![target, c],
                None => seq![target],
            },
            _ => Seq::empty(),
        },
        None => Seq::empty(),
    }
}

/// Whether the list of blocks names block `b`.
pub open spec fn names(s: Seq<BasicBlock>, b: int) -> bool {
    exists|k: int| 0 <= k < s.len() && s[k].0 == b
}

/// Whether control can pass from block `a` to block `b`.
pub open spec fn flows(bs: Seq<BasicBlockData>, a: int, b: int) -> bool {
    0 <= a < bs.len() && names(flow_successors(bs[a].terminator), b)
}

/// The predecessor relation, `a` before `b`, as a relation from `b`.
pub open spec fn pred_rel(bs: Seq<BasicBlockData>) -> spec_fn(int, int) -> bool {
    |b: int, a: int| flows(bs, a, b)
}

/// Whether a block has a predecessor.
pub open spec fn has_pred(bs: Seq<BasicBlockData>) -> spec_fn(int) -> bool {
    |b: int| exists|a: int| 0 <= a < bs.len() && flows(bs, a, b)
}

/// The successor relation.
pub open spec fn succ_rel(bs: Seq<BasicBlockData>) -> spec_fn(int, int) -> bool {
    |b: int, s: int| flows(bs, b, s)
}

/// Whether a block's terminator names any successor (in range or not).
pub open spec fn has_succ(bs: Seq<BasicBlockData>) -> spec_fn(int) -> bool {
    |b: int| flow_successors(bs[b].terminator).len() > 0
}

/// An exit block: one whose terminator names no successor.
pub open spec fn is_exit(bs: Seq<BasicBlockData>, b: int) -> bool {
    flow_successors(bs[b].terminator).len() == 0
}

/// The dominator equation for block `b` and candidate `d`: the entry is
/// dominated by itself alone; a block with no neighbour in `rel` keeps
/// every block; any other block is dominated by itself and by what
/// dominates every neighbour in range.
pub open spec fn dom_step(
    rel: spec_fn(int, int) -> bool,
    linked: spec_fn(int) -> bool,
    entry: int,
    s: Seq<Seq<bool>>,
    b: int,
    d: int,
) -> bool {
    if b == entry {
        d == entry
    } else if !linked(b) {
        true
    } else {
        d == b || forall|a: int| 0 <= a < s.len() && rel(b, a) ==> #[trigger] s[a][d]
    }
}

/// `n` rows of `n` marks.
pub open spec fn dom_shaped(n: int, s: Seq<Seq<bool>>) -> bool {
    s.len() == n && forall|b: int| 0 <= b < n ==> #[trigger] s[b].len() == n
}

/// The marks solve the dominator equations.
pub open spec fn dom_solution(
    rel: spec_fn(int, int) -> bool,
    linked: spec_fn(int) -> bool,
    n: int,
    entry: int,
    s: Seq<Seq<bool>>,
) -> bool {
    &&& dom_shaped(n, s)
    &&& forall|b: int, d: int| 0 <= b < n && 0 <= d < n ==> #[trigger] s[b][d] == dom_step(rel, linked, entry, s, b, d)
}

/// Every mark of `s` is a mark of `t`.
pub open spec fn dom_within(n: int, s: Seq<Seq<bool>>, t: Seq<Seq<bool>>) -> bool {
    forall|b: int, d: int| 0 <= b < n && 0 <= d < n && #[trigger] s[b][d] ==> t[b][d]
}

/// The greatest solution of the dominator equations.
pub open spec fn is_greatest_dom(
    rel: spec_fn(int, int) -> bool,
    linked: spec_fn(int) -> bool,
    n: int,
    entry: int,
    s: Seq<Seq<bool>>,
) -> bool {
    &&& dom_solution(rel, linked, n, entry, s)
    &&& forall|t: Seq<Seq<bool>>| dom_solution(rel, linked, n, entry, t) ==> dom_within(n, t, s)
}

/// Block `c` can stand as the immediate dominator of `b`: it strictly
/// dominates `b`, and every other strict dominator of `b` dominates `c`.
pub open spec fn idom_candidate(s: Seq<Seq<bool>>, b: int, c: int) -> bool {
    &&& 0 <= c < s.len()
    &&& c != b
    &&& s[b][c]
    &&& forall|d: int| 0 <= d < s.len() && d != b && #[trigger] s[b][d] ==> s[c][d] || d == c
}

/// `idom` names, for each block but the entry, the least candidate, and
/// nothing where there is none.
pub open spec fn idoms_of(s: Seq<Seq<bool>>, entry: int, idom: Seq<Option<BasicBlock>>) -> bool {
    &&& idom.len() == s.len()
    &&& forall|b: int| 0 <= b < s.len() ==> match #[trigger] idom[b] {
        Some(c) => b != entry && idom_candidate(s, b, c.0 as int) && forall|c2: int| 0 <= c2 < c.0 ==> !idom_candidate(s, b, c2),
        None => b == entry || forall|c2: int| !idom_candidate(s, b, c2),
    }
}

/// The rows of a matrix of marks.
pub open spec fn rows(v: Seq<Vec<bool>>) -> Seq<Seq<bool>> {
    v.map_values(|r: Vec<bool>| r@)
}

/// The number of marks over all rows.
pub open spec fn total_marks(s: Seq<Seq<bool>>) -> nat
    decreases s.len(),
{
    if s.len() == 0 { 0 } else { total_marks(s.drop_last()) + count_true(s.last()) }
}

pub proof fn lemma_total_update(s: Seq<Seq<bool>>, i: int, r: Seq<bool>)
    requires
        0 <= i < s.len(),
    ensures
        total_marks(s.update(i, r)) + count_true(s[i]) == total_marks(s) + count_true(r),
    decreases s.len(),
{
    if i < s.len() - 1 {
        assert(s.update(i, r).drop_last() =~= s.drop_last().update(i, r));
        lemma_total_update(s.drop_last(), i, r);
    } else {
        assert(s.update(i, r).drop_last() =~= s.drop_last());
    }
}

/// A row whose marks are all marks of another has no more marks, and
/// fewer when they differ.
pub proof fn lemma_count_within(r: Seq<bool>, t: Seq<bool>)
    requires
        r.len() == t.len(),
        forall|d: int| 0 <= d < r.len() && #[trigger] r[d] ==> t[d],
    ensures
        count_true(r) <= count_true(t),
        r != t ==> count_true(r) < count_true(t),
    decreases r.len(),
{
    if r.len() > 0 {
        let n = r.len() - 1;
        assert forall|d: int| 0 <= d < n && #[trigger] r.drop_last()[d] implies t.drop_last()[d] by {
            assert(r[d]);
        }
        lemma_count_within(r.drop_last(), t.drop_last());
        assert(r.last() ==> t.last()) by {
            assert(r[n] ==> t[n]);
        }
        if r != t {
            if r.drop_last() == t.drop_last() {
                assert(r.last() != t.last()) by {
                    if r.last() == t.last() {
                        assert forall|d: int| 0 <= d < r.len() implies r[d] == t[d] by {
                            if d < n {
                                assert(r.drop_last()[d] == t.drop_last()[d]);
                            }
                        }
                        assert(r =~= t);
                    }
                }
            }
        }
    } else {
        assert(r =~= t);
    }
}


/// A point of the body: a block in range, and a statement index no
/// greater than the block's length (the length stands for the terminator).
pub open spec fn is_point(bs: Seq<BasicBlockData>, p: (int, int)) -> bool {
    0 <= p.0 < bs.len() && 0 <= p.1 <= bs[p.0].statements@.len()
}

/// Control passes from point `p` to point `q`: to the next statement, or
/// from the terminator to the start of a successor block in range.
pub open spec fn point_step(bs: Seq<BasicBlockData>, p: (int, int), q: (int, int)) -> bool {
    &&& is_point(bs, p)
    &&& if p.1 < bs[p.0].statements@.len() {
        q == (p.0, p.1 + 1)
    } else {
        q.1 == 0 && 0 <= q.0 < bs.len() && names(flow_successors(bs[p.0].terminator), q.0)
    }
}

/// The statement overwrites `local` or ends its storage.
pub open spec fn stmt_ends(st: Statement, local: Local) -> bool {
    match st {
        Statement::Assign(place, _) => place.local == local,
        Statement::StorageDead(l) => l == local,
        _ => false,
    }
}

/// The statement at point `p`, other than the creation point `c`, ends
/// the borrow held in `local`.
pub open spec fn ends_borrow(bs: Seq<BasicBlockData>, local: Local, c: (int, int), p: (int, int)) -> bool {
    &&& p != c
    &&& 0 <= p.0 < bs.len()
    &&& 0 <= p.1 < bs[p.0].statements@.len()
    &&& stmt_ends(bs[p.0].statements@[p.1], local)
}

/// A path from the creation point `c` along which the borrow held in
/// `local` never ends.
pub open spec fn live_path(bs: Seq<BasicBlockData>, local: Local, c: (int, int), path: Seq<(int, int)>) -> bool {
    &&& path.len() >= 1
    &&& path[0] == c
    &&& forall|k: int| 0 <= k < path.len() - 1 ==> #[trigger] point_step(bs, path[k], path[k + 1])
    &&& forall|k: int| 0 <= k < path.len() ==> !ends_borrow(bs, local, c, #[trigger] path[k])
}

/// The borrow created at `c` into `local` is live at point `q`.
pub open spec fn live_at(bs: Seq<BasicBlockData>, local: Local, c: (int, int), q: (int, int)) -> bool {
    exists|path: Seq<(int, int)>| live_path(bs, local, c, path) && path.last() == q
}

/// The borrow ends at point `q`, reached from a point where it is live.
pub open spec fn kill_at(bs: Seq<BasicBlockData>, local: Local, c: (int, int), q: (int, int)) -> bool {
    ends_borrow(bs, local, c, q) && exists|p: (int, int)| live_at(bs, local, c, p) && point_step(bs, p, q)
}

/// The terminator leaves the function: a return, or a call that does not
/// come back.
pub open spec fn leaves_function(t: Option<Terminator>) -> bool {
    match t {
        Some(t) => match t.kind {
            TerminatorKind::Return => true,
            TerminatorKind::Call { target, .. } => target is None,
            _ => false,
        },
        None => false,
    }
}

/// The borrow is live at a terminator that leaves the function.
pub open spec fn live_to_end(bs: Seq<BasicBlockData>, local: Local, c: (int, int)) -> bool {
    exists|b: int| 0 <= b < bs.len() && #[trigger] live_at(bs, local, c, (b, bs[b].statements@.len() as int))
        && leaves_function(bs[b].terminator)
}

/// The number of cells over all rows.
pub open spec fn total_cells(s: Seq<Seq<bool>>) -> nat
    decreases s.len(),
{
    if s.len() == 0 { 0 } else { total_cells(s.drop_last()) + s.last().len() }
}

pub proof fn lemma_cells_update(s: Seq<Seq<bool>>, i: int, r: Seq<bool>)
    requires
        0 <= i < s.len(),
        r.len() == s[i].len(),
    ensures
        total_cells(s.update(i, r)) == total_cells(s),
    decreases s.len(),
{
    if i < s.len() - 1 {
        assert(s.update(i, r).drop_last() =~= s.drop_last().update(i, r));
        lemma_cells_update(s.drop_last(), i, r);
    } else {
        assert(s.update(i, r).drop_last() =~= s.drop_last());
    }
}

pub proof fn lemma_marks_within_cells(s: Seq<Seq<bool>>)
    ensures
        total_marks(s) <= total_cells(s),
    decreases s.len(),
{
    if s.len() > 0 {
        lemma_marks_within_cells(s.drop_last());
        crate::middle::mir::optimize::simplify_cfg::lemma_count_true_bound(s.last());
    }
}

/// Walking a live path, every point is marked and live, when the marks
/// hold the creation point and pass on from every marked live point.
pub proof fn lemma_live_path_marked(
    bs: Seq<BasicBlockData>,
    local: Local,
    c: (int, int),
    vis: Seq<Seq<bool>>,
    path: Seq<(int, int)>,
    k: int,
)
    requires
        live_path(bs, local, c, path),
        0 <= k < path.len(),
        is_point(bs, c),
        vis[c.0][c.1],
        forall|p: (int, int), q: (int, int)| is_point(bs, p) && #[trigger] vis[p.0][p.1] && !ends_borrow(bs, local, c, p)
            && #[trigger] point_step(bs, p, q) ==> vis[q.0][q.1],
    ensures
        is_point(bs, path[k]),
        vis[path[k].0][path[k].1],
    decreases k,
{
    if k > 0 {
        lemma_live_path_marked(bs, local, c, vis, path, k - 1);
        let j = k - 1;
        assert(point_step(bs, path[j], path[j + 1]));
        assert(!ends_borrow(bs, local, c, path[j]));
    }
}

/// A live path extends by one step to a point where the borrow does not end.
pub proof fn lemma_live_extend(bs: Seq<BasicBlockData>, local: Local, c: (int, int), p: (int, int), q: (int, int))
    requires
        live_at(bs, local, c, p),
        point_step(bs, p, q),
        !ends_borrow(bs, local, c, q),
    ensures
        live_at(bs, local, c, q),
{
    let path = choose|path: Seq<(int, int)>| live_path(bs, local, c, path) && path.last() == p;
    let np = path.push(q);
    assert forall|k: int| 0 <= k < np.len() - 1 implies #[trigger] point_step(bs, np[k], np[k + 1]) by {
        if k < path.len() - 1 {
            assert(point_step(bs, path[k], path[k + 1]));
        }
    }
    assert forall|k: int| 0 <= k < np.len() implies !ends_borrow(bs, local, c, #[trigger] np[k]) by {
        if k < path.len() {
            assert(!ends_borrow(bs, local, c, path[k]));
        }
    }
    assert(live_path(bs, local, c, np));
    assert(np.last() == q);
}


/// Control passes from `p` to `q`, where `p` may lie past its block's
/// last statement (then it stands for the terminator).
pub open spec fn precise_step(bs: Seq<BasicBlockData>, p: (int, int), q: (int, int)) -> bool {
    &&& 0 <= p.0 < bs.len()
    &&& 0 <= p.1
    &&& if p.1 < bs[p.0].statements@.len() {
        q == (p.0, p.1 + 1)
    } else {
        q.1 == 0 && 0 <= q.0 < bs.len() && names(flow_successors(bs[p.0].terminator), q.0)
    }
}

/// A path of steps from `c`.
pub open spec fn reach_path(bs: Seq<BasicBlockData>, c: (int, int), path: Seq<(int, int)>) -> bool {
    &&& path.len() >= 1
    &&& path[0] == c
    &&& forall|k: int| 0 <= k < path.len() - 1 ==> #[trigger] precise_step(bs, path[k], path[k + 1])
}

/// Control can pass from `c` to `q`.
pub open spec fn reaches(bs: Seq<BasicBlockData>, c: (int, int), q: (int, int)) -> bool {
    exists|path: Seq<(int, int)>| reach_path(bs, c, path) && path.last() == q
}

pub proof fn lemma_reaches_start(bs: Seq<BasicBlockData>, c: (int, int))
    ensures
        reaches(bs, c, c),
{
    let path = seq![c];
    assert(reach_path(bs, c, path));
    assert(path.last() == c);
}

pub proof fn lemma_reaches_extend(bs: Seq<BasicBlockData>, c: (int, int), p: (int, int), q: (int, int))
    requires
        reaches(bs, c, p),
        precise_step(bs, p, q),
    ensures
        reaches(bs, c, q),
{
    let path = choose|path: Seq<(int, int)>| reach_path(bs, c, path) && path.last() == p;
    let np = path.push(q);
    assert forall|k: int| 0 <= k < np.len() - 1 implies #[trigger] precise_step(bs, np[k], np[k + 1]) by {
        if k < path.len() - 1 {
            assert(precise_step(bs, path[k], path[k + 1]));
        }
    }
    assert(reach_path(bs, c, np));
    assert(np.last() == q);
}

/// Along a path from `c`, every point past the first is a point of the
/// body that the marks hold, when the marks are closed under steps and
/// hold the steps from `c`.
pub proof fn lemma_reach_path_marked(bs: Seq<BasicBlockData>, c: (int, int), vis: Seq<Seq<bool>>, path: Seq<(int, int)>, k: int)
    requires
        reach_path(bs, c, path),
        0 < k < path.len(),
        forall|q: (int, int)| #[trigger] precise_step(bs, c, q) ==> is_point(bs, q) && vis[q.0][q.1],
        forall|p: (int, int), q: (int, int)| is_point(bs, p) && #[trigger] vis[p.0][p.1] && #[trigger] precise_step(bs, p, q)
            ==> is_point(bs, q) && vis[q.0][q.1],
    ensures
        is_point(bs, path[k]),
        vis[path[k].0][path[k].1],
    decreases k,
{
    let j = k - 1;
    assert(precise_step(bs, path[j], path[j + 1]));
    if k > 1 {
        lemma_reach_path_marked(bs, c, vis, path, j);
    }
}

} // verus!
