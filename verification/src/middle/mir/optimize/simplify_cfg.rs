//! Control-flow simplification: removes blocks that the entry cannot
//! reach, merges a jump-only block with the block after it, and turns a
//! switch whose arms all lead to one block into a jump.

use vstd::prelude::*;
use crate::middle::mir::{BasicBlock, BasicBlockData, MirBody, Terminator, TerminatorKind};

verus! {

/// The control-flow simplification pass.
#[derive(Debug, Clone, Copy, PartialEq, Eq, Structural)]
pub struct SimplifyCfg;

/// The blocks a terminator can jump to, in order: a jump's target, a
/// switch's arms then its default, a call's return block, and, when
/// `with_assert` holds, an assertion's target.
pub open spec fn successors(t: Option<Terminator>, with_assert: bool) -> Seq<BasicBlock> {
    match t {
        Some(t) => match t.kind {
            TerminatorKind::Goto { target } => seq![target],
            TerminatorKind::SwitchInt { targets, otherwise, .. } => targets@.map_values(|p: (u128, BasicBlock)| p.1).push(otherwise),
            TerminatorKind::Call { target, .. } => match target {
                Some(b) => seq![b],
                None => Seq::empty(),
            },
            TerminatorKind::Assert { target, .. } => if with_assert { seq![target] } else { Seq::empty() },
            _ => Seq::empty(),
        },
        None => Seq::empty(),
    }
}

/// An edge of the control-flow graph from block `a` to block `b`.
pub open spec fn edge(bs: Seq<BasicBlockData>, a: int, b: int, w: bool) -> bool {
    &&& 0 <= a < bs.len()
    &&& exists|k: int| 0 <= k < successors(bs[a].terminator, w).len() && successors(bs[a].terminator, w)[k].0 == b
}

/// A path of blocks from the entry block 0, following edges.
pub open spec fn entry_path(bs: Seq<BasicBlockData>, p: Seq<int>, w: bool) -> bool {
    &&& p.len() >= 1
    &&& p[0] == 0
    &&& forall|i: int| 0 <= i < p.len() - 1 ==> #[trigger] edge(bs, p[i], p[i + 1], w)
}

/// Whether the entry block reaches block `b`.
pub open spec fn reachable(bs: Seq<BasicBlockData>, b: int, w: bool) -> bool {
    exists|p: Seq<int>| entry_path(bs, p, w) && p.last() == b
}

/// The number of `true` entries.
pub open spec fn count_true(s: Seq<bool>) -> nat
    decreases s.len(),
{
    if s.len() == 0 { 0 } else { count_true(s.drop_last()) + if s.last() { 1nat } else { 0nat } }
}

pub proof fn lemma_count_true_bound(s: Seq<bool>)
    ensures
        count_true(s) <= s.len(),
    decreases s.len(),
{
    if s.len() > 0 {
        lemma_count_true_bound(s.drop_last());
    }
}

pub proof fn lemma_count_true_set(s: Seq<bool>, i: int)
    requires
        0 <= i < s.len(),
        !s[i],
    ensures
        count_true(s.update(i, true)) == count_true(s) + 1,
    decreases s.len(),
{
    if i < s.len() - 1 {
        assert(s.update(i, true).drop_last() =~= s.drop_last().update(i, true));
        lemma_count_true_set(s.drop_last(), i);
    } else {
        assert(s.update(i, true).drop_last() =~= s.drop_last());
    }
}

pub proof fn lemma_count_true_none(s: Seq<bool>)
    requires
        forall|j: int| 0 <= j < s.len() ==> !#[trigger] s[j],
    ensures
        count_true(s) == 0,
    decreases s.len(),
{
    if s.len() > 0 {
        lemma_count_true_none(s.drop_last());
    }
}

proof fn lemma_marked_along(bs: Seq<BasicBlockData>, marks: Seq<bool>, p: Seq<int>, m: int, w: bool)
    requires
        entry_path(bs, p, w),
        0 <= m < p.len(),
        marks.len() == bs.len(),
        bs.len() > 0 ==> marks[0],
        forall|k: int| 0 <= k < p.len() ==> 0 <= #[trigger] p[k] < bs.len(),
        forall|a: int, b: int| 0 <= a < bs.len() && #[trigger] marks[a] && #[trigger] edge(bs, a, b, w) && 0 <= b < bs.len() ==> marks[b],
    ensures
        marks[p[m]],
    decreases m,
{
    if m > 0 {
        lemma_marked_along(bs, marks, p, m - 1, w);
        let i = m - 1;
        assert(edge(bs, p[i], p[i + 1], w));
    } else {
        assert(0 <= p[0] < bs.len());
    }
}

/// The targets a terminator can jump to, as computed.
pub fn terminator_successors(t: &Option<Terminator>, with_assert: bool) -> (r: Vec<BasicBlock>)
    ensures
        r@ == successors(*t, with_assert),
{
    match t {
        Some(t) => match &t.kind {
            TerminatorKind::Goto { target } => {
                let mut v = Vec::new();
                v.push(*target);
                v
            },
            TerminatorKind::SwitchInt { targets, otherwise, .. } => {
                let mut v = Vec::new();
                let mut i: usize = 0;
                while i < targets.len()
                    invariant
                        0 <= i <= targets@.len(),
                        v@ == targets@.subrange(0, i as int).map_values(|p: (u128, BasicBlock)| p.1),
                    decreases targets.len() - i,
                {
                    v.push(targets[i].1);
                    assert(targets@.subrange(0, i + 1).map_values(|p: (u128, BasicBlock)| p.1)
                        =~= targets@.subrange(0, i as int).map_values(|p: (u128, BasicBlock)| p.1).push(targets@[i as int].1));
                    i += 1;
                }
                assert(targets@.subrange(0, targets@.len() as int) =~= targets@);
                v.push(*otherwise);
                v
            },
            TerminatorKind::Call { target, .. } => {
                let mut v = Vec::new();
                if let Some(b) = target {
                    v.push(*b);
                }
                assert(v@ =~= successors(Some(*t), with_assert));
                v
            },
            TerminatorKind::Assert { target, .. } => {
                let mut v = Vec::new();
                if with_assert {
                    v.push(*target);
                }
                assert(v@ =~= successors(Some(*t), with_assert));
                v
            },
            _ => {
                let v = Vec::new();
                assert(v@ =~= successors(Some(*t), with_assert));
                v
            },
        },
        None => {
            let v = Vec::new();
            assert(v@ =~= successors(*t, with_assert));
            v
        },
    }
}

/// Marks, for each block, whether the entry block reaches it.
pub fn find_reachable_blocks(body: &MirBody, with_assert: bool) -> (marks: Vec<bool>)
    ensures
        marks@.len() == body.basic_blocks@.len(),
        forall|i: int| 0 <= i < marks@.len() ==> (#[trigger] marks@[i] <==> reachable(body.basic_blocks@, i, with_assert)),
{
    let bs = &body.basic_blocks;
    let n = bs.len();
    let mut marks: Vec<bool> = Vec::new();
    let mut k: usize = 0;
    while k < n
        invariant
            0 <= k <= n,
            marks@.len() == k,
            forall|j: int| 0 <= j < k ==> !#[trigger] marks@[j],
        decreases n - k,
    {
        marks.push(false);
        k += 1;
    }
    proof { lemma_count_true_none(marks@); }
    let mut work: Vec<usize> = Vec::new();
    let mut marked: usize = 0;
    let ghost mut paths: Map<int, Seq<int>> = Map::empty();
    if n > 0 {
        proof { lemma_count_true_set(marks@, 0); }
        marks.set(0, true);
        marked = 1;
        work.push(0);
        proof {
            paths = paths.insert(0, seq![0int]);
            assert(work@[0] == 0);
            assert forall|i: int| 0 <= i < n && #[trigger] marks@[i] implies i == 0 && work@.contains(i as usize) by {
                assert(work@[0] == 0);
            }
        }
    }
    while work.len() > 0
        invariant
            n == bs@.len(),
            marks@.len() == n,
            marked == count_true(marks@),
            marked <= n,
            forall|w: int| 0 <= w < work@.len() ==> #[trigger] work@[w] < n && marks@[work@[w] as int],
            work@.len() <= marked,
            n > 0 ==> marks@[0],
            forall|i: int| 0 <= i < n && #[trigger] marks@[i] ==> paths.contains_key(i) && entry_path(bs@, paths[i], with_assert) && paths[i].last() == i,
            forall|i: int, j: int| 0 <= i < n && #[trigger] marks@[i] && !work@.contains(i as usize) && #[trigger] edge(bs@, i, j, with_assert) && 0 <= j < n
                ==> marks@[j],
        decreases n - marked, work.len(),
    {
        let ghost work_before = work@;
        let w = work.pop().unwrap();
        let succ = terminator_successors(&bs[w].terminator, with_assert);
        let ghost w_path = paths[w as int];
        let ghost marked_before = marked;
        let ghost work_after_pop = work@;
        proof {
            assert(work_before == work@.push(w));
            assert forall|i: int| 0 <= i < n && marks@[i] && i != w && !#[trigger] work@.contains(i as usize) implies !work_before.contains(i as usize) by {
                if work_before.contains(i as usize) {
                    let x = choose|x: int| 0 <= x < work_before.len() && work_before[x] == i as usize;
                    if x < work@.len() {
                        assert(work@[x] == i as usize);
                    }
                }
            }
        }
        let mut k: usize = 0;
        while k < succ.len()
            invariant
                n == bs@.len(),
                w < n,
                marks@[w as int],
                succ@ == successors(bs@[w as int].terminator, with_assert),
                0 <= k <= succ@.len(),
                marks@.len() == n,
                marked == count_true(marks@),
                marked <= n,
                forall|x: int| 0 <= x < work@.len() ==> #[trigger] work@[x] < n && marks@[work@[x] as int],
                work@.len() <= marked,
                n > 0 ==> marks@[0],
                entry_path(bs@, w_path, with_assert) && w_path.last() == w,
                forall|i: int| 0 <= i < n && #[trigger] marks@[i] ==> paths.contains_key(i) && entry_path(bs@, paths[i], with_assert) && paths[i].last() == i,
                forall|i: int, j: int| 0 <= i < n && #[trigger] marks@[i] && i != w && !work@.contains(i as usize) && #[trigger] edge(bs@, i, j, with_assert) && 0 <= j < n
                    ==> marks@[j],
                forall|m: int| 0 <= m < k && (succ@[m].0 as int) < n ==> marks@[#[trigger] succ@[m].0 as int],
                marked >= marked_before,
                marked == marked_before ==> work@ == work_after_pop,
                work_after_pop.len() < work_before.len(),
                marked_before <= marked,
            decreases succ.len() - k,
        {
            let t = succ[k].0 as usize;
            if t < n && !marks[t] {
                proof {
                    lemma_count_true_set(marks@, t as int);
                    lemma_count_true_bound(marks@.update(t as int, true));
                    let p2 = w_path.push(t as int);
                    assert(edge(bs@, w as int, t as int, with_assert)) by {
                        assert(successors(bs@[w as int].terminator, with_assert)[k as int].0 == t);
                    }
                    assert forall|i: int| 0 <= i < p2.len() - 1 implies #[trigger] edge(bs@, p2[i], p2[i + 1], with_assert) by {
                        if i < w_path.len() - 1 {
                            assert(edge(bs@, w_path[i], w_path[i + 1], with_assert));
                        }
                    }
                    paths = paths.insert(t as int, p2);
                }
                let ghost work_prev = work@;
                let ghost marks_prev = marks@;
                marks.set(t, true);
                marked = marked + 1;
                work.push(t);
                proof {
                    assert forall|i: int| 0 <= i < n && !#[trigger] work@.contains(i as usize) implies !work_prev.contains(i as usize) by {
                        if work_prev.contains(i as usize) {
                            let x = choose|x: int| 0 <= x < work_prev.len() && work_prev[x] == i as usize;
                            assert(work@[x] == i as usize);
                        }
                    }
                    assert forall|i: int, j: int| 0 <= i < n && #[trigger] marks@[i] && i != w && !work@.contains(i as usize) && #[trigger] edge(bs@, i, j, with_assert) && 0 <= j < n
                        implies marks@[j] by {
                        if i == t as int {
                            assert(work@[work@.len() - 1] == t);
                        } else {
                            assert(marks_prev[i]);
                            assert(!work_prev.contains(i as usize));
                        }
                    }
                }
            }
            k += 1;
        }
        proof {
            assert forall|j: int| #[trigger] edge(bs@, w as int, j, with_assert) && 0 <= j < n implies marks@[j] by {
                let kk = choose|kk: int| 0 <= kk < successors(bs@[w as int].terminator, with_assert).len()
                    && successors(bs@[w as int].terminator, with_assert)[kk].0 == j;
                assert(succ@[kk].0 as int == j);
            }
            assert forall|i: int, j: int| 0 <= i < n && #[trigger] marks@[i] && !work@.contains(i as usize) && #[trigger] edge(bs@, i, j, with_assert) && 0 <= j < n
                implies marks@[j] by {
                if i != w {
                }
            }
        }
    }
    proof {
        assert forall|i: int| 0 <= i < marks@.len() implies (#[trigger] marks@[i] <==> reachable(bs@, i, with_assert)) by {
            if marks@[i] {
                assert(entry_path(bs@, paths[i], with_assert) && paths[i].last() == i);
            } else if reachable(bs@, i, with_assert) {
                let p = choose|p: Seq<int>| entry_path(bs@, p, with_assert) && p.last() == i;
                assert forall|k: int| 0 <= k < p.len() implies 0 <= #[trigger] p[k] < n by {
                    if k < p.len() - 1 {
                        assert(edge(bs@, p[k], p[k + 1], with_assert));
                    }
                }
                assert forall|a: int, b: int| 0 <= a < n && #[trigger] marks@[a] && #[trigger] edge(bs@, a, b, with_assert) && 0 <= b < n implies marks@[b] by {
                    assert(!work@.contains(a as usize));
                }
                lemma_marked_along(bs@, marks@, p, p.len() - 1, with_assert);
            }
        }
    }
    marks
}

/// The number of statements over all blocks.
pub open spec fn total_statements(bs: Seq<BasicBlockData>) -> nat
    decreases bs.len(),
{
    if bs.len() == 0 { 0 } else { total_statements(bs.drop_last()) + bs.last().statements@.len() }
}

/// The index a kept block gets: the number of kept blocks before it.
pub open spec fn rank(marks: Seq<bool>, i: int) -> nat {
    count_true(marks.take(i))
}

/// Where a jump to `t` leads once the unmarked blocks are gone: a kept
/// block's new index; any other target is left as it is.
pub open spec fn remap(marks: Seq<bool>, t: BasicBlock) -> BasicBlock {
    if (t.0 as int) < marks.len() && marks[t.0 as int] { BasicBlock(rank(marks, t.0 as int) as u32) } else { t }
}

/// A terminator whose jump, switch and call targets (and, when `w` holds,
/// an assertion's target) are renumbered by `remap`; other terminators are
/// unchanged.
pub open spec fn remapped_terminator(old: Option<Terminator>, new: Option<Terminator>, marks: Seq<bool>, w: bool) -> bool {
    match old {
        None => new is None,
        Some(t) => match new {
            None => false,
            Some(t2) => t2.span == t.span && match t.kind {
                TerminatorKind::Goto { target } => t2.kind == TerminatorKind::Goto { target: remap(marks, target) },
                TerminatorKind::SwitchInt { discr, switch_ty, targets, otherwise } => match t2.kind {
                    TerminatorKind::SwitchInt { discr: d2, switch_ty: s2, targets: g2, otherwise: o2 } => {
                        &&& d2 == discr
                        &&& s2 == switch_ty
                        &&& o2 == remap(marks, otherwise)
                        &&& g2@.len() == targets@.len()
                        &&& forall|k: int| 0 <= k < targets@.len()
                            ==> #[trigger] g2@[k] == (targets@[k].0, remap(marks, targets@[k].1))
                    },
                    _ => false,
                },
                TerminatorKind::Call { func, args, destination, target } => t2.kind == TerminatorKind::Call {
                    func, args, destination,
                    target: match target { Some(b) => Some(remap(marks, b)), None => None },
                },
                TerminatorKind::Assert { cond, expected, msg, target, cleanup } => if w {
                    t2.kind == TerminatorKind::Assert { cond, expected, msg, target: remap(marks, target), cleanup }
                } else {
                    t2.kind == t.kind
                },
                _ => t2.kind == t.kind,
            },
        },
    }
}

/// The blocks that remain when only the marked ones are kept, in order,
/// with their targets renumbered.
pub open spec fn pruned(old: Seq<BasicBlockData>, new: Seq<BasicBlockData>, marks: Seq<bool>, w: bool) -> bool {
    &&& marks.len() == old.len()
    &&& new.len() == count_true(marks)
    &&& forall|i: int| 0 <= i < old.len() && #[trigger] marks[i] ==> {
        &&& new[rank(marks, i) as int].statements == old[i].statements
        &&& new[rank(marks, i) as int].is_cleanup == old[i].is_cleanup
        &&& remapped_terminator(old[i].terminator, new[rank(marks, i) as int].terminator, marks, w)
    }
}

proof fn lemma_rank_step(marks: Seq<bool>, i: int)
    requires
        0 <= i < marks.len(),
    ensures
        rank(marks, i + 1) == rank(marks, i) + if marks[i] { 1nat } else { 0nat },
{
    assert(marks.take(i + 1).drop_last() =~= marks.take(i));
}

proof fn lemma_rank_mono(marks: Seq<bool>, i: int, j: int)
    requires
        0 <= i <= j <= marks.len(),
    ensures
        rank(marks, i) <= rank(marks, j),
        i < j && marks[i] ==> rank(marks, i) < rank(marks, j),
    decreases j - i,
{
    if i < j {
        lemma_rank_mono(marks, i, j - 1);
        lemma_rank_step(marks, j - 1);
        if marks[i] && i == j - 1 {
        } else if marks[i] {
            lemma_rank_mono(marks, i, j - 1);
        }
    }
}

fn remap_exec(t: BasicBlock, marks: &Vec<bool>, ranks: &Vec<usize>) -> (r: BasicBlock)
    requires
        ranks@.len() == marks@.len(),
        forall|i: int| 0 <= i < marks@.len() ==> #[trigger] ranks@[i] == rank(marks@, i),
        marks@.len() <= u32::MAX,
    ensures
        r == remap(marks@, t),
{
    let i = t.0 as usize;
    if i < marks.len() && marks[i] {
        proof { lemma_rank_mono(marks@, i as int, marks@.len() as int); lemma_count_true_bound(marks@.take(marks@.len() as int)); }
        BasicBlock(ranks[i] as u32)
    } else {
        t
    }
}

fn remap_terminator(t: Option<Terminator>, marks: &Vec<bool>, ranks: &Vec<usize>, with_assert: bool) -> (r: Option<Terminator>)
    requires
        ranks@.len() == marks@.len(),
        forall|i: int| 0 <= i < marks@.len() ==> #[trigger] ranks@[i] == rank(marks@, i),
        marks@.len() <= u32::MAX,
    ensures
        remapped_terminator(t, r, marks@, with_assert),
{
    match t {
        None => None,
        Some(Terminator { kind, span }) => {
            let kind = match kind {
                TerminatorKind::Goto { target } => TerminatorKind::Goto { target: remap_exec(target, marks, ranks) },
                TerminatorKind::SwitchInt { discr, switch_ty, targets, otherwise } => {
                    let mut g: Vec<(u128, BasicBlock)> = Vec::new();
                    let mut k: usize = 0;
                    while k < targets.len()
                        invariant
                            ranks@.len() == marks@.len(),
                            forall|i: int| 0 <= i < marks@.len() ==> #[trigger] ranks@[i] == rank(marks@, i),
                            marks@.len() <= u32::MAX,
                            0 <= k <= targets@.len(),
                            g@.len() == k,
                            forall|m: int| 0 <= m < k ==> #[trigger] g@[m] == (targets@[m].0, remap(marks@, targets@[m].1)),
                        decreases targets.len() - k,
                    {
                        let (v, b) = targets[k];
                        g.push((v, remap_exec(b, marks, ranks)));
                        k += 1;
                    }
                    TerminatorKind::SwitchInt { discr, switch_ty, targets: g, otherwise: remap_exec(otherwise, marks, ranks) }
                },
                TerminatorKind::Call { func, args, destination, target } => {
                    let target = match target {
                        Some(b) => Some(remap_exec(b, marks, ranks)),
                        None => None,
                    };
                    TerminatorKind::Call { func, args, destination, target }
                },
                TerminatorKind::Assert { cond, expected, msg, target, cleanup } => {
                    let target = if with_assert { remap_exec(target, marks, ranks) } else { target };
                    TerminatorKind::Assert { cond, expected, msg, target, cleanup }
                },
                other => other,
            };
            Some(Terminator { kind, span })
        },
    }
}

/// Keeps only the marked blocks, in order, and renumbers the targets of
/// jumps, switches and calls to follow.
pub fn remove_unreachable_blocks(body: &mut MirBody, marks: &Vec<bool>, with_assert: bool)
    requires
        marks@.len() == old(body).basic_blocks@.len(),
        old(body).basic_blocks@.len() <= u32::MAX,
    ensures
        pruned(old(body).basic_blocks@, final(body).basic_blocks@, marks@, with_assert),
        total_statements(final(body).basic_blocks@) <= total_statements(old(body).basic_blocks@),
        final(body).local_decls == old(body).local_decls,
        final(body).arg_count == old(body).arg_count,
        final(body).span == old(body).span,
{
    let n = marks.len();
    let mut ranks: Vec<usize> = Vec::new();
    let mut count: usize = 0;
    let mut i: usize = 0;
    while i < n
        invariant
            n == marks@.len(),
            0 <= i <= n,
            ranks@.len() == i,
            count == rank(marks@, i as int),
            count <= i,
            forall|j: int| 0 <= j < i ==> #[trigger] ranks@[j] == rank(marks@, j),
        decreases n - i,
    {
        ranks.push(count);
        proof { lemma_rank_step(marks@, i as int); }
        if marks[i] {
            count += 1;
        }
        i += 1;
    }
    let mut old_blocks: Vec<BasicBlockData> = Vec::new();
    std::mem::swap(&mut body.basic_blocks, &mut old_blocks);
    let ghost start = old_blocks@;
    let mut kept: Vec<BasicBlockData> = Vec::new();
    let mut i: usize = 0;
    while i < n
        invariant
            n == marks@.len(),
            n == start.len(),
            n <= u32::MAX,
            0 <= i <= n,
            old_blocks@.len() == n,
            ranks@.len() == n,
            forall|j: int| 0 <= j < n ==> #[trigger] ranks@[j] == rank(marks@, j),
            forall|j: int| i <= j < n ==> #[trigger] old_blocks@[j] == start[j],
            kept@.len() == rank(marks@, i as int),
            total_statements(kept@) <= total_statements(start.take(i as int)),
            forall|j: int| 0 <= j < i && #[trigger] marks@[j] ==> {
                &&& kept@[rank(marks@, j) as int].statements == start[j].statements
                &&& kept@[rank(marks@, j) as int].is_cleanup == start[j].is_cleanup
                &&& remapped_terminator(start[j].terminator, kept@[rank(marks@, j) as int].terminator, marks@, with_assert)
            },
        decreases n - i,
    {
        proof {
            lemma_rank_step(marks@, i as int);
            assert(start.take(i + 1).drop_last() =~= start.take(i as int));
        }
        let ghost kept_before = kept@;
        if marks[i] {
            let mut blk = BasicBlockData::new();
            std::mem::swap(&mut old_blocks[i], &mut blk);
            let BasicBlockData { statements, terminator, is_cleanup } = blk;
            let terminator = remap_terminator(terminator, marks, &ranks, with_assert);
            proof {
                assert forall|j: int| 0 <= j < i && #[trigger] marks@[j] implies rank(marks@, j) < rank(marks@, i as int) by {
                    lemma_rank_mono(marks@, j, i as int);
                }
            }
            kept.push(BasicBlockData { statements, terminator, is_cleanup });
            proof { assert(kept@.drop_last() =~= kept_before); }
        }
        i += 1;
    }
    proof { assert(start.take(n as int) =~= start); }
    proof { assert(marks@.take(n as int) =~= marks@); }
    body.basic_blocks = kept;
}

/// The target of a block that holds no statement and only jumps.
pub open spec fn simple_goto(b: BasicBlockData) -> Option<BasicBlock> {
    if b.statements@.len() == 0 {
        match b.terminator {
            Some(t) => match t.kind {
                TerminatorKind::Goto { target } => Some(target),
                _ => None,
            },
            None => None,
        }
    } else {
        None
    }
}

/// How often `t` occurs in `s`.
pub open spec fn occurrences(s: Seq<BasicBlock>, t: BasicBlock) -> nat
    decreases s.len(),
{
    if s.len() == 0 { 0 } else { occurrences(s.drop_last(), t) + if s.last() == t { 1nat } else { 0nat } }
}

/// The number of jumps into `t`, counted over every block's successors.
pub open spec fn predecessors(bs: Seq<BasicBlockData>, t: BasicBlock) -> nat
    decreases bs.len(),
{
    if bs.len() == 0 { 0 } else { predecessors(bs.drop_last(), t) + occurrences(successors(bs.last().terminator, false), t) }
}

/// Whether block `i` only jumps to block `i + 1`, which nothing else jumps to.
pub open spec fn mergeable(bs: Seq<BasicBlockData>, i: int) -> bool {
    &&& 0 <= i < bs.len()
    &&& simple_goto(bs[i]) matches Some(t) && t.0 == i + 1 && predecessors(bs, t) == 1
}

/// The first mergeable block at or after `i`.
pub open spec fn first_mergeable(bs: Seq<BasicBlockData>, i: int) -> Option<int>
    decreases bs.len() - i,
{
    if i < 0 || i >= bs.len() {
        None
    } else if mergeable(bs, i) {
        Some(i)
    } else {
        first_mergeable(bs, i + 1)
    }
}

/// Merging block `i` with the block it jumps to: the pair becomes one
/// block with the second's statements and terminator. When the target lies
/// past the last block, the jump is dropped instead.
pub open spec fn merge_at(bs: Seq<BasicBlockData>, i: int) -> Seq<BasicBlockData> {
    if i + 1 < bs.len() {
        bs.take(i).push(BasicBlockData {
            statements: bs[i + 1].statements,
            terminator: bs[i + 1].terminator,
            is_cleanup: bs[i].is_cleanup,
        }) + bs.skip(i + 2)
    } else {
        bs.update(i, BasicBlockData { terminator: None, ..bs[i] })
    }
}

/// A run of merges from `start` to `end`: each step merges at the first
/// mergeable block, and `end` has none left.
pub open spec fn merge_run(chain: Seq<Seq<BasicBlockData>>, start: Seq<BasicBlockData>, end: Seq<BasicBlockData>) -> bool {
    &&& chain.len() >= 1
    &&& chain[0] == start
    &&& chain.last() == end
    &&& first_mergeable(end, 0) is None
    &&& forall|k: int| 0 <= k < chain.len() - 1 ==> (first_mergeable(#[trigger] chain[k], 0) matches Some(i)
        && chain[k + 1] == merge_at(chain[k], i))
}

/// A terminator with a switch whose arms and default all lead to one block
/// replaced by a jump there.
pub open spec fn switch_simplified(old: Option<Terminator>, new: Option<Terminator>) -> bool {
    match old {
        Some(t) => match t.kind {
            TerminatorKind::SwitchInt { targets, otherwise, .. } =>
                if forall|k: int| 0 <= k < targets@.len() ==> (#[trigger] targets@[k]).1 == otherwise {
                    new == Some(Terminator { kind: TerminatorKind::Goto { target: otherwise }, span: t.span })
                } else {
                    new == old
                },
            _ => new == old,
        },
        None => new == old,
    }
}

/// Blocks whose switches are simplified, everything else kept.
pub open spec fn switches_simplified(old: Seq<BasicBlockData>, new: Seq<BasicBlockData>) -> bool {
    &&& new.len() == old.len()
    &&& forall|b: int| 0 <= b < old.len() ==> {
        &&& (#[trigger] new[b]).statements == old[b].statements
        &&& new[b].is_cleanup == old[b].is_cleanup
        &&& switch_simplified(old[b].terminator, new[b].terminator)
    }
}

/// The whole pass: unreachable blocks removed, then jump-only blocks merged,
/// then single-target switches turned into jumps.
pub open spec fn simplified(old: MirBody, new: MirBody) -> bool {
    &&& exists|marks: Seq<bool>, pruned_bs: Seq<BasicBlockData>, chain: Seq<Seq<BasicBlockData>>, merged: Seq<BasicBlockData>| {
        &&& marks.len() == old.basic_blocks@.len()
        &&& forall|i: int| 0 <= i < marks.len() ==> (#[trigger] marks[i] <==> reachable(old.basic_blocks@, i, false))
        &&& pruned(old.basic_blocks@, pruned_bs, marks, false)
        &&& merge_run(chain, pruned_bs, merged)
        &&& switches_simplified(merged, new.basic_blocks@)
    }
    &&& new.local_decls == old.local_decls
    &&& new.arg_count == old.arg_count
    &&& new.span == old.span
}

/// Two for a block and one more for its terminator.
pub open spec fn weight(bs: Seq<BasicBlockData>) -> nat
    decreases bs.len(),
{
    if bs.len() == 0 {
        0
    } else {
        weight(bs.drop_last()) + if bs.last().terminator is Some { 3nat } else { 2nat }
    }
}

proof fn lemma_weight_concat(a: Seq<BasicBlockData>, b: Seq<BasicBlockData>)
    ensures
        weight(a + b) == weight(a) + weight(b),
    decreases b.len(),
{
    if b.len() > 0 {
        assert((a + b).drop_last() =~= a + b.drop_last());
        lemma_weight_concat(a, b.drop_last());
    } else {
        assert(a + b =~= a);
    }
}

proof fn lemma_merge_lighter(bs: Seq<BasicBlockData>, i: int)
    requires
        mergeable(bs, i),
    ensures
        weight(merge_at(bs, i)) < weight(bs),
{
    let blk = bs[i];
    assert(blk.terminator is Some);
    if i + 1 < bs.len() {
        let merged = BasicBlockData { statements: bs[i + 1].statements, terminator: bs[i + 1].terminator, is_cleanup: blk.is_cleanup };
        assert(bs =~= bs.take(i) + seq![blk, bs[i + 1]] + bs.skip(i + 2));
        lemma_weight_concat(bs.take(i) + seq![blk, bs[i + 1]], bs.skip(i + 2));
        lemma_weight_concat(bs.take(i), seq![blk, bs[i + 1]]);
        assert(bs.take(i).push(merged) =~= bs.take(i) + seq![merged]);
        lemma_weight_concat(bs.take(i).push(merged), bs.skip(i + 2));
        lemma_weight_concat(bs.take(i), seq![merged]);
        assert(seq![blk, bs[i + 1]].drop_last() =~= seq![blk]);
        assert(seq![blk].drop_last() =~= Seq::<BasicBlockData>::empty());
        assert(seq![merged].drop_last() =~= Seq::<BasicBlockData>::empty());
        assert(weight(Seq::<BasicBlockData>::empty()) == 0);
        assert(seq![blk].last() == blk);
        assert(weight(seq![blk]) == weight(seq![blk].drop_last()) + 3);
        assert(weight(seq![blk]) == 3);
        assert(weight(seq![blk, bs[i + 1]]) >= 5);
        assert(weight(seq![merged]) <= 3);
        assert(merge_at(bs, i) == bs.take(i).push(merged) + bs.skip(i + 2));
    } else {
        let cut = BasicBlockData { terminator: None, ..blk };
        assert(bs =~= bs.take(i).push(blk));
        assert(merge_at(bs, i) =~= bs.take(i).push(cut));
        assert(bs.take(i).push(cut).drop_last() =~= bs.take(i));
        assert(bs.take(i).push(blk).drop_last() =~= bs.take(i));
        assert(weight(bs.take(i).push(cut)) == weight(bs.take(i)) + 2);
        assert(weight(bs.take(i).push(blk)) == weight(bs.take(i)) + 3);
    }
}

/// The target of a jump-only block (see `simple_goto`).
pub fn is_simple_goto(block: &BasicBlockData) -> (r: Option<BasicBlock>)
    ensures
        r == simple_goto(*block),
{
    if block.statements.len() != 0 {
        return None;
    }
    match &block.terminator {
        Some(t) => match &t.kind {
            TerminatorKind::Goto { target } => Some(*target),
            _ => None,
        },
        None => None,
    }
}

fn count_in(s: &Vec<BasicBlock>, t: BasicBlock) -> (c: usize)
    ensures
        c == occurrences(s@, t),
{
    let mut c: usize = 0;
    let mut i: usize = 0;
    while i < s.len()
        invariant
            0 <= i <= s@.len(),
            c == occurrences(s@.take(i as int), t),
            c <= i,
        decreases s.len() - i,
    {
        assert(s@.take(i + 1).drop_last() =~= s@.take(i as int));
        if s[i] == t {
            c += 1;
        }
        i += 1;
    }
    assert(s@.take(s@.len() as int) =~= s@);
    c
}

/// The number of jumps into `t` (see `predecessors`).
pub fn count_predecessors(blocks: &Vec<BasicBlockData>, t: BasicBlock) -> (c: u64)
    ensures
        c as nat == if predecessors(blocks@, t) <= u64::MAX { predecessors(blocks@, t) } else { u64::MAX as nat },
{
    let mut c: u64 = 0;
    let mut i: usize = 0;
    while i < blocks.len()
        invariant
            0 <= i <= blocks@.len(),
            c as nat == if predecessors(blocks@.take(i as int), t) <= u64::MAX { predecessors(blocks@.take(i as int), t) } else { u64::MAX as nat },
        decreases blocks.len() - i,
    {
        assert(blocks@.take(i + 1).drop_last() =~= blocks@.take(i as int));
        let succ = terminator_successors(&blocks[i].terminator, false);
        let k = count_in(&succ, t);
        c = if c > u64::MAX - (k as u64) { u64::MAX } else { c + k as u64 };
        i += 1;
    }
    assert(blocks@.take(blocks@.len() as int) =~= blocks@);
    c
}

fn find_mergeable(blocks: &Vec<BasicBlockData>) -> (r: Option<usize>)
    requires
        blocks@.len() <= u32::MAX,
    ensures
        match r {
            Some(i) => first_mergeable(blocks@, 0) == Some(i as int),
            None => first_mergeable(blocks@, 0) is None,
        },
{
    let mut i: usize = 0;
    while i < blocks.len()
        invariant
            blocks@.len() <= u32::MAX,
            0 <= i <= blocks@.len(),
            first_mergeable(blocks@, 0) == first_mergeable(blocks@, i as int),
        decreases blocks.len() - i,
    {
        if let Some(t) = is_simple_goto(&blocks[i]) {
            if (t.0 as usize) == i + 1 && count_predecessors(blocks, t) == 1 {
                return Some(i);
            }
        }
        i += 1;
    }
    None
}

fn merge_blocks(blocks: &mut Vec<BasicBlockData>, i: usize)
    requires
        mergeable(old(blocks)@, i as int),
    ensures
        final(blocks)@ == merge_at(old(blocks)@, i as int),
{
    let ghost start = blocks@;
    if i + 1 < blocks.len() {
        let target = blocks.remove(i + 1);
        let BasicBlockData { statements, terminator, is_cleanup: _ } = target;
        let mut blk = BasicBlockData::new();
        std::mem::swap(&mut blocks[i], &mut blk);
        let mut merged = BasicBlockData { statements, terminator, is_cleanup: blk.is_cleanup };
        std::mem::swap(&mut blocks[i], &mut merged);
        assert(blocks@ =~= merge_at(start, i as int));
    } else {
        let mut blk = BasicBlockData::new();
        std::mem::swap(&mut blocks[i], &mut blk);
        let BasicBlockData { statements, terminator: _, is_cleanup } = blk;
        let mut cut = BasicBlockData { statements, terminator: None, is_cleanup };
        std::mem::swap(&mut blocks[i], &mut cut);
        assert(blocks@ =~= merge_at(start, i as int));
    }
}

/// Merges, again and again, the first jump-only block whose target is the
/// next block and has no other way in, until none is left.
pub fn merge_goto_blocks(body: &mut MirBody)
    requires
        old(body).basic_blocks@.len() <= u32::MAX,
    ensures
        exists|chain: Seq<Seq<BasicBlockData>>| merge_run(chain, old(body).basic_blocks@, final(body).basic_blocks@),
        final(body).local_decls == old(body).local_decls,
        final(body).arg_count == old(body).arg_count,
        final(body).span == old(body).span,
{
    let ghost start = body.basic_blocks@;
    let ghost mut chain: Seq<Seq<BasicBlockData>> = seq![start];
    loop
        invariant
            body.basic_blocks@.len() <= u32::MAX,
            body.local_decls == old(body).local_decls,
            body.arg_count == old(body).arg_count,
            body.span == old(body).span,
            chain.len() >= 1,
            chain[0] == start,
            chain.last() == body.basic_blocks@,
            forall|k: int| 0 <= k < chain.len() - 1 ==> (first_mergeable(#[trigger] chain[k], 0) matches Some(i)
                && chain[k + 1] == merge_at(chain[k], i)),
        ensures
            merge_run(chain, start, body.basic_blocks@),
        decreases weight(body.basic_blocks@),
    {
        match find_mergeable(&body.basic_blocks) {
            Some(i) => {
                proof {
                    let bs = body.basic_blocks@;
                    assert(mergeable(bs, i as int)) by {
                        lemma_first_mergeable(bs, 0);
                    }
                    lemma_merge_lighter(bs, i as int);
                }
                let ghost before = body.basic_blocks@;
                merge_blocks(&mut body.basic_blocks, i);
                proof {
                    let c2 = chain.push(body.basic_blocks@);
                    assert forall|k: int| 0 <= k < c2.len() - 1 implies (first_mergeable(#[trigger] c2[k], 0) matches Some(j)
                        && c2[k + 1] == merge_at(c2[k], j)) by {
                        if k < chain.len() - 1 {
                            assert(c2[k] == chain[k] && c2[k + 1] == chain[k + 1]);
                        } else {
                            assert(c2[k] == before);
                        }
                    }
                    chain = c2;
                }
            },
            None => {
                break;
            },
        }
    }
}

proof fn lemma_first_mergeable(bs: Seq<BasicBlockData>, i: int)
    requires
        0 <= i,
    ensures
        first_mergeable(bs, i) matches Some(j) ==> i <= j && mergeable(bs, j),
    decreases bs.len() - i,
{
    if i < bs.len() && !mergeable(bs, i) {
        lemma_first_mergeable(bs, i + 1);
    }
}

fn simplify_switch(t: Option<Terminator>) -> (r: Option<Terminator>)
    ensures
        switch_simplified(t, r),
{
    match t {
        Some(Terminator { kind, span }) => {
            let single = match &kind {
                TerminatorKind::SwitchInt { targets, otherwise, .. } => {
                    let mut all = true;
                    let mut k: usize = 0;
                    while k < targets.len()
                        invariant
                            0 <= k <= targets@.len(),
                            all == forall|m: int| 0 <= m < k ==> (#[trigger] targets@[m]).1 == *otherwise,
                        decreases targets.len() - k,
                    {
                        if targets[k].1 != *otherwise {
                            all = false;
                        }
                        k += 1;
                    }
                    if all { Some(*otherwise) } else { None }
                },
                _ => None,
            };
            match single {
                Some(target) => Some(Terminator { kind: TerminatorKind::Goto { target }, span }),
                None => Some(Terminator { kind, span }),
            }
        },
        None => None,
    }
}

/// Turns every switch whose arms and default all lead to one block into a
/// jump there.
pub fn simplify_switches(body: &mut MirBody)
    ensures
        switches_simplified(old(body).basic_blocks@, final(body).basic_blocks@),
        final(body).local_decls == old(body).local_decls,
        final(body).arg_count == old(body).arg_count,
        final(body).span == old(body).span,
{
    let ghost start = body.basic_blocks@;
    let n = body.basic_blocks.len();
    let mut b: usize = 0;
    while b < n
        invariant
            n == start.len(),
            0 <= b <= n,
            body.basic_blocks@.len() == n,
            body.local_decls == old(body).local_decls,
            body.arg_count == old(body).arg_count,
            body.span == old(body).span,
            forall|j: int| 0 <= j < b ==> {
                &&& (#[trigger] body.basic_blocks@[j]).statements == start[j].statements
                &&& body.basic_blocks@[j].is_cleanup == start[j].is_cleanup
                &&& switch_simplified(start[j].terminator, body.basic_blocks@[j].terminator)
            },
            forall|j: int| b <= j < n ==> #[trigger] body.basic_blocks@[j] == start[j],
        decreases n - b,
    {
        let blk = &mut body.basic_blocks[b];
        let mut t = None;
        std::mem::swap(&mut blk.terminator, &mut t);
        blk.terminator = simplify_switch(t);
        b += 1;
    }
}

impl SimplifyCfg {
    /// The pass's name.
    pub fn name(&self) -> (s: &'static str)
        ensures
            s@ == "simplify_cfg"@,
    {
        "simplify_cfg"
    }

    /// Removes the blocks the entry cannot reach, merges jump-only blocks
    /// into their single-entry successors, and simplifies switches.
    pub fn run(&self, body: &mut MirBody)
        requires
            old(body).basic_blocks@.len() <= u32::MAX,
        ensures
            simplified(*old(body), *final(body)),
    {
        let ghost start = *body;
        let marks = find_reachable_blocks(body, false);
        remove_unreachable_blocks(body, &marks, false);
        let ghost pruned_bs = body.basic_blocks@;
        proof { lemma_count_true_bound(marks@); }
        merge_goto_blocks(body);
        let ghost merged = body.basic_blocks@;
        simplify_switches(body);
        proof {
            let chain = choose|chain: Seq<Seq<BasicBlockData>>| merge_run(chain, pruned_bs, merged);
            assert(pruned(start.basic_blocks@, pruned_bs, marks@, false));
            assert(merge_run(chain, pruned_bs, merged));
            assert(switches_simplified(merged, body.basic_blocks@));
        }
    }
}

} // verus!
