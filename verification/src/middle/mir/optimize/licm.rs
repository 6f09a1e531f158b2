//! Loop-invariant code motion: finds natural loops from back edges and
//! moves the assignments inside a loop whose value cannot change across
//! iterations into the block that enters the loop.

use vstd::prelude::*;
use std::collections::HashMap;
use crate::middle::mir::{BasicBlock, BasicBlockData, BinOp, MirBody, Operand, Place, Rvalue, Statement};
use crate::middle::mir::optimize::simplify_cfg::{
    count_true, edge, lemma_count_true_bound, lemma_count_true_none, lemma_count_true_set, occurrences, successors,
    terminator_successors,
};

verus! {

/// A natural loop: its header, the blocks that belong to it and the
/// blocks outside it that enter it.
#[derive(Debug)]
pub struct LoopInfo {
    pub header: BasicBlock,
    pub body: Vec<BasicBlock>,
    pub preheaders: Vec<BasicBlock>,
}

impl LoopInfo {
    pub fn new(header: BasicBlock) -> (l: Self)
        ensures
            l.header == header,
            l.body@.len() == 0,
            l.preheaders@.len() == 0,
    {
        LoopInfo { header, body: Vec::new(), preheaders: Vec::new() }
    }

    /// Whether `block` belongs to the loop.
    pub fn contains(&self, block: BasicBlock) -> (b: bool)
        ensures
            b == self.body@.contains(block),
    {
        let mut i: usize = 0;
        while i < self.body.len()
            invariant
                i <= self.body@.len(),
                forall|k: int| 0 <= k < i ==> self.body@[k] != block,
            decreases self.body@.len() - i,
        {
            if self.body[i] == block {
                return true;
            }
            i = i + 1;
        }
        false
    }

    /// Adds `block` to the loop; adding it twice changes nothing.
    pub fn insert(&mut self, block: BasicBlock)
        ensures
            final(self).header == old(self).header,
            final(self).preheaders@ == old(self).preheaders@,
            final(self).body@.to_set() == old(self).body@.to_set().insert(block),
            old(self).body@.contains(block) ==> final(self).body@ == old(self).body@,
    {
        if !self.contains(block) {
            self.body.push(block);
            proof {
                assert(self.body@ == old(self).body@.push(block));
                assert(self.body@.to_set() =~= old(self).body@.to_set().insert(block)) by {
                    assert forall|b: BasicBlock| #[trigger] self.body@.to_set().contains(b)
                        <==> old(self).body@.to_set().insert(block).contains(b) by {
                        if b != block && self.body@.contains(b) {
                            let k = choose|k: int| 0 <= k < self.body@.len() && self.body@[k] == b;
                            assert(old(self).body@[k] == b);
                        }
                        if old(self).body@.contains(b) {
                            let k = choose|k: int| 0 <= k < old(self).body@.len() && old(self).body@[k] == b;
                            assert(self.body@[k] == b);
                        }
                        if b == block {
                            assert(self.body@[self.body@.len() - 1] == b);
                        }
                    }
                }
            }
        } else {
            proof {
                assert(self.body@.to_set() =~= old(self).body@.to_set().insert(block));
            }
        }
    }
}

/// The loop-invariant code motion pass: the loops found and how many
/// statements it hoisted.
#[derive(Debug)]
pub struct LoopInvariantCodeMotion {
    loops: Vec<LoopInfo>,
    hoisted_count: usize,
}

impl LoopInvariantCodeMotion {
    pub closed spec fn hoisted(&self) -> nat {
        self.hoisted_count as nat
    }

    pub fn new() -> (p: Self)
        ensures
            p.hoisted() == 0,
    {
        LoopInvariantCodeMotion { loops: Vec::new(), hoisted_count: 0 }
    }

    pub fn hoisted_count(&self) -> (n: usize)
        ensures
            n == self.hoisted(),
    {
        self.hoisted_count
    }
}

impl Default for LoopInvariantCodeMotion {
    fn default() -> (p: Self)
        ensures
            p.hoisted() == 0,
    {
        LoopInvariantCodeMotion::new()
    }
}

broadcast use vstd::std_specs::hash::group_hash_axioms;

/// Whether an operand stays the same through a loop: a constant, or a read
/// of a local assigned only outside the loop.
pub open spec fn operand_invariant(o: Operand, outside: Set<u32>) -> bool {
    match o {
        Operand::Constant(_) => true,
        Operand::Copy(p) | Operand::Move(p) => outside.contains(p.local.0),
    }
}

/// Whether an rvalue stays the same through a loop: all its operands do,
/// and any place it reads directly is of a local assigned only outside.
pub open spec fn rvalue_invariant(rv: Rvalue, outside: Set<u32>) -> bool {
    match rv {
        Rvalue::Use(o) => operand_invariant(o, outside),
        Rvalue::Copy(p) | Rvalue::Move(p) | Rvalue::Len(p) | Rvalue::Discriminant(p) | Rvalue::Ref(p, _) | Rvalue::AddressOf(p, _) =>
            outside.contains(p.local.0),
        Rvalue::BinaryOp(_, l, r) => operand_invariant(*l, outside) && operand_invariant(*r, outside),
        Rvalue::UnaryOp(_, o) => operand_invariant(*o, outside),
        Rvalue::Cast(_, o, _) => operand_invariant(*o, outside),
        Rvalue::Aggregate(_, ops) => forall|k: int| 0 <= k < ops@.len() ==> operand_invariant(#[trigger] ops@[k], outside),
    }
}

/// Whether moving an rvalue is safe: no division or remainder, and no
/// operand of a binary operation that goes through a projection.
pub open spec fn hoist_safe(rv: Rvalue) -> bool {
    match rv {
        Rvalue::BinaryOp(op, l, r) => {
            &&& op != BinOp::Div && op != BinOp::Rem
            &&& match (*l).place() { Some(p) => p.projection@.len() == 0, None => true }
            &&& match (*r).place() { Some(p) => p.projection@.len() == 0, None => true }
        },
        _ => true,
    }
}

fn operand_invariant_exec(o: &Operand, outside: &HashMap<u32, bool>) -> (b: bool)
    ensures
        b == operand_invariant(*o, outside@.dom()),
{
    match o {
        Operand::Constant(_) => true,
        Operand::Copy(p) | Operand::Move(p) => outside.contains_key(&p.local.0),
    }
}

fn all_operands_invariant(ops: &Vec<Operand>, outside: &HashMap<u32, bool>) -> (b: bool)
    ensures
        b == forall|j: int| 0 <= j < ops@.len() ==> operand_invariant(#[trigger] ops@[j], outside@.dom()),
{
    let mut k: usize = 0;
    while k < ops.len()
        invariant
            0 <= k <= ops@.len(),
            forall|j: int| 0 <= j < k ==> operand_invariant(#[trigger] ops@[j], outside@.dom()),
        decreases ops.len() - k,
    {
        if !operand_invariant_exec(&ops[k], outside) {
            assert(!operand_invariant(ops@[k as int], outside@.dom()));
            return false;
        }
        k += 1;
    }
    true
}

impl LoopInvariantCodeMotion {
    /// Whether an operand stays the same through the loop (see
    /// `operand_invariant`); `outside` holds the locals assigned outside it.
    pub fn is_operand_invariant(&self, operand: &Operand, _loop_info: &LoopInfo, outside: &HashMap<u32, bool>) -> (b: bool)
        ensures
            b == operand_invariant(*operand, outside@.dom()),
    {
        operand_invariant_exec(operand, outside)
    }

    /// Whether an rvalue stays the same through the loop (see
    /// `rvalue_invariant`).
    pub fn is_loop_invariant(&self, rvalue: &Rvalue, loop_info: &LoopInfo, outside: &HashMap<u32, bool>) -> (b: bool)
        ensures
            b == rvalue_invariant(*rvalue, outside@.dom()),
    {
        match rvalue {
            Rvalue::Use(o) => self.is_operand_invariant(o, loop_info, outside),
            Rvalue::Copy(p) | Rvalue::Move(p) | Rvalue::Len(p) | Rvalue::Discriminant(p) | Rvalue::Ref(p, _) | Rvalue::AddressOf(p, _) =>
                outside.contains_key(&p.local.0),
            Rvalue::BinaryOp(_, l, r) => self.is_operand_invariant(l, loop_info, outside) && self.is_operand_invariant(r, loop_info, outside),
            Rvalue::UnaryOp(_, o) => self.is_operand_invariant(o, loop_info, outside),
            Rvalue::Cast(_, o, _) => self.is_operand_invariant(o, loop_info, outside),
            Rvalue::Aggregate(_, ops) => all_operands_invariant(ops, outside),
        }
    }

    /// Whether moving the assignment of `rvalue` is safe (see `hoist_safe`).
    pub fn can_hoist_safely(&self, _place: &Place, rvalue: &Rvalue, _loop_info: &LoopInfo, _body: &MirBody) -> (b: bool)
        ensures
            b == hoist_safe(*rvalue),
    {
        if let Rvalue::BinaryOp(op, l, r) = rvalue {
            if *op == BinOp::Div || *op == BinOp::Rem {
                return false;
            }
            let mut has_side_effects = false;
            if let Operand::Copy(p) | Operand::Move(p) = &**l {
                if p.projection.len() != 0 {
                    has_side_effects = true;
                }
            }
            if let Operand::Copy(p) | Operand::Move(p) = &**r {
                if p.projection.len() != 0 {
                    has_side_effects = true;
                }
            }
            !has_side_effects
        } else {
            true
        }
    }
}

/// Whether block `h` heads a loop: a block at or after it jumps back to
/// it (assertion targets count as jumps).
pub open spec fn is_header(bs: Seq<BasicBlockData>, h: int) -> bool {
    exists|a: int| h <= a && #[trigger] edge(bs, a, h, true)
}

/// A set that holds the header `h`, every block that jumps back to it, and,
/// for each member other than the header that has a terminator, every
/// block other than the header that jumps to it.
pub open spec fn loop_closed(bs: Seq<BasicBlockData>, h: int, s: Set<int>) -> bool {
    &&& s.contains(h)
    &&& forall|a: int| h <= a && #[trigger] edge(bs, a, h, true) ==> s.contains(a)
    &&& forall|x: int, p: int| s.contains(x) && x != h && 0 <= x < bs.len() && bs[x].terminator is Some
        && #[trigger] edge(bs, p, x, true) && p != h ==> s.contains(p)
}

/// Whether block `x` belongs to the loop headed by `h`: it is in every such
/// set.
pub open spec fn in_loop(bs: Seq<BasicBlockData>, h: int, x: int) -> bool {
    forall|s: Set<int>| #[trigger] loop_closed(bs, h, s) ==> s.contains(x)
}

/// The blocks of the loop below `k`, in order.
pub open spec fn loop_blocks(bs: Seq<BasicBlockData>, h: int, k: int) -> Seq<BasicBlock>
    decreases k,
{
    if k <= 0 {
        Seq::empty()
    } else if in_loop(bs, h, k - 1) {
        loop_blocks(bs, h, k - 1).push(BasicBlock((k - 1) as u32))
    } else {
        loop_blocks(bs, h, k - 1)
    }
}

/// The blocks below `k` outside the loop that jump to its header, in
/// order, each once per jump.
pub open spec fn entries(bs: Seq<BasicBlockData>, h: int, k: int) -> Seq<BasicBlock>
    decreases k,
{
    if k <= 0 {
        Seq::empty()
    } else if !in_loop(bs, h, k - 1) {
        entries(bs, h, k - 1) + Seq::new(occurrences(successors(bs[k - 1].terminator, true), BasicBlock(h as u32)),
            |_i: int| BasicBlock((k - 1) as u32))
    } else {
        entries(bs, h, k - 1)
    }
}

/// The loop headed by `h` as found: its blocks in order and its entries.
pub open spec fn loop_of(bs: Seq<BasicBlockData>, h: int, l: LoopInfo) -> bool {
    &&& l.header == BasicBlock(h as u32)
    &&& l.body@ == loop_blocks(bs, h, bs.len() as int)
    &&& l.preheaders@ == entries(bs, h, bs.len() as int)
}

/// The loop headers below `k`, in order.
pub open spec fn headers(bs: Seq<BasicBlockData>, k: int) -> Seq<int>
    decreases k,
{
    if k <= 0 {
        Seq::empty()
    } else if is_header(bs, k - 1) {
        headers(bs, k - 1).push(k - 1)
    } else {
        headers(bs, k - 1)
    }
}

/// The loops of a body, one per header, in order of their headers.
pub open spec fn loops_of(bs: Seq<BasicBlockData>, loops: Seq<LoopInfo>) -> bool {
    &&& loops.len() == headers(bs, bs.len() as int).len()
    &&& forall|j: int| 0 <= j < loops.len() ==> loop_of(bs, headers(bs, bs.len() as int)[j], #[trigger] loops[j])
}

proof fn lemma_push_contains(s: Seq<usize>, x: usize)
    ensures
        forall|y: usize| #[trigger] s.push(x).contains(y) <==> s.contains(y) || y == x,
{
    assert forall|y: usize| #[trigger] s.push(x).contains(y) <==> s.contains(y) || y == x by {
        if s.contains(y) {
            let i = choose|i: int| 0 <= i < s.len() && s[i] == y;
            assert(s.push(x)[i] == y);
        }
        if y == x {
            assert(s.push(x)[s.len() as int] == y);
        }
        if s.push(x).contains(y) && y != x {
            let i = choose|i: int| 0 <= i < s.len() + 1 && s.push(x)[i] == y;
            assert(s[i] == y);
        }
    }
}

fn has_edge(bs: &Vec<BasicBlockData>, a: usize, x: usize) -> (r: bool)
    requires
        a < bs@.len(),
    ensures
        r == edge(bs@, a as int, x as int, true),
{
    let succ = terminator_successors(&bs[a].terminator, true);
    let mut k: usize = 0;
    while k < succ.len()
        invariant
            a < bs@.len(),
            0 <= k <= succ@.len(),
            succ@ == successors(bs@[a as int].terminator, true),
            forall|j: int| 0 <= j < k ==> succ@[j].0 as int != x as int,
        decreases succ.len() - k,
    {
        if succ[k].0 as usize == x {
            assert(succ@[k as int].0 as int == x as int);
            return true;
        }
        k += 1;
    }
    false
}

fn count_edges(bs: &Vec<BasicBlockData>, a: usize, x: usize) -> (c: usize)
    requires
        a < bs@.len(),
        x <= u32::MAX,
    ensures
        c == occurrences(successors(bs@[a as int].terminator, true), BasicBlock(x as u32)),
{
    let succ = terminator_successors(&bs[a].terminator, true);
    let mut c: usize = 0;
    let mut k: usize = 0;
    while k < succ.len()
        invariant
            0 <= k <= succ@.len(),
            x <= u32::MAX,
            succ@ == successors(bs@[a as int].terminator, true),
            c == occurrences(succ@.take(k as int), BasicBlock(x as u32)),
            c <= k,
        decreases succ.len() - k,
    {
        assert(succ@.take(k + 1).drop_last() =~= succ@.take(k as int));
        if succ[k].0 as usize == x {
            c += 1;
        }
        k += 1;
    }
    assert(succ@.take(succ@.len() as int) =~= succ@);
    c
}

/// Marks the blocks of the loop headed by `h`.
fn loop_marks(bs: &Vec<BasicBlockData>, h: usize) -> (marks: Vec<bool>)
    requires
        h < bs@.len(),
    ensures
        marks@.len() == bs@.len(),
        forall|x: int| 0 <= x < bs@.len() ==> (#[trigger] marks@[x] <==> in_loop(bs@, h as int, x)),
{
    let n = bs.len();
    let mut marks: Vec<bool> = Vec::new();
    let mut k: usize = 0;
    while k < n
        invariant
            0 <= k <= n,
            marks@.len() == k,
            forall|j: int| 0 <= j < k ==> !#[trigger] marks@[j],
        decreases n - k,
    {
        marks.push(false);
        k += 1;
    }
    proof {
        lemma_count_true_none(marks@);
        lemma_count_true_set(marks@, h as int);
    }
    marks.set(h, true);
    let mut marked: usize = 1;
    let mut stack: Vec<usize> = Vec::new();
    let mut a: usize = h;
    while a < n
        invariant
            n == bs@.len(),
            h < n,
            h <= a <= n,
            marks@.len() == n,
            marked == count_true(marks@),
            marked <= n,
            marks@[h as int],
            forall|x: int| 0 <= x < n && #[trigger] marks@[x] ==> x == h,
            forall|w: int| 0 <= w < stack@.len() ==> (#[trigger] stack@[w]) < n && in_loop(bs@, h as int, stack@[w] as int),
            forall|b: int| h <= b < a && #[trigger] edge(bs@, b, h as int, true) ==> stack@.contains(b as usize),
        decreases n - a,
    {
        let ghost prev = stack@;
        if has_edge(bs, a, h) {
            proof {
                assert forall|s: Set<int>| #[trigger] loop_closed(bs@, h as int, s) implies s.contains(a as int) by {}
                lemma_push_contains(prev, a);
            }
            stack.push(a);
        }
        proof {
            assert forall|b: int| h <= b < a + 1 && #[trigger] edge(bs@, b, h as int, true) implies stack@.contains(b as usize) by {
                if b < a as int {
                    assert(prev.contains(b as usize));
                }
            }
        }
        a += 1;
    }
    proof { lemma_count_true_bound(marks@); }
    while stack.len() > 0
        invariant
            n == bs@.len(),
            h < n,
            marks@.len() == n,
            marked == count_true(marks@),
            marked <= n,
            marks@[h as int],
            forall|x: int| 0 <= x < n && #[trigger] marks@[x] ==> in_loop(bs@, h as int, x),
            forall|w: int| 0 <= w < stack@.len() ==> (#[trigger] stack@[w]) < n && in_loop(bs@, h as int, stack@[w] as int),
            forall|b: int| h <= b < n && #[trigger] edge(bs@, b, h as int, true) ==> marks@[b] || stack@.contains(b as usize),
            forall|x: int, p: int| 0 <= x < n && #[trigger] marks@[x] && x != h && bs@[x].terminator is Some
                && #[trigger] edge(bs@, p, x, true) && p != h ==> marks@[p] || stack@.contains(p as usize),
        decreases n - marked, stack.len(),
    {
        let ghost before = stack@;
        let x = stack.pop().unwrap();
        proof {
            assert(before == stack@.push(x));
        }
        if marks[x] {
            proof {
                assert forall|b: int| h <= b < n && #[trigger] edge(bs@, b, h as int, true) implies marks@[b] || stack@.contains(b as usize) by {
                    if !marks@[b] {
                        let i = choose|i: int| 0 <= i < before.len() && before[i] == b as usize;
                        if i < stack@.len() {
                            assert(stack@[i] == b as usize);
                        }
                    }
                }
                assert forall|y: int, p: int| 0 <= y < n && #[trigger] marks@[y] && y != h && bs@[y].terminator is Some
                    && #[trigger] edge(bs@, p, y, true) && p != h implies marks@[p] || stack@.contains(p as usize) by {
                    if !marks@[p] {
                        let i = choose|i: int| 0 <= i < before.len() && before[i] == p as usize;
                        if i < stack@.len() {
                            assert(stack@[i] == p as usize);
                        }
                    }
                }
            }
            continue;
        }
        proof {
            lemma_count_true_set(marks@, x as int);
            lemma_count_true_bound(marks@.update(x as int, true));
        }
        let ghost marks_before = marks@;
        marks.set(x, true);
        marked += 1;
        let ghost stack_base = stack@;
        if bs[x].terminator.is_some() {
            let mut q: usize = 0;
            while q < n
                invariant
                    n == bs@.len(),
                    h < n,
                    x < n,
                    x != h,
                    bs@[x as int].terminator is Some,
                    in_loop(bs@, h as int, x as int),
                    0 <= q <= n,
                    marks@.len() == n,
                    marked == count_true(marks@),
                    marked <= n,
                    forall|w: int| 0 <= w < stack@.len() ==> (#[trigger] stack@[w]) < n && in_loop(bs@, h as int, stack@[w] as int),
                    forall|w: int| 0 <= w < stack_base.len() ==> stack@[w] == stack_base[w],
                    stack_base.len() <= stack@.len(),
                    forall|p: int| 0 <= p < q && #[trigger] edge(bs@, p, x as int, true) && p != h ==> stack@.contains(p as usize),
                decreases n - q,
            {
                let ghost prev = stack@;
                if q != h && has_edge(bs, q, x) {
                    proof {
                        assert forall|s: Set<int>| #[trigger] loop_closed(bs@, h as int, s) implies s.contains(q as int) by {
                            assert(s.contains(x as int));
                        }
                        lemma_push_contains(prev, q);
                    }
                    stack.push(q);
                }
                proof {
                    assert forall|p: int| 0 <= p < q + 1 && #[trigger] edge(bs@, p, x as int, true) && p != h implies stack@.contains(p as usize) by {
                        if p < q as int {
                            assert(prev.contains(p as usize));
                        }
                    }
                }
                q += 1;
            }
        }
        proof {
            assert forall|b: int| h <= b < n && #[trigger] edge(bs@, b, h as int, true) implies marks@[b] || stack@.contains(b as usize) by {
                if !marks@[b] {
                    assert(!marks_before[b]);
                    let i = choose|i: int| 0 <= i < before.len() && before[i] == b as usize;
                    if i < stack_base.len() {
                        assert(stack@[i] == b as usize);
                    } else {
                        assert(b as usize == x);
                    }
                }
            }
            assert forall|y: int, p: int| 0 <= y < n && #[trigger] marks@[y] && y != h && bs@[y].terminator is Some
                && #[trigger] edge(bs@, p, y, true) && p != h implies marks@[p] || stack@.contains(p as usize) by {
                if !marks@[p] {
                    if y == x as int {
                    } else {
                        assert(marks_before[y]);
                        assert(!marks_before[p]);
                        let i = choose|i: int| 0 <= i < before.len() && before[i] == p as usize;
                        if i < stack_base.len() {
                            assert(stack@[i] == p as usize);
                        } else {
                            assert(p as usize == x);
                        }
                    }
                }
            }
            assert forall|z: int| 0 <= z < n && #[trigger] marks@[z] implies in_loop(bs@, h as int, z) by {
                if z != x as int {
                    assert(marks_before[z]);
                }
            }
        }
    }
    proof {
        let m = Set::new(|z: int| 0 <= z < n && marks@[z]);
        assert(loop_closed(bs@, h as int, m)) by {
            assert forall|b: int| h <= b && #[trigger] edge(bs@, b, h as int, true) implies m.contains(b) by {
                assert(stack@.len() == 0);
                if !marks@[b] {
                    assert(!stack@.contains(b as usize));
                }
            }
            assert forall|y: int, p: int| m.contains(y) && y != h && 0 <= y < bs@.len() && bs@[y].terminator is Some
                && #[trigger] edge(bs@, p, y, true) && p != h implies m.contains(p) by {
                assert(marks@[y]);
                if !marks@[p] {
                    assert(!stack@.contains(p as usize));
                }
            }
        }
        assert forall|z: int| 0 <= z < bs@.len() implies (#[trigger] marks@[z] <==> in_loop(bs@, h as int, z)) by {
            if in_loop(bs@, h as int, z) {
                assert(m.contains(z));
            }
        }
    }
    marks
}

fn header_check(bs: &Vec<BasicBlockData>, h: usize) -> (r: bool)
    requires
        h < bs@.len(),
    ensures
        r == is_header(bs@, h as int),
{
    let mut a: usize = h;
    while a < bs.len()
        invariant
            h <= a <= bs@.len(),
            forall|b: int| h <= b < a ==> !#[trigger] edge(bs@, b, h as int, true),
        decreases bs.len() - a,
    {
        if has_edge(bs, a, h) {
            return true;
        }
        a += 1;
    }
    proof {
        assert forall|b: int| h <= b implies !#[trigger] edge(bs@, b, h as int, true) by {
            if b >= bs@.len() {
            }
        }
    }
    false
}

fn build_loop(bs: &Vec<BasicBlockData>, h: usize) -> (l: LoopInfo)
    requires
        h < bs@.len(),
        bs@.len() <= u32::MAX,
    ensures
        loop_of(bs@, h as int, l),
{
    let n = bs.len();
    let marks = loop_marks(bs, h);
    let mut body: Vec<BasicBlock> = Vec::new();
    let mut x: usize = 0;
    while x < n
        invariant
            n == bs@.len(),
            n <= u32::MAX,
            marks@.len() == n,
            forall|z: int| 0 <= z < n ==> (#[trigger] marks@[z] <==> in_loop(bs@, h as int, z)),
            0 <= x <= n,
            body@ == loop_blocks(bs@, h as int, x as int),
        decreases n - x,
    {
        if marks[x] {
            body.push(BasicBlock(x as u32));
        }
        x += 1;
    }
    let mut pre: Vec<BasicBlock> = Vec::new();
    let mut idx: usize = 0;
    while idx < n
        invariant
            n == bs@.len(),
            n <= u32::MAX,
            h < n,
            marks@.len() == n,
            forall|z: int| 0 <= z < n ==> (#[trigger] marks@[z] <==> in_loop(bs@, h as int, z)),
            0 <= idx <= n,
            pre@ == entries(bs@, h as int, idx as int),
        decreases n - idx,
    {
        if !marks[idx] {
            let c = count_edges(bs, idx, h);
            let ghost base = pre@;
            let mut j: usize = 0;
            while j < c
                invariant
                    idx < n,
                    n <= u32::MAX,
                    0 <= j <= c,
                    pre@ == base + Seq::new(j as nat, |_i: int| BasicBlock(idx as u32)),
                decreases c - j,
            {
                pre.push(BasicBlock(idx as u32));
                assert(base + Seq::new((j + 1) as nat, |_i: int| BasicBlock(idx as u32))
                    =~= (base + Seq::new(j as nat, |_i: int| BasicBlock(idx as u32))).push(BasicBlock(idx as u32)));
                j += 1;
            }
            assert(pre@ =~= entries(bs@, h as int, idx + 1));
        }
        idx += 1;
    }
    LoopInfo { header: BasicBlock(h as u32), body, preheaders: pre }
}

impl LoopInvariantCodeMotion {
    /// The loops last found.
    pub closed spec fn found_loops(&self) -> Seq<LoopInfo> {
        self.loops@
    }

    /// Finds the loops of a body, one per header, in order of their headers
    /// (see `loops_of`).
    pub fn find_loops(&mut self, body: &MirBody)
        requires
            body.basic_blocks@.len() <= u32::MAX,
        ensures
            loops_of(body.basic_blocks@, final(self).found_loops()),
            final(self).hoisted() == old(self).hoisted(),
    {
        let bs = &body.basic_blocks;
        let n = bs.len();
        self.loops = Vec::new();
        let mut h: usize = 0;
        while h < n
            invariant
                n == bs@.len(),
                n <= u32::MAX,
                0 <= h <= n,
                self.hoisted() == old(self).hoisted(),
                self.loops@.len() == headers(bs@, h as int).len(),
                forall|j: int| 0 <= j < self.loops@.len() ==> loop_of(bs@, headers(bs@, h as int)[j], #[trigger] self.loops@[j]),
            decreases n - h,
        {
            let ghost before = self.loops@;
            if header_check(bs, h) {
                let l = build_loop(bs, h);
                self.loops.push(l);
                proof {
                    assert forall|j: int| 0 <= j < self.loops@.len() implies loop_of(bs@, headers(bs@, h + 1)[j], #[trigger] self.loops@[j]) by {
                        if j < before.len() {
                            assert(self.loops@[j] == before[j]);
                        }
                    }
                }
            }
            h += 1;
        }
    }
}

/// A loop description that fits a body of `n` blocks: its blocks are
/// distinct blocks of the body, and its entries are blocks of the body
/// outside it.
pub open spec fn loop_wf(l: LoopInfo, n: int) -> bool {
    &&& forall|j: int| 0 <= j < l.body@.len() ==> ((#[trigger] l.body@[j]).0 as int) < n
    &&& forall|i: int, j: int| 0 <= i < j < l.body@.len() ==> (#[trigger] l.body@[i]) != (#[trigger] l.body@[j])
    &&& forall|j: int| 0 <= j < l.preheaders@.len() ==> ((#[trigger] l.preheaders@[j]).0 as int) < n && !l.body@.contains(l.preheaders@[j])
}

proof fn lemma_loop_blocks(bs: Seq<BasicBlockData>, h: int, k: int)
    requires
        0 <= k <= u32::MAX,
    ensures
        forall|j: int| 0 <= j < loop_blocks(bs, h, k).len() ==> {
            &&& ((#[trigger] loop_blocks(bs, h, k)[j]).0 as int) < k
            &&& in_loop(bs, h, loop_blocks(bs, h, k)[j].0 as int)
        },
        forall|i: int, j: int| 0 <= i < j < loop_blocks(bs, h, k).len() ==>
            (#[trigger] loop_blocks(bs, h, k)[i]).0 < (#[trigger] loop_blocks(bs, h, k)[j]).0,
    decreases k,
{
    if k > 0 {
        lemma_loop_blocks(bs, h, k - 1);
        let prev = loop_blocks(bs, h, k - 1);
        let cur = loop_blocks(bs, h, k);
        if in_loop(bs, h, k - 1) {
            assert(cur == prev.push(BasicBlock((k - 1) as u32)));
            assert(BasicBlock((k - 1) as u32).0 as int == k - 1);
            assert forall|j: int| 0 <= j < cur.len() implies ((#[trigger] cur[j]).0 as int) < k && in_loop(bs, h, cur[j].0 as int) by {
                if j < prev.len() {
                    assert(cur[j] == prev[j]);
                }
            }
            assert forall|i: int, j: int| 0 <= i < j < cur.len() implies (#[trigger] cur[i]).0 < (#[trigger] cur[j]).0 by {
                assert(cur[i] == prev[i]);
                if j < prev.len() {
                    assert(cur[j] == prev[j]);
                }
            }
        } else {
            assert(cur == prev);
        }
    }
}

proof fn lemma_entries(bs: Seq<BasicBlockData>, h: int, k: int)
    requires
        0 <= k <= u32::MAX,
        k <= bs.len(),
    ensures
        forall|j: int| 0 <= j < entries(bs, h, k).len() ==> {
            &&& ((#[trigger] entries(bs, h, k)[j]).0 as int) < k
            &&& !in_loop(bs, h, entries(bs, h, k)[j].0 as int)
        },
    decreases k,
{
    if k > 0 {
        lemma_entries(bs, h, k - 1);
        let e = entries(bs, h, k - 1);
        let cur = entries(bs, h, k);
        if !in_loop(bs, h, k - 1) {
            let extra = Seq::new(occurrences(successors(bs[k - 1].terminator, true), BasicBlock(h as u32)), |_i: int| BasicBlock((k - 1) as u32));
            assert(cur == e + extra);
            assert forall|j: int| 0 <= j < cur.len() implies ((#[trigger] cur[j]).0 as int) < k
                && !in_loop(bs, h, cur[j].0 as int) by {
                if j >= e.len() {
                    assert(cur[j] == extra[j - e.len()]);
                    assert(extra[j - e.len()] == BasicBlock((k - 1) as u32));
                } else {
                    assert(cur[j] == e[j]);
                }
            }
        } else {
            assert(cur == e);
        }
    }
}

/// A loop as found fits its body.
pub proof fn lemma_found_loop_wf(bs: Seq<BasicBlockData>, h: int, l: LoopInfo)
    requires
        loop_of(bs, h, l),
        bs.len() <= u32::MAX,
    ensures
        loop_wf(l, bs.len() as int),
{
    lemma_loop_blocks(bs, h, bs.len() as int);
    lemma_entries(bs, h, bs.len() as int);
    assert forall|j: int| 0 <= j < l.preheaders@.len() implies ((#[trigger] l.preheaders@[j]).0 as int) < bs.len()
        && !l.body@.contains(l.preheaders@[j]) by {
        if l.body@.contains(l.preheaders@[j]) {
            let i = choose|i: int| 0 <= i < l.body@.len() && l.body@[i] == l.preheaders@[j];
            assert(in_loop(bs, h, l.body@[i].0 as int));
        }
    }
}

/// The locals assigned in blocks outside the loop.
pub open spec fn outside_defs(bs: Seq<BasicBlockData>, lp: Seq<BasicBlock>) -> Set<u32> {
    Set::new(|l: u32| exists|b: int, i: int| 0 <= b < bs.len() && !lp.contains(BasicBlock(b as u32))
        && 0 <= i < bs[b].statements@.len()
        && match #[trigger] bs[b].statements@[i] {
            Statement::Assign(p, _) => p.local.0 == l,
            _ => false,
        })
}

/// An assignment to a bare local of an invariant rvalue that is safe to
/// move.
pub open spec fn hoistable(s: Statement, outside: Set<u32>) -> bool {
    match s {
        Statement::Assign(p, rv) => p.projection@.len() == 0 && rvalue_invariant(rv, outside) && hoist_safe(rv),
        _ => false,
    }
}

/// The statements that stay in a loop block.
pub open spec fn staying(ss: Seq<Statement>, outside: Set<u32>) -> Seq<Statement>
    decreases ss.len(),
{
    if ss.len() == 0 {
        Seq::empty()
    } else if hoistable(ss.last(), outside) {
        staying(ss.drop_last(), outside)
    } else {
        staying(ss.drop_last(), outside).push(ss.last())
    }
}

/// The statements that leave a loop block.
pub open spec fn leaving(ss: Seq<Statement>, outside: Set<u32>) -> Seq<Statement>
    decreases ss.len(),
{
    if ss.len() == 0 {
        Seq::empty()
    } else if hoistable(ss.last(), outside) {
        leaving(ss.drop_last(), outside).push(ss.last())
    } else {
        leaving(ss.drop_last(), outside)
    }
}

/// The statements leaving the first `k` loop blocks, block by block.
pub open spec fn gathered(bs: Seq<BasicBlockData>, lp: Seq<BasicBlock>, outside: Set<u32>, k: int) -> Seq<Statement>
    decreases k,
{
    if k <= 0 { Seq::empty() } else { gathered(bs, lp, outside, k - 1) + leaving(bs[lp[k - 1].0 as int].statements@, outside) }
}

/// Statements inserted one by one, each before the current last statement.
pub open spec fn placed(pre: Seq<Statement>, hs: Seq<Statement>) -> Seq<Statement>
    decreases hs.len(),
{
    if hs.len() == 0 {
        pre
    } else {
        let q = placed(pre, hs.drop_last());
        q.insert(if q.len() > 0 { q.len() - 1 } else { 0 }, hs.last())
    }
}

/// One loop's hoisting: when the loop has an entry, the statements that
/// can move leave the loop's blocks and go, in the order of the loop's
/// blocks, into the first entry, each before its then last statement.
pub open spec fn hoist_step(old: Seq<BasicBlockData>, new: Seq<BasicBlockData>, l: LoopInfo) -> bool {
    let outside = outside_defs(old, l.body@);
    if l.preheaders@.len() == 0 {
        new == old
    } else {
        let pre = l.preheaders@[0].0 as int;
        let hs = gathered(old, l.body@, outside, l.body@.len() as int);
        &&& new.len() == old.len()
        &&& forall|b: int| 0 <= b < old.len() ==> {
            &&& (#[trigger] new[b]).terminator == old[b].terminator
            &&& new[b].is_cleanup == old[b].is_cleanup
            &&& new[b].statements@ == if l.body@.contains(BasicBlock(b as u32)) {
                staying(old[b].statements@, outside)
            } else if b == pre {
                placed(old[b].statements@, hs)
            } else {
                old[b].statements@
            }
        }
    }
}

/// A run of hoisting steps, one per loop in order.
pub open spec fn hoisted_run(chain: Seq<Seq<BasicBlockData>>, loops: Seq<LoopInfo>) -> bool {
    &&& chain.len() == loops.len() + 1
    &&& forall|k: int| 0 <= k < loops.len() ==> hoist_step(chain[k], chain[k + 1], #[trigger] loops[k])
}

fn hoistable_exec(s: &Statement, outside: &HashMap<u32, bool>) -> (r: bool)
    ensures
        r == hoistable(*s, outside@.dom()),
{
    match s {
        Statement::Assign(p, rv) => {
            let lic = LoopInvariantCodeMotion::new();
            let li = LoopInfo::new(BasicBlock(0));
            let empty = MirBody::new(0, 0..0);
            p.projection.len() == 0 && lic.is_loop_invariant(rv, &li, outside) && lic.can_hoist_safely(p, rv, &li, &empty)
        },
        _ => false,
    }
}

fn outside_table(bs: &Vec<BasicBlockData>, l: &LoopInfo) -> (m: HashMap<u32, bool>)
    requires
        bs@.len() <= u32::MAX,
    ensures
        m@.dom() == outside_defs(bs@, l.body@),
{
    let mut m: HashMap<u32, bool> = HashMap::new();
    let mut b: usize = 0;
    while b < bs.len()
        invariant
            bs@.len() <= u32::MAX,
            0 <= b <= bs@.len(),
            m@.dom() == Set::new(|x: u32| exists|q: int, i: int| 0 <= q < b && !l.body@.contains(BasicBlock(q as u32))
                && 0 <= i < bs@[q].statements@.len()
                && match #[trigger] bs@[q].statements@[i] {
                    Statement::Assign(p, _) => p.local.0 == x,
                    _ => false,
                }),
        decreases bs.len() - b,
    {
        let ghost prev = m@.dom();
        if !l.contains(BasicBlock(b as u32)) {
            let ss = &bs[b].statements;
            let mut i: usize = 0;
            while i < ss.len()
                invariant
                    b < bs@.len(),
                    ss@ == bs@[b as int].statements@,
                    0 <= i <= ss@.len(),
                    m@.dom() == prev + Set::new(|x: u32| exists|k: int| 0 <= k < i && match #[trigger] ss@[k] {
                        Statement::Assign(p, _) => p.local.0 == x,
                        _ => false,
                    }),
                decreases ss.len() - i,
            {
                let ghost before = m@.dom();
                if let Statement::Assign(p, _) = &ss[i] {
                    m.insert(p.local.0, true);
                }
                proof {
                    assert(m@.dom() =~= prev + Set::new(|x: u32| exists|k: int| 0 <= k < i + 1 && match #[trigger] ss@[k] {
                        Statement::Assign(p, _) => p.local.0 == x,
                        _ => false,
                    })) by {
                        assert forall|x: u32| #[trigger] m@.dom().contains(x) && !before.contains(x) implies
                            (match ss@[i as int] { Statement::Assign(p, _) => p.local.0 == x, _ => false }) by {}
                    }
                }
                i += 1;
            }
        }
        proof {
            assert(m@.dom() =~= Set::new(|x: u32| exists|q: int, i: int| 0 <= q < b + 1 && !l.body@.contains(BasicBlock(q as u32))
                && 0 <= i < bs@[q].statements@.len()
                && match #[trigger] bs@[q].statements@[i] {
                    Statement::Assign(p, _) => p.local.0 == x,
                    _ => false,
                })) by {
                assert forall|x: u32| #[trigger] m@.dom().contains(x) implies Set::new(|x: u32| exists|q: int, i: int| 0 <= q < b + 1
                    && !l.body@.contains(BasicBlock(q as u32)) && 0 <= i < bs@[q].statements@.len()
                    && match #[trigger] bs@[q].statements@[i] {
                        Statement::Assign(p, _) => p.local.0 == x,
                        _ => false,
                    }).contains(x) by {
                    if !prev.contains(x) {
                        let k = choose|k: int| 0 <= k < bs@[b as int].statements@.len() && match #[trigger] bs@[b as int].statements@[k] {
                            Statement::Assign(p, _) => p.local.0 == x,
                            _ => false,
                        };
                    }
                }
                assert forall|x: u32| Set::new(|x: u32| exists|q: int, i: int| 0 <= q < b + 1
                    && !l.body@.contains(BasicBlock(q as u32)) && 0 <= i < bs@[q].statements@.len()
                    && match #[trigger] bs@[q].statements@[i] {
                        Statement::Assign(p, _) => p.local.0 == x,
                        _ => false,
                    }).contains(x) implies #[trigger] m@.dom().contains(x) by {
                    let (q, k) = choose|q: int, k: int| 0 <= q < b + 1 && !l.body@.contains(BasicBlock(q as u32))
                        && 0 <= k < bs@[q].statements@.len() && match #[trigger] bs@[q].statements@[k] {
                            Statement::Assign(p, _) => p.local.0 == x,
                            _ => false,
                        };
                    if q == b as int {
                        assert(bs@[b as int].statements@[k] == bs@[q].statements@[k]);
                    }
                }
            }
        }
        b += 1;
    }
    proof { assert(m@.dom() =~= outside_defs(bs@, l.body@)); }
    m
}

fn split_statements(stmts: Vec<Statement>, outside: &HashMap<u32, bool>, out: &mut Vec<Statement>) -> (kept: Vec<Statement>)
    ensures
        kept@ == staying(stmts@, outside@.dom()),
        final(out)@ == old(out)@ + leaving(stmts@, outside@.dom()),
{
    let mut src = stmts;
    let ghost start = src@;
    let n = src.len();
    let mut kept: Vec<Statement> = Vec::new();
    let ghost out0 = out@;
    let mut i: usize = 0;
    proof { assert(start.take(0) =~= Seq::<Statement>::empty()); assert(out@ =~= out0 + leaving(start.take(0), outside@.dom())); }
    while i < n
        invariant
            n == start.len(),
            0 <= i <= n,
            src@.len() == n,
            forall|j: int| i <= j < n ==> #[trigger] src@[j] == start[j],
            kept@ == staying(start.take(i as int), outside@.dom()),
            out@ == out0 + leaving(start.take(i as int), outside@.dom()),
        decreases n - i,
    {
        let mut st = Statement::Nop;
        std::mem::swap(&mut src[i], &mut st);
        proof { assert(start.take(i + 1).drop_last() =~= start.take(i as int)); }
        if hoistable_exec(&st, outside) {
            out.push(st);
            proof { assert(out@ =~= out0 + leaving(start.take(i + 1), outside@.dom())); }
        } else {
            kept.push(st);
        }
        i += 1;
    }
    proof { assert(start.take(n as int) =~= start); }
    kept
}

fn place_all(pre: &mut Vec<Statement>, hs: Vec<Statement>)
    ensures
        final(pre)@ == placed(old(pre)@, hs@),
{
    let mut hs = hs;
    let ghost all = hs@;
    let n = hs.len();
    let mut rev: Vec<Statement> = Vec::new();
    while hs.len() > 0
        invariant
            hs@.len() + rev@.len() == n,
            n == all.len(),
            forall|j: int| 0 <= j < hs@.len() ==> #[trigger] hs@[j] == all[j],
            forall|j: int| 0 <= j < rev@.len() ==> #[trigger] rev@[j] == all[n - 1 - j],
        decreases hs.len(),
    {
        let x = hs.pop().unwrap();
        rev.push(x);
    }
    let mut k: usize = 0;
    let ghost p0 = pre@;
    proof { assert(all.take(0) =~= Seq::<Statement>::empty()); }
    while rev.len() > 0
        invariant
            rev@.len() + k == n,
            n == all.len(),
            forall|j: int| 0 <= j < rev@.len() ==> #[trigger] rev@[j] == all[n - 1 - j],
            pre@ == placed(p0, all.take(k as int)),
        decreases rev.len(),
    {
        let x = rev.pop().unwrap();
        let pos = if pre.len() > 0 { pre.len() - 1 } else { 0 };
        pre.insert(pos, x);
        proof {
            assert(all.take(k + 1).drop_last() =~= all.take(k as int));
            assert(all.take(k + 1).last() == all[k as int]);
        }
        k += 1;
    }
    proof { assert(all.take(n as int) =~= all); }
}

proof fn lemma_gathered_step(bs: Seq<BasicBlockData>, cur: Seq<BasicBlockData>, lp: Seq<BasicBlock>, outside: Set<u32>, k: int)
    requires
        0 <= k < lp.len(),
        (lp[k].0 as int) < bs.len(),
        cur[lp[k].0 as int].statements@ == bs[lp[k].0 as int].statements@,
    ensures
        gathered(bs, lp, outside, k + 1) == gathered(bs, lp, outside, k) + leaving(cur[lp[k].0 as int].statements@, outside),
{
}

impl LoopInvariantCodeMotion {
    /// Hoists the invariant assignments of one loop (see `hoist_step`).
    pub fn hoist_loop(&mut self, blocks: &mut Vec<BasicBlockData>, l: &LoopInfo)
        requires
            loop_wf(*l, old(blocks)@.len() as int),
            old(blocks)@.len() <= u32::MAX,
        ensures
            hoist_step(old(blocks)@, final(blocks)@, *l),
            final(self).found_loops() == old(self).found_loops(),
    {
        let ghost start = blocks@;
        let outside = outside_table(blocks, l);
        if l.preheaders.len() == 0 {
            return;
        }
        let pre = l.preheaders[0].0 as usize;
        let ghost out_set = outside@.dom();
        let mut hs: Vec<Statement> = Vec::new();
        let mut j: usize = 0;
        while j < l.body.len()
            invariant
                loop_wf(*l, start.len() as int),
                start.len() <= u32::MAX,
                l.preheaders@.len() > 0,
                pre == l.preheaders@[0].0,
                out_set == outside@.dom(),
                out_set == outside_defs(start, l.body@),
                blocks@.len() == start.len(),
                0 <= j <= l.body@.len(),
                hs@ == gathered(start, l.body@, out_set, j as int),
                forall|b: int| 0 <= b < start.len() ==> {
                    &&& (#[trigger] blocks@[b]).terminator == start[b].terminator
                    &&& blocks@[b].is_cleanup == start[b].is_cleanup
                    &&& blocks@[b].statements@ == if exists|q: int| 0 <= q < j && l.body@[q] == BasicBlock(b as u32) {
                        staying(start[b].statements@, out_set)
                    } else {
                        start[b].statements@
                    }
                },
            decreases l.body.len() - j,
        {
            let b = l.body[j].0 as usize;
            proof {
                assert(!(exists|q: int| 0 <= q < j && l.body@[q] == BasicBlock(b as u32))) by {
                    if exists|q: int| 0 <= q < j && l.body@[q] == BasicBlock(b as u32) {
                        let q = choose|q: int| 0 <= q < j && l.body@[q] == BasicBlock(b as u32);
                        assert(l.body@[q] != l.body@[j as int]);
                    }
                }
                lemma_gathered_step(start, blocks@, l.body@, out_set, j as int);
            }
            let mut stmts: Vec<Statement> = Vec::new();
            std::mem::swap(&mut blocks[b].statements, &mut stmts);
            let kept = split_statements(stmts, &outside, &mut hs);
            blocks[b].statements = kept;
            proof {
                assert forall|c: int| 0 <= c < start.len() implies {
                    &&& (#[trigger] blocks@[c]).terminator == start[c].terminator
                    &&& blocks@[c].is_cleanup == start[c].is_cleanup
                    &&& blocks@[c].statements@ == if exists|q: int| 0 <= q < j + 1 && l.body@[q] == BasicBlock(c as u32) {
                        staying(start[c].statements@, out_set)
                    } else {
                        start[c].statements@
                    }
                } by {
                    if c == b as int {
                        assert(l.body@[j as int] == BasicBlock(c as u32));
                    } else {
                        if exists|q: int| 0 <= q < j + 1 && l.body@[q] == BasicBlock(c as u32) {
                            let q = choose|q: int| 0 <= q < j + 1 && l.body@[q] == BasicBlock(c as u32);
                            if q == j as int {
                                assert(BasicBlock(c as u32) == BasicBlock(b as u32));
                                assert((c as u32) as int == c);
                                assert(false);
                            }
                        }
                    }
                }
            }
            j += 1;
        }
        proof {
            assert(!(exists|q: int| 0 <= q < l.body@.len() && l.body@[q] == BasicBlock(pre as u32))) by {
                assert(!l.body@.contains(l.preheaders@[0]));
            }
        }
        let ghost hs_all = hs@;
        let count = hs.len();
        place_all(&mut blocks[pre].statements, hs);
        self.hoisted_count = if self.hoisted_count <= usize::MAX - count { self.hoisted_count + count } else { usize::MAX };
        proof {
            assert forall|b: int| 0 <= b < start.len() implies {
                &&& (#[trigger] blocks@[b]).terminator == start[b].terminator
                &&& blocks@[b].is_cleanup == start[b].is_cleanup
                &&& blocks@[b].statements@ == if l.body@.contains(BasicBlock(b as u32)) {
                    staying(start[b].statements@, out_set)
                } else if b == pre as int {
                    placed(start[b].statements@, hs_all)
                } else {
                    start[b].statements@
                }
            } by {
                let in_body = exists|q: int| 0 <= q < l.body@.len() && l.body@[q] == BasicBlock(b as u32);
                assert(in_body == l.body@.contains(BasicBlock(b as u32)));
            }
        }
    }

    /// Hoists, loop by loop in the order found, the invariant assignments
    /// of each loop into its first entry.
    pub fn hoist_invariants(&mut self, body: &mut MirBody)
        requires
            forall|k: int| 0 <= k < old(self).found_loops().len() ==> loop_wf(#[trigger] old(self).found_loops()[k], old(body).basic_blocks@.len() as int),
            old(body).basic_blocks@.len() <= u32::MAX,
        ensures
            exists|chain: Seq<Seq<BasicBlockData>>| hoisted_run(chain, old(self).found_loops())
                && chain[0] == old(body).basic_blocks@ && chain.last() == final(body).basic_blocks@,
            final(body).local_decls == old(body).local_decls,
            final(body).arg_count == old(body).arg_count,
            final(body).span == old(body).span,
    {
        let mut loops: Vec<LoopInfo> = Vec::new();
        std::mem::swap(&mut self.loops, &mut loops);
        let ghost found = loops@;
        proof {
            assert(found == old(self).found_loops());
            assert forall|q: int| 0 <= q < found.len() implies loop_wf(#[trigger] found[q], old(body).basic_blocks@.len() as int) by {
                assert(found[q] == old(self).found_loops()[q]);
            }
        }
        let ghost mut chain: Seq<Seq<BasicBlockData>> = seq![body.basic_blocks@];
        let mut k: usize = 0;
        while k < loops.len()
            invariant
                loops@ == found,
                forall|q: int| 0 <= q < found.len() ==> loop_wf(#[trigger] found[q], old(body).basic_blocks@.len() as int),
                old(body).basic_blocks@.len() <= u32::MAX,
                body.basic_blocks@.len() == old(body).basic_blocks@.len(),
                body.local_decls == old(body).local_decls,
                body.arg_count == old(body).arg_count,
                body.span == old(body).span,
                0 <= k <= found.len(),
                chain.len() == k + 1,
                chain[0] == old(body).basic_blocks@,
                chain.last() == body.basic_blocks@,
                forall|q: int| 0 <= q < k ==> hoist_step(chain[q], chain[q + 1], #[trigger] found[q]),
            decreases loops.len() - k,
        {
            let ghost before = body.basic_blocks@;
            self.hoist_loop(&mut body.basic_blocks, &loops[k]);
            proof {
                let c2 = chain.push(body.basic_blocks@);
                assert forall|q: int| 0 <= q < k + 1 implies hoist_step(c2[q], c2[q + 1], #[trigger] found[q]) by {
                    if q < k {
                        assert(c2[q] == chain[q] && c2[q + 1] == chain[q + 1]);
                    }
                }
                if found[k as int].preheaders@.len() != 0 {
                    assert(body.basic_blocks@.len() == before.len());
                }
                chain = c2;
            }
            k += 1;
        }
        self.loops = loops;
        proof {
            assert(hoisted_run(chain, found));
        }
    }

    /// The pass's name.
    pub fn name(&self) -> (s: &'static str)
        ensures
            s@ == "loop_invariant_code_motion"@,
    {
        "loop_invariant_code_motion"
    }

    /// Finds the loops of the body and hoists each one's invariant
    /// assignments; the count of hoisted statements is not kept.
    pub fn run(&self, body: &mut MirBody)
        requires
            old(body).basic_blocks@.len() <= u32::MAX,
        ensures
            exists|loops: Seq<LoopInfo>, chain: Seq<Seq<BasicBlockData>>| loops_of(old(body).basic_blocks@, loops)
                && hoisted_run(chain, loops) && chain[0] == old(body).basic_blocks@ && chain.last() == final(body).basic_blocks@,
    {
        let mut this = LoopInvariantCodeMotion::new();
        this.find_loops(body);
        proof {
            let bs = body.basic_blocks@;
            assert forall|k: int| 0 <= k < this.found_loops().len() implies loop_wf(#[trigger] this.found_loops()[k], bs.len() as int) by {
                lemma_found_loop_wf(bs, headers(bs, bs.len() as int)[k], this.found_loops()[k]);
            }
        }
        let ghost loops = this.found_loops();
        this.hoist_invariants(body);
    }
}

} // verus!
