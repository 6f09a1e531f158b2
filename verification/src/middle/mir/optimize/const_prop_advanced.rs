//! Constant propagation across blocks: a worklist analysis computes, for
//! each block, a lattice value per local, and each block's operands are
//! then replaced by the constants its table holds.

use vstd::prelude::*;
use crate::middle::mir::{
    BasicBlockData, BinOp, Constant, MirBody, Operand, Place, Rvalue, Scalar, Statement, Terminator, TerminatorKind, UnOp,
};
use crate::middle::mir::optimize::const_fold::{fold_binary, fold_binary_op, fold_unary, fold_unary_op};
use crate::middle::mir::optimize::simplify_cfg::{count_true, lemma_count_true_bound, lemma_count_true_none, lemma_count_true_set};

verus! {

/// A value in the constant lattice.
#[derive(Debug, Clone, Copy, PartialEq, Eq, Structural)]
pub enum LatticeValue {
    /// Nothing known yet.
    Bottom,
    /// Exactly this constant.
    Constant(Constant),
    /// Not a constant.
    Top,
}

/// The meet of two lattice values: bottom is neutral, equal constants stay,
/// anything else is top.
pub open spec fn meet_spec(a: LatticeValue, b: LatticeValue) -> LatticeValue {
    match (a, b) {
        (LatticeValue::Bottom, x) => x,
        (x, LatticeValue::Bottom) => x,
        (LatticeValue::Constant(c1), LatticeValue::Constant(c2)) => if c1 == c2 { a } else { LatticeValue::Top },
        _ => LatticeValue::Top,
    }
}

impl LatticeValue {
    pub fn is_constant(&self) -> (b: bool)
        ensures
            b == (*self is Constant),
    {
        match self {
            LatticeValue::Constant(_) => true,
            _ => false,
        }
    }

    pub fn as_constant(&self) -> (r: Option<&Constant>)
        ensures
            match *self {
                LatticeValue::Constant(c) => r == Some(&c),
                _ => r is None,
            },
    {
        match self {
            LatticeValue::Constant(c) => Some(c),
            _ => None,
        }
    }

    /// The meet of two lattice values (see `meet_spec`).
    pub fn meet(&self, other: &LatticeValue) -> (r: LatticeValue)
        ensures
            r == meet_spec(*self, *other),
    {
        match (self, other) {
            (LatticeValue::Bottom, x) => *x,
            (x, LatticeValue::Bottom) => *x,
            (LatticeValue::Constant(c1), LatticeValue::Constant(c2)) => if *c1 == *c2 { *self } else { LatticeValue::Top },
            _ => LatticeValue::Top,
        }
    }
}

/// Evaluating `left op right` on constants: the integer arithmetic,
/// comparisons and bitwise operations that constant folding knows, but not
/// remainders or shifts; whatever does not fold is top.
pub open spec fn eval_binary(op: BinOp, left: Constant, right: Constant) -> LatticeValue {
    match (op, left, right) {
        (BinOp::Rem, _, _) | (BinOp::Shl, _, _) | (BinOp::Shr, _, _) => LatticeValue::Top,
        (_, Constant::Scalar(a), Constant::Scalar(b)) => match fold_binary(op, a, b) {
            Some(c) => LatticeValue::Constant(c),
            None => LatticeValue::Top,
        },
        _ => LatticeValue::Top,
    }
}

/// Evaluating `op value`: integer negation unless it overflows, integer
/// complement; anything else is top.
pub open spec fn eval_unary(op: UnOp, value: Constant) -> LatticeValue {
    match value {
        Constant::Scalar(Scalar::Int(v, ty)) => match fold_unary(op, Scalar::Int(v, ty)) {
            Some(c) => LatticeValue::Constant(c),
            None => LatticeValue::Top,
        },
        _ => LatticeValue::Top,
    }
}

/// The value of an operand in a table: a constant is itself, a bare local
/// its entry (top when missing), anything else top.
pub open spec fn eval_operand_spec(o: Operand, table: Map<u32, LatticeValue>) -> LatticeValue {
    match o {
        Operand::Constant(c) => LatticeValue::Constant(c),
        Operand::Copy(p) | Operand::Move(p) => if p.projection@.len() == 0 {
            if table.contains_key(p.local.0) { table[p.local.0] } else { LatticeValue::Top }
        } else {
            LatticeValue::Top
        },
    }
}

/// The value of an rvalue in a table.
pub open spec fn eval_rvalue_spec(rv: Rvalue, table: Map<u32, LatticeValue>) -> LatticeValue {
    match rv {
        Rvalue::Use(o) => eval_operand_spec(o, table),
        Rvalue::BinaryOp(op, l, r) => match (eval_operand_spec(*l, table), eval_operand_spec(*r, table)) {
            (LatticeValue::Constant(a), LatticeValue::Constant(b)) => eval_binary(op, a, b),
            _ => LatticeValue::Top,
        },
        Rvalue::UnaryOp(op, o) => match eval_operand_spec(*o, table) {
            LatticeValue::Constant(a) => eval_unary(op, a),
            _ => LatticeValue::Top,
        },
        _ => LatticeValue::Top,
    }
}

/// Evaluates `left op right` (see `eval_binary`).
pub fn eval_binary_op(op: BinOp, left: &Constant, right: &Constant) -> (r: LatticeValue)
    ensures
        r == eval_binary(op, *left, *right),
{
    match op {
        BinOp::Rem | BinOp::Shl | BinOp::Shr => LatticeValue::Top,
        _ => match (left, right) {
            (Constant::Scalar(a), Constant::Scalar(b)) => match fold_binary_op(op, *a, *b) {
                Some(c) => LatticeValue::Constant(c),
                None => LatticeValue::Top,
            },
            _ => LatticeValue::Top,
        },
    }
}

/// Evaluates `op value` (see `eval_unary`).
pub fn eval_unary_op(op: UnOp, value: &Constant) -> (r: LatticeValue)
    ensures
        r == eval_unary(op, *value),
{
    match value {
        Constant::Scalar(Scalar::Int(v, ty)) => match fold_unary_op(op, Scalar::Int(*v, *ty)) {
            Some(c) => LatticeValue::Constant(c),
            None => LatticeValue::Top,
        },
        _ => LatticeValue::Top,
    }
}

/// A table from locals to lattice values.
#[derive(Debug)]
pub struct LocalTable {
    entries: Vec<(u32, LatticeValue)>,
}

impl View for LocalTable {
    type V = Map<u32, LatticeValue>;

    closed spec fn view(&self) -> Map<u32, LatticeValue> {
        Map::new(|k: u32| exists|i: int| 0 <= i < self.entries@.len() && self.entries@[i].0 == k,
            |k: u32| self.entries@[choose|i: int| 0 <= i < self.entries@.len() && self.entries@[i].0 == k].1)
    }
}

impl LocalTable {
    /// Entries have distinct locals.
    pub closed spec fn wf(&self) -> bool {
        forall|i: int, j: int| 0 <= i < j < self.entries@.len() ==> (#[trigger] self.entries@[i]).0 != (#[trigger] self.entries@[j]).0
    }

    pub fn new() -> (t: LocalTable)
        ensures
            t.wf(),
            t@ == Map::<u32, LatticeValue>::empty(),
    {
        let t = LocalTable { entries: Vec::new() };
        assert(t@ =~= Map::<u32, LatticeValue>::empty());
        t
    }

    fn position(&self, local: u32) -> (r: Option<usize>)
        requires
            self.wf(),
        ensures
            match r {
                Some(i) => i < self.entries@.len() && self.entries@[i as int].0 == local,
                None => !self@.contains_key(local),
            },
    {
        let mut i: usize = 0;
        while i < self.entries.len()
            invariant
                0 <= i <= self.entries@.len(),
                forall|j: int| 0 <= j < i ==> (#[trigger] self.entries@[j]).0 != local,
            decreases self.entries.len() - i,
        {
            if self.entries[i].0 == local {
                return Some(i);
            }
            i += 1;
        }
        None
    }

    proof fn lemma_at(&self, i: int)
        requires
            self.wf(),
            0 <= i < self.entries@.len(),
        ensures
            self@.contains_key(self.entries@[i].0),
            self@[self.entries@[i].0] == self.entries@[i].1,
    {
        let k = self.entries@[i].0;
        assert(self@.contains_key(k));
        let j = choose|j: int| 0 <= j < self.entries@.len() && self.entries@[j].0 == k;
        if j != i {
            if j < i {
                assert(self.entries@[j].0 != self.entries@[i].0);
            } else {
                assert(self.entries@[i].0 != self.entries@[j].0);
            }
        }
    }

    /// The value recorded for a local.
    pub fn get(&self, local: u32) -> (r: Option<LatticeValue>)
        requires
            self.wf(),
        ensures
            r == (if self@.contains_key(local) { Some(self@[local]) } else { None }),
    {
        match self.position(local) {
            Some(i) => {
                proof { self.lemma_at(i as int); }
                Some(self.entries[i].1)
            },
            None => None,
        }
    }

    /// Records a value for a local, replacing any earlier one.
    pub fn insert(&mut self, local: u32, value: LatticeValue)
        requires
            old(self).wf(),
        ensures
            final(self).wf(),
            final(self)@ == old(self)@.insert(local, value),
    {
        let ghost before = self@;
        match self.position(local) {
            Some(i) => {
                self.entries.set(i, (local, value));
                proof {
                    assert forall|k: u32| #[trigger] self@.contains_key(k) <==> before.insert(local, value).contains_key(k) by {
                        if before.contains_key(k) {
                            let j = choose|j: int| 0 <= j < old(self).entries@.len() && old(self).entries@[j].0 == k;
                            assert(self.entries@[j].0 == k);
                        }
                        if self@.contains_key(k) {
                            let j = choose|j: int| 0 <= j < self.entries@.len() && self.entries@[j].0 == k;
                            if j != i as int {
                                assert(old(self).entries@[j].0 == k);
                            }
                        }
                    }
                    assert forall|k: u32| self@.contains_key(k) implies #[trigger] self@[k] == before.insert(local, value)[k] by {
                        let j = choose|j: int| 0 <= j < self.entries@.len() && self.entries@[j].0 == k;
                        self.lemma_at(j);
                        if j != i as int {
                            old(self).lemma_at(j);
                        }
                    }
                    assert(self@ =~= before.insert(local, value));
                }
            },
            None => {
                self.entries.push((local, value));
                proof {
                    let n = self.entries@.len() - 1;
                    assert forall|k: u32| #[trigger] self@.contains_key(k) <==> before.insert(local, value).contains_key(k) by {
                        if before.contains_key(k) {
                            let j = choose|j: int| 0 <= j < old(self).entries@.len() && old(self).entries@[j].0 == k;
                            assert(self.entries@[j].0 == k);
                        }
                        if k == local {
                            assert(self.entries@[n].0 == k);
                        }
                        if self@.contains_key(k) && k != local {
                            let j = choose|j: int| 0 <= j < self.entries@.len() && self.entries@[j].0 == k;
                            assert(old(self).entries@[j].0 == k);
                        }
                    }
                    assert forall|k: u32| self@.contains_key(k) implies #[trigger] self@[k] == before.insert(local, value)[k] by {
                        let j = choose|j: int| 0 <= j < self.entries@.len() && self.entries@[j].0 == k;
                        self.lemma_at(j);
                        if j != n {
                            old(self).lemma_at(j);
                        }
                    }
                    assert(self@ =~= before.insert(local, value));
                }
            },
        }
    }

    /// Lowers a local's value to its meet with `value` (a missing entry
    /// counts as bottom) and reports whether it changed.
    pub fn meet_in(&mut self, local: u32, value: LatticeValue) -> (changed: bool)
        requires
            old(self).wf(),
        ensures
            final(self).wf(),
            ({
                let prev = if old(self)@.contains_key(local) { old(self)@[local] } else { LatticeValue::Bottom };
                let next = meet_spec(prev, value);
                &&& changed == (next != prev)
                &&& final(self)@ == if changed { old(self)@.insert(local, next) } else { old(self)@ }
            }),
    {
        let prev = match self.get(local) {
            Some(v) => v,
            None => LatticeValue::Bottom,
        };
        let next = prev.meet(&value);
        if next != prev {
            self.insert(local, next);
            true
        } else {
            false
        }
    }

    /// A copy of the table.
    pub fn copy(&self) -> (t: LocalTable)
        requires
            self.wf(),
        ensures
            t.wf(),
            t@ == self@,
    {
        let mut entries: Vec<(u32, LatticeValue)> = Vec::new();
        let mut i: usize = 0;
        while i < self.entries.len()
            invariant
                0 <= i <= self.entries@.len(),
                entries@ == self.entries@.take(i as int),
            decreases self.entries.len() - i,
        {
            entries.push(self.entries[i]);
            assert(self.entries@.take(i + 1) =~= self.entries@.take(i as int).push(self.entries@[i as int]));
            i += 1;
        }
        assert(self.entries@.take(self.entries@.len() as int) =~= self.entries@);
        let t = LocalTable { entries };
        assert(t@ =~= self@);
        t
    }

    /// The number of entries.
    pub closed spec fn size(&self) -> nat {
        self.entries@.len()
    }

    /// The local of entry `i`.
    pub closed spec fn key_at(&self, i: int) -> u32 {
        self.entries@[i].0
    }

    /// The locals of the entries are exactly the table's locals.
    pub proof fn lemma_keys(&self)
        ensures
            forall|k: u32| self@.contains_key(k) <==> exists|i: int| 0 <= i < self.size() && #[trigger] self.key_at(i) == k,
    {
        assert forall|k: u32| self@.contains_key(k) implies exists|i: int| 0 <= i < self.size() && #[trigger] self.key_at(i) == k by {
            let j = choose|j: int| 0 <= j < self.entries@.len() && self.entries@[j].0 == k;
            assert(self.key_at(j) == k);
        }
    }

    /// The entries have distinct locals.
    pub proof fn lemma_distinct(&self)
        requires
            self.wf(),
        ensures
            forall|a: int, b: int| 0 <= a < b < self.size() ==> self.key_at(a) != self.key_at(b),
    {
    }

    pub fn len(&self) -> (n: usize)
        ensures
            n == self.size(),
    {
        self.entries.len()
    }

    /// The entry at position `i`.
    pub fn entry(&self, i: usize) -> (e: (u32, LatticeValue))
        requires
            self.wf(),
            i < self.size(),
        ensures
            e.0 == self.key_at(i as int),
            self@.contains_key(e.0),
            self@[e.0] == e.1,
    {
        proof { self.lemma_at(i as int); }
        self.entries[i]
    }
}

/// Evaluates an operand in a table (see `eval_operand_spec`).
pub fn eval_operand(o: &Operand, table: &LocalTable) -> (r: LatticeValue)
    requires
        table.wf(),
    ensures
        r == eval_operand_spec(*o, table@),
{
    match o {
        Operand::Constant(c) => LatticeValue::Constant(*c),
        Operand::Copy(p) | Operand::Move(p) => {
            if p.projection.len() == 0 {
                match table.get(p.local.0) {
                    Some(v) => v,
                    None => LatticeValue::Top,
                }
            } else {
                LatticeValue::Top
            }
        },
    }
}

/// Evaluates an rvalue in a table (see `eval_rvalue_spec`).
pub fn eval_rvalue(rv: &Rvalue, table: &LocalTable) -> (r: LatticeValue)
    requires
        table.wf(),
    ensures
        r == eval_rvalue_spec(*rv, table@),
{
    match rv {
        Rvalue::Use(o) => eval_operand(o, table),
        Rvalue::BinaryOp(op, l, r) => match (eval_operand(l, table), eval_operand(r, table)) {
            (LatticeValue::Constant(a), LatticeValue::Constant(b)) => eval_binary_op(*op, &a, &b),
            _ => LatticeValue::Top,
        },
        Rvalue::UnaryOp(op, o) => match eval_operand(o, table) {
            LatticeValue::Constant(a) => eval_unary_op(*op, &a),
            _ => LatticeValue::Top,
        },
        _ => LatticeValue::Top,
    }
}

/// An operand with a bare local replaced by the constant its table entry
/// holds.
pub open spec fn lat_operand(o: Operand, m: Map<u32, LatticeValue>) -> Operand {
    match o {
        Operand::Copy(p) | Operand::Move(p) => if p.projection@.len() == 0 && m.contains_key(p.local.0) {
            match m[p.local.0] {
                LatticeValue::Constant(c) => Operand::Constant(c),
                _ => o,
            }
        } else {
            o
        },
        Operand::Constant(_) => o,
    }
}

/// Operand lists with constants put in.
pub open spec fn lat_operands(old: Seq<Operand>, new: Seq<Operand>, m: Map<u32, LatticeValue>) -> bool {
    &&& new.len() == old.len()
    &&& forall|i: int| 0 <= i < old.len() ==> #[trigger] new[i] == lat_operand(old[i], m)
}

/// An rvalue with constants put in for the operands of a use, an operation
/// or an aggregate.
pub open spec fn lat_rvalue(old: Rvalue, new: Rvalue, m: Map<u32, LatticeValue>) -> bool {
    match old {
        Rvalue::Use(o) => new == Rvalue::Use(lat_operand(o, m)),
        Rvalue::BinaryOp(op, l, r) => new == Rvalue::BinaryOp(op, Box::new(lat_operand(*l, m)), Box::new(lat_operand(*r, m))),
        Rvalue::UnaryOp(op, o) => new == Rvalue::UnaryOp(op, Box::new(lat_operand(*o, m))),
        Rvalue::Aggregate(k, ops) => match new {
            Rvalue::Aggregate(k2, ops2) => k2 == k && lat_operands(ops@, ops2@, m),
            _ => false,
        },
        _ => new == old,
    }
}

/// A terminator with constants put in for a switch's operand, a call's
/// callee and arguments, and an assertion's condition.
pub open spec fn lat_terminator(old: Option<Terminator>, new: Option<Terminator>, m: Map<u32, LatticeValue>) -> bool {
    match old {
        Some(t) => match new {
            Some(t2) => t2.span == t.span && match t.kind {
                TerminatorKind::SwitchInt { discr, switch_ty, targets, otherwise } => t2.kind == TerminatorKind::SwitchInt {
                    discr: lat_operand(discr, m), switch_ty, targets, otherwise,
                },
                TerminatorKind::Call { func, args, destination, target } => match t2.kind {
                    TerminatorKind::Call { func: f2, args: a2, destination: d2, target: g2 } =>
                        f2 == lat_operand(func, m) && lat_operands(args@, a2@, m) && d2 == destination && g2 == target,
                    _ => false,
                },
                TerminatorKind::Assert { cond, expected, msg, target, cleanup } => t2.kind == TerminatorKind::Assert {
                    cond: lat_operand(cond, m), expected, msg, target, cleanup,
                },
                _ => t2.kind == t.kind,
            },
            None => false,
        },
        None => new is None,
    }
}

/// A body whose block `b` had constants put in from table `tables[b]`.
pub open spec fn transformed(old: MirBody, new: MirBody, tables: Seq<Map<u32, LatticeValue>>) -> bool {
    &&& tables.len() == old.basic_blocks@.len()
    &&& new.basic_blocks@.len() == old.basic_blocks@.len()
    &&& forall|b: int| 0 <= b < old.basic_blocks@.len() ==> {
        let (o, n) = (#[trigger] old.basic_blocks@[b], new.basic_blocks@[b]);
        &&& n.statements@.len() == o.statements@.len()
        &&& forall|i: int| 0 <= i < o.statements@.len() ==> match #[trigger] o.statements@[i] {
            Statement::Assign(p, rv) => match n.statements@[i] {
                Statement::Assign(p2, rv2) => p2 == p && lat_rvalue(rv, rv2, tables[b]),
                _ => false,
            },
            s => n.statements@[i] == s,
        }
        &&& lat_terminator(o.terminator, n.terminator, tables[b])
        &&& n.is_cleanup == o.is_cleanup
    }
    &&& new.local_decls == old.local_decls
    &&& new.arg_count == old.arg_count
    &&& new.span == old.span
}

fn lat_operand_exec(o: Operand, m: &LocalTable) -> (r: Operand)
    requires
        m.wf(),
    ensures
        r == lat_operand(o, m@),
{
    let known = match &o {
        Operand::Copy(p) | Operand::Move(p) => {
            if p.projection.len() == 0 {
                match m.get(p.local.0) {
                    Some(LatticeValue::Constant(c)) => Some(c),
                    _ => None,
                }
            } else {
                None
            }
        },
        Operand::Constant(_) => None,
    };
    match known {
        Some(c) => Operand::Constant(c),
        None => o,
    }
}

fn lat_operands_exec(ops: Vec<Operand>, m: &LocalTable) -> (r: Vec<Operand>)
    requires
        m.wf(),
    ensures
        lat_operands(ops@, r@, m@),
{
    let mut ops = ops;
    let ghost start = ops@;
    let n = ops.len();
    let mut i: usize = 0;
    while i < n
        invariant
            m.wf(),
            n == start.len(),
            0 <= i <= n,
            ops@.len() == n,
            forall|j: int| 0 <= j < i ==> #[trigger] ops@[j] == lat_operand(start[j], m@),
            forall|j: int| i <= j < n ==> #[trigger] ops@[j] == start[j],
        decreases n - i,
    {
        let mut o = Operand::Constant(Constant::ZST);
        std::mem::swap(&mut ops[i], &mut o);
        let mut p = lat_operand_exec(o, m);
        std::mem::swap(&mut ops[i], &mut p);
        i += 1;
    }
    ops
}

fn lat_rvalue_exec(rv: Rvalue, m: &LocalTable) -> (r: Rvalue)
    requires
        m.wf(),
    ensures
        lat_rvalue(rv, r, m@),
{
    match rv {
        Rvalue::Use(o) => Rvalue::Use(lat_operand_exec(o, m)),
        Rvalue::BinaryOp(op, l, r) => Rvalue::BinaryOp(op, Box::new(lat_operand_exec(*l, m)), Box::new(lat_operand_exec(*r, m))),
        Rvalue::UnaryOp(op, o) => Rvalue::UnaryOp(op, Box::new(lat_operand_exec(*o, m))),
        Rvalue::Aggregate(k, ops) => Rvalue::Aggregate(k, lat_operands_exec(ops, m)),
        other => other,
    }
}

fn lat_terminator_exec(t: Option<Terminator>, m: &LocalTable) -> (r: Option<Terminator>)
    requires
        m.wf(),
    ensures
        lat_terminator(t, r, m@),
{
    match t {
        Some(Terminator { kind, span }) => {
            let kind = match kind {
                TerminatorKind::SwitchInt { discr, switch_ty, targets, otherwise } => TerminatorKind::SwitchInt {
                    discr: lat_operand_exec(discr, m), switch_ty, targets, otherwise,
                },
                TerminatorKind::Call { func, args, destination, target } => TerminatorKind::Call {
                    func: lat_operand_exec(func, m), args: lat_operands_exec(args, m), destination, target,
                },
                TerminatorKind::Assert { cond, expected, msg, target, cleanup } => TerminatorKind::Assert {
                    cond: lat_operand_exec(cond, m), expected, msg, target, cleanup,
                },
                other => other,
            };
            Some(Terminator { kind, span })
        },
        None => None,
    }
}

/// The blocks a terminator can continue at, an assertion's target included.
pub open spec fn flow_successors(t: Option<Terminator>) -> Seq<u32> {
    match t {
        Some(t) => match t.kind {
            TerminatorKind::Goto { target } => seq![target.0],
            TerminatorKind::SwitchInt { targets, otherwise, .. } =>
                targets@.map_values(|p: (u128, crate::middle::mir::BasicBlock)| p.1.0).push(otherwise.0),
            TerminatorKind::Call { target, .. } => match target {
                Some(b) => seq![b.0],
                None => Seq::empty(),
            },
            TerminatorKind::Assert { target, .. } => seq![target.0],
            _ => Seq::empty(),
        },
        None => Seq::empty(),
    }
}

fn successors_of(t: &Option<Terminator>) -> (r: Vec<u32>)
    ensures
        r@ == flow_successors(*t),
{
    let mut v: Vec<u32> = Vec::new();
    match t {
        Some(t) => match &t.kind {
            TerminatorKind::Goto { target } => {
                v.push(target.0);
            },
            TerminatorKind::SwitchInt { targets, otherwise, .. } => {
                let mut i: usize = 0;
                while i < targets.len()
                    invariant
                        0 <= i <= targets@.len(),
                        v@ == targets@.take(i as int).map_values(|p: (u128, crate::middle::mir::BasicBlock)| p.1.0),
                    decreases targets.len() - i,
                {
                    v.push(targets[i].1.0);
                    assert(targets@.take(i + 1).map_values(|p: (u128, crate::middle::mir::BasicBlock)| p.1.0)
                        =~= targets@.take(i as int).map_values(|p: (u128, crate::middle::mir::BasicBlock)| p.1.0).push(targets@[i as int].1.0));
                    i += 1;
                }
                assert(targets@.take(targets@.len() as int) =~= targets@);
                v.push(otherwise.0);
            },
            TerminatorKind::Call { target, .. } => {
                if let Some(b) = target {
                    v.push(b.0);
                }
            },
            TerminatorKind::Assert { target, .. } => {
                v.push(target.0);
            },
            _ => {},
        },
        None => {},
    }
    assert(v@ =~= flow_successors(*t));
    v
}

/// Constant propagation across blocks: the table of each block, the
/// blocks still to look at, and the blocks already looked at.
#[derive(Debug)]
pub struct AdvancedConstantPropagation {
    state: Vec<LocalTable>,
    worklist: Vec<u32>,
    visited: Vec<bool>,
}

/// A table after replaying a list of statements: each assignment to a bare
/// local records the value of its right-hand side in the table as it stands.
pub open spec fn replay_spec(m: Map<u32, LatticeValue>, stmts: Seq<Statement>) -> Map<u32, LatticeValue>
    decreases stmts.len(),
{
    if stmts.len() == 0 {
        m
    } else {
        let m1 = replay_spec(m, stmts.drop_last());
        match stmts.last() {
            Statement::Assign(p, rv) => if p.projection@.len() == 0 {
                m1.insert(p.local.0, eval_rvalue_spec(rv, m1))
            } else {
                m1
            },
            _ => m1,
        }
    }
}

/// The value a table holds for a local, bottom when it has none.
pub open spec fn value_or_bottom(m: Map<u32, LatticeValue>, k: u32) -> LatticeValue {
    if m.contains_key(k) { m[k] } else { LatticeValue::Bottom }
}

/// Whether meeting `s`'s value for `k` into `t` changes `t` there.
pub open spec fn meet_moves(t: Map<u32, LatticeValue>, s: Map<u32, LatticeValue>, k: u32) -> bool {
    s.contains_key(k) && meet_spec(value_or_bottom(t, k), s[k]) != value_or_bottom(t, k)
}

/// The table `t` with each of `s`'s values met into it; a local is added
/// only when the meet changes it.
pub open spec fn meet_into(t: Map<u32, LatticeValue>, s: Map<u32, LatticeValue>) -> Map<u32, LatticeValue> {
    Map::new(
        |k: u32| t.contains_key(k) || meet_moves(t, s, k),
        |k: u32| if s.contains_key(k) { meet_spec(value_or_bottom(t, k), s[k]) } else { t[k] },
    )
}

/// Whether meeting `s` into `t` changes `t`.
pub open spec fn meet_changes(t: Map<u32, LatticeValue>, s: Map<u32, LatticeValue>) -> bool {
    exists|k: u32| #[trigger] meet_moves(t, s, k)
}

fn replay(table: &mut LocalTable, stmts: &Vec<Statement>)
    requires
        old(table).wf(),
    ensures
        final(table).wf(),
        final(table)@ == replay_spec(old(table)@, stmts@),
{
    let mut i: usize = 0;
    while i < stmts.len()
        invariant
            table.wf(),
            0 <= i <= stmts@.len(),
            table@ == replay_spec(old(table)@, stmts@.take(i as int)),
        decreases stmts.len() - i,
    {
        proof {
            assert(stmts@.take(i + 1).drop_last() =~= stmts@.take(i as int));
            assert(stmts@.take(i + 1).last() == stmts@[i as int]);
        }
        if let Statement::Assign(p, rv) = &stmts[i] {
            if p.projection.len() == 0 {
                let v = eval_rvalue(rv, table);
                table.insert(p.local.0, v);
            }
        }
        i += 1;
    }
    proof {
        assert(stmts@.take(i as int) =~= stmts@);
    }
}

/// Whether `k` is the local of one of the first `i` entries of `t`.
pub open spec fn among_first(t: LocalTable, i: int, k: u32) -> bool {
    exists|j: int| 0 <= j < i && #[trigger] t.key_at(j) == k
}

fn meet_all(target: &mut LocalTable, source: &LocalTable) -> (changed: bool)
    requires
        old(target).wf(),
        source.wf(),
    ensures
        final(target).wf(),
        final(target)@ == meet_into(old(target)@, source@),
        changed == meet_changes(old(target)@, source@),
{
    let ghost t0 = target@;
    let ghost s0 = source@;
    let mut changed = false;
    let mut i: usize = 0;
    proof {
        source.lemma_keys();
        source.lemma_distinct();
    }
    while i < source.len()
        invariant
            target.wf(),
            source.wf(),
            s0 == source@,
            0 <= i <= source.size(),
            forall|k: u32| #[trigger] among_first(*source, i as int, k) ==> s0.contains_key(k)
                && target@.contains_key(k) == meet_into(t0, s0).contains_key(k)
                && (target@.contains_key(k) ==> target@[k] == meet_into(t0, s0)[k]),
            forall|k: u32| !#[trigger] among_first(*source, i as int, k) ==> target@.contains_key(k) == t0.contains_key(k)
                && (t0.contains_key(k) ==> target@[k] == t0[k]),
            changed == exists|j: int| 0 <= j < i && #[trigger] meet_moves(t0, s0, source.key_at(j)),
            forall|a: int, b: int| 0 <= a < b < source.size() ==> source.key_at(a) != source.key_at(b),
            forall|k: u32| s0.contains_key(k) <==> exists|j: int| 0 <= j < source.size() && #[trigger] source.key_at(j) == k,
        decreases source.size() - i,
    {
        let (l, v) = source.entry(i);
        let ghost tb = target@;
        proof {
            assert(!among_first(*source, i as int, l)) by {
                if among_first(*source, i as int, l) {
                    let j = choose|j: int| 0 <= j < i && #[trigger] source.key_at(j) == l;
                    assert(source.key_at(j) != source.key_at(i as int));
                }
            }
            assert(value_or_bottom(tb, l) == value_or_bottom(t0, l));
        }
        let moved = target.meet_in(l, v);
        if moved {
            changed = true;
        }
        proof {
            assert forall|k: u32| #[trigger] among_first(*source, i + 1, k) implies s0.contains_key(k)
                && target@.contains_key(k) == meet_into(t0, s0).contains_key(k)
                && (target@.contains_key(k) ==> target@[k] == meet_into(t0, s0)[k]) by {
                if k != l {
                    let j = choose|j: int| 0 <= j < i + 1 && #[trigger] source.key_at(j) == k;
                    assert(among_first(*source, i as int, k));
                }
            }
            assert forall|k: u32| !#[trigger] among_first(*source, i + 1, k) implies target@.contains_key(k)
                == t0.contains_key(k) && (t0.contains_key(k) ==> target@[k] == t0[k]) by {
                assert(k != l);
                if among_first(*source, i as int, k) {
                    let j = choose|j: int| 0 <= j < i && #[trigger] source.key_at(j) == k;
                    assert(among_first(*source, i + 1, k));
                }
            }
            assert(changed == exists|j: int| 0 <= j < i + 1 && #[trigger] meet_moves(t0, s0, source.key_at(j))) by {
                if moved {
                    assert(meet_moves(t0, s0, source.key_at(i as int)));
                }
                if exists|j: int| 0 <= j < i + 1 && #[trigger] meet_moves(t0, s0, source.key_at(j)) {
                    let j = choose|j: int| 0 <= j < i + 1 && #[trigger] meet_moves(t0, s0, source.key_at(j));
                    if j == i {
                        assert(moved);
                    }
                }
            }
        }
        i += 1;
    }
    proof {
        assert forall|k: u32| #[trigger] among_first(*source, i as int, k) <==> s0.contains_key(k) by {
            if s0.contains_key(k) {
                let j = choose|j: int| 0 <= j < source.size() && #[trigger] source.key_at(j) == k;
                assert(among_first(*source, i as int, k));
            }
        }
        assert forall|k: u32| #[trigger] target@.contains_key(k) == meet_into(t0, s0).contains_key(k) by {
            if !among_first(*source, i as int, k) {
                assert(!meet_moves(t0, s0, k));
            }
        }
        assert forall|k: u32| target@.contains_key(k) implies #[trigger] target@[k] == meet_into(t0, s0)[k] by {
            if !among_first(*source, i as int, k) {
                assert(!s0.contains_key(k));
            }
        }
        assert(target@ =~= meet_into(t0, s0));
        if meet_changes(t0, s0) {
            let k = choose|k: u32| #[trigger] meet_moves(t0, s0, k);
            let j = choose|j: int| 0 <= j < source.size() && #[trigger] source.key_at(j) == k;
            assert(meet_moves(t0, s0, source.key_at(j)));
        }
    }
    changed
}

impl AdvancedConstantPropagation {
    /// Every table is well formed, and there is one per block.
    pub closed spec fn wf(&self, n: nat) -> bool {
        &&& self.state@.len() == n
        &&& self.visited@.len() == n
        &&& forall|b: int| 0 <= b < n ==> (#[trigger] self.state@[b]).wf()
        &&& forall|w: int| 0 <= w < self.worklist@.len() ==> (#[trigger] self.worklist@[w]) < n
    }

    /// The table of each block.
    pub closed spec fn tables(&self) -> Seq<Map<u32, LatticeValue>> {
        self.state@.map_values(|t: LocalTable| t@)
    }

    pub fn new() -> (p: Self)
        ensures
            p.wf(0),
    {
        AdvancedConstantPropagation { state: Vec::new(), worklist: Vec::new(), visited: Vec::new() }
    }

    /// The pass's name.
    pub fn name(&self) -> (s: &'static str)
        ensures
            s@ == "advanced_constant_propagation"@,
    {
        "advanced_constant_propagation"
    }

    fn reset(&mut self, n: usize)
        ensures
            final(self).wf(n as nat),
            final(self).worklist@.len() == 0,
            count_true(final(self).visited@) == 0,
    {
        self.state = Vec::new();
        self.visited = Vec::new();
        self.worklist = Vec::new();
        let mut i: usize = 0;
        while i < n
            invariant
                0 <= i <= n,
                self.state@.len() == i,
                self.visited@.len() == i,
                self.worklist@.len() == 0,
                forall|b: int| 0 <= b < i ==> (#[trigger] self.state@[b]).wf(),
                forall|b: int| 0 <= b < i ==> !#[trigger] self.visited@[b],
            decreases n - i,
        {
            self.state.push(LocalTable::new());
            self.visited.push(false);
            i += 1;
        }
        proof { lemma_count_true_none(self.visited@); }
    }

    fn propagate_state_to_block(&mut self, body: &MirBody, from: usize, to: usize) -> (changed: bool)
        requires
            old(self).wf(body.basic_blocks@.len()),
            from < body.basic_blocks@.len(),
            to < body.basic_blocks@.len(),
        ensures
            final(self).wf(body.basic_blocks@.len()),
            final(self).worklist@ == old(self).worklist@,
            final(self).visited@ == old(self).visited@,
            ({
                let t = old(self).tables();
                let first = meet_into(t[to as int], t[from as int]);
                let source = if from == to { first } else { t[from as int] };
                let out = replay_spec(source, body.basic_blocks@[from as int].statements@);
                &&& final(self).tables() == t.update(to as int, meet_into(first, out))
                &&& changed == (meet_changes(t[to as int], t[from as int]) || meet_changes(first, out))
            }),
    {
        let ghost n = body.basic_blocks@.len();
        let ghost t = self.tables();
        let from_state = self.state[from].copy();
        let mut target = LocalTable::new();
        std::mem::swap(&mut self.state[to], &mut target);
        let mut changed = meet_all(&mut target, &from_state);
        std::mem::swap(&mut self.state[to], &mut target);
        let ghost first = meet_into(t[to as int], t[from as int]);
        proof {
            assert(self.tables() =~= t.update(to as int, first));
        }
        let mut local_state = self.state[from].copy();
        replay(&mut local_state, &body.basic_blocks[from].statements);
        let mut target = LocalTable::new();
        std::mem::swap(&mut self.state[to], &mut target);
        if meet_all(&mut target, &local_state) {
            changed = true;
        }
        std::mem::swap(&mut self.state[to], &mut target);
        proof {
            assert(self.tables() =~= t.update(to as int, meet_into(first, local_state@)));
        }
        changed
    }

    fn in_worklist(&self, b: u32) -> (r: bool)
        ensures
            r == self.worklist@.contains(b),
    {
        let mut i: usize = 0;
        while i < self.worklist.len()
            invariant
                0 <= i <= self.worklist@.len(),
                forall|j: int| 0 <= j < i ==> self.worklist@[j] != b,
            decreases self.worklist.len() - i,
        {
            if self.worklist[i] == b {
                return true;
            }
            i += 1;
        }
        false
    }

    /// Runs the worklist analysis from the entry block: each block is
    /// looked at once, its table replayed through its assignments to bare
    /// locals, and the result met into its successors' tables; a successor
    /// whose table changed is queued unless it already is.
    pub fn run_analysis(&mut self, body: &MirBody)
        requires
            body.basic_blocks@.len() <= u32::MAX,
        ensures
            final(self).wf(body.basic_blocks@.len()),
    {
        let n = body.basic_blocks.len();
        self.reset(n);
        if n == 0 {
            return;
        }
        self.worklist.push(0);
        let mut visited_count: usize = 0;
        while self.worklist.len() > 0
            invariant
                n == body.basic_blocks@.len(),
                n <= u32::MAX,
                self.wf(n as nat),
                visited_count == count_true(self.visited@),
                visited_count <= n,
            decreases n - visited_count, self.worklist.len(),
        {
            let b = self.worklist.pop().unwrap();
            let bi = b as usize;
            if self.visited[bi] {
                continue;
            }
            proof {
                lemma_count_true_set(self.visited@, bi as int);
                lemma_count_true_bound(self.visited@.update(bi as int, true));
            }
            self.visited.set(bi, true);
            visited_count += 1;
            let mut state = self.state[bi].copy();
            replay(&mut state, &body.basic_blocks[bi].statements);
            self.state.set(bi, state);
            let succs = successors_of(&body.basic_blocks[bi].terminator);
            let ghost vc = visited_count;
            let ghost vis = self.visited@;
            let mut k: usize = 0;
            while k < succs.len()
                invariant
                    n == body.basic_blocks@.len(),
                    n <= u32::MAX,
                    bi < n,
                    self.wf(n as nat),
                    self.visited@ == vis,
                    visited_count == vc,
                    visited_count == count_true(self.visited@),
                    visited_count <= n,
                    0 <= k <= succs@.len(),
                decreases succs.len() - k,
            {
                let s = succs[k];
                if (s as usize) < n {
                    let changed = self.propagate_state_to_block(body, bi, s as usize);
                    if changed && !self.in_worklist(s) {
                        self.worklist.push(s);
                    }
                }
                k += 1;
            }
        }
    }

    /// Puts into every block the constants its table holds (see
    /// `transformed`).
    pub fn transform(&self, body: &mut MirBody)
        requires
            self.wf(old(body).basic_blocks@.len()),
        ensures
            transformed(*old(body), *final(body), self.tables()),
    {
        let ghost start = *body;
        let n = body.basic_blocks.len();
        let mut b: usize = 0;
        while b < n
            invariant
                n == start.basic_blocks@.len(),
                self.wf(n as nat),
                0 <= b <= n,
                body.basic_blocks@.len() == n,
                body.local_decls == start.local_decls,
                body.arg_count == start.arg_count,
                body.span == start.span,
                forall|j: int| 0 <= j < b ==> {
                    let (o, m) = (#[trigger] start.basic_blocks@[j], body.basic_blocks@[j]);
                    &&& m.statements@.len() == o.statements@.len()
                    &&& forall|i: int| 0 <= i < o.statements@.len() ==> match #[trigger] o.statements@[i] {
                        Statement::Assign(p, rv) => match m.statements@[i] {
                            Statement::Assign(p2, rv2) => p2 == p && lat_rvalue(rv, rv2, self.tables()[j]),
                            _ => false,
                        },
                        s => m.statements@[i] == s,
                    }
                    &&& lat_terminator(o.terminator, m.terminator, self.tables()[j])
                    &&& m.is_cleanup == o.is_cleanup
                },
                forall|j: int| b <= j < n ==> #[trigger] body.basic_blocks@[j] == start.basic_blocks@[j],
            decreases n - b,
        {
            let table = &self.state[b];
            assert(self.tables()[b as int] == table@);
            let blk = &mut body.basic_blocks[b];
            let ghost old_blk = *blk;
            let m = blk.statements.len();
            let mut i: usize = 0;
            while i < m
                invariant
                    table.wf(),
                    m == old_blk.statements@.len(),
                    0 <= i <= m,
                    blk.statements@.len() == m,
                    blk.terminator == old_blk.terminator,
                    blk.is_cleanup == old_blk.is_cleanup,
                    forall|j: int| 0 <= j < i ==> match #[trigger] old_blk.statements@[j] {
                        Statement::Assign(p, rv) => match blk.statements@[j] {
                            Statement::Assign(p2, rv2) => p2 == p && lat_rvalue(rv, rv2, table@),
                            _ => false,
                        },
                        s => blk.statements@[j] == s,
                    },
                    forall|j: int| i <= j < m ==> #[trigger] blk.statements@[j] == old_blk.statements@[j],
                decreases m - i,
            {
                let mut s = Statement::Nop;
                std::mem::swap(&mut blk.statements[i], &mut s);
                let mut t = match s {
                    Statement::Assign(p, rv) => Statement::Assign(p, lat_rvalue_exec(rv, table)),
                    other => other,
                };
                std::mem::swap(&mut blk.statements[i], &mut t);
                i += 1;
            }
            let mut term = None;
            std::mem::swap(&mut blk.terminator, &mut term);
            blk.terminator = lat_terminator_exec(term, table);
            b += 1;
        }
    }

    /// Runs the analysis, then puts in the constants found: each block gets
    /// the constants of the table the analysis left for it.
    pub fn run(&self, body: &mut MirBody)
        requires
            old(body).basic_blocks@.len() <= u32::MAX,
        ensures
            exists|tables: Seq<Map<u32, LatticeValue>>| transformed(*old(body), *final(body), tables),
    {
        let mut this = AdvancedConstantPropagation::new();
        this.run_analysis(body);
        this.transform(body);
    }
}

impl Default for AdvancedConstantPropagation {
    fn default() -> (p: Self)
        ensures
            p.wf(0),
    {
        AdvancedConstantPropagation::new()
    }
}

} // verus!
