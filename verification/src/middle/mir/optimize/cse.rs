//! Common subexpression elimination: within a block, an assignment of an
//! expression computed before into a bare local is replaced by a copy of
//! the local that first received it.

use vstd::prelude::*;
use crate::middle::mir::{
    AggregateKind, BasicBlockData, BinOp, CastKind, Constant, Local, MirBody, Operand, Place, Rvalue, Scalar, Statement, UnOp,
};

verus! {

/// A remembered expression.
#[derive(Debug, Clone, PartialEq, Eq, Hash)]
pub enum ExprKey {
    BinaryOp { op: BinOp, left: OperandKey, right: OperandKey },
    UnaryOp { op: UnOp, operand: OperandKey },
    Cast { kind: CastKind, operand: OperandKey, ty_hash: u64 },
    Aggregate { kind: AggregateKey, operands: Vec<OperandKey> },
}

/// A remembered operand.
#[derive(Debug, Clone, Copy, PartialEq, Eq, Hash, Structural)]
pub enum OperandKey {
    Local(u32),
    Constant(i128, u8),
    ConstantFloat(u64),
    ConstantPtr(u64),
    Unknown,
}

/// The kind of a remembered aggregate.
#[derive(Debug, Clone, PartialEq, Eq, Hash)]
pub enum AggregateKey {
    Array,
    Tuple,
    Struct(String),
    Enum(String, String),
}

/// The value of an aggregate key.
pub enum AggregateKeyModel {
    Array,
    Tuple,
    Struct(Seq<char>),
    Enum(Seq<char>, Seq<char>),
}

/// The value of an expression key.
pub enum ExprKeyModel {
    BinaryOp { op: BinOp, left: OperandKey, right: OperandKey },
    UnaryOp { op: UnOp, operand: OperandKey },
    Cast { kind: CastKind, operand: OperandKey, ty_hash: u64 },
    Aggregate { kind: AggregateKeyModel, operands: Seq<OperandKey> },
}

impl View for AggregateKey {
    type V = AggregateKeyModel;

    open spec fn view(&self) -> AggregateKeyModel {
        match self {
            AggregateKey::Array => AggregateKeyModel::Array,
            AggregateKey::Tuple => AggregateKeyModel::Tuple,
            AggregateKey::Struct(s) => AggregateKeyModel::Struct(s@),
            AggregateKey::Enum(e, v) => AggregateKeyModel::Enum(e@, v@),
        }
    }
}

impl View for ExprKey {
    type V = ExprKeyModel;

    open spec fn view(&self) -> ExprKeyModel {
        match self {
            ExprKey::BinaryOp { op, left, right } => ExprKeyModel::BinaryOp { op: *op, left: *left, right: *right },
            ExprKey::UnaryOp { op, operand } => ExprKeyModel::UnaryOp { op: *op, operand: *operand },
            ExprKey::Cast { kind, operand, ty_hash } => ExprKeyModel::Cast { kind: *kind, operand: *operand, ty_hash: *ty_hash },
            ExprKey::Aggregate { kind, operands } => ExprKeyModel::Aggregate { kind: kind@, operands: operands@ },
        }
    }
}

/// The key of an operand: a bare local by its index, a constant by its
/// value (a float by its bits, a zero-sized value as the integer 0), and
/// anything else unknown.
pub open spec fn operand_key(o: Operand) -> OperandKey {
    match o {
        Operand::Copy(p) | Operand::Move(p) => if p.projection@.len() == 0 { OperandKey::Local(p.local.0) } else { OperandKey::Unknown },
        Operand::Constant(Constant::Scalar(Scalar::Int(v, _))) => OperandKey::Constant(v, 0),
        Operand::Constant(Constant::Scalar(Scalar::Float(bits, _))) => OperandKey::ConstantFloat(bits),
        Operand::Constant(Constant::Scalar(Scalar::Pointer(v))) => OperandKey::ConstantPtr(v),
        Operand::Constant(Constant::ZST) => OperandKey::Constant(0, 0),
    }
}

/// The key of an aggregate kind; closures have none.
pub open spec fn aggregate_key(k: AggregateKind) -> Option<AggregateKeyModel> {
    match k {
        AggregateKind::Array(_) => Some(AggregateKeyModel::Array),
        AggregateKind::Tuple => Some(AggregateKeyModel::Tuple),
        AggregateKind::Struct(n) => Some(AggregateKeyModel::Struct(n.name@)),
        AggregateKind::Enum(e, v) => Some(AggregateKeyModel::Enum(e.name@, v.name@)),
        AggregateKind::Closure(_) => None,
    }
}

/// The key of an rvalue: operations, casts and aggregates whose operands
/// are all known; a cast's target type is not part of it.
pub open spec fn rvalue_key(rv: Rvalue) -> Option<ExprKeyModel> {
    match rv {
        Rvalue::BinaryOp(op, l, r) => {
            let (a, b) = (operand_key(*l), operand_key(*r));
            if a == OperandKey::Unknown || b == OperandKey::Unknown { None } else { Some(ExprKeyModel::BinaryOp { op, left: a, right: b }) }
        },
        Rvalue::UnaryOp(op, o) => {
            let a = operand_key(*o);
            if a == OperandKey::Unknown { None } else { Some(ExprKeyModel::UnaryOp { op, operand: a }) }
        },
        Rvalue::Cast(kind, o, _) => {
            let a = operand_key(*o);
            if a == OperandKey::Unknown { None } else { Some(ExprKeyModel::Cast { kind, operand: a, ty_hash: 0 }) }
        },
        Rvalue::Aggregate(k, ops) => match aggregate_key(k) {
            Some(ak) => {
                let keys = ops@.map_values(|o: Operand| operand_key(o));
                if keys.contains(OperandKey::Unknown) { None } else { Some(ExprKeyModel::Aggregate { kind: ak, operands: keys }) }
            },
            None => None,
        },
        _ => None,
    }
}

/// The expressions available after a statement: an assignment to a bare
/// local of an expression not yet available makes it available in that
/// local; nothing is ever dropped.
pub open spec fn table_step(table: Map<ExprKeyModel, Local>, s: Statement) -> Map<ExprKeyModel, Local> {
    match s {
        Statement::Assign(p, rv) => if p.projection@.len() == 0 {
            match rvalue_key(rv) {
                Some(k) => if table.contains_key(k) { table } else { table.insert(k, p.local) },
                None => table,
            }
        } else {
            table
        },
        _ => table,
    }
}

/// The expressions available before statement `i` of a block.
pub open spec fn table_before(ss: Seq<Statement>, i: int) -> Map<ExprKeyModel, Local>
    decreases i,
{
    if i <= 0 { Map::empty() } else { table_step(table_before(ss, i - 1), ss[i - 1]) }
}

/// A statement after elimination: an assignment to a bare local of an
/// available expression copies the local holding it; others stay.
pub open spec fn cse_statement(old: Statement, new: Statement, table: Map<ExprKeyModel, Local>) -> bool {
    match old {
        Statement::Assign(p, rv) => if p.projection@.len() == 0 && rvalue_key(rv) is Some && table.contains_key(rvalue_key(rv)->0) {
            new matches Statement::Assign(p2, Rvalue::Use(Operand::Copy(q)))
                && p2 == p && q.local == table[rvalue_key(rv)->0] && q.projection@.len() == 0
        } else {
            new == old
        },
        _ => new == old,
    }
}

/// A body after elimination, block by block with a fresh table each.
pub open spec fn cse_body(old: MirBody, new: MirBody) -> bool {
    &&& new.basic_blocks@.len() == old.basic_blocks@.len()
    &&& forall|b: int| 0 <= b < old.basic_blocks@.len() ==> {
        let (o, n) = (#[trigger] old.basic_blocks@[b], new.basic_blocks@[b]);
        &&& n.statements@.len() == o.statements@.len()
        &&& forall|i: int| 0 <= i < o.statements@.len()
            ==> cse_statement(#[trigger] o.statements@[i], n.statements@[i], table_before(o.statements@, i))
        &&& n.terminator == o.terminator
        &&& n.is_cleanup == o.is_cleanup
    }
    &&& new.local_decls == old.local_decls
    &&& new.arg_count == old.arg_count
    &&& new.span == old.span
}

impl OperandKey {
    /// The key of an operand (see `operand_key`).
    pub fn from_operand(operand: &Operand) -> (k: OperandKey)
        ensures
            k == operand_key(*operand),
    {
        match operand {
            Operand::Copy(place) | Operand::Move(place) => {
                if place.projection.len() == 0 { OperandKey::Local(place.local.0) } else { OperandKey::Unknown }
            },
            Operand::Constant(Constant::Scalar(Scalar::Int(v, _))) => OperandKey::Constant(*v, 0),
            Operand::Constant(Constant::Scalar(Scalar::Float(bits, _))) => OperandKey::ConstantFloat(*bits),
            Operand::Constant(Constant::Scalar(Scalar::Pointer(v))) => OperandKey::ConstantPtr(*v),
            Operand::Constant(Constant::ZST) => OperandKey::Constant(0, 0),
        }
    }

    fn is_unknown(&self) -> (b: bool)
        ensures
            b == (*self == OperandKey::Unknown),
    {
        match self {
            OperandKey::Unknown => true,
            _ => false,
        }
    }
}

impl AggregateKey {
    /// The key of an aggregate kind; closures get none.
    pub fn from_kind(kind: &AggregateKind) -> (k: Option<AggregateKey>)
        ensures
            match k {
                Some(a) => aggregate_key(*kind) == Some(a@),
                None => aggregate_key(*kind) is None,
            },
    {
        match kind {
            AggregateKind::Array(_) => Some(AggregateKey::Array),
            AggregateKind::Tuple => Some(AggregateKey::Tuple),
            AggregateKind::Struct(name) => Some(AggregateKey::Struct(name.as_str().to_owned())),
            AggregateKind::Enum(e, v) => Some(AggregateKey::Enum(e.as_str().to_owned(), v.as_str().to_owned())),
            AggregateKind::Closure(_) => None,
        }
    }

    fn same(&self, other: &AggregateKey) -> (b: bool)
        ensures
            b == (self@ == other@),
    {
        match (self, other) {
            (AggregateKey::Array, AggregateKey::Array) => true,
            (AggregateKey::Tuple, AggregateKey::Tuple) => true,
            (AggregateKey::Struct(a), AggregateKey::Struct(b)) => crate::util::text::str_eq(a.as_str(), b.as_str()),
            (AggregateKey::Enum(a, x), AggregateKey::Enum(b, y)) =>
                crate::util::text::str_eq(a.as_str(), b.as_str()) && crate::util::text::str_eq(x.as_str(), y.as_str()),
            _ => false,
        }
    }
}

fn same_keys(a: &Vec<OperandKey>, b: &Vec<OperandKey>) -> (r: bool)
    ensures
        r == (a@ == b@),
{
    if a.len() != b.len() {
        return false;
    }
    let mut i: usize = 0;
    while i < a.len()
        invariant
            a@.len() == b@.len(),
            0 <= i <= a@.len(),
            forall|j: int| 0 <= j < i ==> a@[j] == b@[j],
        decreases a.len() - i,
    {
        if a[i] != b[i] {
            return false;
        }
        i += 1;
    }
    assert(a@ =~= b@);
    true
}

impl ExprKey {
    /// The key of an rvalue (see `rvalue_key`).
    pub fn from_rvalue(rvalue: &Rvalue) -> (k: Option<ExprKey>)
        ensures
            match k {
                Some(e) => rvalue_key(*rvalue) == Some(e@),
                None => rvalue_key(*rvalue) is None,
            },
    {
        match rvalue {
            Rvalue::BinaryOp(op, left, right) => {
                let left_key = OperandKey::from_operand(left);
                let right_key = OperandKey::from_operand(right);
                if left_key.is_unknown() || right_key.is_unknown() {
                    return None;
                }
                Some(ExprKey::BinaryOp { op: *op, left: left_key, right: right_key })
            },
            Rvalue::UnaryOp(op, operand) => {
                let operand_key = OperandKey::from_operand(operand);
                if operand_key.is_unknown() {
                    return None;
                }
                Some(ExprKey::UnaryOp { op: *op, operand: operand_key })
            },
            Rvalue::Cast(kind, operand, _) => {
                let operand_key = OperandKey::from_operand(operand);
                if operand_key.is_unknown() {
                    return None;
                }
                Some(ExprKey::Cast { kind: *kind, operand: operand_key, ty_hash: 0 })
            },
            Rvalue::Aggregate(kind, operands) => {
                let agg_key = match AggregateKey::from_kind(kind) {
                    Some(k) => k,
                    None => return None,
                };
                let mut keys: Vec<OperandKey> = Vec::new();
                let mut i: usize = 0;
                while i < operands.len()
                    invariant
                        0 <= i <= operands@.len(),
                        keys@ == operands@.take(i as int).map_values(|o: Operand| operand_key(o)),
                        !keys@.contains(OperandKey::Unknown),
                        rvalue_key(*rvalue) == (if operands@.map_values(|o: Operand| operand_key(o)).contains(OperandKey::Unknown) {
                            None
                        } else {
                            Some(ExprKeyModel::Aggregate { kind: agg_key@, operands: operands@.map_values(|o: Operand| operand_key(o)) })
                        }),
                    decreases operands.len() - i,
                {
                    let k = OperandKey::from_operand(&operands[i]);
                    if k.is_unknown() {
                        let ghost full = operands@.map_values(|o: Operand| operand_key(o));
                        assert(full[i as int] == OperandKey::Unknown);
                        assert(full.contains(OperandKey::Unknown));
                        return None;
                    }
                    keys.push(k);
                    assert(operands@.take(i + 1).map_values(|o: Operand| operand_key(o))
                        =~= operands@.take(i as int).map_values(|o: Operand| operand_key(o)).push(k));
                    i += 1;
                }
                assert(operands@.take(operands@.len() as int) =~= operands@);
                Some(ExprKey::Aggregate { kind: agg_key, operands: keys })
            },
            _ => None,
        }
    }

    /// Whether two keys name the same expression.
    pub fn same(&self, other: &ExprKey) -> (b: bool)
        ensures
            b == (self@ == other@),
    {
        match (self, other) {
            (ExprKey::BinaryOp { op: a, left: l1, right: r1 }, ExprKey::BinaryOp { op: b, left: l2, right: r2 }) =>
                *a == *b && *l1 == *l2 && *r1 == *r2,
            (ExprKey::UnaryOp { op: a, operand: o1 }, ExprKey::UnaryOp { op: b, operand: o2 }) => *a == *b && *o1 == *o2,
            (ExprKey::Cast { kind: a, operand: o1, ty_hash: h1 }, ExprKey::Cast { kind: b, operand: o2, ty_hash: h2 }) =>
                *a == *b && *o1 == *o2 && *h1 == *h2,
            (ExprKey::Aggregate { kind: a, operands: x }, ExprKey::Aggregate { kind: b, operands: y }) =>
                a.same(b) && same_keys(x, y),
            _ => false,
        }
    }
}

/// The common subexpression elimination pass: the expressions whose value
/// sits in a local, and how many recomputations it removed.
#[derive(Debug)]
pub struct CommonSubexpressionElimination {
    available: Vec<(ExprKey, Local)>,
    eliminated_count: usize,
}

/// The table a list of remembered pairs stands for: each key with the
/// local remembered for it.
pub open spec fn table_of(pairs: Seq<(ExprKey, Local)>) -> Map<ExprKeyModel, Local> {
    Map::new(|k: ExprKeyModel| exists|i: int| 0 <= i < pairs.len() && pairs[i].0@ == k,
        |k: ExprKeyModel| pairs[choose|i: int| 0 <= i < pairs.len() && pairs[i].0@ == k].1)
}

/// Remembered keys are pairwise distinct.
pub open spec fn distinct_keys(pairs: Seq<(ExprKey, Local)>) -> bool {
    forall|i: int, j: int| 0 <= i < j < pairs.len() ==> (#[trigger] pairs[i]).0@ != (#[trigger] pairs[j]).0@
}

fn lookup(pairs: &Vec<(ExprKey, Local)>, key: &ExprKey) -> (r: Option<Local>)
    requires
        distinct_keys(pairs@),
    ensures
        match r {
            Some(l) => table_of(pairs@).contains_key(key@) && table_of(pairs@)[key@] == l,
            None => !table_of(pairs@).contains_key(key@),
        },
{
    let mut i: usize = 0;
    while i < pairs.len()
        invariant
            0 <= i <= pairs@.len(),
            distinct_keys(pairs@),
            forall|j: int| 0 <= j < i ==> (#[trigger] pairs@[j]).0@ != key@,
        decreases pairs.len() - i,
    {
        if pairs[i].0.same(key) {
            proof {
                assert(table_of(pairs@).contains_key(key@));
                let j = choose|j: int| 0 <= j < pairs@.len() && pairs@[j].0@ == key@;
                if j != i as int {
                    if j < i as int {
                        assert(pairs@[j].0@ != pairs@[i as int].0@);
                    } else {
                        assert(pairs@[i as int].0@ != pairs@[j].0@);
                    }
                }
            }
            return Some(pairs[i].1);
        }
        i += 1;
    }
    None
}

fn remember(pairs: &mut Vec<(ExprKey, Local)>, key: ExprKey, local: Local)
    requires
        distinct_keys(old(pairs)@),
        !table_of(old(pairs)@).contains_key(key@),
    ensures
        distinct_keys(final(pairs)@),
        table_of(final(pairs)@) == table_of(old(pairs)@).insert(key@, local),
{
    let ghost k = key@;
    pairs.push((key, local));
    proof {
        let old_t = table_of(old(pairs)@);
        let new_t = table_of(pairs@);
        assert(pairs@.last().0@ == k);
        assert forall|q: ExprKeyModel| #[trigger] new_t.contains_key(q) <==> old_t.insert(k, local).contains_key(q) by {
            if old_t.contains_key(q) {
                let i = choose|i: int| 0 <= i < old(pairs)@.len() && old(pairs)@[i].0@ == q;
                assert(pairs@[i] == old(pairs)@[i]);
            }
            if new_t.contains_key(q) && q != k {
                let i = choose|i: int| 0 <= i < pairs@.len() && pairs@[i].0@ == q;
                assert(old(pairs)@[i] == pairs@[i]);
            }
        }
        assert forall|q: ExprKeyModel| new_t.contains_key(q) implies #[trigger] new_t[q] == old_t.insert(k, local)[q] by {
            let i = choose|i: int| 0 <= i < pairs@.len() && pairs@[i].0@ == q;
            if q == k {
                assert(i == pairs@.len() - 1);
            } else {
                let j = choose|j: int| 0 <= j < old(pairs)@.len() && old(pairs)@[j].0@ == q;
                assert(pairs@[j] == old(pairs)@[j]);
                assert(i == j);
            }
        }
        assert(new_t =~= old_t.insert(k, local));
    }
}

impl CommonSubexpressionElimination {
    pub closed spec fn eliminated(&self) -> nat {
        self.eliminated_count as nat
    }

    pub closed spec fn remembered(&self) -> nat {
        self.available@.len()
    }

    pub fn new() -> (p: Self)
        ensures
            p.eliminated() == 0,
            p.remembered() == 0,
    {
        CommonSubexpressionElimination { available: Vec::new(), eliminated_count: 0 }
    }

    pub fn eliminated_count(&self) -> (n: usize)
        ensures
            n == self.eliminated(),
    {
        self.eliminated_count
    }

    /// The pass's name.
    pub fn name(&self) -> (s: &'static str)
        ensures
            s@ == "common_subexpression_elimination"@,
    {
        "common_subexpression_elimination"
    }

    /// Replaces, in each block, every assignment to a bare local of an
    /// expression computed earlier in the block by a copy of the local that
    /// first received it (see `cse_body`). The pass itself keeps no count.
    pub fn run(&self, body: &mut MirBody)
        ensures
            cse_body(*old(body), *final(body)),
    {
        let ghost start = *body;
        let n = body.basic_blocks.len();
        let mut b: usize = 0;
        while b < n
            invariant
                n == start.basic_blocks@.len(),
                0 <= b <= n,
                body.basic_blocks@.len() == n,
                body.local_decls == start.local_decls,
                body.arg_count == start.arg_count,
                body.span == start.span,
                forall|j: int| 0 <= j < b ==> {
                    let (o, m) = (#[trigger] start.basic_blocks@[j], body.basic_blocks@[j]);
                    &&& m.statements@.len() == o.statements@.len()
                    &&& forall|i: int| 0 <= i < o.statements@.len()
                        ==> cse_statement(#[trigger] o.statements@[i], m.statements@[i], table_before(o.statements@, i))
                    &&& m.terminator == o.terminator
                    &&& m.is_cleanup == o.is_cleanup
                },
                forall|j: int| b <= j < n ==> #[trigger] body.basic_blocks@[j] == start.basic_blocks@[j],
            decreases n - b,
        {
            cse_block(&mut body.basic_blocks[b]);
            b += 1;
        }
    }
}

fn cse_block(block: &mut BasicBlockData)
    ensures
        final(block).statements@.len() == old(block).statements@.len(),
        forall|i: int| 0 <= i < old(block).statements@.len()
            ==> cse_statement(#[trigger] old(block).statements@[i], final(block).statements@[i], table_before(old(block).statements@, i)),
        final(block).terminator == old(block).terminator,
        final(block).is_cleanup == old(block).is_cleanup,
{
    let ghost start = *block;
    let mut table: Vec<(ExprKey, Local)> = Vec::new();
    assert(table_of(table@) =~= Map::<ExprKeyModel, Local>::empty());
    let n = block.statements.len();
    let mut i: usize = 0;
    while i < n
        invariant
            n == start.statements@.len(),
            0 <= i <= n,
            block.statements@.len() == n,
            block.terminator == start.terminator,
            block.is_cleanup == start.is_cleanup,
            distinct_keys(table@),
            table_of(table@) == table_before(start.statements@, i as int),
            forall|j: int| 0 <= j < i ==> cse_statement(#[trigger] start.statements@[j], block.statements@[j], table_before(start.statements@, j)),
            forall|j: int| i <= j < n ==> #[trigger] block.statements@[j] == start.statements@[j],
        decreases n - i,
    {
        let mut s = Statement::Nop;
        std::mem::swap(&mut block.statements[i], &mut s);
        let mut t = match s {
            Statement::Assign(p, rv) => {
                if p.projection.len() == 0 {
                    match ExprKey::from_rvalue(&rv) {
                        Some(key) => match lookup(&table, &key) {
                            Some(existing) => Statement::Assign(p, Rvalue::Use(Operand::Copy(Place::from_local(existing)))),
                            None => {
                                remember(&mut table, key, p.local);
                                Statement::Assign(p, rv)
                            },
                        },
                        None => Statement::Assign(p, rv),
                    }
                } else {
                    Statement::Assign(p, rv)
                }
            },
            other => other,
        };
        std::mem::swap(&mut block.statements[i], &mut t);
        i += 1;
    }
}

impl Default for CommonSubexpressionElimination {
    fn default() -> (p: Self)
        ensures
            p.eliminated() == 0,
            p.remembered() == 0,
    {
        CommonSubexpressionElimination::new()
    }
}


/// Equal operand keys identify the operand: both read the same local with
/// no projection, or both are the same constant value (an integer, with the
/// zero-sized value counted as the integer 0; a float by its bits; a
/// pointer by its address).
pub proof fn law_operand_keys_identify(x: Operand, y: Operand)
    requires
        operand_key(x) != OperandKey::Unknown,
        operand_key(x) == operand_key(y),
    ensures
        x.place() is Some <==> y.place() is Some,
        x.place() matches Some(p) ==> (y.place() matches Some(q) && q.local == p.local && p.projection@.len() == 0
            && q.projection@.len() == 0),
        x.scalar() matches Some(Scalar::Int(v, _)) ==> ((y.scalar() matches Some(Scalar::Int(w, _)) && w == v)
            || (v == 0 && y == Operand::Constant(Constant::ZST))),
        x.scalar() matches Some(Scalar::Float(v, _)) ==> (y.scalar() matches Some(Scalar::Float(w, _)) && w == v),
        x.scalar() matches Some(Scalar::Pointer(v)) ==> (y.scalar() matches Some(Scalar::Pointer(w)) && w == v),
{
}

/// Two rvalues get the same expression key only when they compute the same
/// thing: the same kind of operation with the same operator (the same cast
/// kind, the same aggregate kind) on operands with equal keys, position by
/// position.
pub proof fn law_equal_keys_same_expression(a: Rvalue, b: Rvalue)
    requires
        rvalue_key(a) is Some,
        rvalue_key(a) == rvalue_key(b),
    ensures
        a matches Rvalue::UnaryOp(op, x) ==> (b matches Rvalue::UnaryOp(op2, y) && op2 == op
            && operand_key(*x) == operand_key(*y)),
        a matches Rvalue::BinaryOp(op, x, y) ==> (b matches Rvalue::BinaryOp(op2, x2, y2) && op2 == op
            && operand_key(*x) == operand_key(*x2) && operand_key(*y) == operand_key(*y2)),
        a matches Rvalue::Cast(k, x, _) ==> (b matches Rvalue::Cast(k2, y, _) && k2 == k
            && operand_key(*x) == operand_key(*y)),
        a matches Rvalue::Aggregate(k, xs) ==> (b matches Rvalue::Aggregate(k2, ys) && aggregate_key(k) == aggregate_key(k2)
            && xs@.len() == ys@.len() && forall|i: int| 0 <= i < xs@.len() ==> #[trigger] operand_key(xs@[i]) == operand_key(ys@[i])),
        a is UnaryOp || a is BinaryOp || a is Cast || a is Aggregate,
{
    match (a, b) {
        (Rvalue::Aggregate(_, xs), Rvalue::Aggregate(_, ys)) => {
            let kx = xs@.map_values(|o: Operand| operand_key(o));
            let ky = ys@.map_values(|o: Operand| operand_key(o));
            assert(kx == ky);
            assert forall|i: int| 0 <= i < xs@.len() implies #[trigger] operand_key(xs@[i]) == operand_key(ys@[i]) by {
                assert(kx[i] == ky[i]);
            }
        },
        _ => {},
    }
}


/// Statement `j` of `ss` assigns a bare local `l` an rvalue with key `k`.
pub open spec fn computes_into(ss: Seq<Statement>, j: int, k: ExprKeyModel, l: Local) -> bool {
    ss[j] matches Statement::Assign(p, rv) && p.projection@.len() == 0 && p.local == l && rvalue_key(rv) == Some(k)
}

proof fn lemma_table_sources(ss: Seq<Statement>, i: int, k: ExprKeyModel)
    requires
        0 <= i <= ss.len(),
        table_before(ss, i).contains_key(k),
    ensures
        exists|j: int| 0 <= j < i && #[trigger] computes_into(ss, j, k, table_before(ss, i)[k]),
    decreases i,
{
    if i > 0 {
        let prev = table_before(ss, i - 1);
        if prev.contains_key(k) {
            lemma_table_sources(ss, i - 1, k);
            let j = choose|j: int| 0 <= j < i - 1 && #[trigger] computes_into(ss, j, k, prev[k]);
            assert(table_before(ss, i)[k] == prev[k]);
            assert(computes_into(ss, j, k, table_before(ss, i)[k]));
        } else {
            assert(computes_into(ss, i - 1, k, table_before(ss, i)[k]));
        }
    }
}

/// Common subexpression elimination only replaces an assignment by a copy
/// of a local that an earlier assignment of the same block set to an
/// expression with the same key (and, by `law_equal_keys_same_expression`,
/// the same computation); every other statement stays as it was.
pub proof fn law_cse_reuses_earlier_results(old: MirBody, new: MirBody, b: int, i: int)
    requires
        cse_body(old, new),
        0 <= b < old.basic_blocks@.len(),
        0 <= i < old.basic_blocks@[b].statements@.len(),
    ensures
        new.basic_blocks@[b].statements@[i] == old.basic_blocks@[b].statements@[i] || {
            let ss = old.basic_blocks@[b].statements@;
            &&& ss[i] matches Statement::Assign(p, rv)
            &&& new.basic_blocks@[b].statements@[i] matches Statement::Assign(p2, Rvalue::Use(Operand::Copy(q)))
            &&& p2 == p && q.projection@.len() == 0
            &&& exists|j: int| 0 <= j < i && #[trigger] computes_into(ss, j, rvalue_key(rv)->0, q.local)
        },
{
    let ob = old.basic_blocks@[b];
    let ss = ob.statements@;
    assert(cse_statement(ss[i], new.basic_blocks@[b].statements@[i], table_before(ss, i)));
    match ss[i] {
        Statement::Assign(p, rv) => {
            if p.projection@.len() == 0 && rvalue_key(rv) is Some && table_before(ss, i).contains_key(rvalue_key(rv)->0) {
                lemma_table_sources(ss, i, rvalue_key(rv)->0);
            }
        },
        _ => {},
    }
}

} // verus!
