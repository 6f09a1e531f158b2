//! Lowering a function's syntax tree to MIR: expressions become statements
//! on temporaries, control flow becomes blocks joined by terminators.

use vstd::prelude::*;
use crate::ast::{
    ArrayInitExpr, AssignExpr, BinaryExpr, BinaryOp, Block, CallExpr, ClosureExpr, Expr, FieldAccessExpr, ForExpr,
    Function, Ident, IfExpr, IndexExpr, Item, LetStmt, Literal, LoopExpr, MatchArm, MatchExpr, MethodCallExpr, Path, Pattern,
    Span, Stmt, StructInitExpr, Type, UnaryExpr, UnaryOp, WhileExpr, same_type, simple_path,
};
use crate::middle::borrowck::flow::flow_successors;
use crate::middle::mir::{
    AggregateKind, BasicBlock, BasicBlockData, BinOp, Constant, FloatType, IntType, Local, LocalDecl, MirBody, Operand,
    Place, PlaceElem, Rvalue, Scalar, Statement, Terminator, TerminatorKind, UnOp,
};
use crate::util::text::str_eq;
use crate::middle::mir::optimize::const_fold::fold_rvalue_spec;

verus! {

/// Every jump of every block goes to a block of the list.
pub open spec fn jumps_closed(bs: Seq<BasicBlockData>) -> bool {
    forall|b: int, k: int|
        0 <= b < bs.len() && 0 <= k < flow_successors(bs[b].terminator).len() ==> (#[trigger] flow_successors(
            bs[b].terminator,
        )[k]).0 < bs.len()
}

/// Every jump of `t` goes to one of the first `n` blocks.
pub open spec fn jumps_below(t: Option<Terminator>, n: nat) -> bool {
    forall|k: int| 0 <= k < flow_successors(t).len() ==> (#[trigger] flow_successors(t)[k]).0 < n
}

proof fn lemma_closed_push(bs: Seq<BasicBlockData>, b: BasicBlockData)
    requires
        jumps_closed(bs),
        b.terminator is None,
    ensures
        jumps_closed(bs.push(b)),
{
    assert forall|x: int, k: int|
        0 <= x < bs.push(b).len() && 0 <= k < flow_successors(bs.push(b)[x].terminator).len() implies (
        #[trigger] flow_successors(bs.push(b)[x].terminator)[k]).0 < bs.push(b).len() by {
        if x < bs.len() {
            assert(bs.push(b)[x] == bs[x]);
        }
    }
}

proof fn lemma_closed_update(bs: Seq<BasicBlockData>, i: int, b: BasicBlockData)
    requires
        jumps_closed(bs),
        0 <= i < bs.len(),
        jumps_below(b.terminator, bs.len()),
    ensures
        jumps_closed(bs.update(i, b)),
{
    assert forall|x: int, k: int|
        0 <= x < bs.update(i, b).len() && 0 <= k < flow_successors(bs.update(i, b)[x].terminator).len() implies (
        #[trigger] flow_successors(bs.update(i, b)[x].terminator)[k]).0 < bs.len() by {
        if x != i {
            assert(bs.update(i, b)[x] == bs[x]);
        }
    }
}

/// The index of the field named `name`: `x`/`re` 0, `y`/`im` 1, `z` 2,
/// `w` 3, any other 0.
pub open spec fn field_index(name: Seq<char>) -> usize {
    if name == "x"@ || name == "re"@ {
        0
    } else if name == "y"@ || name == "im"@ {
        1
    } else if name == "z"@ {
        2
    } else if name == "w"@ {
        3
    } else {
        0
    }
}

/// The field index for a field name (see `field_index`).
fn get_field_index_by_name(field_name: &Ident) -> (r: usize)
    ensures
        r == field_index(field_name.name@),
{
    let s = field_name.as_str();
    if str_eq(s, "x") || str_eq(s, "re") {
        0
    } else if str_eq(s, "y") || str_eq(s, "im") {
        1
    } else if str_eq(s, "z") {
        2
    } else if str_eq(s, "w") {
        3
    } else {
        0
    }
}

/// The MIR binary operator for a source binary operator; none for `=` and
/// `|>`, which are not lowered to an operation.
pub open spec fn bin_op_of(op: BinaryOp) -> Option<BinOp> {
    match op {
        BinaryOp::Add => Some(BinOp::Add),
        BinaryOp::Sub => Some(BinOp::Sub),
        BinaryOp::Mul => Some(BinOp::Mul),
        BinaryOp::Div => Some(BinOp::Div),
        BinaryOp::Rem => Some(BinOp::Rem),
        BinaryOp::And => Some(BinOp::BitAnd),
        BinaryOp::Or => Some(BinOp::BitOr),
        BinaryOp::Xor => Some(BinOp::BitXor),
        BinaryOp::Shl => Some(BinOp::Shl),
        BinaryOp::Shr => Some(BinOp::Shr),
        BinaryOp::Eq => Some(BinOp::Eq),
        BinaryOp::Ne => Some(BinOp::Ne),
        BinaryOp::Lt => Some(BinOp::Lt),
        BinaryOp::Le => Some(BinOp::Le),
        BinaryOp::Gt => Some(BinOp::Gt),
        BinaryOp::Ge => Some(BinOp::Ge),
        BinaryOp::LogicalAnd => Some(BinOp::And),
        BinaryOp::LogicalOr => Some(BinOp::Or),
        BinaryOp::Assign => None,
        BinaryOp::Pipe => None,
    }
}

fn map_binary_op(op: BinaryOp) -> (r: Option<BinOp>)
    ensures
        r == bin_op_of(op),
{
    match op {
        BinaryOp::Add => Some(BinOp::Add),
        BinaryOp::Sub => Some(BinOp::Sub),
        BinaryOp::Mul => Some(BinOp::Mul),
        BinaryOp::Div => Some(BinOp::Div),
        BinaryOp::Rem => Some(BinOp::Rem),
        BinaryOp::And => Some(BinOp::BitAnd),
        BinaryOp::Or => Some(BinOp::BitOr),
        BinaryOp::Xor => Some(BinOp::BitXor),
        BinaryOp::Shl => Some(BinOp::Shl),
        BinaryOp::Shr => Some(BinOp::Shr),
        BinaryOp::Eq => Some(BinOp::Eq),
        BinaryOp::Ne => Some(BinOp::Ne),
        BinaryOp::Lt => Some(BinOp::Lt),
        BinaryOp::Le => Some(BinOp::Le),
        BinaryOp::Gt => Some(BinOp::Gt),
        BinaryOp::Ge => Some(BinOp::Ge),
        BinaryOp::LogicalAnd => Some(BinOp::And),
        BinaryOp::LogicalOr => Some(BinOp::Or),
        BinaryOp::Assign => None,
        BinaryOp::Pipe => None,
    }
}

/// The switch value a literal pattern stands for: an integer (a negative
/// one wraps), a boolean as 0 or 1, a character's code; none for others.
pub open spec fn literal_value(lit: Literal) -> Option<u128> {
    match lit {
        Literal::Integer(n) => Some(n as u128),
        Literal::Bool(b) => Some(if b { 1u128 } else { 0u128 }),
        Literal::Char(c) => Some(c as u128),
        _ => None,
    }
}

/// The name of a `for` loop's variable: the pattern's binding, else `i`.
pub open spec fn loop_var_name(p: Pattern) -> Seq<char> {
    match p {
        Pattern::Ident(i) => i.name@,
        Pattern::Binding(i, _) => i.name@,
        _ => "i"@,
    }
}

/// The constant zero that stands for a unit or unsupported value.
pub open spec fn zero_operand() -> Operand {
    Operand::Constant(Constant::Scalar(Scalar::Int(0, IntType::I64)))
}

fn zero() -> (o: Operand)
    ensures
        o == zero_operand(),
{
    Operand::Constant(Constant::Scalar(Scalar::Int(0, IntType::I64)))
}

/// An upper bound on the locals and blocks that lowering an expression
/// creates: four per node.
pub open spec fn expr_cost(e: Expr) -> nat
    decreases e,
{
    4 + match e {
        Expr::PathCall(_, args) => exprs_cost(args@),
        Expr::Range(r) => opt_cost(r.start) + opt_cost(r.end),
        Expr::Unsafe(b) => block_cost(b),
        Expr::Await(x) => expr_cost(*x),
        Expr::Block(b) => block_cost(b),
        Expr::If(i) => expr_cost(*i.cond) + block_cost(i.then_branch) + opt_cost(i.else_branch),
        Expr::While(w) => expr_cost(*w.cond) + block_cost(w.body),
        Expr::Loop(l) => block_cost(l.body),
        Expr::For(f) => expr_cost(*f.expr) + block_cost(f.body),
        Expr::Match(m) => expr_cost(*m.expr) + arms_cost(m.arms@),
        Expr::Binary(b) => expr_cost(*b.left) + expr_cost(*b.right),
        Expr::Unary(u) => expr_cost(*u.expr),
        Expr::Call(c) => expr_cost(*c.func) + exprs_cost(c.args@),
        Expr::MethodCall(m) => expr_cost(*m.receiver) + exprs_cost(m.args@),
        Expr::Return(r) => opt_cost(r),
        Expr::Assign(a) => expr_cost(*a.left) + expr_cost(*a.right),
        Expr::FieldAccess(f) => expr_cost(*f.expr),
        Expr::Index(i) => expr_cost(*i.expr) + expr_cost(*i.index),
        Expr::ArrayInit(a) => exprs_cost(a.elements@),
        Expr::StructInit(s) => fields_cost(s.fields@),
        Expr::Async(b) => block_cost(b),
        _ => 0,
    }
}

pub open spec fn opt_cost(e: Option<Box<Expr>>) -> nat
    decreases e,
{
    match e {
        Some(x) => expr_cost(*x),
        None => 0,
    }
}

pub open spec fn exprs_cost(es: Seq<Expr>) -> nat
    decreases es,
{
    if es.len() == 0 {
        0
    } else {
        exprs_cost(es.drop_last()) + expr_cost(es.last())
    }
}

pub open spec fn fields_cost(fs: Seq<(Ident, Expr)>) -> nat
    decreases fs,
{
    if fs.len() == 0 {
        0
    } else {
        fields_cost(fs.drop_last()) + expr_cost(fs.last().1)
    }
}

pub open spec fn arms_cost(arms: Seq<MatchArm>) -> nat
    decreases arms,
{
    if arms.len() == 0 {
        0
    } else {
        arms_cost(arms.drop_last()) + 1 + expr_cost(arms.last().body)
    }
}

pub open spec fn block_cost(b: Block) -> nat
    decreases b,
{
    stmts_cost(b.stmts@)
}

pub open spec fn stmts_cost(ss: Seq<Stmt>) -> nat
    decreases ss,
{
    if ss.len() == 0 {
        0
    } else {
        stmts_cost(ss.drop_last()) + stmt_cost(ss.last())
    }
}

pub open spec fn stmt_cost(s: Stmt) -> nat
    decreases s,
{
    match s {
        Stmt::Let(l) => 1 + match l.init {
            Some(e) => expr_cost(e),
            None => 0,
        },
        Stmt::Expr(e) => expr_cost(e),
        Stmt::Item(Item::Function(f)) => block_cost(f.body),
        Stmt::Item(_) => 0,
    }
}

/// The operand of a literal (see `build_literal`).
pub open spec fn literal_operand(lit: Literal) -> Operand {
    match lit {
        Literal::Integer(n) => Operand::Constant(Constant::Scalar(Scalar::Int(n as i128, IntType::I64))),
        Literal::Float(f) => Operand::Constant(Constant::Scalar(Scalar::Float(f, FloatType::F64))),
        Literal::Bool(b) => Operand::Constant(Constant::Scalar(Scalar::Int(if b { 1 } else { 0 }, IntType::I8))),
        Literal::Char(c) => Operand::Constant(Constant::Scalar(Scalar::Int((c as u32) as i128, IntType::I32))),
        Literal::String(_) => Operand::Constant(Constant::ZST),
        Literal::Null => Operand::Constant(Constant::Scalar(Scalar::Int(0, IntType::I64))),
    }
}

/// A literal lowers to the constant with its value: an integer `n` to the
/// `i64` constant `n`, `true` and `false` to the `i8` constants 1 and 0, a
/// character to the `i32` constant of its code point, `null` to the `i64`
/// constant 0, and distinct integer (or boolean) literals to distinct
/// constants.
pub proof fn law_literal_operands(lit: Literal, other: Literal)
    ensures
        lit matches Literal::Integer(n) ==> literal_operand(lit).scalar() == Some(Scalar::Int(n as i128, IntType::I64)),
        lit == Literal::Bool(true) ==> literal_operand(lit).scalar() == Some(Scalar::Int(1, IntType::I8)),
        lit == Literal::Bool(false) ==> literal_operand(lit).scalar() == Some(Scalar::Int(0, IntType::I8)),
        lit matches Literal::Char(c) ==> literal_operand(lit).scalar() == Some(Scalar::Int(c as u32 as i128, IntType::I32)),
        lit == Literal::Null ==> literal_operand(lit).scalar() == Some(Scalar::Int(0, IntType::I64)),
        (lit is Integer && other is Integer && lit != other) ==> literal_operand(lit) != literal_operand(other),
        (lit is Bool && other is Bool && lit != other) ==> literal_operand(lit) != literal_operand(other),
{
}

/// The index of the first declaration named `name`.
pub open spec fn first_named_local(ds: Seq<LocalDecl>, name: Seq<char>) -> Option<u32>
    decreases ds.len(),
{
    if ds.len() == 0 {
        None
    } else {
        match first_named_local(ds.drop_last(), name) {
            Some(i) => Some(i),
            None => if ds.last().name matches Some(x) && x.name@ == name {
                Some((ds.len() - 1) as u32)
            } else {
                None
            },
        }
    }
}

proof fn lemma_first_named_at(ds: Seq<LocalDecl>, name: Seq<char>, i: int)
    requires
        0 <= i < ds.len(),
        ds.len() <= u32::MAX,
        ds[i].name matches Some(x) && x.name@ == name,
        forall|j: int| 0 <= j < i ==> !(#[trigger] ds[j].name matches Some(x) && x.name@ == name),
    ensures
        first_named_local(ds, name) == Some(i as u32),
    decreases ds.len(),
{
    if i < ds.len() - 1 {
        assert forall|j: int| 0 <= j < i implies !(#[trigger] ds.drop_last()[j].name matches Some(x) && x.name@ == name) by {
            assert(ds.drop_last()[j] == ds[j]);
        }
        assert(ds.drop_last()[i] == ds[i]);
        lemma_first_named_at(ds.drop_last(), name, i);
    } else {
        lemma_first_named_none_prefix(ds.drop_last(), name);
    }
}

proof fn lemma_first_named_none_prefix(ds: Seq<LocalDecl>, name: Seq<char>)
    requires
        forall|j: int| 0 <= j < ds.len() ==> !(#[trigger] ds[j].name matches Some(x) && x.name@ == name),
    ensures
        first_named_local(ds, name) is None,
    decreases ds.len(),
{
    if ds.len() > 0 {
        assert forall|j: int| 0 <= j < ds.drop_last().len() implies !(#[trigger] ds.drop_last()[j].name matches Some(x)
            && x.name@ == name) by {
            assert(ds.drop_last()[j] == ds[j]);
        }
        lemma_first_named_none_prefix(ds.drop_last(), name);
        assert(ds[ds.len() - 1] == ds.last());
    }
}

proof fn lemma_first_named_none(ds: Seq<LocalDecl>, name: Seq<char>)
    requires
        forall|j: int| 0 <= j < ds.len() ==> !(#[trigger] ds[j].name matches Some(x) && x.name@ == name),
    ensures
        first_named_local(ds, name) is None,
{
    lemma_first_named_none_prefix(ds, name);
}

/// The name an assignment's left side designates: an identifier, or a
/// path of one segment.
pub open spec fn place_target(e: Expr) -> Option<Seq<char>> {
    match e {
        Expr::Ident(i) => Some(i.name@),
        Expr::Path(p) => if p.segments@.len() == 1 {
            Some(p.segments@[0].ident.name@)
        } else {
            None
        },
        _ => None,
    }
}

/// The name of a scrutinee's switch type (see `infer_expr_type`).
pub open spec fn switch_type_name(e: Expr) -> Option<Seq<char>> {
    match e {
        Expr::Literal(Literal::Integer(_)) => Some("i64"@),
        Expr::Literal(Literal::Bool(_)) => Some("bool"@),
        Expr::Literal(Literal::Char(_)) => Some("char"@),
        _ => None,
    }
}

proof fn lemma_exprs_cost_step(es: Seq<Expr>, i: int)
    requires
        0 <= i < es.len(),
    ensures
        exprs_cost(es.take(i + 1)) == exprs_cost(es.take(i)) + expr_cost(es[i]),
{
    assert(es.take(i + 1).drop_last() =~= es.take(i));
}

proof fn lemma_exprs_cost_prefix(es: Seq<Expr>, k: int)
    requires
        0 <= k <= es.len(),
    ensures
        exprs_cost(es.take(k)) <= exprs_cost(es),
    decreases es.len() - k,
{
    if k < es.len() {
        lemma_exprs_cost_step(es, k);
        lemma_exprs_cost_prefix(es, k + 1);
    } else {
        assert(es.take(k) =~= es);
    }
}

proof fn lemma_fields_cost_step(fs: Seq<(Ident, Expr)>, i: int)
    requires
        0 <= i < fs.len(),
    ensures
        fields_cost(fs.take(i + 1)) == fields_cost(fs.take(i)) + expr_cost(fs[i].1),
{
    assert(fs.take(i + 1).drop_last() =~= fs.take(i));
}

proof fn lemma_fields_cost_prefix(fs: Seq<(Ident, Expr)>, k: int)
    requires
        0 <= k <= fs.len(),
    ensures
        fields_cost(fs.take(k)) <= fields_cost(fs),
    decreases fs.len() - k,
{
    if k < fs.len() {
        lemma_fields_cost_step(fs, k);
        lemma_fields_cost_prefix(fs, k + 1);
    } else {
        assert(fs.take(k) =~= fs);
    }
}

proof fn lemma_arms_cost_step(arms: Seq<MatchArm>, i: int)
    requires
        0 <= i < arms.len(),
    ensures
        arms_cost(arms.take(i + 1)) == arms_cost(arms.take(i)) + 1 + expr_cost(arms[i].body),
{
    assert(arms.take(i + 1).drop_last() =~= arms.take(i));
}

proof fn lemma_arms_cost_prefix(arms: Seq<MatchArm>, k: int)
    requires
        0 <= k <= arms.len(),
    ensures
        arms_cost(arms.take(k)) + (arms.len() - k) <= arms_cost(arms),
    decreases arms.len() - k,
{
    if k < arms.len() {
        lemma_arms_cost_step(arms, k);
        lemma_arms_cost_prefix(arms, k + 1);
    } else {
        assert(arms.take(k) =~= arms);
    }
}

proof fn lemma_stmts_cost_step(ss: Seq<Stmt>, i: int)
    requires
        0 <= i < ss.len(),
    ensures
        stmts_cost(ss.take(i + 1)) == stmts_cost(ss.take(i)) + stmt_cost(ss[i]),
{
    assert(ss.take(i + 1).drop_last() =~= ss.take(i));
}

proof fn lemma_stmts_cost_prefix(ss: Seq<Stmt>, k: int)
    requires
        0 <= k <= ss.len(),
    ensures
        stmts_cost(ss.take(k)) <= stmts_cost(ss),
    decreases ss.len() - k,
{
    if k < ss.len() {
        lemma_stmts_cost_step(ss, k);
        lemma_stmts_cost_prefix(ss, k + 1);
    } else {
        assert(ss.take(k) =~= ss);
    }
}

/// `p` is local `l` itself, with no projection.
/// `d` declares the local of `let` statement `l`: of its written type (unit
/// when it has none), named after the pattern's binding when it has one.
pub open spec fn let_local(l: LetStmt, d: LocalDecl) -> bool {
    &&& match l.ty {
        Some(t) => same_type(t, d.ty),
        None => d.ty is Unit,
    }
    &&& match l.pattern {
        Pattern::Ident(i) => d.name == Some(i),
        Pattern::Binding(i, _) => d.name == Some(i),
        _ => d.name is None,
    }
}

/// Every `let` statement among `ss` has its local among the locals `ds`
/// from position `lo` on.
pub open spec fn lets_declared(ss: Seq<Stmt>, ds: Seq<LocalDecl>, lo: int) -> bool {
    forall|k: int| 0 <= k < ss.len() ==> (#[trigger] ss[k] matches Stmt::Let(l) ==> exists|j: int|
        lo <= j < ds.len() && let_local(l, ds[j]))
}

/// Locals that stay declared as they were keep the `let` statements
/// declared, from any earlier position on.
proof fn lemma_lets_declared_grow(ss: Seq<Stmt>, ds: Seq<LocalDecl>, lo: int, es: Seq<LocalDecl>, lo2: int)
    requires
        lets_declared(ss, ds, lo),
        0 <= lo,
        lo2 <= lo,
        ds.len() <= es.len(),
        forall|i: int| 0 <= i < ds.len() ==> #[trigger] es[i] == ds[i],
    ensures
        lets_declared(ss, es, lo2),
{
    assert forall|k: int| 0 <= k < ss.len() implies (#[trigger] ss[k] matches Stmt::Let(l) ==> exists|j: int|
        lo2 <= j < es.len() && let_local(l, es[j])) by {
        match ss[k] {
            Stmt::Let(l) => {
                let j = choose|j: int| lo <= j < ds.len() && let_local(l, ds[j]);
                assert(es[j] == ds[j]);
            },
            _ => {},
        }
    }
}

/// `o` is the value of the name `name` against locals `ds`: a copy of the
/// first local of that name, or the constant zero when there is none.
pub open spec fn named_operand(ds: Seq<LocalDecl>, name: Seq<char>, o: Operand) -> bool {
    match first_named_local(ds, name) {
        Some(i) => o matches Operand::Copy(p) && p.local == Local(i) && p.projection@.len() == 0,
        None => o == zero_operand(),
    }
}

pub open spec fn local_place(p: Place, l: u32) -> bool {
    p.local == Local(l) && p.projection@.len() == 0
}

/// `o` copies local `l`.
pub open spec fn copies_local(o: Operand, l: u32) -> bool {
    o matches Operand::Copy(p) && local_place(p, l)
}

/// `t` jumps to block `target`.
pub open spec fn jumps_to(t: Option<Terminator>, target: u32) -> bool {
    t matches Some(x) && x.kind == (TerminatorKind::Goto { target: BasicBlock(target) })
}

/// `t` switches on local `test`: `1` goes to `then`, anything else to
/// `otherwise`.
pub open spec fn switches_on(t: Option<Terminator>, test: u32, then: u32, otherwise: u32) -> bool {
    t matches Some(x) && x.kind matches TerminatorKind::SwitchInt { discr, targets, otherwise: o, .. } && copies_local(
        discr,
        test,
    ) && targets@ == seq![(1u128, BasicBlock(then))] && o == BasicBlock(otherwise)
}

/// The constant 1 of type `i64`.
pub open spec fn one_i64() -> Operand {
    Operand::Constant(Constant::Scalar(Scalar::Int(1, IntType::I64)))
}

/// The blocks of a lowered `for` over a range, whose loop local is `var`,
/// whose condition block is `cond` (the body follows it and the exit
/// follows the body): block `init` ends by assigning `start` to the loop
/// local and jumping to the condition; block `head` ends by comparing the
/// loop local with `end` into local `test` (`<=` when inclusive, `<`
/// otherwise) and switching on it to the body (on 1) or the exit; block
/// `last` ends by adding 1 to the loop local through local `inc` and
/// jumping back to the condition.
pub open spec fn for_range_lowered(
    bs: Seq<BasicBlockData>,
    var: u32,
    cond: u32,
    init: int,
    head: int,
    last: int,
    start: Operand,
    end: Operand,
    test: u32,
    inc: u32,
    inclusive: bool,
) -> bool {
    &&& 0 <= init < bs.len() && 0 <= head < bs.len() && 0 <= last < bs.len()
    &&& bs[init].statements@.len() > 0
    &&& bs[init].statements@.last() matches Statement::Assign(p, Rvalue::Use(v)) && local_place(p, var) && v == start
    &&& jumps_to(bs[init].terminator, cond)
    &&& bs[head].statements@.len() > 0
    &&& bs[head].statements@.last() matches Statement::Assign(p, Rvalue::BinaryOp(op, x, y)) && local_place(p, test)
        && op == (if inclusive { BinOp::Le } else { BinOp::Lt }) && copies_local(*x, var) && *y == end
    &&& switches_on(bs[head].terminator, test, (cond + 1) as u32, (cond + 2) as u32)
    &&& bs[last].statements@.len() >= 2
    &&& bs[last].statements@[bs[last].statements@.len() - 2] matches Statement::Assign(p, Rvalue::BinaryOp(op, x, y))
        && local_place(p, inc) && op == BinOp::Add && copies_local(*x, var) && *y == one_i64()
    &&& bs[last].statements@.last() matches Statement::Assign(p, Rvalue::Use(v)) && local_place(p, var) && copies_local(v, inc)
    &&& jumps_to(bs[last].terminator, cond)
}

/// The switch targets of a `match` whose arms start at `blocks`: the value
/// and block of each arm whose pattern is a literal with a value, in order.
pub open spec fn match_targets(arms: Seq<MatchArm>, blocks: Seq<BasicBlock>) -> Seq<(u128, BasicBlock)>
    decreases arms.len(),
{
    if arms.len() == 0 || blocks.len() == 0 {
        Seq::empty()
    } else {
        let rest = match_targets(arms.drop_last(), blocks.drop_last());
        match arms.last().pattern {
            Pattern::Literal(lit) => match literal_value(lit) {
                Some(v) => rest.push((v, blocks.last())),
                None => rest,
            },
            _ => rest,
        }
    }
}

/// Where a `match` goes when no literal matches: the block of its last arm
/// whose pattern is not a literal, else `end`.
pub open spec fn match_otherwise(arms: Seq<MatchArm>, blocks: Seq<BasicBlock>, end: BasicBlock) -> BasicBlock
    decreases arms.len(),
{
    if arms.len() == 0 || blocks.len() == 0 {
        end
    } else if arms.last().pattern is Literal {
        match_otherwise(arms.drop_last(), blocks.drop_last(), end)
    } else {
        blocks.last()
    }
}

/// A MIR body under construction, with the block that code is added to.
pub struct MirBuilder {
    body: MirBody,
    current_block: BasicBlock,
    local_counter: u32,
    block_counter: u32,
}

impl MirBuilder {
    /// The counters match the body, the current block exists, and every
    /// jump goes to an existing block.
    pub closed spec fn wf(&self) -> bool {
        &&& self.body.basic_blocks@.len() == self.block_counter
        &&& self.body.local_decls@.len() == self.local_counter
        &&& self.current_block.0 < self.block_counter
        &&& jumps_closed(self.body.basic_blocks@)
    }

    /// The body built so far.
    pub closed spec fn built(&self) -> MirBody {
        self.body
    }

    /// The block that code is added to.
    pub closed spec fn current(&self) -> BasicBlock {
        self.current_block
    }

    /// Room for `n` more locals and `n` more blocks.
    pub closed spec fn room(&self, n: nat) -> bool {
        self.local_counter + n < u32::MAX && self.block_counter + n < u32::MAX
    }

    /// `b` is `a` after adding at most `n` locals and `n` blocks: earlier
    /// locals keep their declarations, the argument count stays, and code
    /// went only to `a`'s current block (after its statements) and to new
    /// blocks: every other earlier block is unchanged, and the current block
    /// is `a`'s or a new one.
    pub closed spec fn grown(a: MirBuilder, b: MirBuilder, n: nat) -> bool {
        &&& a.local_counter <= b.local_counter <= a.local_counter + n
        &&& a.block_counter <= b.block_counter <= a.block_counter + n
        &&& b.body.arg_count == a.body.arg_count
        &&& a.body.local_decls@.len() <= b.body.local_decls@.len()
        &&& forall|i: int| 0 <= i < a.body.local_decls@.len() ==> #[trigger] b.body.local_decls@[i] == a.body.local_decls@[i]
        &&& Self::framed(a, b)
    }

    /// Code went only to `a`'s current block and to blocks that `a` did not
    /// have: every other block of `a` is unchanged, and the current block is
    /// `a`'s or a new one.
    pub closed spec fn framed(a: MirBuilder, b: MirBuilder) -> bool {
        &&& a.body.basic_blocks@.len() == a.block_counter
        &&& a.current_block.0 < a.block_counter
        &&& b.current_block == a.current_block || b.current_block.0 >= a.block_counter
        &&& a.body.basic_blocks@.len() <= b.body.basic_blocks@.len()
        &&& forall|i: int| 0 <= i < a.body.basic_blocks@.len() && i != a.current_block.0 ==> #[trigger] b.body.basic_blocks@[i]
            == a.body.basic_blocks@[i]
    }

    /// The last statement of `b`'s current block assigns local `n` the
    /// operation `op` on `lo` and `ro`, in that order.
    pub closed spec fn binary_statement(b: MirBuilder, op: BinOp, lo: Operand, ro: Operand, n: u32) -> bool {
        let ss = b.body.basic_blocks@[b.current_block.0 as int].statements@;
        &&& ss.len() > 0
        &&& ss.last() matches Statement::Assign(p, Rvalue::BinaryOp(k, x, y))
        &&& k == op && local_place(p, n) && *x == lo && *y == ro
    }

    /// `b` is `a` after lowering `e` to the operand `o`: for an operator
    /// with a MIR counterpart `op`, the current block ends with an
    /// assignment to a fresh local of `op` applied to the operand of the
    /// left side and the operand of the right side, in that order, and `o`
    /// copies that local; a literal side gives its constant and a name its
    /// local (the right side's name as the locals stand before lowering
    /// when the left side is a literal or a name).  An operator without a
    /// MIR counterpart gives the left side's value.
    pub closed spec fn lowered_binary(a: MirBuilder, b: MirBuilder, e: BinaryExpr, o: Operand) -> bool {
        match bin_op_of(e.op) {
            Some(op) => exists|lo: Operand, ro: Operand, n: u32| {
                &&& Self::binary_statement(b, op, lo, ro, n)
                &&& copies_local(o, n)
                &&& a.local_counter <= n < b.local_counter
                &&& *e.left matches Expr::Literal(v) ==> lo == literal_operand(v)
                &&& *e.right matches Expr::Literal(v) ==> ro == literal_operand(v)
                &&& *e.left matches Expr::Ident(i) ==> named_operand(a.body.local_decls@, i.name@, lo)
                &&& (*e.left is Literal || *e.left is Ident) ==> (*e.right matches Expr::Ident(i) ==> named_operand(a.body.local_decls@, i.name@, ro))
            },
            None => Self::value_of(a, *e.left, o),
        }
    }

    /// The last statement of `b`'s current block assigns local `n` the
    /// operation `op` on `eo`.
    pub closed spec fn unary_statement(b: MirBuilder, op: UnOp, eo: Operand, n: u32) -> bool {
        let ss = b.body.basic_blocks@[b.current_block.0 as int].statements@;
        &&& ss.len() > 0
        &&& ss.last() matches Statement::Assign(p, Rvalue::UnaryOp(k, x))
        &&& k == op && local_place(p, n) && *x == eo
    }

    /// `eo` is a value of `e` against `a`'s locals: a literal's constant, a
    /// name's local.
    pub closed spec fn value_of(a: MirBuilder, e: Expr, eo: Operand) -> bool {
        &&& e matches Expr::Literal(v) ==> eo == literal_operand(v)
        &&& e matches Expr::Ident(i) ==> named_operand(a.body.local_decls@, i.name@, eo)
    }

    /// `b` is `a` after lowering `e` to the operand `o`: a negation or a
    /// `!` ends the current block with an assignment to a fresh local of
    /// the same operation on the operand's value, and `o` copies that
    /// local; a dereference or a borrow gives the operand's value itself.
    pub closed spec fn lowered_unary(a: MirBuilder, b: MirBuilder, e: UnaryExpr, o: Operand) -> bool {
        match e.op {
            UnaryOp::Neg => exists|eo: Operand, n: u32| #![trigger Self::unary_statement(b, UnOp::Neg, eo, n)]
                Self::value_of(a, *e.expr, eo) && a.local_counter <= n < b.local_counter && copies_local(o, n)
                && Self::unary_statement(b, UnOp::Neg, eo, n),
            UnaryOp::Not => exists|eo: Operand, n: u32| #![trigger Self::unary_statement(b, UnOp::Not, eo, n)]
                Self::value_of(a, *e.expr, eo) && a.local_counter <= n < b.local_counter && copies_local(o, n)
                && Self::unary_statement(b, UnOp::Not, eo, n),
            _ => Self::value_of(a, *e.expr, o),
        }
    }

    /// Lowering `-x` or `!x` for an integer literal `x` computes it: the
    /// appended assignment's operation, folded, is the integer negation of
    /// `x`, or its bitwise complement `-x - 1`.
    pub proof fn law_unary_lowering_computes(a: MirBuilder, b: MirBuilder, e: UnaryExpr, o: Operand, x: i64)
        requires
            Self::lowered_unary(a, b, e, o),
            *e.expr == Expr::Literal(Literal::Integer(x)),
        ensures
            e.op == UnaryOp::Neg ==> (Self::last_statement(b) matches Some(Statement::Assign(_, rv))
                && fold_rvalue_spec(rv) == Some(Constant::Scalar(Scalar::Int((-x) as i128, IntType::I64)))),
            e.op == UnaryOp::Not ==> (Self::last_statement(b) matches Some(Statement::Assign(_, rv))
                && fold_rvalue_spec(rv) matches Some(Constant::Scalar(Scalar::Int(v, t))) && v == -x - 1 && t == IntType::I64),
    {
        let w = x as i128;
        assert(!w == -w - 1) by (bit_vector);
        if e.op == UnaryOp::Neg {
            let (eo, n) = choose|eo: Operand, n: u32| #![trigger Self::unary_statement(b, UnOp::Neg, eo, n)]
                Self::value_of(a, *e.expr, eo) && a.local_counter <= n < b.local_counter && copies_local(o, n)
                && Self::unary_statement(b, UnOp::Neg, eo, n);
            assert(eo == Operand::Constant(Constant::Scalar(Scalar::Int(w, IntType::I64))));
        } else if e.op == UnaryOp::Not {
            let (eo, n) = choose|eo: Operand, n: u32| #![trigger Self::unary_statement(b, UnOp::Not, eo, n)]
                Self::value_of(a, *e.expr, eo) && a.local_counter <= n < b.local_counter && copies_local(o, n)
                && Self::unary_statement(b, UnOp::Not, eo, n);
            assert(eo == Operand::Constant(Constant::Scalar(Scalar::Int(w, IntType::I64))));
        }
    }

    /// The last statement of the current block, if any.
    pub closed spec fn last_statement(b: MirBuilder) -> Option<Statement> {
        let ss = b.body.basic_blocks@[b.current_block.0 as int].statements@;
        if ss.len() > 0 { Some(ss.last()) } else { None }
    }

    /// Lowering `x op y` for two integer literals keeps the operands in
    /// order: the appended assignment's operation, folded, is the integer
    /// sum, difference, product or comparison of `x` and `y` in that order.
    pub proof fn law_binary_lowering_computes(a: MirBuilder, b: MirBuilder, e: BinaryExpr, o: Operand, x: i64, y: i64)
        requires
            Self::lowered_binary(a, b, e, o),
            *e.left == Expr::Literal(Literal::Integer(x)),
            *e.right == Expr::Literal(Literal::Integer(y)),
        ensures
            bin_op_of(e.op) is Some ==> (Self::last_statement(b) matches Some(Statement::Assign(_, rv)) && {
                let v = fold_rvalue_spec(rv);
                &&& e.op == BinaryOp::Sub ==> v == Some(Constant::Scalar(Scalar::Int((x - y) as i128, IntType::I64)))
                &&& e.op == BinaryOp::Add ==> v == Some(Constant::Scalar(Scalar::Int((x + y) as i128, IntType::I64)))
                &&& e.op == BinaryOp::Lt ==> v == Some(Constant::Scalar(Scalar::Int(if x < y { 1i128 } else { 0i128 }, IntType::I64)))
                &&& e.op == BinaryOp::Gt ==> v == Some(Constant::Scalar(Scalar::Int(if y < x { 1i128 } else { 0i128 }, IntType::I64)))
            }),
    {
        if let Some(op) = bin_op_of(e.op) {
            let (lo, ro, n) = choose|lo: Operand, ro: Operand, n: u32| {
                &&& Self::binary_statement(b, op, lo, ro, n)
                &&& copies_local(o, n)
                &&& a.local_counter <= n < b.local_counter
                &&& *e.left matches Expr::Literal(v) ==> lo == literal_operand(v)
                &&& *e.right matches Expr::Literal(v) ==> ro == literal_operand(v)
                &&& *e.left matches Expr::Ident(i) ==> named_operand(a.body.local_decls@, i.name@, lo)
                &&& (*e.left is Literal || *e.left is Ident) ==> (*e.right matches Expr::Ident(i) ==> named_operand(a.body.local_decls@, i.name@, ro))
            };
            assert(lo == Operand::Constant(Constant::Scalar(Scalar::Int(x as i128, IntType::I64))));
            assert(ro == Operand::Constant(Constant::Scalar(Scalar::Int(y as i128, IntType::I64))));
        }
    }

    proof fn lemma_grown_trans(a: MirBuilder, b: MirBuilder, c: MirBuilder, n: nat, m: nat)
        requires
            Self::grown(a, b, n),
            Self::grown(b, c, m),
        ensures
            Self::grown(a, c, n + m),
    {
        assert forall|i: int| 0 <= i < a.body.local_decls@.len() implies #[trigger] c.body.local_decls@[i]
            == a.body.local_decls@[i] by {
            assert(b.body.local_decls@[i] == a.body.local_decls@[i]);
        }
        Self::lemma_framed_trans(a, b, c);
    }

    proof fn lemma_framed_trans(a: MirBuilder, b: MirBuilder, c: MirBuilder)
        requires
            Self::framed(a, b),
            Self::framed(b, c),
            a.block_counter <= b.block_counter,
        ensures
            Self::framed(a, c),
    {
        assert forall|i: int| 0 <= i < a.body.basic_blocks@.len() && i != a.current_block.0 implies #[trigger] c.body.basic_blocks@[i]
            == a.body.basic_blocks@[i] by {
            assert(b.body.basic_blocks@[i] == a.body.basic_blocks@[i]);
        }
    }

    /// A step that left every block as it was.
    proof fn lemma_framed_same(a: MirBuilder, b: MirBuilder)
        requires
            a.wf(),
            b.body.basic_blocks == a.body.basic_blocks,
            b.current_block == a.current_block,
        ensures
            Self::framed(a, b),
    {
    }

    /// Moving to a block that `a` did not have keeps `b` grown from `a`.
    proof fn lemma_grown_jump(a: MirBuilder, b: MirBuilder, c: MirBuilder, n: nat)
        requires
            Self::grown(a, b, n),
            c.body == b.body,
            c.local_counter == b.local_counter,
            c.block_counter == b.block_counter,
            c.current_block.0 >= a.block_counter,
        ensures
            Self::grown(a, c, n),
    {
    }

    proof fn lemma_grown_more(a: MirBuilder, b: MirBuilder, n: nat, m: nat)
        requires
            Self::grown(a, b, n),
            n <= m,
        ensures
            Self::grown(a, b, m),
    {
    }

    /// A builder for a function of `arg_count` arguments: the return local
    /// `_0`, one local per argument (all of unit type), and an empty entry
    /// block that is current.
    pub fn new(arg_count: usize, span: Span) -> (b: Self)
        requires
            arg_count + 1 < u32::MAX,
        ensures
            b.wf(),
            b.built().arg_count == arg_count,
            b.built().local_decls@.len() == arg_count + 1,
            !b.built().local_decls@[0].is_arg,
            b.built().local_decls@[0].ty is Unit,
            forall|i: int| 1 <= i <= arg_count ==> (#[trigger] b.built().local_decls@[i]).is_arg
                && b.built().local_decls@[i].ty is Unit && b.built().local_decls@[i].name is None,
            b.built().basic_blocks@.len() == 1,
            b.built().basic_blocks@[0].statements@.len() == 0,
            b.built().basic_blocks@[0].terminator is None,
            b.current().0 == 0,
    {
        let mut body = MirBody::new(arg_count, crate::ast::clone_span(&span));
        body.push_local(LocalDecl::new(Type::Unit, crate::ast::clone_span(&span)));
        let mut i: usize = 0;
        while i < arg_count
            invariant
                i <= arg_count,
                arg_count + 1 < u32::MAX,
                body.local_decls@.len() == i + 1,
                body.basic_blocks@.len() == 0,
                body.arg_count == arg_count,
                !body.local_decls@[0].is_arg,
                body.local_decls@[0].ty is Unit,
                forall|j: int| 1 <= j <= i ==> (#[trigger] body.local_decls@[j]).is_arg && body.local_decls@[j].ty is Unit
                    && body.local_decls@[j].name is None,
            decreases arg_count - i,
        {
            body.push_local(LocalDecl::new(Type::Unit, crate::ast::clone_span(&span)).arg());
            i += 1;
        }
        let entry_block = body.push_block(BasicBlockData::new());
        let b = MirBuilder {
            body,
            current_block: entry_block,
            local_counter: (arg_count + 1) as u32,
            block_counter: 1,
        };
        proof {
            lemma_closed_push(Seq::empty(), b.body.basic_blocks@[0]);
            assert(b.body.basic_blocks@ =~= Seq::<BasicBlockData>::empty().push(b.body.basic_blocks@[0]));
        }
        b
    }

    /// A new local of type `ty`.
    fn new_local(&mut self, ty: Type) -> (l: Local)
        requires
            old(self).wf(),
            old(self).room(1),
        ensures
            final(self).wf(),
            Self::grown(*old(self), *final(self), 1),
            l.0 == old(self).local_counter,
            final(self).local_counter == old(self).local_counter + 1,
            final(self).block_counter == old(self).block_counter,
            final(self).body.local_decls@[l.0 as int].ty == ty,
            final(self).body.local_decls@[l.0 as int].name is None,
            final(self).body.basic_blocks == old(self).body.basic_blocks,
            final(self).current_block == old(self).current_block,
    {
        let ghost s0 = *self;
        let local = Local(self.local_counter);
        self.local_counter = self.local_counter + 1;
        self.body.push_local(LocalDecl::new(ty, 0..0));
        proof {
            Self::lemma_framed_same(s0, *self);
        }
        local
    }

    /// A new empty block.
    fn new_block(&mut self) -> (b: BasicBlock)
        requires
            old(self).wf(),
            old(self).room(1),
        ensures
            final(self).wf(),
            Self::grown(*old(self), *final(self), 1),
            b.0 == old(self).block_counter,
            final(self).block_counter == old(self).block_counter + 1,
            final(self).local_counter == old(self).local_counter,
            final(self).body.local_decls == old(self).body.local_decls,
            final(self).current_block == old(self).current_block,
            final(self).body.basic_blocks@.len() == old(self).body.basic_blocks@.len() + 1,
            forall|i: int| 0 <= i < old(self).body.basic_blocks@.len() ==> #[trigger] final(self).body.basic_blocks@[i]
                == old(self).body.basic_blocks@[i],
            final(self).body.basic_blocks@[b.0 as int].terminator is None,
            final(self).body.basic_blocks@[b.0 as int].statements@.len() == 0,
    {
        let block = BasicBlock(self.block_counter);
        let ghost s0 = *self;
        self.block_counter = self.block_counter + 1;
        let ghost bs = self.body.basic_blocks@;
        let data = BasicBlockData::new();
        self.body.push_block(data);
        proof {
            lemma_closed_push(bs, data);
        }
        block
    }

    /// Appends a statement to the current block.
    fn push_stmt(&mut self, stmt: Statement)
        requires
            old(self).wf(),
        ensures
            final(self).wf(),
            Self::grown(*old(self), *final(self), 0),
            final(self).local_counter == old(self).local_counter,
            final(self).block_counter == old(self).block_counter,
            final(self).current_block == old(self).current_block,
            final(self).body.local_decls == old(self).body.local_decls,
            final(self).body.basic_blocks@[old(self).current_block.0 as int].statements@ == old(self).body.basic_blocks@[old(self).current_block.0 as int].statements@.push(stmt),
            final(self).body.basic_blocks@[old(self).current_block.0 as int].terminator == old(self).body.basic_blocks@[old(self).current_block.0 as int].terminator,
            forall|i: int| 0 <= i < old(self).body.basic_blocks@.len() && i != old(self).current_block.0 ==> #[trigger] final(self).body.basic_blocks@[i] == old(self).body.basic_blocks@[i],
    {
        let ghost bs = self.body.basic_blocks@;
        let c = self.current_block;
        self.body.basic_block_mut(c).push_stmt(stmt);
        proof {
            lemma_closed_update(bs, c.0 as int, self.body.basic_blocks@[c.0 as int]);
        }
    }

    /// Ends the current block with `term`, whose jumps go to existing blocks.
    fn set_terminator(&mut self, term: Terminator)
        requires
            old(self).wf(),
            jumps_below(Some(term), old(self).block_counter as nat),
        ensures
            final(self).wf(),
            Self::grown(*old(self), *final(self), 0),
            final(self).local_counter == old(self).local_counter,
            final(self).block_counter == old(self).block_counter,
            final(self).current_block == old(self).current_block,
            final(self).body.local_decls == old(self).body.local_decls,
            final(self).body.basic_blocks@[old(self).current_block.0 as int].terminator == Some(term),
            final(self).body.basic_blocks@[old(self).current_block.0 as int].statements@ == old(self).body.basic_blocks@[old(self).current_block.0 as int].statements@,
            forall|i: int| 0 <= i < old(self).body.basic_blocks@.len() && i != old(self).current_block.0 ==> #[trigger] final(self).body.basic_blocks@[i] == old(self).body.basic_blocks@[i],
    {
        let ghost bs = self.body.basic_blocks@;
        let c = self.current_block;
        self.body.basic_block_mut(c).set_terminator(term);
        proof {
            lemma_closed_update(bs, c.0 as int, self.body.basic_blocks@[c.0 as int]);
        }
    }

    /// Ends the current block with a jump to `target`.
    fn goto(&mut self, target: BasicBlock)
        requires
            old(self).wf(),
            target.0 < old(self).block_counter,
        ensures
            final(self).wf(),
            Self::grown(*old(self), *final(self), 0),
            final(self).local_counter == old(self).local_counter,
            final(self).block_counter == old(self).block_counter,
            final(self).current_block == old(self).current_block,
            final(self).body.basic_blocks@[old(self).current_block.0 as int].terminator == Some(
                Terminator { kind: TerminatorKind::Goto { target }, span: Span { start: 0, end: 0 } },
            ),
            final(self).body.basic_blocks@[old(self).current_block.0 as int].statements@ == old(self).body.basic_blocks@[old(self).current_block.0 as int].statements@,
    {
        let t = Terminator { kind: TerminatorKind::Goto { target }, span: 0..0 };
        proof {
            assert(flow_successors(Some(t)) =~= seq![target]);
        }
        self.set_terminator(t);
    }

    /// Ends the current block with a switch on `discr`: `1` goes to `then`,
    /// anything else to `otherwise`.
    fn switch_bool(&mut self, discr: Operand, then: BasicBlock, otherwise: BasicBlock)
        requires
            old(self).wf(),
            then.0 < old(self).block_counter,
            otherwise.0 < old(self).block_counter,
        ensures
            final(self).wf(),
            Self::grown(*old(self), *final(self), 0),
            final(self).local_counter == old(self).local_counter,
            final(self).block_counter == old(self).block_counter,
            final(self).current_block == old(self).current_block,
            final(self).body.basic_blocks@[old(self).current_block.0 as int].terminator matches Some(t) && t.kind matches
                TerminatorKind::SwitchInt { discr: d, targets, otherwise: o, .. } && d == discr && targets@ == seq![(1u128, then)] && o == otherwise,
            final(self).body.basic_blocks@[old(self).current_block.0 as int].statements@ == old(self).body.basic_blocks@[old(self).current_block.0 as int].statements@,
    {
        let mut targets: Vec<(u128, BasicBlock)> = Vec::new();
        targets.push((1, then));
        let t = Terminator {
            kind: TerminatorKind::SwitchInt { discr, switch_ty: Type::Path(simple_path("bool")), targets, otherwise },
            span: 0..0,
        };
        proof {
            assert(targets@ =~= seq![(1u128, then)]);
            assert(flow_successors(Some(t)) =~= seq![then, otherwise]);
        }
        self.set_terminator(t);
    }

    /// The operand of a literal: integers as `i64`, floats as `f64` bits,
    /// booleans as `i8` 0 or 1, characters as `i32` codes, null as 0, and a
    /// string as the zero-sized constant.
    fn build_literal(&mut self, lit: &Literal) -> (o: Operand)
        ensures
            o == literal_operand(*lit),
            *final(self) == *old(self),
    {
        let scalar = match lit {
            Literal::Integer(n) => Scalar::Int(*n as i128, IntType::I64),
            Literal::Float(f) => Scalar::Float(*f, FloatType::F64),
            Literal::Bool(b) => Scalar::Int(if *b { 1 } else { 0 }, IntType::I8),
            Literal::Char(c) => Scalar::Int((*c as u32) as i128, IntType::I32),
            Literal::String(_) => {
                return Operand::Constant(Constant::ZST);
            },
            Literal::Null => Scalar::Int(0, IntType::I64),
        };
        Operand::Constant(Constant::Scalar(scalar))
    }

    /// The index of the first local named `ident`.
    fn find_local(&self, ident: &Ident) -> (r: Option<u32>)
        requires
            self.wf(),
        ensures
            r == first_named_local(self.body.local_decls@, ident.name@),
    {
        let n = self.body.local_decls.len();
        let mut i: usize = 0;
        while i < n
            invariant
                n == self.body.local_decls@.len(),
                n == self.local_counter,
                i <= n,
                forall|j: int| 0 <= j < i ==> !(#[trigger] self.body.local_decls@[j].name matches Some(x) && x.name@
                    == ident.name@),
            decreases n - i,
        {
            match &self.body.local_decls[i].name {
                Some(name) => {
                    if name.same_as(ident) {
                        proof {
                            lemma_first_named_at(self.body.local_decls@, ident.name@, i as int);
                        }
                        return Some(i as u32);
                    }
                },
                None => {},
            }
            i += 1;
        }
        proof {
            lemma_first_named_none(self.body.local_decls@, ident.name@);
        }
        None
    }

    /// A read of the first local named `ident`, else the constant zero.
    fn build_ident(&mut self, ident: &Ident) -> (o: Operand)
        requires
            old(self).wf(),
        ensures
            *final(self) == *old(self),
            match first_named_local(old(self).body.local_decls@, ident.name@) {
                Some(i) => o matches Operand::Copy(p) && p.local == Local(i) && p.projection@.len() == 0,
                None => o == zero_operand(),
            },
    {
        match self.find_local(ident) {
            Some(i) => Operand::Copy(Place::from_local(Local(i))),
            None => zero(),
        }
    }

    /// The place an assignment writes: the first local named by an
    /// identifier or a one-segment path, else the return place `_0`.
    fn build_place(&mut self, expr: &Expr) -> (p: Place)
        requires
            old(self).wf(),
        ensures
            *final(self) == *old(self),
            p.projection@.len() == 0,
            p.local == Local(match place_target(*expr) {
                Some(n) => match first_named_local(old(self).body.local_decls@, n) {
                    Some(i) => i,
                    None => 0,
                },
                None => 0,
            }),
    {
        match expr {
            Expr::Ident(ident) => match self.find_local(ident) {
                Some(i) => Place::from_local(Local(i)),
                None => Place::from_local(Local(0)),
            },
            Expr::Path(path) => {
                if path.segments.len() == 1 {
                    match self.find_local(&path.segments[0].ident) {
                        Some(i) => Place::from_local(Local(i)),
                        None => Place::from_local(Local(0)),
                    }
                } else {
                    Place::from_local(Local(0))
                }
            },
            _ => Place::from_local(Local(0)),
        }
    }

    /// The switch value of a literal pattern (see `literal_value`).
    fn literal_to_u128(&self, lit: &Literal) -> (r: Option<u128>)
        ensures
            r == literal_value(*lit),
    {
        match lit {
            Literal::Integer(n) => Some(*n as u128),
            Literal::Bool(b) => Some(if *b { 1 } else { 0 }),
            Literal::Char(c) => Some(*c as u128),
            _ => None,
        }
    }

    /// The switch type of a scrutinee: `i64`, `bool` or `char` for an
    /// integer, boolean or character literal, unit otherwise.
    fn infer_expr_type(&self, expr: &Expr) -> (t: Type)
        ensures
            match switch_type_name(*expr) {
                Some(n) => t matches Type::Path(p) && p.segments@.len() == 1 && p.segments@[0].ident.name@ == n
                    && p.segments@[0].generics@.len() == 0,
                None => t is Unit,
            },
    {
        match expr {
            Expr::Literal(lit) => match lit {
                Literal::Integer(_) => Type::Path(simple_path("i64")),
                Literal::Bool(_) => Type::Path(simple_path("bool")),
                Literal::Char(_) => Type::Path(simple_path("char")),
                _ => Type::Unit,
            },
            _ => Type::Unit,
        }
    }
    /// Gives local `l` the name `name`.
    fn name_local(&mut self, l: u32, name: Ident)
        requires
            old(self).wf(),
            l < old(self).local_counter,
        ensures
            final(self).wf(),
            final(self).local_counter == old(self).local_counter,
            final(self).block_counter == old(self).block_counter,
            final(self).current_block == old(self).current_block,
            final(self).body.basic_blocks == old(self).body.basic_blocks,
            final(self).body.arg_count == old(self).body.arg_count,
            final(self).body.local_decls@.len() == old(self).body.local_decls@.len(),
            final(self).body.local_decls@[l as int].name == Some(name),
            final(self).body.local_decls@[l as int].ty == old(self).body.local_decls@[l as int].ty,
            forall|i: int| 0 <= i < old(self).body.local_decls@.len() && i != l ==> #[trigger] final(self).body.local_decls@[i]
                == old(self).body.local_decls@[i],
    {
        self.body.local_decls[l as usize].name = Some(name);
    }

    /// A fresh local of unit type, as a place.
    fn create_temp_place(&mut self) -> (p: Place)
        requires
            old(self).wf(),
            old(self).room(1),
        ensures
            final(self).wf(),
            Self::grown(*old(self), *final(self), 1),
            final(self).current_block == old(self).current_block,
            p.local.0 == old(self).local_counter,
            p.projection@.len() == 0,
    {
        let local = self.new_local(Type::Unit);
        Place::from_local(local)
    }

    /// Lowers the statements of a block in order.
    fn build_block(&mut self, block: &Block)
        requires
            old(self).wf(),
            old(self).room(block_cost(*block)),
        ensures
            final(self).wf(),
            Self::grown(*old(self), *final(self), block_cost(*block)),
            block.stmts@.len() == 0 ==> *final(self) == *old(self),
            lets_declared(block.stmts@, final(self).built().local_decls@, old(self).built().local_decls@.len() as int),
        decreases block,
    {
        let ghost s0 = *self;
        let mut i: usize = 0;
        while i < block.stmts.len()
            invariant
                i <= block.stmts@.len(),
                self.wf(),
                s0.room(block_cost(*block)),
                Self::grown(s0, *self, stmts_cost(block.stmts@.take(i as int))),
                stmts_cost(block.stmts@.take(i as int)) <= block_cost(*block),
                block.stmts@.len() == 0 ==> *self == s0,
                lets_declared(block.stmts@.take(i as int), self.body.local_decls@, s0.body.local_decls@.len() as int),
            decreases block.stmts@.len() - i,
        {
            proof {
                lemma_stmts_cost_step(block.stmts@, i as int);
                lemma_stmts_cost_prefix(block.stmts@, i as int + 1);
            }
            let ghost s1 = *self;
            assert(decreases_to!(block => block.stmts@[i as int]));
            self.build_stmt(&block.stmts[i]);
            proof {
                Self::lemma_grown_trans(s0, s1, *self, stmts_cost(block.stmts@.take(i as int)), stmt_cost(block.stmts@[i as int]));
                let ss = block.stmts@.take(i + 1);
                lemma_lets_declared_grow(block.stmts@.take(i as int), s1.body.local_decls@, s0.body.local_decls@.len() as int, self.body.local_decls@, s0.body.local_decls@.len() as int);
                assert forall|k: int| 0 <= k < ss.len() implies (#[trigger] ss[k] matches Stmt::Let(l) ==> exists|j: int|
                    s0.body.local_decls@.len() <= j < self.body.local_decls@.len() && let_local(l, self.body.local_decls@[j])) by {
                    if k < i {
                        assert(ss[k] == block.stmts@.take(i as int)[k]);
                    }
                }
            }
            i += 1;
        }
        proof {
            assert(block.stmts@.take(i as int) =~= block.stmts@);
        }
    }

    /// Lowers a statement: a `let` declares a local (named after the
    /// pattern's binding) and assigns it its initializer; an expression is
    /// lowered for its effects; a nested function's body is lowered in place.
    fn build_stmt(&mut self, stmt: &Stmt)
        requires
            old(self).wf(),
            old(self).room(stmt_cost(*stmt)),
        ensures
            final(self).wf(),
            Self::grown(*old(self), *final(self), stmt_cost(*stmt)),
            *stmt matches Stmt::Let(l) ==> exists|j: int| old(self).built().local_decls@.len() <= j < final(self).built().local_decls@.len()
                && let_local(l, final(self).built().local_decls@[j]),
            *stmt matches Stmt::Let(l) ==> (l.init matches Some(Expr::Literal(v)) ==> (Self::last_statement(*final(self))
                matches Some(Statement::Assign(p, Rvalue::Use(x))) && local_place(p, old(self).local_counter)
                && x == literal_operand(v))),
        decreases stmt,
    {
        let ghost s0 = *self;
        match stmt {
            Stmt::Let(l) => {
                let ty = match &l.ty {
                    Some(t) => t.deep_clone(),
                    None => Type::Unit,
                };
                let local = self.new_local(ty);
                let name = match &l.pattern {
                    Pattern::Ident(i) => Some(i.clone()),
                    Pattern::Binding(i, _) => Some(i.clone()),
                    _ => None,
                };
                match name {
                    Some(n) => {
                        self.name_local(local.0, n);
                    },
                    None => {},
                }
                let ghost s1 = *self;
                proof {
                    assert(Self::grown(s0, s1, 1));
                    assert(let_local(*l, s1.body.local_decls@[local.0 as int]));
                }
                match &l.init {
                    Some(init) => {
                        let operand = self.build_expr(init);
                        let ghost s2 = *self;
                        let target = Place::from_local(local);
                        proof {
                            assert(local_place(target, s0.local_counter));
                        }
                        self.push_stmt(Statement::Assign(target, Rvalue::Use(operand)));
                        proof {
                            Self::lemma_grown_trans(s0, s1, *self, 1, expr_cost(*init));
                            assert(s2.body.local_decls@[local.0 as int] == s1.body.local_decls@[local.0 as int]);
                            assert(self.body.local_decls@[local.0 as int] == s2.body.local_decls@[local.0 as int]);
                        }
                    },
                    None => {},
                }
                proof {
                    assert(self.body.local_decls@[local.0 as int] == s1.body.local_decls@[local.0 as int]);
                    assert(let_local(*l, self.body.local_decls@[local.0 as int]));
                    assert(s0.body.local_decls@.len() <= local.0 < self.body.local_decls@.len());
                    assert(let_local(*l, self.built().local_decls@[local.0 as int]));
                }
            },
            Stmt::Expr(e) => {
                let _ = self.build_expr(e);
            },
            Stmt::Item(Item::Function(f)) => {
                self.build_block(&f.body);
            },
            Stmt::Item(_) => {},
        }
    }

    /// Lowers the expressions of a list in order and gives their operands.
    fn build_exprs(&mut self, es: &Vec<Expr>) -> (ops: Vec<Operand>)
        requires
            old(self).wf(),
            old(self).room(exprs_cost(es@)),
        ensures
            final(self).wf(),
            Self::grown(*old(self), *final(self), exprs_cost(es@)),
            ops@.len() == es@.len(),
        decreases es,
    {
        let ghost s0 = *self;
        let mut ops: Vec<Operand> = Vec::new();
        let mut i: usize = 0;
        while i < es.len()
            invariant
                i <= es@.len(),
                ops@.len() == i,
                self.wf(),
                s0.room(exprs_cost(es@)),
                Self::grown(s0, *self, exprs_cost(es@.take(i as int))),
            decreases es@.len() - i,
        {
            proof {
                lemma_exprs_cost_step(es@, i as int);
                lemma_exprs_cost_prefix(es@, i as int + 1);
            }
            let ghost s1 = *self;
            assert(decreases_to!(es => es@[i as int]));
            let o = self.build_expr(&es[i]);
            ops.push(o);
            proof {
                Self::lemma_grown_trans(s0, s1, *self, exprs_cost(es@.take(i as int)), expr_cost(es@[i as int]));
            }
            i += 1;
        }
        proof {
            assert(es@.take(i as int) =~= es@);
        }
        ops
    }

    /// Lowers the field initializers of a list in order and gives their
    /// operands.
    fn build_field_values(&mut self, fs: &Vec<(Ident, Expr)>) -> (ops: Vec<Operand>)
        requires
            old(self).wf(),
            old(self).room(fields_cost(fs@)),
        ensures
            final(self).wf(),
            Self::grown(*old(self), *final(self), fields_cost(fs@)),
            ops@.len() == fs@.len(),
        decreases fs,
    {
        let ghost s0 = *self;
        let mut ops: Vec<Operand> = Vec::new();
        let mut i: usize = 0;
        while i < fs.len()
            invariant
                i <= fs@.len(),
                ops@.len() == i,
                self.wf(),
                s0.room(fields_cost(fs@)),
                Self::grown(s0, *self, fields_cost(fs@.take(i as int))),
            decreases fs@.len() - i,
        {
            proof {
                lemma_fields_cost_step(fs@, i as int);
                lemma_fields_cost_prefix(fs@, i as int + 1);
            }
            let ghost s1 = *self;
            assert(decreases_to!(fs => fs@[i as int]));
            let o = self.build_expr(&fs[i].1);
            ops.push(o);
            proof {
                Self::lemma_grown_trans(s0, s1, *self, fields_cost(fs@.take(i as int)), expr_cost(fs@[i as int].1));
            }
            i += 1;
        }
        proof {
            assert(fs@.take(i as int) =~= fs@);
        }
        ops
    }

    /// Lowers an expression into the current block and gives the operand
    /// that holds its value.
    fn build_expr(&mut self, expr: &Expr) -> (o: Operand)
        requires
            old(self).wf(),
            old(self).room(expr_cost(*expr)),
        ensures
            final(self).wf(),
            Self::grown(*old(self), *final(self), expr_cost(*expr)),
            match *expr {
                Expr::Literal(lit) => o == literal_operand(lit) && *final(self) == *old(self),
                Expr::Ident(i) => named_operand(old(self).built().local_decls@, i.name@, o) && *final(self) == *old(self),
                Expr::Path(p) => *final(self) == *old(self) && if p.segments@.len() == 1 {
                    named_operand(old(self).built().local_decls@, p.segments@[0].ident.name@, o)
                } else {
                    o == zero_operand()
                },
                Expr::PathCall(_, _) => o == zero_operand(),
                Expr::Binary(b) => Self::lowered_binary(*old(self), *final(self), b, o),
                Expr::Unary(u) => Self::lowered_unary(*old(self), *final(self), u, o),
                Expr::Break(_) => o == zero_operand() && *final(self) == *old(self),
                Expr::Continue => o == zero_operand() && *final(self) == *old(self),
                Expr::Closure(_) => o == zero_operand() && *final(self) == *old(self),
                Expr::Block(b) => o == zero_operand()
                    && lets_declared(b.stmts@, final(self).built().local_decls@, old(self).built().local_decls@.len() as int),
                Expr::Async(b) => o == zero_operand()
                    && lets_declared(b.stmts@, final(self).built().local_decls@, old(self).built().local_decls@.len() as int),
                Expr::Unsafe(b) => o == zero_operand()
                    && lets_declared(b.stmts@, final(self).built().local_decls@, old(self).built().local_decls@.len() as int),
                Expr::If(i) => o == zero_operand()
                    && lets_declared(i.then_branch.stmts@, final(self).built().local_decls@, old(self).built().local_decls@.len() as int),
                Expr::While(w) => o == zero_operand()
                    && lets_declared(w.body.stmts@, final(self).built().local_decls@, old(self).built().local_decls@.len() as int),
                Expr::Loop(l) => o == zero_operand()
                    && lets_declared(l.body.stmts@, final(self).built().local_decls@, old(self).built().local_decls@.len() as int),
                Expr::For(f) => o == zero_operand()
                    && lets_declared(f.body.stmts@, final(self).built().local_decls@, old(self).built().local_decls@.len() as int),
                _ => true,
            },
        decreases expr,
    {
        match expr {
            Expr::Literal(lit) => self.build_literal(lit),
            Expr::Ident(ident) => self.build_ident(ident),
            Expr::Path(path) => {
                if path.segments.len() == 1 {
                    self.build_ident(&path.segments[0].ident)
                } else {
                    zero()
                }
            },
            Expr::PathCall(_, args) => {
                let _ = self.build_exprs(args);
                zero()
            },
            Expr::Binary(b) => self.build_binary(b),
            Expr::Unary(u) => self.build_unary(u),
            Expr::Call(c) => self.build_call(c),
            Expr::Block(b) => {
                self.build_block(b);
                zero()
            },
            Expr::If(i) => self.build_if(i),
            Expr::While(w) => self.build_while(w),
            Expr::Loop(l) => self.build_loop(l),
            Expr::For(f) => self.build_for(f),
            Expr::Return(r) => self.build_return(r),
            Expr::Assign(a) => self.build_assign(a),
            Expr::FieldAccess(f) => self.build_field_access(f),
            Expr::StructInit(s) => self.build_struct_init(s),
            Expr::ArrayInit(a) => self.build_array_init(a),
            Expr::Index(i) => self.build_index(i),
            Expr::MethodCall(m) => self.build_method_call(m),
            Expr::Closure(c) => self.build_closure(c),
            Expr::Match(m) => self.build_match(m),
            Expr::Break(_) => zero(),
            Expr::Continue => zero(),
            Expr::Async(b) => {
                self.build_block(b);
                zero()
            },
            Expr::Await(e) => self.build_expr(e),
            Expr::Unsafe(b) => {
                self.build_block(b);
                zero()
            },
            _ => zero(),
        }
    }

    /// A closure is not lowered: its value is the constant zero.
    fn build_closure(&mut self, closure: &ClosureExpr) -> (o: Operand)
        ensures
            o == zero_operand(),
            *final(self) == *old(self),
    {
        zero()
    }

    /// `left op right` into a fresh local; `=` and `|>` give the left operand.
    fn build_binary(&mut self, binary: &BinaryExpr) -> (o: Operand)
        requires
            old(self).wf(),
            old(self).room(4 + expr_cost(*binary.left) + expr_cost(*binary.right)),
        ensures
            final(self).wf(),
            Self::grown(*old(self), *final(self), 4 + expr_cost(*binary.left) + expr_cost(*binary.right)),
            Self::lowered_binary(*old(self), *final(self), *binary, o),
        decreases binary,
    {
        let ghost s0 = *self;
        let left = self.build_expr(&binary.left);
        let ghost s1 = *self;
        let right = self.build_expr(&binary.right);
        let ghost s2 = *self;
        let ghost lo = left;
        let ghost ro = right;
        let result_local = self.new_local(Type::Unit);
        proof {
            Self::lemma_grown_trans(s0, s1, s2, expr_cost(*binary.left), expr_cost(*binary.right));
            Self::lemma_grown_trans(s0, s2, *self, expr_cost(*binary.left) + expr_cost(*binary.right), 1);
        }
        let result_place = Place::from_local(result_local);
        match map_binary_op(binary.op) {
            Some(op) => {
                let ghost s3 = *self;
                let target = result_place.copy();
                proof {
                    assert(local_place(target, result_local.0));
                }
                self.push_stmt(Statement::Assign(target, Rvalue::BinaryOp(op, Box::new(left), Box::new(right))));
                proof {
                    Self::lemma_grown_trans(s0, s3, *self, expr_cost(*binary.left) + expr_cost(*binary.right) + 1, 0);
                    assert(Self::binary_statement(*self, op, lo, ro, result_local.0));
                }
                Operand::Copy(result_place)
            },
            None => left,
        }
    }

    /// `op operand` into a fresh local; dereference and borrows give the
    /// operand itself.
    fn build_unary(&mut self, unary: &UnaryExpr) -> (o: Operand)
        requires
            old(self).wf(),
            old(self).room(4 + expr_cost(*unary.expr)),
        ensures
            final(self).wf(),
            Self::grown(*old(self), *final(self), 4 + expr_cost(*unary.expr)),
            Self::lowered_unary(*old(self), *final(self), *unary, o),
        decreases unary,
    {
        let ghost s0 = *self;
        let e = self.build_expr(&unary.expr);
        let ghost s1 = *self;
        let ghost eo = e;
        let result_local = self.new_local(Type::Unit);
        proof {
            Self::lemma_grown_trans(s0, s1, *self, expr_cost(*unary.expr), 1);
        }
        let result_place = Place::from_local(result_local);
        let op = match unary.op {
            UnaryOp::Neg => UnOp::Neg,
            UnaryOp::Not => UnOp::Not,
            _ => {
                return e;
            },
        };
        let ghost s2 = *self;
        let target = result_place.copy();
        proof {
            assert(local_place(target, result_local.0));
        }
        self.push_stmt(Statement::Assign(target, Rvalue::UnaryOp(op, Box::new(e))));
        proof {
            Self::lemma_grown_trans(s0, s2, *self, expr_cost(*unary.expr) + 1, 0);
            assert(Self::unary_statement(*self, op, eo, result_local.0));
        }
        Operand::Copy(result_place)
    }

    /// A call ends the current block with a call terminator (no successor
    /// yet) into a fresh local, and continues in a new block.
    fn build_call(&mut self, call: &CallExpr) -> (o: Operand)
        requires
            old(self).wf(),
            old(self).room(4 + expr_cost(*call.func) + exprs_cost(call.args@)),
        ensures
            final(self).wf(),
            Self::grown(*old(self), *final(self), 4 + expr_cost(*call.func) + exprs_cost(call.args@)),
            final(self).current_block.0 >= old(self).block_counter,
        decreases call,
    {
        let ghost s0 = *self;
        let func = self.build_expr(&call.func);
        let ghost s1 = *self;
        let args = self.build_exprs(&call.args);
        proof {
            Self::lemma_grown_trans(s0, s1, *self, expr_cost(*call.func), exprs_cost(call.args@));
        }
        self.finish_call(func, args, Ghost(s0), Ghost(expr_cost(*call.func) + exprs_cost(call.args@)))
    }

    /// Ends the current block with a call of `func` on `args` into a fresh
    /// local and continues in a new block.
    fn finish_call(&mut self, func: Operand, args: Vec<Operand>, Ghost(s0): Ghost<MirBuilder>, Ghost(used): Ghost<nat>) -> (o: Operand)
        requires
            old(self).wf(),
            Self::grown(s0, *old(self), used),
            s0.room(4 + used),
        ensures
            final(self).wf(),
            Self::grown(s0, *final(self), 4 + used),
            final(self).current_block.0 >= s0.block_counter,
    {
        let ghost s1 = *self;
        let result_local = self.new_local(Type::Unit);
        let result_place = Place::from_local(result_local);
        let t = Terminator {
            kind: TerminatorKind::Call { func, args, destination: result_place.copy(), target: None },
            span: 0..0,
        };
        proof {
            assert(flow_successors(Some(t)).len() == 0);
        }
        self.set_terminator(t);
        let after_call = self.new_block();
        self.current_block = after_call;
        proof {
            Self::lemma_grown_trans(s0, s1, *self, used, 2);
        }
        Operand::Copy(result_place)
    }

    /// A method call is lowered as a call of its receiver's value.
    fn build_method_call(&mut self, method: &MethodCallExpr) -> (o: Operand)
        requires
            old(self).wf(),
            old(self).room(4 + expr_cost(*method.receiver) + exprs_cost(method.args@)),
        ensures
            final(self).wf(),
            Self::grown(*old(self), *final(self), 4 + expr_cost(*method.receiver) + exprs_cost(method.args@)),
            final(self).current_block.0 >= old(self).block_counter,
        decreases method,
    {
        let ghost s0 = *self;
        let receiver = self.build_expr(&method.receiver);
        let ghost s1 = *self;
        let args = self.build_exprs(&method.args);
        proof {
            Self::lemma_grown_trans(s0, s1, *self, expr_cost(*method.receiver), exprs_cost(method.args@));
        }
        self.finish_call(receiver, args, Ghost(s0), Ghost(expr_cost(*method.receiver) + exprs_cost(method.args@)))
    }

    /// `if`: the condition ends the current block with a switch to a `then`
    /// block (on 1) or an `else` block; both jump to a new end block, which
    /// becomes current.
    fn build_if(&mut self, if_expr: &IfExpr) -> (o: Operand)
        requires
            old(self).wf(),
            old(self).room(4 + expr_cost(*if_expr.cond) + block_cost(if_expr.then_branch) + opt_cost(if_expr.else_branch)),
        ensures
            final(self).wf(),
            Self::grown(
                *old(self),
                *final(self),
                4 + expr_cost(*if_expr.cond) + block_cost(if_expr.then_branch) + opt_cost(if_expr.else_branch),
            ),
            o == zero_operand(),
            final(self).current_block.0 >= old(self).block_counter,
            lets_declared(if_expr.then_branch.stmts@, final(self).built().local_decls@, old(self).built().local_decls@.len() as int),
        decreases if_expr,
    {
        let ghost s0 = *self;
        let cond = self.build_expr(&if_expr.cond);
        let ghost s1 = *self;
        let then_block = self.new_block();
        let else_block = self.new_block();
        let end_block = self.new_block();
        self.switch_bool(cond, then_block, else_block);
        proof {
            Self::lemma_grown_trans(s0, s1, *self, expr_cost(*if_expr.cond), 3);
        }
        let ghost s2a = *self;
        self.current_block = then_block;
        let ghost s2 = *self;
        proof {
            Self::lemma_grown_jump(s0, s2a, s2, expr_cost(*if_expr.cond) + 3);
        }
        self.build_block(&if_expr.then_branch);
        let ghost sb = *self;
        self.goto(end_block);
        let ghost s3a = *self;
        proof {
            Self::lemma_grown_trans(s0, s2, s3a, expr_cost(*if_expr.cond) + 3, block_cost(if_expr.then_branch));
        }
        self.current_block = else_block;
        let ghost s3 = *self;
        proof {
            Self::lemma_grown_jump(s0, s3a, s3, expr_cost(*if_expr.cond) + 3 + block_cost(if_expr.then_branch));
        }
        match &if_expr.else_branch {
            Some(e) => {
                let _ = self.build_expr(e);
            },
            None => {},
        }
        self.goto(end_block);
        let ghost s4 = *self;
        proof {
            Self::lemma_grown_trans(s0, s3, s4, expr_cost(*if_expr.cond) + 3 + block_cost(if_expr.then_branch), opt_cost(if_expr.else_branch));
        }
        self.current_block = end_block;
        proof {
            Self::lemma_grown_jump(s0, s4, *self, expr_cost(*if_expr.cond) + 3 + block_cost(if_expr.then_branch) + opt_cost(if_expr.else_branch));
            assert forall|i: int| 0 <= i < sb.body.local_decls@.len() implies #[trigger] self.body.local_decls@[i]
                == sb.body.local_decls@[i] by {
                assert(s3a.body.local_decls@[i] == sb.body.local_decls@[i]);
                assert(s4.body.local_decls@[i] == s3.body.local_decls@[i]);
            }
            lemma_lets_declared_grow(if_expr.then_branch.stmts@, sb.body.local_decls@, s2.body.local_decls@.len() as int,
                self.body.local_decls@, s0.body.local_decls@.len() as int);
        }
        zero()
    }

    /// `while`: three new blocks (condition, body, end); the current block
    /// jumps to the condition, which switches to the body (on 1) or the end;
    /// the body jumps back to the condition; the end block becomes current.
    fn build_while(&mut self, while_expr: &WhileExpr) -> (o: Operand)
        requires
            old(self).wf(),
            old(self).room(4 + expr_cost(*while_expr.cond) + block_cost(while_expr.body)),
        ensures
            final(self).wf(),
            Self::grown(*old(self), *final(self), 4 + expr_cost(*while_expr.cond) + block_cost(while_expr.body)),
            o == zero_operand(),
            final(self).current_block.0 == old(self).block_counter + 2,
            lets_declared(while_expr.body.stmts@, final(self).built().local_decls@, old(self).built().local_decls@.len() as int),
        decreases while_expr,
    {
        let ghost s0 = *self;
        let cond_block = self.new_block();
        let body_block = self.new_block();
        let end_block = self.new_block();
        self.goto(cond_block);
        let ghost s1a = *self;
        self.current_block = cond_block;
        let ghost s1 = *self;
        proof {
            Self::lemma_grown_jump(s0, s1a, s1, 3);
        }
        let cond = self.build_expr(&while_expr.cond);
        self.switch_bool(cond, body_block, end_block);
        let ghost s2a = *self;
        proof {
            Self::lemma_grown_trans(s0, s1, s2a, 3, expr_cost(*while_expr.cond));
        }
        self.current_block = body_block;
        let ghost s2 = *self;
        proof {
            Self::lemma_grown_jump(s0, s2a, s2, 3 + expr_cost(*while_expr.cond));
        }
        self.build_block(&while_expr.body);
        let ghost sb = *self;
        self.goto(cond_block);
        let ghost s3 = *self;
        proof {
            Self::lemma_grown_trans(s0, s2, s3, 3 + expr_cost(*while_expr.cond), block_cost(while_expr.body));
        }
        self.current_block = end_block;
        proof {
            Self::lemma_grown_jump(s0, s3, *self, 3 + expr_cost(*while_expr.cond) + block_cost(while_expr.body));
            lemma_lets_declared_grow(while_expr.body.stmts@, sb.body.local_decls@, s2.body.local_decls@.len() as int,
                self.body.local_decls@, s0.body.local_decls@.len() as int);
        }
        zero()
    }

    /// `loop`: two new blocks (body, end); the current block jumps to the
    /// body, which jumps back to itself; the end block becomes current.
    fn build_loop(&mut self, loop_expr: &LoopExpr) -> (o: Operand)
        requires
            old(self).wf(),
            old(self).room(4 + block_cost(loop_expr.body)),
        ensures
            final(self).wf(),
            Self::grown(*old(self), *final(self), 4 + block_cost(loop_expr.body)),
            o == zero_operand(),
            final(self).current_block.0 == old(self).block_counter + 1,
            lets_declared(loop_expr.body.stmts@, final(self).built().local_decls@, old(self).built().local_decls@.len() as int),
        decreases loop_expr,
    {
        let ghost s0 = *self;
        let body_block = self.new_block();
        let end_block = self.new_block();
        self.goto(body_block);
        let ghost s1a = *self;
        self.current_block = body_block;
        let ghost s1 = *self;
        proof {
            Self::lemma_grown_jump(s0, s1a, s1, 2);
        }
        self.build_block(&loop_expr.body);
        let ghost sb = *self;
        self.goto(body_block);
        let ghost s2 = *self;
        proof {
            Self::lemma_grown_trans(s0, s1, s2, 2, block_cost(loop_expr.body));
        }
        self.current_block = end_block;
        proof {
            Self::lemma_grown_jump(s0, s2, *self, 2 + block_cost(loop_expr.body));
            lemma_lets_declared_grow(loop_expr.body.stmts@, sb.body.local_decls@, s1.body.local_decls@.len() as int,
                self.body.local_decls@, s0.body.local_decls@.len() as int);
        }
        zero()
    }

    /// `for pattern in range`: three new blocks (condition, body, end) and
    /// a loop local named after the pattern's binding (`i` otherwise), of
    /// type `i64`, set to the range's start (0 when absent); the condition
    /// compares it with the end (`<=` for an inclusive range, `<` otherwise)
    /// and switches to the body (on 1) or the end; the body adds 1 to it and
    /// jumps back; the end block becomes current.  Over anything but a range
    /// the body is lowered once in place.
    fn build_for(&mut self, for_expr: &ForExpr) -> (o: Operand)
        requires
            old(self).wf(),
            old(self).room(4 + expr_cost(*for_expr.expr) + block_cost(for_expr.body)),
        ensures
            final(self).wf(),
            Self::grown(*old(self), *final(self), 4 + expr_cost(*for_expr.expr) + block_cost(for_expr.body)),
            o == zero_operand(),
            lets_declared(for_expr.body.stmts@, final(self).built().local_decls@, old(self).built().local_decls@.len() as int),
            *for_expr.expr matches Expr::Range(r) ==> {
                let b0 = old(self).block_counter;
                let l0 = old(self).local_counter;
                &&& final(self).current_block.0 == b0 + 2
                &&& final(self).body.local_decls@[l0 as int].name matches Some(n) && n.name@
                    == loop_var_name(for_expr.pattern)
                &&& final(self).body.local_decls@[l0 as int].ty matches Type::Path(p)
                    && p.segments@.len() == 1 && p.segments@[0].ident.name@ == "i64"@
                &&& exists|init: int, head: int, last: int, start: Operand, end: Operand, test: u32, inc: u32| {
                    &&& for_range_lowered(final(self).body.basic_blocks@, l0, b0, init, head, last, start, end, test, inc, r.inclusive)
                    &&& (init == old(self).current_block.0 || init >= b0 + 3)
                    &&& (head == b0 || head >= b0 + 3)
                    &&& (last == b0 + 1 || last >= b0 + 3)
                    &&& (r.start is None ==> start == zero_operand())
                    &&& (r.end is None ==> end == zero_operand())
                    &&& l0 < test && l0 < inc
                }
            },
        decreases for_expr,
    {
        let ghost s0 = *self;
        let var_name = match &for_expr.pattern {
            Pattern::Ident(ident) => ident.clone(),
            Pattern::Binding(ident, _) => ident.clone(),
            _ => Ident::new("i"),
        };
        proof {
            reveal_strlit("i");
        }
        match &*for_expr.expr {
            Expr::Range(range_expr) => {
                proof {
                    assert(expr_cost(*for_expr.expr) == 4 + opt_cost(range_expr.start) + opt_cost(range_expr.end));
                    if range_expr.start is Some {
                        assert(opt_cost(range_expr.start) == expr_cost(*range_expr.start->0));
                    }
                    if range_expr.end is Some {
                        assert(opt_cost(range_expr.end) == expr_cost(*range_expr.end->0));
                    }
                }
                let cond_block = self.new_block();
                let body_block = self.new_block();
                let end_block = self.new_block();
                let loop_var = self.new_local(Type::Path(simple_path("i64")));
                self.name_local(loop_var.0, var_name);
                let ghost s1 = *self;
                proof {
                    assert(Self::grown(s0, s1, 4));
                }
                let loop_var_place = Place::from_local(loop_var);
                let start_val = match &range_expr.start {
                    Some(start) => self.build_expr(start),
                    None => zero(),
                };
                let ghost init = self.current_block.0 as int;
                let ghost start_g = start_val;
                let ghost s1b = *self;
                self.push_stmt(Statement::Assign(loop_var_place.copy(), Rvalue::Use(start_val)));
                self.goto(cond_block);
                let ghost s2a = *self;
                proof {
                    let bi = s2a.body.basic_blocks@[init];
                    assert(bi.statements@.len() > 0);
                    assert(bi.statements@.last() matches Statement::Assign(p, Rvalue::Use(v)) && local_place(p, loop_var.0) && v == start_g);
                    assert(jumps_to(bi.terminator, s0.block_counter));
                    Self::lemma_grown_trans(s0, s1, s2a, 4, opt_cost(range_expr.start));
                }
                self.current_block = cond_block;
                let ghost s2 = *self;
                proof {
                    Self::lemma_grown_jump(s0, s2a, s2, 4 + opt_cost(range_expr.start));
                }
                let loop_var_op = Operand::Copy(loop_var_place.copy());
                let end_val = match &range_expr.end {
                    Some(end) => self.build_expr(end),
                    None => zero(),
                };
                let ghost end_g = end_val;
                let ghost s3 = *self;
                proof {
                    Self::lemma_grown_trans(s0, s2, s3, 4 + opt_cost(range_expr.start), opt_cost(range_expr.end));
                }
                let test_local = self.new_local(Type::Path(simple_path("bool")));
                let test_place = Place::from_local(test_local);
                let test_op = if range_expr.inclusive {
                    BinOp::Le
                } else {
                    BinOp::Lt
                };
                let ghost head = self.current_block.0 as int;
                self.push_stmt(Statement::Assign(
                    test_place.copy(),
                    Rvalue::BinaryOp(test_op, Box::new(loop_var_op.copy()), Box::new(end_val)),
                ));
                self.switch_bool(Operand::Copy(test_place), body_block, end_block);
                let ghost s4a = *self;
                proof {
                    let bh = s4a.body.basic_blocks@[head];
                    assert(bh.statements@.len() > 0);
                    assert(bh.statements@.last() matches Statement::Assign(p, Rvalue::BinaryOp(op, x, y)) && local_place(p, test_local.0)
                        && op == (if range_expr.inclusive { BinOp::Le } else { BinOp::Lt }) && copies_local(*x, loop_var.0) && *y == end_g);
                    assert(switches_on(bh.terminator, test_local.0, (s0.block_counter + 1) as u32, (s0.block_counter + 2) as u32));
                    Self::lemma_grown_trans(s0, s3, s4a, 4 + opt_cost(range_expr.start) + opt_cost(range_expr.end), 1);
                }
                self.current_block = body_block;
                let ghost s4 = *self;
                proof {
                    Self::lemma_grown_jump(s0, s4a, s4, 5 + opt_cost(range_expr.start) + opt_cost(range_expr.end));
                }
                self.build_block(&for_expr.body);
                let ghost s5 = *self;
                proof {
                    Self::lemma_grown_trans(s0, s4, s5, 5 + opt_cost(range_expr.start) + opt_cost(range_expr.end), block_cost(for_expr.body));
                }
                let one = Operand::Constant(Constant::Scalar(Scalar::Int(1, IntType::I64)));
                let inc_local = self.new_local(Type::Path(simple_path("i64")));
                let inc_place = Place::from_local(inc_local);
                let ghost last = self.current_block.0 as int;
                self.push_stmt(Statement::Assign(
                    inc_place.copy(),
                    Rvalue::BinaryOp(BinOp::Add, Box::new(loop_var_op), Box::new(one)),
                ));
                self.push_stmt(Statement::Assign(loop_var_place, Rvalue::Use(Operand::Copy(inc_place))));
                self.goto(cond_block);
                let ghost s6 = *self;
                proof {
                    let bl = s6.body.basic_blocks@[last];
                    assert(bl.statements@.len() >= 2);
                    assert(bl.statements@[bl.statements@.len() - 2] matches Statement::Assign(p, Rvalue::BinaryOp(op, x, y))
                        && local_place(p, inc_local.0) && op == BinOp::Add && copies_local(*x, loop_var.0) && *y == one_i64());
                    assert(bl.statements@.last() matches Statement::Assign(p, Rvalue::Use(v)) && local_place(p, loop_var.0) && copies_local(v, inc_local.0));
                    assert(jumps_to(bl.terminator, s0.block_counter));
                    Self::lemma_grown_trans(s0, s5, s6, 5 + opt_cost(range_expr.start) + opt_cost(range_expr.end) + block_cost(for_expr.body), 1);
                }
                self.current_block = end_block;
                proof {
                    Self::lemma_grown_jump(s0, s6, *self, 6 + opt_cost(range_expr.start) + opt_cost(range_expr.end) + block_cost(for_expr.body));
                    assert(self.body.local_decls@[s0.local_counter as int] == s1.body.local_decls@[s0.local_counter as int]);
                    let b0 = s0.block_counter;
                    // Where each block lies.
                    assert(init == s0.current_block.0 || init >= b0 + 3);
                    assert(head == b0 || head >= b0 + 3);
                    assert(last == b0 + 1 || last >= b0 + 3);
                    // The init block is left alone after its jump.
                    assert(s2.body.basic_blocks@[init] == s2a.body.basic_blocks@[init]);
                    assert(s4a.body.basic_blocks@[init] == s2.body.basic_blocks@[init]);
                    assert(s5.body.basic_blocks@[init] == s4.body.basic_blocks@[init]);
                    assert(s6.body.basic_blocks@[init] == s5.body.basic_blocks@[init]);
                    // The head block is left alone after its switch.
                    assert(s5.body.basic_blocks@[head] == s4.body.basic_blocks@[head]);
                    assert(s6.body.basic_blocks@[head] == s5.body.basic_blocks@[head]);
                    assert(for_range_lowered(self.body.basic_blocks@, s0.local_counter, b0, init, head, last, start_g,
                        end_g, test_local.0, inc_local.0, range_expr.inclusive));
                    assert forall|i: int| 0 <= i < s5.body.local_decls@.len() implies #[trigger] self.body.local_decls@[i]
                        == s5.body.local_decls@[i] by {
                        assert(self.body.local_decls@[i] == s6.body.local_decls@[i]);
                    }
                    lemma_lets_declared_grow(for_expr.body.stmts@, s5.body.local_decls@, s4.body.local_decls@.len() as int,
                        self.body.local_decls@, s0.body.local_decls@.len() as int);
                }
            },
            _ => {
                self.build_block(&for_expr.body);
                proof {
                    Self::lemma_grown_more(s0, *self, block_cost(for_expr.body), 4 + expr_cost(*for_expr.expr) + block_cost(for_expr.body));
                }
            },
        }
        zero()
    }

    /// `return`: the value is assigned to `_0`, the current block returns,
    /// and a new block (unreachable) becomes current.
    fn build_return(&mut self, ret: &Option<Box<Expr>>) -> (o: Operand)
        requires
            old(self).wf(),
            old(self).room(4 + opt_cost(*ret)),
        ensures
            final(self).wf(),
            Self::grown(*old(self), *final(self), 4 + opt_cost(*ret)),
            o == zero_operand(),
            final(self).current_block.0 >= old(self).block_counter,
        decreases ret,
    {
        let ghost s0 = *self;
        let value = match ret {
            Some(e) => self.build_expr(e),
            None => zero(),
        };
        let ghost s1 = *self;
        self.push_stmt(Statement::Assign(Place::from_local(Local(0)), Rvalue::Use(value)));
        let t = Terminator { kind: TerminatorKind::Return, span: 0..0 };
        proof {
            assert(flow_successors(Some(t)).len() == 0);
        }
        self.set_terminator(t);
        let unreachable_block = self.new_block();
        self.current_block = unreachable_block;
        proof {
            Self::lemma_grown_trans(s0, s1, *self, opt_cost(*ret), 1);
        }
        zero()
    }

    /// `place = value`: the value's operand is assigned to the place that
    /// the left side names.
    fn build_assign(&mut self, assign: &AssignExpr) -> (o: Operand)
        requires
            old(self).wf(),
            old(self).room(4 + expr_cost(*assign.left) + expr_cost(*assign.right)),
        ensures
            final(self).wf(),
            Self::grown(*old(self), *final(self), 4 + expr_cost(*assign.left) + expr_cost(*assign.right)),
            o == zero_operand(),
        decreases assign,
    {
        let ghost s0 = *self;
        let place = self.build_place(&assign.left);
        let value = self.build_expr(&assign.right);
        let ghost s1 = *self;
        self.push_stmt(Statement::Assign(place, Rvalue::Use(value)));
        proof {
            Self::lemma_grown_trans(s0, s1, *self, expr_cost(*assign.right), 0);
        }
        zero()
    }

    /// `base.field`: the base's place projected to the field's index; a base
    /// that is not a place is first stored in a fresh local.
    fn build_field_access(&mut self, field: &FieldAccessExpr) -> (o: Operand)
        requires
            old(self).wf(),
            old(self).room(4 + expr_cost(*field.expr)),
        ensures
            final(self).wf(),
            Self::grown(*old(self), *final(self), 4 + expr_cost(*field.expr)),
            o matches Operand::Copy(p) && p.projection@.len() > 0 && p.projection@.last() == PlaceElem::Field(
                field_index(field.field.name@),
            ),
        decreases field,
    {
        let ghost s0 = *self;
        let base = self.build_expr(&field.expr);
        let field_idx = get_field_index_by_name(&field.field);
        match base {
            Operand::Copy(place) | Operand::Move(place) => Operand::Copy(place.project(PlaceElem::Field(field_idx))),
            _ => {
                let ghost s1 = *self;
                let temp_place = self.create_temp_place();
                self.push_stmt(Statement::Assign(temp_place.copy(), Rvalue::Use(base)));
                proof {
                    Self::lemma_grown_trans(s0, s1, *self, expr_cost(*field.expr), 1);
                }
                Operand::Copy(temp_place.project(PlaceElem::Field(field_idx)))
            },
        }
    }

    /// A struct literal: its field values as an aggregate in a fresh local.
    fn build_struct_init(&mut self, struct_init: &StructInitExpr) -> (o: Operand)
        requires
            old(self).wf(),
            old(self).room(4 + fields_cost(struct_init.fields@)),
        ensures
            final(self).wf(),
            Self::grown(*old(self), *final(self), 4 + fields_cost(struct_init.fields@)),
        decreases struct_init,
    {
        let ghost s0 = *self;
        let fields = self.build_field_values(&struct_init.fields);
        let ghost s1 = *self;
        let result_local = self.new_local(Type::Unit);
        let result_place = Place::from_local(result_local);
        self.push_stmt(Statement::Assign(
            result_place.copy(),
            Rvalue::Aggregate(AggregateKind::Struct(Ident::new("anon")), fields),
        ));
        proof {
            Self::lemma_grown_trans(s0, s1, *self, fields_cost(struct_init.fields@), 1);
        }
        Operand::Copy(result_place)
    }

    /// An array literal: its element values as an aggregate in a fresh local.
    fn build_array_init(&mut self, array_init: &ArrayInitExpr) -> (o: Operand)
        requires
            old(self).wf(),
            old(self).room(4 + exprs_cost(array_init.elements@)),
        ensures
            final(self).wf(),
            Self::grown(*old(self), *final(self), 4 + exprs_cost(array_init.elements@)),
        decreases array_init,
    {
        let ghost s0 = *self;
        let elements = self.build_exprs(&array_init.elements);
        let ghost s1 = *self;
        let result_local = self.new_local(Type::Unit);
        let result_place = Place::from_local(result_local);
        self.push_stmt(Statement::Assign(
            result_place.copy(),
            Rvalue::Aggregate(AggregateKind::Array(Type::Unit), elements),
        ));
        proof {
            Self::lemma_grown_trans(s0, s1, *self, exprs_cost(array_init.elements@), 1);
        }
        Operand::Copy(result_place)
    }

    /// `base[index]`: the base's place projected by the index's local; an
    /// index that is not a place is stored in a fresh `i64` local, a base
    /// that is not a place in a fresh local.
    fn build_index(&mut self, index: &IndexExpr) -> (o: Operand)
        requires
            old(self).wf(),
            old(self).room(4 + expr_cost(*index.expr) + expr_cost(*index.index)),
        ensures
            final(self).wf(),
            Self::grown(*old(self), *final(self), 4 + expr_cost(*index.expr) + expr_cost(*index.index)),
            o matches Operand::Copy(p) && p.projection@.len() > 0 && p.projection@.last() is Index,
        decreases index,
    {
        let ghost s0 = *self;
        let base = self.build_expr(&index.expr);
        let ghost s1 = *self;
        let index_operand = self.build_expr(&index.index);
        let ghost s2 = *self;
        proof {
            Self::lemma_grown_trans(s0, s1, s2, expr_cost(*index.expr), expr_cost(*index.index));
        }
        let index_local = match index_operand {
            Operand::Copy(place) | Operand::Move(place) => place.local,
            _ => {
                let local = self.new_local(Type::Path(simple_path("i64")));
                self.push_stmt(Statement::Assign(Place::from_local(local), Rvalue::Use(index_operand)));
                local
            },
        };
        let ghost s3 = *self;
        proof {
            Self::lemma_grown_trans(s0, s2, s3, expr_cost(*index.expr) + expr_cost(*index.index), 1);
        }
        match base {
            Operand::Copy(place) | Operand::Move(place) => Operand::Copy(place.project(PlaceElem::Index(index_local))),
            _ => {
                let temp_place = self.create_temp_place();
                self.push_stmt(Statement::Assign(temp_place.copy(), Rvalue::Use(base)));
                proof {
                    Self::lemma_grown_trans(s0, s3, *self, expr_cost(*index.expr) + expr_cost(*index.index) + 1, 1);
                }
                Operand::Copy(temp_place.project(PlaceElem::Index(index_local)))
            },
        }
    }

    /// `match`: the scrutinee, a fresh result local, a new end block and one
    /// new block per arm; the current block switches on the scrutinee to the
    /// arm of each literal pattern, and to the last arm with any other
    /// pattern (the end block when there is none); each arm assigns its
    /// value to the result local and jumps to the end block, which becomes
    /// current.  Guards are not lowered.
    fn build_match(&mut self, match_expr: &MatchExpr) -> (o: Operand)
        requires
            old(self).wf(),
            old(self).room(4 + expr_cost(*match_expr.expr) + arms_cost(match_expr.arms@)),
        ensures
            final(self).wf(),
            Self::grown(*old(self), *final(self), 4 + expr_cost(*match_expr.expr) + arms_cost(match_expr.arms@)),
            final(self).current_block.0 >= old(self).block_counter,
            exists|sw: int, blocks: Seq<BasicBlock>, res: u32|
                #![trigger copies_local(o, res), match_targets(match_expr.arms@, blocks), final(self).body.basic_blocks@[sw]]
            {
                &&& sw == old(self).current_block.0 || sw >= old(self).block_counter
                &&& blocks.len() == match_expr.arms@.len()
                &&& forall|j: int| 0 <= j < blocks.len() ==> (#[trigger] blocks[j]).0 >= old(self).block_counter
                &&& copies_local(o, res)
                &&& final(self).body.basic_blocks@[sw].terminator matches Some(t) && t.kind matches TerminatorKind::SwitchInt {
                    targets,
                    otherwise,
                    ..
                } && targets@ == match_targets(match_expr.arms@, blocks) && otherwise == match_otherwise(
                    match_expr.arms@,
                    blocks,
                    final(self).current_block,
                )
            },
        decreases match_expr,
    {
        let ghost s0 = *self;
        let arms = &match_expr.arms;
        let scrutinee = self.build_expr(&match_expr.expr);
        let ghost s1 = *self;
        let result_local = self.new_local(Type::Unit);
        let result_place = Place::from_local(result_local);
        let end_block = self.new_block();
        let ghost s2 = *self;
        proof {
            Self::lemma_grown_trans(s0, s1, s2, expr_cost(*match_expr.expr), 2);
            lemma_arms_cost_prefix(arms@, 0);
            assert(arms@.take(0) =~= Seq::<MatchArm>::empty());
        }
        let mut arm_blocks: Vec<BasicBlock> = Vec::new();
        let mut i: usize = 0;
        while i < arms.len()
            invariant
                i <= arms@.len(),
                self.wf(),
                s0.room(4 + expr_cost(*match_expr.expr) + arms_cost(arms@)),
                arms_cost(arms@) >= arms@.len(),
                Self::grown(s2, *self, i as nat),
                Self::grown(s0, s2, expr_cost(*match_expr.expr) + 2),
                self.local_counter == s2.local_counter,
                self.current_block == s1.current_block,
                arm_blocks@.len() == i,
                end_block.0 < s2.block_counter,
                end_block.0 >= s0.block_counter,
                forall|j: int| 0 <= j < i ==> (#[trigger] arm_blocks@[j]).0 < self.block_counter && arm_blocks@[j].0 >= s2.block_counter,
            decreases arms@.len() - i,
        {
            let b = self.new_block();
            arm_blocks.push(b);
            i += 1;
        }
        let ghost s3 = *self;
        proof {
            Self::lemma_grown_trans(s0, s2, s3, expr_cost(*match_expr.expr) + 2, arms@.len());
        }
        let switch_ty = self.infer_expr_type(&match_expr.expr);
        let mut targets: Vec<(u128, BasicBlock)> = Vec::new();
        let mut otherwise_block = end_block;
        let mut k: usize = 0;
        while k < arms.len()
            invariant
                k <= arms@.len(),
                arm_blocks@.len() == arms@.len(),
                forall|j: int| 0 <= j < arm_blocks@.len() ==> (#[trigger] arm_blocks@[j]).0 < self.block_counter && arm_blocks@[j].0 >= s2.block_counter,
                end_block.0 >= s0.block_counter,
                forall|j: int| 0 <= j < targets@.len() ==> (#[trigger] targets@[j]).1.0 < self.block_counter,
                targets@ == match_targets(arms@.take(k as int), arm_blocks@.take(k as int)),
                otherwise_block == match_otherwise(arms@.take(k as int), arm_blocks@.take(k as int), end_block),
                otherwise_block.0 < self.block_counter,
                *self == s3,
            decreases arms@.len() - k,
        {
            match &arms[k].pattern {
                Pattern::Literal(lit) => {
                    match self.literal_to_u128(lit) {
                        Some(val) => {
                            targets.push((val, arm_blocks[k]));
                        },
                        None => {},
                    }
                },
                _ => {
                    otherwise_block = arm_blocks[k];
                },
            }
            proof {
                assert(arms@.take(k + 1).drop_last() =~= arms@.take(k as int));
                assert(arm_blocks@.take(k + 1).drop_last() =~= arm_blocks@.take(k as int));
                assert(arms@.take(k + 1).last() == arms@[k as int]);
                assert(arm_blocks@.take(k + 1).last() == arm_blocks@[k as int]);
            }
            k += 1;
        }
        proof {
            assert(arms@.take(k as int) =~= arms@);
            assert(arm_blocks@.take(k as int) =~= arm_blocks@);
        }
        let ghost sw = self.current_block.0 as int;
        assert(sw == s1.current_block.0);
        let ghost targets_g = targets@;
        let ghost otherwise_g = otherwise_block;
        let t = Terminator {
            kind: TerminatorKind::SwitchInt { discr: scrutinee, switch_ty, targets, otherwise: otherwise_block },
            span: 0..0,
        };
        proof {
            assert forall|q: int| 0 <= q < flow_successors(Some(t)).len() implies (#[trigger] flow_successors(Some(t))[q]).0
                < self.block_counter by {
                if q < targets@.len() {
                    assert(flow_successors(Some(t))[q] == targets@[q].1);
                }
            }
        }
        self.set_terminator(t);
        let ghost s4 = *self;
        proof {
            Self::lemma_grown_trans(s0, s3, s4, expr_cost(*match_expr.expr) + 2 + arms@.len(), 0);
        }
        let mut a: usize = 0;
        while a < arms.len()
            invariant
                *arms == match_expr.arms,
                a <= arms@.len(),
                self.wf(),
                s0.room(4 + expr_cost(*match_expr.expr) + arms_cost(arms@)),
                arm_blocks@.len() == arms@.len(),
                forall|j: int| 0 <= j < arm_blocks@.len() ==> (#[trigger] arm_blocks@[j]).0 < self.block_counter && arm_blocks@[j].0 >= s2.block_counter,
                end_block.0 < self.block_counter,
                end_block.0 >= s0.block_counter,
                result_local.0 < self.local_counter,
                sw == s0.current_block.0 || (s0.block_counter <= sw < s1.block_counter),
                s0.block_counter <= s1.block_counter <= s2.block_counter,
                sw < self.body.basic_blocks@.len(),
                self.body.basic_blocks@[sw] == s4.body.basic_blocks@[sw],
                s4.body.basic_blocks@[sw].terminator matches Some(t) && t.kind matches TerminatorKind::SwitchInt {
                    targets,
                    otherwise,
                    ..
                } && targets@ == targets_g && otherwise == otherwise_g,
                Self::grown(s0, *self, (expr_cost(*match_expr.expr) + 2 + arms@.len() + arms_cost(arms@.take(a as int))
                    - a) as nat),
                arms_cost(arms@.take(a as int)) >= a,
                arms_cost(arms@.take(a as int)) + (arms@.len() - a) <= arms_cost(arms@),
            decreases arms@.len() - a,
        {
            proof {
                lemma_arms_cost_step(arms@, a as int);
                lemma_arms_cost_prefix(arms@, a as int + 1);
            }
            let ghost s5a = *self;
            self.current_block = arm_blocks[a];
            let ghost s5 = *self;
            proof {
                Self::lemma_grown_jump(s0, s5a, s5, (expr_cost(*match_expr.expr) + 2 + arms@.len() + arms_cost(arms@.take(a as int))
                    - a) as nat);
            }
            assert(decreases_to!(match_expr => arms@[a as int].body)) by {
                assert(decreases_to!(match_expr => match_expr.arms));
                vstd::std_specs::vec::axiom_vec_index_decreases(match_expr.arms, a as int);
                assert(decreases_to!(match_expr.arms => match_expr.arms[a as int]));
                assert(match_expr.arms[a as int] == match_expr.arms@[a as int]);
                assert(decreases_to!(match_expr.arms@[a as int] => match_expr.arms@[a as int].body));
            }
            let arm_result = self.build_expr(&arms[a].body);
            self.push_stmt(Statement::Assign(Place::from_local(result_local), Rvalue::Use(arm_result)));
            self.goto(end_block);
            proof {
                Self::lemma_grown_trans(
                    s0,
                    s5,
                    *self,
                    (expr_cost(*match_expr.expr) + 2 + arms@.len() + arms_cost(arms@.take(a as int)) - a) as nat,
                    expr_cost(arms@[a as int].body),
                );
                assert(self.body.basic_blocks@[sw] == s5.body.basic_blocks@[sw]);
            }
            a += 1;
        }
        let ghost s6 = *self;
        self.current_block = end_block;
        proof {
            assert(arms@.take(a as int) =~= arms@);
            Self::lemma_grown_jump(s0, s6, *self, (expr_cost(*match_expr.expr) + 2 + arms@.len() + arms_cost(arms@) - arms@.len()) as nat);
            Self::lemma_grown_more(
                s0,
                *self,
                (expr_cost(*match_expr.expr) + 2 + arms@.len() + arms_cost(arms@) - arms@.len()) as nat,
                4 + expr_cost(*match_expr.expr) + arms_cost(arms@),
            );
        }
        proof {
            assert(copies_local(Operand::Copy(result_place), result_local.0));
            assert(forall|j: int| 0 <= j < arm_blocks@.len() ==> (#[trigger] arm_blocks@[j]).0 >= s0.block_counter);
            assert(self.body.basic_blocks@[sw] == s4.body.basic_blocks@[sw]);
            assert(match_targets(match_expr.arms@, arm_blocks@) == targets_g);
        }
        Operand::Copy(result_place)
    }

    /// Ends the current block with a return unless it already has a
    /// terminator.
    fn ensure_return(&mut self)
        requires
            old(self).wf(),
        ensures
            final(self).wf(),
            Self::grown(*old(self), *final(self), 0),
            final(self).current_block == old(self).current_block,
            final(self).body.basic_blocks@.len() == old(self).body.basic_blocks@.len(),
            final(self).body.basic_blocks@[final(self).current_block.0 as int].terminator is Some,
            old(self).body.basic_blocks@[old(self).current_block.0 as int].terminator is None ==>
                final(self).body.basic_blocks@[final(self).current_block.0 as int].terminator == Some(
                    Terminator { kind: TerminatorKind::Return, span: Span { start: 0, end: 0 } },
                ),
            old(self).body.basic_blocks@[old(self).current_block.0 as int].terminator is Some ==> *final(self) == *old(self),
    {
        if self.body.basic_blocks[self.current_block.0 as usize].terminator.is_none() {
            let t = Terminator { kind: TerminatorKind::Return, span: 0..0 };
            proof {
                assert(flow_successors(Some(t)).len() == 0);
            }
            self.set_terminator(t);
        }
    }

    /// Lowers a function: the argument locals get the parameters' names and
    /// types, the body is lowered from the current block, and the block
    /// where it ends returns unless it already ends otherwise.  The body's
    /// jumps all go to existing blocks.
    pub fn build_function(&mut self, func: &Function) -> (body: &MirBody)
        requires
            old(self).wf(),
            old(self).room(block_cost(func.body)),
        ensures
            final(self).wf(),
            *body == final(self).built(),
            jumps_closed(body.basic_blocks@),
            body.arg_count == old(self).built().arg_count,
            body.basic_blocks@[final(self).current().0 as int].terminator is Some,
            lets_declared(func.body.stmts@, body.local_decls@, old(self).built().local_decls@.len() as int),
            forall|i: int| 1 <= i <= func.params@.len() && i < old(self).built().local_decls@.len() ==> {
                &&& #[trigger] body.local_decls@[i].name matches Some(n) && n.name@ == func.params@[i - 1].0.name@
                &&& same_type(func.params@[i - 1].1, body.local_decls@[i].ty)
            },
            func.body.stmts@.len() == 0 && old(self).built().basic_blocks@[old(self).current().0 as int].terminator is None
                ==> {
                &&& body.local_decls@.len() == old(self).built().local_decls@.len()
                &&& body.basic_blocks@.len() == old(self).built().basic_blocks@.len()
                &&& body.basic_blocks@[old(self).current().0 as int].terminator == Some(
                    Terminator { kind: TerminatorKind::Return, span: Span { start: 0, end: 0 } },
                )
            },
    {
        let n = self.body.local_decls.len();
        let ghost s0 = *self;
        let mut i: usize = 0;
        while i < func.params.len()
            invariant
                i <= func.params@.len(),
                n == self.body.local_decls@.len(),
                self.wf(),
                self.block_counter == s0.block_counter,
                self.local_counter == s0.local_counter,
                self.current_block == s0.current_block,
                self.body.basic_blocks == s0.body.basic_blocks,
                self.body.arg_count == s0.body.arg_count,
                s0.room(block_cost(func.body)),
                forall|j: int| 1 <= j <= i && j < n ==> {
                    &&& #[trigger] self.body.local_decls@[j].name matches Some(x) && x.name@ == func.params@[j - 1].0.name@
                    &&& same_type(func.params@[j - 1].1, self.body.local_decls@[j].ty)
                },
            decreases func.params@.len() - i,
        {
            let local_idx = i + 1;
            if local_idx < n {
                let ty = func.params[i].1.deep_clone();
                self.name_local(local_idx as u32, func.params[i].0.clone());
                self.body.local_decls[local_idx].ty = ty;
            }
            i += 1;
        }
        let ghost s1 = *self;
        self.build_block(&func.body);
        let ghost s2 = *self;
        self.ensure_return();
        proof {
            Self::lemma_grown_trans(s1, s2, *self, block_cost(func.body), 0);
            assert forall|i: int| 0 <= i < s2.body.local_decls@.len() implies #[trigger] self.body.local_decls@[i]
                == s2.body.local_decls@[i] by {}
            lemma_lets_declared_grow(func.body.stmts@, s2.body.local_decls@, n as int, self.body.local_decls@, n as int);
            assert forall|j: int| 1 <= j <= func.params@.len() && j < n implies {
                &&& #[trigger] self.body.local_decls@[j].name matches Some(x) && x.name@ == func.params@[j - 1].0.name@
                &&& same_type(func.params@[j - 1].1, self.body.local_decls@[j].ty)
            } by {
                assert(self.body.local_decls@[j] == s1.body.local_decls@[j]);
            }
        }
        &self.body
    }
}

impl Default for MirBuilder {
    fn default() -> (b: Self)
        ensures
            b.wf(),
            b.built().arg_count == 0,
            b.built().local_decls@.len() == 1,
            b.built().basic_blocks@.len() == 1,
            b.current().0 == 0,
    {
        Self::new(0, 0..0)
    }
}

} // verus!
