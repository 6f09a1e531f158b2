//! Turning async functions into state machines: finding the await points,
//! naming the states and building the poll function's skeleton.

use vstd::prelude::*;
use crate::ast::{
    AssignExpr, Block, CallExpr, Expr, Function, Ident, MatchArm, MatchExpr, Path, Pattern, Stmt, Item, Span, Type,
    same_expr, same_function, same_type, simple_path,
};
use crate::middle::mir::{
    BasicBlock, BasicBlockData, Constant, IntType, Local, LocalDecl, MirBody, Operand, Place, Rvalue, Scalar, Statement,
    Terminator, TerminatorKind,
};
use crate::util::text::{decimal, prefixed_decimal};

verus! {

/// A state of the generated state machine.
#[derive(Debug, Clone, Copy, PartialEq, Eq, Hash, Structural)]
pub enum AsyncState {
    Start,
    Awaiting(u32),
    Completed,
    Panicked,
}

/// An await point: its number, the awaited expression, the awaited value's
/// type and the state that waits on it.
#[derive(Debug)]
pub struct AwaitPoint {
    pub id: u32,
    pub expr: Expr,
    pub await_ty: Type,
    pub next_state: AsyncState,
}

impl Clone for AwaitPoint {
    fn clone(&self) -> (r: Self)
        ensures
            r.id == self.id,
            same_expr(self.expr, r.expr),
            same_type(self.await_ty, r.await_ty),
            r.next_state == self.next_state,
    {
        AwaitPoint {
            id: self.id,
            expr: self.expr.deep_clone(),
            await_ty: self.await_ty.deep_clone(),
            next_state: self.next_state,
        }
    }
}

/// The awaited expressions of an expression, in the order they are met.
/// The operand of an await is not searched; the branches, bodies and
/// operands of every other compound expression are.
pub open spec fn awaited_in_expr(e: Expr) -> Seq<Expr>
    decreases e,
{
    match e {
        Expr::Await(e) => seq![*e],
        Expr::Block(b) => awaited_in_block(b),
        Expr::If(i) => awaited_in_expr(*i.cond) + awaited_in_block(i.then_branch) + match i.else_branch {
            Some(e) => awaited_in_expr(*e),
            None => Seq::empty(),
        },
        Expr::While(w) => awaited_in_expr(*w.cond) + awaited_in_block(w.body),
        Expr::Loop(l) => awaited_in_block(l.body),
        Expr::For(f) => awaited_in_expr(*f.expr) + awaited_in_block(f.body),
        Expr::Match(m) => awaited_in_expr(*m.expr) + awaited_in_arms(m.arms@),
        Expr::Binary(b) => awaited_in_expr(*b.left) + awaited_in_expr(*b.right),
        Expr::Unary(u) => awaited_in_expr(*u.expr),
        Expr::Call(c) => awaited_in_expr(*c.func) + awaited_in_exprs(c.args@),
        Expr::MethodCall(m) => awaited_in_expr(*m.receiver) + awaited_in_exprs(m.args@),
        Expr::Return(r) => match r {
            Some(e) => awaited_in_expr(*e),
            None => Seq::empty(),
        },
        Expr::Assign(a) => awaited_in_expr(*a.left) + awaited_in_expr(*a.right),
        Expr::FieldAccess(f) => awaited_in_expr(*f.expr),
        Expr::Index(i) => awaited_in_expr(*i.expr) + awaited_in_expr(*i.index),
        Expr::ArrayInit(a) => awaited_in_exprs(a.elements@),
        Expr::StructInit(s) => awaited_in_fields(s.fields@),
        Expr::Closure(c) => awaited_in_expr(*c.body),
        Expr::Async(b) => awaited_in_block(b),
        _ => Seq::empty(),
    }
}

pub open spec fn awaited_in_exprs(es: Seq<Expr>) -> Seq<Expr>
    decreases es,
{
    if es.len() == 0 {
        Seq::empty()
    } else {
        awaited_in_exprs(es.drop_last()) + awaited_in_expr(es.last())
    }
}

pub open spec fn awaited_in_arms(arms: Seq<MatchArm>) -> Seq<Expr>
    decreases arms,
{
    if arms.len() == 0 {
        Seq::empty()
    } else {
        awaited_in_arms(arms.drop_last()) + awaited_in_expr(arms.last().body)
    }
}

pub open spec fn awaited_in_fields(fs: Seq<(Ident, Expr)>) -> Seq<Expr>
    decreases fs,
{
    if fs.len() == 0 {
        Seq::empty()
    } else {
        awaited_in_fields(fs.drop_last()) + awaited_in_expr(fs.last().1)
    }
}

/// The await points in a block: those of its statements, in order.
pub open spec fn awaited_in_block(b: Block) -> Seq<Expr>
    decreases b,
{
    awaited_in_stmts(b.stmts@)
}

pub open spec fn awaited_in_stmts(ss: Seq<Stmt>) -> Seq<Expr>
    decreases ss,
{
    if ss.len() == 0 {
        Seq::empty()
    } else {
        awaited_in_stmts(ss.drop_last()) + awaited_in_stmt(ss.last())
    }
}

/// The await points of a statement: those of a `let`'s initializer, of an
/// expression statement, or of the body of a nested async function.
pub open spec fn awaited_in_stmt(s: Stmt) -> Seq<Expr>
    decreases s,
{
    match s {
        Stmt::Let(l) => match l.init {
            Some(e) => awaited_in_expr(e),
            None => Seq::empty(),
        },
        Stmt::Expr(e) => awaited_in_expr(e),
        Stmt::Item(Item::Function(f)) => if f.is_async {
            awaited_in_block(f.body)
        } else {
            Seq::empty()
        },
        Stmt::Item(_) => Seq::empty(),
    }
}

/// The number of await points in an expression, a block, a statement or
/// a list of them: one per awaited expression met.
pub open spec fn awaits_in_expr(e: Expr) -> nat {
    awaited_in_expr(e).len()
}

pub open spec fn awaits_in_exprs(es: Seq<Expr>) -> nat {
    awaited_in_exprs(es).len()
}

pub open spec fn awaits_in_arms(arms: Seq<MatchArm>) -> nat {
    awaited_in_arms(arms).len()
}

pub open spec fn awaits_in_fields(fs: Seq<(Ident, Expr)>) -> nat {
    awaited_in_fields(fs).len()
}

pub open spec fn awaits_in_block(b: Block) -> nat {
    awaited_in_block(b).len()
}

pub open spec fn awaits_in_stmts(ss: Seq<Stmt>) -> nat {
    awaited_in_stmts(ss).len()
}

pub open spec fn awaits_in_stmt(s: Stmt) -> nat {
    awaited_in_stmt(s).len()
}

/// Whether a match arm's pattern is the name `name`.
pub open spec fn arm_named(arm: MatchArm, name: Seq<char>) -> bool {
    arm.pattern matches Pattern::Ident(p) && p.name@ == name
}

/// `e` is the identifier `text`.
pub open spec fn ident_is(e: Expr, text: Seq<char>) -> bool {
    e matches Expr::Ident(id) && id.name@ == text
}

/// `e` is a block of the single statement `s`.
pub open spec fn block_of_one(e: Expr) -> Option<Stmt> {
    match e {
        Expr::Block(b) => if b.stmts@.len() == 1 { Some(b.stmts@[0]) } else { None },
        _ => None,
    }
}

/// The body of the `Start` arm: `self.state = State0`.
pub open spec fn start_arm_body(e: Expr) -> bool {
    block_of_one(e) matches Some(Stmt::Expr(Expr::Assign(a))) && ident_is(*a.left, "self.state"@) && ident_is(
        *a.right,
        "State0"@,
    )
}

/// The body of an await arm: `future.poll(cx)`.
pub open spec fn await_arm_body(e: Expr) -> bool {
    block_of_one(e) matches Some(Stmt::Expr(Expr::Call(c))) && ident_is(*c.func, "future.poll"@) && c.args@.len() == 1
        && ident_is(c.args@[0], "cx"@)
}

/// The body of the `Completed` arm: `return Poll::Ready(result)`.
pub open spec fn completed_arm_body(e: Expr) -> bool {
    block_of_one(e) matches Some(Stmt::Expr(Expr::Return(Some(x)))) && ident_is(*x, "Poll::Ready(result)"@)
}

/// A point numbered `id`, whose awaited type is not inferred yet.
pub open spec fn point_ok(p: AwaitPoint, id: int) -> bool {
    &&& p.id == id
    &&& p.await_ty is Unit
    &&& p.next_state == AsyncState::Awaiting(p.id)
}

/// Whether `after` is `before` followed by one point per expression of
/// `awaited`, numbered from `first`, each holding that expression.
pub open spec fn appended_points(before: Seq<AwaitPoint>, after: Seq<AwaitPoint>, first: int, awaited: Seq<Expr>) -> bool {
    &&& after.len() == before.len() + awaited.len()
    &&& forall|k: int| 0 <= k < before.len() ==> after[k] == before[k]
    &&& forall|k: int| before.len() <= k < after.len() ==> point_ok(#[trigger] after[k], first + (k - before.len()))
        && same_expr(awaited[k - before.len()], after[k].expr)
}

/// The name of the state enum's variant for `s`.
pub open spec fn variant_name(s: AsyncState) -> Seq<char> {
    match s {
        AsyncState::Start => "Start"@,
        AsyncState::Awaiting(id) => "Awaiting"@ + decimal(id as nat),
        AsyncState::Completed => "Completed"@,
        AsyncState::Panicked => "Panicked"@,
    }
}

/// The states of a machine with `n` await points: `Start`, `Awaiting(i)`
/// for each point in order, `Completed` and `Panicked`.
pub open spec fn machine_states(n: nat) -> Seq<AsyncState> {
    seq![AsyncState::Start] + Seq::new(n, |i: int| AsyncState::Awaiting(i as u32)) + seq![
        AsyncState::Completed,
        AsyncState::Panicked,
    ]
}

/// Builds async state machines, numbering states and await points.
pub struct AsyncStateMachineGenerator {
    state_counter: u32,
    await_counter: u32,
    await_points: Vec<AwaitPoint>,
    states: Vec<AsyncState>,
}

/// A variant of the generated state enum.
#[derive(Debug)]
pub struct StateVariant {
    pub name: Ident,
    pub fields: Vec<StateField>,
}

/// A field of a state variant.
#[derive(Debug)]
pub struct StateField {
    pub name: Ident,
    pub ty: Type,
}

/// The generated state enum.
#[derive(Debug)]
pub struct StateEnum {
    pub name: Ident,
    pub variants: Vec<StateVariant>,
}

/// The generated `Future` implementation.
#[derive(Debug)]
pub struct FutureImpl {
    pub struct_name: Ident,
    pub output_ty: Type,
    pub poll_body: Vec<Stmt>,
}

/// The future's output type: the function's return type, unit when it has
/// none.
pub open spec fn same_opt_type_or_unit(ret: Option<Type>, out: Type) -> bool {
    match ret {
        Some(t) => same_type(t, out),
        None => out is Unit,
    }
}

/// The result of transforming an async function.
#[derive(Debug)]
pub struct AsyncFunctionTransform {
    pub original_func: Function,
    pub state_enum: StateEnum,
    pub future_impl: FutureImpl,
    pub await_points: Vec<AwaitPoint>,
    pub states: Vec<AsyncState>,
}

/// The path made of the single segment `name`.
pub fn make_path(name: &str) -> (p: Path)
    ensures
        p.segments@.len() == 1,
        p.segments@[0].ident.name@ == name@,
{
    simple_path(name)
}

impl AsyncStateMachineGenerator {
    /// The number of states handed out so far.
    pub closed spec fn states_issued(&self) -> nat {
        self.state_counter as nat
    }

    /// The number of await points numbered so far.
    pub closed spec fn awaits_issued(&self) -> nat {
        self.await_counter as nat
    }

    /// Every await point found so far, by number.
    pub closed spec fn found(&self) -> Seq<AwaitPoint> {
        self.await_points@
    }

    pub closed spec fn machine(&self) -> Seq<AsyncState> {
        self.states@
    }

    /// The points found so far are numbered 0, 1, ... in order.
    pub closed spec fn wf(&self) -> bool {
        &&& self.await_points@.len() == self.await_counter
        &&& forall|k: int| 0 <= k < self.await_points@.len() ==> point_ok(#[trigger] self.await_points@[k], k)
    }

    pub fn new() -> (g: Self)
        ensures
            g.wf(),
            g.states_issued() == 0,
            g.awaits_issued() == 0,
            g.machine() == seq![AsyncState::Start],
    {
        let mut states = Vec::new();
        states.push(AsyncState::Start);
        let g = AsyncStateMachineGenerator { state_counter: 0, await_counter: 0, await_points: Vec::new(), states };
        proof {
            assert(g.machine() =~= seq![AsyncState::Start]);
        }
        g
    }

    /// The number of states handed out so far.
    pub fn state_counter(&self) -> (n: u32)
        ensures
            n == self.states_issued(),
    {
        self.state_counter
    }

    /// The number of await points numbered so far.
    pub fn await_counter(&self) -> (n: u32)
        ensures
            n == self.awaits_issued(),
    {
        self.await_counter
    }

    /// A fresh state number.
    pub fn new_state_id(&mut self) -> (id: u32)
        requires
            old(self).wf(),
            old(self).states_issued() < u32::MAX,
        ensures
            final(self).wf(),
            id == old(self).states_issued(),
            final(self).states_issued() == old(self).states_issued() + 1,
            final(self).awaits_issued() == old(self).awaits_issued(),
            final(self).found() == old(self).found(),
    {
        let id = self.state_counter;
        self.state_counter = self.state_counter + 1;
        id
    }

    /// A fresh await point number.
    fn new_await_id(&mut self) -> (id: u32)
        requires
            old(self).awaits_issued() < u32::MAX,
        ensures
            id == old(self).awaits_issued(),
            final(self).awaits_issued() == old(self).awaits_issued() + 1,
            final(self).states_issued() == old(self).states_issued(),
            final(self).found() == old(self).found(),
            final(self).machine() == old(self).machine(),
    {
        let id = self.await_counter;
        self.await_counter = self.await_counter + 1;
        id
    }

    /// Numbers an await of `awaited` and records the point.
    fn record_await(&mut self, awaited: &Expr, points: &mut Vec<AwaitPoint>)
        requires
            old(self).wf(),
            old(self).awaits_issued() < u32::MAX,
        ensures
            final(self).wf(),
            final(self).awaits_issued() == old(self).awaits_issued() + 1,
            final(self).states_issued() == old(self).states_issued(),
            final(self).machine() == old(self).machine(),
            appended_points(old(points)@, final(points)@, old(self).awaits_issued() as int, seq![*awaited]),
            appended_points(old(self).found(), final(self).found(), old(self).awaits_issued() as int, seq![*awaited]),
    {
        let id = self.new_await_id();
        self.await_points.push(AwaitPoint {
            id,
            expr: awaited.deep_clone(),
            await_ty: Type::Unit,
            next_state: AsyncState::Awaiting(id),
        });
        points.push(AwaitPoint { id, expr: awaited.deep_clone(), await_ty: Type::Unit, next_state: AsyncState::Awaiting(id) });
    }

    /// Collects the await points of an expression, numbering them in order.
    pub fn collect_await_points_recursive(&mut self, expr: &Expr, points: &mut Vec<AwaitPoint>)
        requires
            old(self).wf(),
            old(self).awaits_issued() + awaits_in_expr(*expr) <= u32::MAX,
        ensures
            final(self).wf(),
            final(self).awaits_issued() == old(self).awaits_issued() + awaits_in_expr(*expr),
            final(self).states_issued() == old(self).states_issued(),
            final(self).machine() == old(self).machine(),
            appended_points(old(points)@, final(points)@, old(self).awaits_issued() as int, awaited_in_expr(*expr)),
            appended_points(old(self).found(), final(self).found(), old(self).awaits_issued() as int, awaited_in_expr(*expr)),
        decreases expr,
    {
        let ghost p0 = points@;
        let ghost f0 = self.found();
        let ghost c0 = self.await_counter as int;
        match expr {
            Expr::Await(inner) => {
                self.record_await(inner, points);
            },
            Expr::Block(b) => {
                self.collect_await_points_in_block_into(b, points);
            },
            Expr::If(i) => {
                self.collect_await_points_recursive(&i.cond, points);
                let ghost p1 = points@;
                let ghost f1 = self.found();
                self.collect_await_points_in_block_into(&i.then_branch, points);
                let ghost p2 = points@;
                let ghost f2 = self.found();
                match &i.else_branch {
                    Some(e) => {
                        self.collect_await_points_recursive(e, points);
                    },
                    None => {},
                }
                proof {
                    lemma_append_chain3(p0, p1, p2, points@, c0, awaited_in_expr(*i.cond), awaited_in_block(i.then_branch),
                        match &i.else_branch { Some(e) => awaited_in_expr(**e), None => Seq::empty() });
                    lemma_append_chain3(f0, f1, f2, self.found(), c0, awaited_in_expr(*i.cond), awaited_in_block(i.then_branch),
                        match &i.else_branch { Some(e) => awaited_in_expr(**e), None => Seq::empty() });
                }
            },
            Expr::While(w) => {
                self.collect_await_points_recursive(&w.cond, points);
                let ghost p1 = points@;
                let ghost f1 = self.found();
                self.collect_await_points_in_block_into(&w.body, points);
                proof {
                    lemma_append_chain(p0, p1, points@, c0, awaited_in_expr(*w.cond), awaited_in_block(w.body));
                    lemma_append_chain(f0, f1, self.found(), c0, awaited_in_expr(*w.cond), awaited_in_block(w.body));
                }
            },
            Expr::Loop(l) => {
                self.collect_await_points_in_block_into(&l.body, points);
            },
            Expr::For(f) => {
                self.collect_await_points_recursive(&f.expr, points);
                let ghost p1 = points@;
                let ghost f1 = self.found();
                self.collect_await_points_in_block_into(&f.body, points);
                proof {
                    lemma_append_chain(p0, p1, points@, c0, awaited_in_expr(*f.expr), awaited_in_block(f.body));
                    lemma_append_chain(f0, f1, self.found(), c0, awaited_in_expr(*f.expr), awaited_in_block(f.body));
                }
            },
            Expr::Match(m) => {
                self.collect_await_points_recursive(&m.expr, points);
                let ghost p1 = points@;
                let ghost f1 = self.found();
                self.collect_in_arms(&m.arms, points);
                proof {
                    lemma_append_chain(p0, p1, points@, c0, awaited_in_expr(*m.expr), awaited_in_arms(m.arms@));
                    lemma_append_chain(f0, f1, self.found(), c0, awaited_in_expr(*m.expr), awaited_in_arms(m.arms@));
                }
            },
            Expr::Binary(b) => {
                self.collect_await_points_recursive(&b.left, points);
                let ghost p1 = points@;
                let ghost f1 = self.found();
                self.collect_await_points_recursive(&b.right, points);
                proof {
                    lemma_append_chain(p0, p1, points@, c0, awaited_in_expr(*b.left), awaited_in_expr(*b.right));
                    lemma_append_chain(f0, f1, self.found(), c0, awaited_in_expr(*b.left), awaited_in_expr(*b.right));
                }
            },
            Expr::Unary(u) => {
                self.collect_await_points_recursive(&u.expr, points);
            },
            Expr::Call(c) => {
                self.collect_await_points_recursive(&c.func, points);
                let ghost p1 = points@;
                let ghost f1 = self.found();
                self.collect_in_exprs(&c.args, points);
                proof {
                    lemma_append_chain(p0, p1, points@, c0, awaited_in_expr(*c.func), awaited_in_exprs(c.args@));
                    lemma_append_chain(f0, f1, self.found(), c0, awaited_in_expr(*c.func), awaited_in_exprs(c.args@));
                }
            },
            Expr::MethodCall(m) => {
                self.collect_await_points_recursive(&m.receiver, points);
                let ghost p1 = points@;
                let ghost f1 = self.found();
                self.collect_in_exprs(&m.args, points);
                proof {
                    lemma_append_chain(p0, p1, points@, c0, awaited_in_expr(*m.receiver), awaited_in_exprs(m.args@));
                    lemma_append_chain(f0, f1, self.found(), c0, awaited_in_expr(*m.receiver), awaited_in_exprs(m.args@));
                }
            },
            Expr::Return(r) => {
                match r {
                    Some(e) => {
                        self.collect_await_points_recursive(e, points);
                    },
                    None => {},
                }
            },
            Expr::Assign(a) => {
                self.collect_await_points_recursive(&a.left, points);
                let ghost p1 = points@;
                let ghost f1 = self.found();
                self.collect_await_points_recursive(&a.right, points);
                proof {
                    lemma_append_chain(p0, p1, points@, c0, awaited_in_expr(*a.left), awaited_in_expr(*a.right));
                    lemma_append_chain(f0, f1, self.found(), c0, awaited_in_expr(*a.left), awaited_in_expr(*a.right));
                }
            },
            Expr::FieldAccess(f) => {
                self.collect_await_points_recursive(&f.expr, points);
            },
            Expr::Index(i) => {
                self.collect_await_points_recursive(&i.expr, points);
                let ghost p1 = points@;
                let ghost f1 = self.found();
                self.collect_await_points_recursive(&i.index, points);
                proof {
                    lemma_append_chain(p0, p1, points@, c0, awaited_in_expr(*i.expr), awaited_in_expr(*i.index));
                    lemma_append_chain(f0, f1, self.found(), c0, awaited_in_expr(*i.expr), awaited_in_expr(*i.index));
                }
            },
            Expr::ArrayInit(a) => {
                self.collect_in_exprs(&a.elements, points);
            },
            Expr::StructInit(s) => {
                self.collect_in_fields(&s.fields, points);
            },
            Expr::Closure(c) => {
                self.collect_await_points_recursive(&c.body, points);
            },
            Expr::Async(b) => {
                self.collect_await_points_in_block_into(b, points);
            },
            _ => {
                proof {
                    assert(points@ =~= p0);
                }
            },
        }
    }

    fn collect_in_exprs(&mut self, es: &Vec<Expr>, points: &mut Vec<AwaitPoint>)
        requires
            old(self).wf(),
            old(self).awaits_issued() + awaits_in_exprs(es@) <= u32::MAX,
        ensures
            final(self).wf(),
            final(self).awaits_issued() == old(self).awaits_issued() + awaits_in_exprs(es@),
            final(self).states_issued() == old(self).states_issued(),
            final(self).machine() == old(self).machine(),
            appended_points(old(points)@, final(points)@, old(self).awaits_issued() as int, awaited_in_exprs(es@)),
            appended_points(old(self).found(), final(self).found(), old(self).awaits_issued() as int, awaited_in_exprs(es@)),
        decreases es,
    {
        let ghost p0 = points@;
        let ghost f0 = self.found();
        let ghost c0 = self.await_counter as int;
        let mut i: usize = 0;
        while i < es.len()
            invariant
                i <= es@.len(),
                self.wf(),
                self.await_counter == c0 + awaits_in_exprs(es@.take(i as int)),
                awaits_in_exprs(es@) + c0 <= u32::MAX,
                self.states_issued() == old(self).states_issued(),
                self.machine() == old(self).machine(),
                appended_points(p0, points@, c0, awaited_in_exprs(es@.take(i as int))),
                appended_points(f0, self.found(), c0, awaited_in_exprs(es@.take(i as int))),
            decreases es@.len() - i,
        {
            proof {
                assert(es@.take(i as int + 1).drop_last() =~= es@.take(i as int));
                lemma_exprs_prefix(es@, i as int + 1);
            }
            let ghost p1 = points@;
            let ghost f1 = self.found();
            assert(decreases_to!(es => es@[i as int]));
            self.collect_await_points_recursive(&es[i], points);
            proof {
                lemma_append_chain(p0, p1, points@, c0, awaited_in_exprs(es@.take(i as int)), awaited_in_expr(es@[i as int]));
                lemma_append_chain(f0, f1, self.found(), c0, awaited_in_exprs(es@.take(i as int)), awaited_in_expr(es@[i as int]));
            }
            i = i + 1;
        }
        proof {
            assert(es@.take(i as int) =~= es@);
        }
    }

    fn collect_in_arms(&mut self, arms: &Vec<MatchArm>, points: &mut Vec<AwaitPoint>)
        requires
            old(self).wf(),
            old(self).awaits_issued() + awaits_in_arms(arms@) <= u32::MAX,
        ensures
            final(self).wf(),
            final(self).awaits_issued() == old(self).awaits_issued() + awaits_in_arms(arms@),
            final(self).states_issued() == old(self).states_issued(),
            final(self).machine() == old(self).machine(),
            appended_points(old(points)@, final(points)@, old(self).awaits_issued() as int, awaited_in_arms(arms@)),
            appended_points(old(self).found(), final(self).found(), old(self).awaits_issued() as int, awaited_in_arms(arms@)),
        decreases arms,
    {
        let ghost p0 = points@;
        let ghost f0 = self.found();
        let ghost c0 = self.await_counter as int;
        let mut i: usize = 0;
        while i < arms.len()
            invariant
                i <= arms@.len(),
                self.wf(),
                self.await_counter == c0 + awaits_in_arms(arms@.take(i as int)),
                awaits_in_arms(arms@) + c0 <= u32::MAX,
                self.states_issued() == old(self).states_issued(),
                self.machine() == old(self).machine(),
                appended_points(p0, points@, c0, awaited_in_arms(arms@.take(i as int))),
                appended_points(f0, self.found(), c0, awaited_in_arms(arms@.take(i as int))),
            decreases arms@.len() - i,
        {
            proof {
                assert(arms@.take(i as int + 1).drop_last() =~= arms@.take(i as int));
                lemma_arms_prefix(arms@, i as int + 1);
            }
            let ghost p1 = points@;
            let ghost f1 = self.found();
            assert(decreases_to!(arms => arms@[i as int]));
            self.collect_await_points_recursive(&arms[i].body, points);
            proof {
                lemma_append_chain(p0, p1, points@, c0, awaited_in_arms(arms@.take(i as int)), awaited_in_expr(arms@[i as int].body));
                lemma_append_chain(f0, f1, self.found(), c0, awaited_in_arms(arms@.take(i as int)), awaited_in_expr(arms@[i as int].body));
            }
            i = i + 1;
        }
        proof {
            assert(arms@.take(i as int) =~= arms@);
        }
    }

    fn collect_in_fields(&mut self, fs: &Vec<(Ident, Expr)>, points: &mut Vec<AwaitPoint>)
        requires
            old(self).wf(),
            old(self).awaits_issued() + awaits_in_fields(fs@) <= u32::MAX,
        ensures
            final(self).wf(),
            final(self).awaits_issued() == old(self).awaits_issued() + awaits_in_fields(fs@),
            final(self).states_issued() == old(self).states_issued(),
            final(self).machine() == old(self).machine(),
            appended_points(old(points)@, final(points)@, old(self).awaits_issued() as int, awaited_in_fields(fs@)),
            appended_points(old(self).found(), final(self).found(), old(self).awaits_issued() as int, awaited_in_fields(fs@)),
        decreases fs,
    {
        let ghost p0 = points@;
        let ghost f0 = self.found();
        let ghost c0 = self.await_counter as int;
        let mut i: usize = 0;
        while i < fs.len()
            invariant
                i <= fs@.len(),
                self.wf(),
                self.await_counter == c0 + awaits_in_fields(fs@.take(i as int)),
                awaits_in_fields(fs@) + c0 <= u32::MAX,
                self.states_issued() == old(self).states_issued(),
                self.machine() == old(self).machine(),
                appended_points(p0, points@, c0, awaited_in_fields(fs@.take(i as int))),
                appended_points(f0, self.found(), c0, awaited_in_fields(fs@.take(i as int))),
            decreases fs@.len() - i,
        {
            proof {
                assert(fs@.take(i as int + 1).drop_last() =~= fs@.take(i as int));
                lemma_fields_prefix(fs@, i as int + 1);
            }
            let ghost p1 = points@;
            let ghost f1 = self.found();
            assert(decreases_to!(fs => fs@[i as int]));
            self.collect_await_points_recursive(&fs[i].1, points);
            proof {
                lemma_append_chain(p0, p1, points@, c0, awaited_in_fields(fs@.take(i as int)), awaited_in_expr(fs@[i as int].1));
                lemma_append_chain(f0, f1, self.found(), c0, awaited_in_fields(fs@.take(i as int)), awaited_in_expr(fs@[i as int].1));
            }
            i = i + 1;
        }
        proof {
            assert(fs@.take(i as int) =~= fs@);
        }
    }

    fn collect_await_points_in_block_into(&mut self, block: &Block, points: &mut Vec<AwaitPoint>)
        requires
            old(self).wf(),
            old(self).awaits_issued() + awaits_in_block(*block) <= u32::MAX,
        ensures
            final(self).wf(),
            final(self).awaits_issued() == old(self).awaits_issued() + awaits_in_block(*block),
            final(self).states_issued() == old(self).states_issued(),
            final(self).machine() == old(self).machine(),
            appended_points(old(points)@, final(points)@, old(self).awaits_issued() as int, awaited_in_block(*block)),
            appended_points(old(self).found(), final(self).found(), old(self).awaits_issued() as int, awaited_in_block(*block)),
        decreases block,
    {
        let ghost p0 = points@;
        let ghost f0 = self.found();
        let ghost c0 = self.await_counter as int;
        let stmts = &block.stmts;
        let mut i: usize = 0;
        while i < stmts.len()
            invariant
                i <= stmts@.len(),
                stmts == &block.stmts,
                self.wf(),
                self.await_counter == c0 + awaits_in_stmts(stmts@.take(i as int)),
                awaits_in_stmts(stmts@) + c0 <= u32::MAX,
                self.states_issued() == old(self).states_issued(),
                self.machine() == old(self).machine(),
                appended_points(p0, points@, c0, awaited_in_stmts(stmts@.take(i as int))),
                appended_points(f0, self.found(), c0, awaited_in_stmts(stmts@.take(i as int))),
            decreases stmts@.len() - i,
        {
            proof {
                assert(stmts@.take(i as int + 1).drop_last() =~= stmts@.take(i as int));
                lemma_stmts_prefix(stmts@, i as int + 1);
            }
            let ghost p1 = points@;
            let ghost f1 = self.found();
            assert(decreases_to!(block => block.stmts@[i as int]));
            self.collect_await_points_in_stmt(&stmts[i], points);
            proof {
                lemma_append_chain(p0, p1, points@, c0, awaited_in_stmts(stmts@.take(i as int)), awaited_in_stmt(stmts@[i as int]));
                lemma_append_chain(f0, f1, self.found(), c0, awaited_in_stmts(stmts@.take(i as int)), awaited_in_stmt(stmts@[i as int]));
            }
            i = i + 1;
        }
        proof {
            assert(stmts@.take(i as int) =~= stmts@);
        }
    }

    /// Collects the await points of a statement.
    fn collect_await_points_in_stmt(&mut self, stmt: &Stmt, points: &mut Vec<AwaitPoint>)
        requires
            old(self).wf(),
            old(self).awaits_issued() + awaits_in_stmt(*stmt) <= u32::MAX,
        ensures
            final(self).wf(),
            final(self).awaits_issued() == old(self).awaits_issued() + awaits_in_stmt(*stmt),
            final(self).states_issued() == old(self).states_issued(),
            final(self).machine() == old(self).machine(),
            appended_points(old(points)@, final(points)@, old(self).awaits_issued() as int, awaited_in_stmt(*stmt)),
            appended_points(old(self).found(), final(self).found(), old(self).awaits_issued() as int, awaited_in_stmt(*stmt)),
        decreases stmt,
    {
        let ghost p0 = points@;
        let ghost f0 = self.found();
        match stmt {
            Stmt::Let(l) => {
                match &l.init {
                    Some(e) => {
                        self.collect_await_points_recursive(e, points);
                    },
                    None => {
                        proof {
                            assert(points@ =~= p0);
                        }
                    },
                }
            },
            Stmt::Expr(e) => {
                self.collect_await_points_recursive(e, points);
            },
            Stmt::Item(Item::Function(f)) => {
                if f.is_async {
                    self.collect_await_points_in_block_into(&f.body, points);
                } else {
                    proof {
                        assert(points@ =~= p0);
                    }
                }
            },
            Stmt::Item(_) => {
                proof {
                    assert(points@ =~= p0);
                }
            },
        }
    }

    /// The await points of a block, numbered in order.
    pub fn collect_await_points_in_block(&mut self, block: &Block) -> (points: Vec<AwaitPoint>)
        requires
            old(self).wf(),
            old(self).awaits_issued() + awaits_in_block(*block) <= u32::MAX,
        ensures
            final(self).wf(),
            final(self).awaits_issued() == old(self).awaits_issued() + awaits_in_block(*block),
            final(self).machine() == old(self).machine(),
            appended_points(Seq::empty(), points@, old(self).awaits_issued() as int, awaited_in_block(*block)),
            appended_points(old(self).found(), final(self).found(), old(self).awaits_issued() as int, awaited_in_block(*block)),
    {
        let mut points = Vec::new();
        self.collect_await_points_in_block_into(block, &mut points);
        points
    }

    /// The await points of an expression, numbered in order.
    pub fn collect_await_points(&mut self, expr: &Expr) -> (points: Vec<AwaitPoint>)
        requires
            old(self).wf(),
            old(self).awaits_issued() + awaits_in_expr(*expr) <= u32::MAX,
        ensures
            final(self).wf(),
            final(self).awaits_issued() == old(self).awaits_issued() + awaits_in_expr(*expr),
            appended_points(Seq::empty(), points@, old(self).awaits_issued() as int, awaited_in_expr(*expr)),
            appended_points(old(self).found(), final(self).found(), old(self).awaits_issued() as int, awaited_in_expr(*expr)),
    {
        let mut points = Vec::new();
        self.collect_await_points_recursive(expr, &mut points);
        points
    }

    /// The state enum `__AsyncState` with a variant per state; an awaiting
    /// variant holds the future it waits on.
    pub fn generate_state_enum(&self, states: &[AsyncState]) -> (e: StateEnum)
        ensures
            e.name.name@ == "__AsyncState"@,
            e.variants@.len() == states@.len(),
            forall|i: int| 0 <= i < states@.len() ==> (#[trigger] e.variants@[i]).name.name@ == variant_name(states@[i])
                && e.variants@[i].fields@.len() == (if states@[i] is Awaiting { 1int } else { 0int }),
    {
        let mut variants: Vec<StateVariant> = Vec::new();
        let mut i: usize = 0;
        while i < states.len()
            invariant
                i <= states@.len(),
                variants@.len() == i,
                forall|k: int| 0 <= k < i ==> (#[trigger] variants@[k]).name.name@ == variant_name(states@[k])
                    && variants@[k].fields@.len() == (if states@[k] is Awaiting { 1int } else { 0int }),
            decreases states@.len() - i,
        {
            let v = match states[i] {
                AsyncState::Start => StateVariant { name: Ident::new("Start"), fields: Vec::new() },
                AsyncState::Awaiting(id) => {
                    let mut fields = Vec::new();
                    fields.push(StateField { name: Ident::new("future"), ty: Type::Path(make_path("BoxFuture")) });
                    StateVariant { name: Ident { name: prefixed_decimal("Awaiting", id as u64) }, fields }
                },
                AsyncState::Completed => StateVariant { name: Ident::new("Completed"), fields: Vec::new() },
                AsyncState::Panicked => StateVariant { name: Ident::new("Panicked"), fields: Vec::new() },
            };
            variants.push(v);
            i = i + 1;
        }
        StateEnum { name: Ident::new("__AsyncState"), variants }
    }

    /// The skeleton of the poll function: one `match self.state` with an arm
    /// for `Start`, one per await point and one for `Completed`.
    pub fn generate_poll_body(&self, await_points: &[AwaitPoint]) -> (body: Vec<Stmt>)
        ensures
            body@.len() == 1,
            body@[0] matches Stmt::Expr(Expr::Match(m)) && m.arms@.len() == await_points@.len() + 2
                && ident_is(*m.expr, "self.state"@)
                && arm_named(m.arms@[0], "Start"@) && arm_named(m.arms@[m.arms@.len() - 1], "Completed"@)
                && start_arm_body(m.arms@[0].body) && completed_arm_body(m.arms@[m.arms@.len() - 1].body)
                && (forall|k: int| 0 <= k < m.arms@.len() ==> (#[trigger] m.arms@[k]).guard is None)
                && forall|k: int| 0 <= k < await_points@.len() ==> arm_named(
                    #[trigger] m.arms@[k + 1],
                    "Awaiting"@ + decimal(await_points@[k].id as nat),
                ) && await_arm_body(m.arms@[k + 1].body),
    {
        let mut arms: Vec<MatchArm> = Vec::new();
        let mut start_stmts = Vec::new();
        start_stmts.push(Stmt::Expr(Expr::Assign(AssignExpr {
            left: Box::new(Expr::Ident(Ident::new("self.state"))),
            right: Box::new(Expr::Ident(Ident::new("State0"))),
        })));
        arms.push(MatchArm {
            pattern: Pattern::Ident(Ident::new("Start")),
            guard: None,
            body: Expr::Block(Block { stmts: start_stmts, span: 0..0 }),
        });
        let mut i: usize = 0;
        while i < await_points.len()
            invariant
                i <= await_points@.len(),
                arms@.len() == i + 1,
                arm_named(arms@[0], "Start"@),
                start_arm_body(arms@[0].body),
                forall|k: int| 0 <= k < arms@.len() ==> (#[trigger] arms@[k]).guard is None,
                forall|k: int| 0 <= k < i ==> arm_named(#[trigger] arms@[k + 1], "Awaiting"@ + decimal(await_points@[k].id as nat))
                    && await_arm_body(arms@[k + 1].body),
            decreases await_points@.len() - i,
        {
            let mut args = Vec::new();
            args.push(Expr::Ident(Ident::new("cx")));
            let mut stmts = Vec::new();
            stmts.push(Stmt::Expr(Expr::Call(CallExpr { func: Box::new(Expr::Ident(Ident::new("future.poll"))), args })));
            arms.push(MatchArm {
                pattern: Pattern::Ident(Ident { name: prefixed_decimal("Awaiting", await_points[i].id as u64) }),
                guard: None,
                body: Expr::Block(Block { stmts, span: 0..0 }),
            });
            i = i + 1;
        }
        let mut done_stmts = Vec::new();
        done_stmts.push(Stmt::Expr(Expr::Return(Some(Box::new(Expr::Ident(Ident::new("Poll::Ready(result)")))))));
        arms.push(MatchArm {
            pattern: Pattern::Ident(Ident::new("Completed")),
            guard: None,
            body: Expr::Block(Block { stmts: done_stmts, span: 0..0 }),
        });
        let mut body = Vec::new();
        body.push(Stmt::Expr(Expr::Match(MatchExpr { expr: Box::new(Expr::Ident(Ident::new("self.state"))), arms })));
        body
    }

    /// The `Future` implementation for `func`: the struct
    /// `__AsyncFuture_<name>`, the function's result type (unit when none is
    /// written) and the poll skeleton.
    pub fn generate_future_impl(&self, func: &Function, await_points: &[AwaitPoint]) -> (f: FutureImpl)
        ensures
            f.struct_name.name@ == "__AsyncFuture_"@ + func.name.name@,
            same_opt_type_or_unit(func.return_type, f.output_ty),
            f.poll_body@.len() == 1,
    {
        let mut struct_name = "__AsyncFuture_".to_owned();
        struct_name.append(func.name.as_str());
        let output_ty = match &func.return_type {
            Some(t) => t.deep_clone(),
            None => Type::Unit,
        };
        FutureImpl { struct_name: Ident { name: struct_name }, output_ty, poll_body: self.generate_poll_body(await_points) }
    }

    /// Transforms an async function: finds its await points, lists the
    /// states (`Start`, one per point, `Completed`, `Panicked`), and builds
    /// the state enum and the `Future` implementation.
    pub fn transform_async_function(&mut self, func: &Function) -> (t: AsyncFunctionTransform)
        requires
            old(self).wf(),
            old(self).awaits_issued() + awaits_in_block(func.body) <= u32::MAX,
        ensures
            final(self).wf(),
            appended_points(Seq::empty(), t.await_points@, old(self).awaits_issued() as int, awaited_in_block(func.body)),
            appended_points(old(self).found(), final(self).found(), old(self).awaits_issued() as int, awaited_in_block(func.body)),
            t.states@ == machine_states(awaits_in_block(func.body)),
            final(self).machine() == t.states@,
            t.state_enum.variants@.len() == t.states@.len(),
            t.future_impl.struct_name.name@ == "__AsyncFuture_"@ + func.name.name@,
            same_opt_type_or_unit(func.return_type, t.future_impl.output_ty),
            same_function(*func, t.original_func),
    {
        let points = self.collect_await_points_in_block(&func.body);
        let n = points.len();
        let mut states: Vec<AsyncState> = Vec::new();
        states.push(AsyncState::Start);
        let mut i: usize = 0;
        while i < n
            invariant
                i <= n,
                n <= u32::MAX,
                states@ == seq![AsyncState::Start] + Seq::new(i as nat, |k: int| AsyncState::Awaiting(k as u32)),
            decreases n - i,
        {
            states.push(AsyncState::Awaiting(i as u32));
            proof {
                assert(states@ =~= seq![AsyncState::Start] + Seq::new((i + 1) as nat, |k: int| AsyncState::Awaiting(k as u32)));
            }
            i = i + 1;
        }
        states.push(AsyncState::Completed);
        states.push(AsyncState::Panicked);
        proof {
            assert(states@ =~= machine_states(n as nat));
        }
        self.states = states.clone();
        let state_enum = self.generate_state_enum(states.as_slice());
        let future_impl = self.generate_future_impl(func, points.as_slice());
        AsyncFunctionTransform { original_func: func.deep_clone(), state_enum, future_impl, await_points: points, states }
    }
}

impl Default for AsyncStateMachineGenerator {
    fn default() -> (g: Self)
        ensures
            g.wf(),
            g.states_issued() == 0,
            g.awaits_issued() == 0,
    {
        AsyncStateMachineGenerator::new()
    }
}

proof fn lemma_append_chain(p0: Seq<AwaitPoint>, p1: Seq<AwaitPoint>, p2: Seq<AwaitPoint>, c0: int, e1: Seq<Expr>, e2: Seq<Expr>)
    requires
        appended_points(p0, p1, c0, e1),
        appended_points(p1, p2, c0 + e1.len(), e2),
    ensures
        appended_points(p0, p2, c0, e1 + e2),
{
    assert forall|k: int| p0.len() <= k < p2.len() implies point_ok(#[trigger] p2[k], c0 + (k - p0.len()))
        && same_expr((e1 + e2)[k - p0.len()], p2[k].expr) by {
        if k < p1.len() {
            assert(p2[k] == p1[k]);
            assert(point_ok(p1[k], c0 + (k - p0.len())));
        } else {
            assert(point_ok(p2[k], c0 + e1.len() + (k - p1.len())));
        }
    }
}

proof fn lemma_append_chain3(
    p0: Seq<AwaitPoint>,
    p1: Seq<AwaitPoint>,
    p2: Seq<AwaitPoint>,
    p3: Seq<AwaitPoint>,
    c0: int,
    e1: Seq<Expr>,
    e2: Seq<Expr>,
    e3: Seq<Expr>,
)
    requires
        appended_points(p0, p1, c0, e1),
        appended_points(p1, p2, c0 + e1.len(), e2),
        appended_points(p2, p3, c0 + e1.len() + e2.len(), e3),
    ensures
        appended_points(p0, p3, c0, e1 + e2 + e3),
{
    lemma_append_chain(p0, p1, p2, c0, e1, e2);
    lemma_append_chain(p0, p2, p3, c0, e1 + e2, e3);
}

proof fn lemma_exprs_prefix(es: Seq<Expr>, k: int)
    requires
        0 <= k <= es.len(),
    ensures
        awaits_in_exprs(es.take(k)) <= awaits_in_exprs(es),
    decreases es.len(),
{
    if k < es.len() {
        assert(es.drop_last().take(k) =~= es.take(k));
        lemma_exprs_prefix(es.drop_last(), k);
    } else {
        assert(es.take(k) =~= es);
    }
}

proof fn lemma_arms_prefix(arms: Seq<MatchArm>, k: int)
    requires
        0 <= k <= arms.len(),
    ensures
        awaits_in_arms(arms.take(k)) <= awaits_in_arms(arms),
    decreases arms.len(),
{
    if k < arms.len() {
        assert(arms.drop_last().take(k) =~= arms.take(k));
        lemma_arms_prefix(arms.drop_last(), k);
    } else {
        assert(arms.take(k) =~= arms);
    }
}

proof fn lemma_fields_prefix(fs: Seq<(Ident, Expr)>, k: int)
    requires
        0 <= k <= fs.len(),
    ensures
        awaits_in_fields(fs.take(k)) <= awaits_in_fields(fs),
    decreases fs.len(),
{
    if k < fs.len() {
        assert(fs.drop_last().take(k) =~= fs.take(k));
        lemma_fields_prefix(fs.drop_last(), k);
    } else {
        assert(fs.take(k) =~= fs);
    }
}

proof fn lemma_stmts_prefix(ss: Seq<Stmt>, k: int)
    requires
        0 <= k <= ss.len(),
    ensures
        awaits_in_stmts(ss.take(k)) <= awaits_in_stmts(ss),
    decreases ss.len(),
{
    if k < ss.len() {
        assert(ss.drop_last().take(k) =~= ss.take(k));
        lemma_stmts_prefix(ss.drop_last(), k);
    } else {
        assert(ss.take(k) =~= ss);
    }
}

/// An await point of a MIR body.
#[derive(Debug, Clone, Copy, PartialEq, Eq, Structural)]
pub struct MirAwaitPoint {
    pub block: BasicBlock,
    pub statement: usize,
    pub id: u32,
}

/// The transformation of async MIR bodies into state machines.
#[derive(Debug, Clone, Copy, PartialEq, Eq, Structural)]
pub struct MirAsyncTransformer;


/// An async MIR body: the original, its state machine and its await points.
#[derive(Debug, Clone)]
pub struct AsyncMirBody {
    pub original_body: MirBody,
    pub state_machine: MirBody,
    pub await_points: Vec<MirAwaitPoint>,
}

/// Whether an rvalue stands for an await.  MIR has no await intrinsic among
/// its rvalues, so none does.
pub open spec fn is_await(rv: Rvalue) -> bool {
    false
}

/// The constant `0` of type `i32` that a state machine starts in.
pub open spec fn start_state() -> Operand {
    Operand::Constant(Constant::Scalar(Scalar::Int(0, IntType::I32)))
}

/// `sm` is the state machine for `body` with `n` await points: the same
/// argument count, span and locals plus a state local of type `u32`, and
/// `n + 2` blocks: the first sets the state local to 0, the one for each
/// await point jumps to the next block, and the rest return.
pub open spec fn state_machine_of(body: MirBody, n: nat, sm: MirBody) -> bool {
    let k = body.local_decls@.len();
    &&& sm.arg_count == body.arg_count
    &&& sm.span == body.span
    &&& sm.local_decls@.len() == k + 1
    &&& forall|i: int| 0 <= i < k ==> {
        &&& (#[trigger] sm.local_decls@[i]).span == body.local_decls@[i].span
        &&& sm.local_decls@[i].is_arg == body.local_decls@[i].is_arg
        &&& sm.local_decls@[i].mutability == body.local_decls@[i].mutability
        &&& sm.local_decls@[i].name == body.local_decls@[i].name
        &&& crate::ast::same_type(body.local_decls@[i].ty, sm.local_decls@[i].ty)
    }
    &&& sm.local_decls@[k as int].ty matches Type::Path(p) && p.segments@.len() == 1 && p.segments@[0].ident.name@
        == "u32"@ && p.segments@[0].generics@.len() == 0
    &&& !sm.local_decls@[k as int].is_arg && sm.local_decls@[k as int].name is None
    &&& sm.basic_blocks@.len() == n + 2
    &&& forall|b: int| 0 <= b < n + 2 ==> {
        &&& (#[trigger] sm.basic_blocks@[b]).terminator == Some(Terminator {
            kind: if b < n { TerminatorKind::Goto { target: BasicBlock((b + 1) as u32) } } else { TerminatorKind::Return },
            span: Span { start: 0, end: 0 },
        })
        &&& !sm.basic_blocks@[b].is_cleanup
        &&& if b == 0 {
            sm.basic_blocks@[b].statements@.len() == 1 && (sm.basic_blocks@[b].statements@[0] matches Statement::Assign(
                place,
                Rvalue::Use(v),
            ) && place.local == Local(k as u32) && place.projection@.len() == 0 && v == start_state())
        } else {
            sm.basic_blocks@[b].statements@.len() == 0
        }
    }
}

impl MirAsyncTransformer {
    /// The async form of `body`: a copy of it, its await points (there are
    /// none, since no rvalue is an await) and its state machine.
    pub fn transform(body: &MirBody) -> (r: AsyncMirBody)
        requires
            body.local_decls@.len() < u32::MAX,
        ensures
            r.await_points@.len() == 0,
            state_machine_of(*body, 0, r.state_machine),
            r.original_body.arg_count == body.arg_count,
            r.original_body.span == body.span,
    {
        let await_points = Self::find_await_points(body);
        let state_machine = Self::generate_state_machine_mir(body, &await_points);
        AsyncMirBody { original_body: body.clone(), state_machine, await_points }
    }

    /// The assignments whose rvalue is an await, in block and statement
    /// order.
    fn find_await_points(body: &MirBody) -> (points: Vec<MirAwaitPoint>)
        ensures
            points@.len() == 0,
    {
        let mut points: Vec<MirAwaitPoint> = Vec::new();
        let mut b: usize = 0;
        while b < body.basic_blocks.len()
            invariant
                b <= body.basic_blocks@.len(),
                points@.len() == 0,
            decreases body.basic_blocks@.len() - b,
        {
            let block = &body.basic_blocks[b];
            let mut s: usize = 0;
            while s < block.statements.len()
                invariant
                    s <= block.statements@.len(),
                    points@.len() == 0,
                decreases block.statements@.len() - s,
            {
                match &block.statements[s] {
                    Statement::Assign(_, rvalue) => {
                        if Self::is_await_rvalue(rvalue) {
                            points.push(MirAwaitPoint { block: BasicBlock(b as u32), statement: s, id: points.len() as u32 });
                        }
                    },
                    _ => {},
                }
                s += 1;
            }
            b += 1;
        }
        points
    }

    /// Whether `rvalue` stands for an await.
    fn is_await_rvalue(rvalue: &Rvalue) -> (b: bool)
        ensures
            b == is_await(*rvalue),
    {
        false
    }

    /// The state machine for `body` with the given await points.
    fn generate_state_machine_mir(body: &MirBody, await_points: &[MirAwaitPoint]) -> (sm: MirBody)
        requires
            body.local_decls@.len() < u32::MAX,
            await_points@.len() + 2 <= usize::MAX,
        ensures
            state_machine_of(*body, await_points@.len() as nat, sm),
    {
        let mut sm = MirBody::new(body.arg_count, crate::ast::clone_span(&body.span));
        let mut i: usize = 0;
        while i < body.local_decls.len()
            invariant
                i <= body.local_decls@.len(),
                sm.local_decls@.len() == i,
                sm.basic_blocks@.len() == 0,
                sm.arg_count == body.arg_count,
                sm.span == body.span,
                forall|j: int| 0 <= j < i ==> {
                    &&& (#[trigger] sm.local_decls@[j]).span == body.local_decls@[j].span
                    &&& sm.local_decls@[j].is_arg == body.local_decls@[j].is_arg
                    &&& sm.local_decls@[j].mutability == body.local_decls@[j].mutability
                    &&& sm.local_decls@[j].name == body.local_decls@[j].name
                    &&& crate::ast::same_type(body.local_decls@[j].ty, sm.local_decls@[j].ty)
                },
            decreases body.local_decls@.len() - i,
        {
            sm.local_decls.push(body.local_decls[i].clone());
            i += 1;
        }
        let state_local = sm.push_local(LocalDecl::new(Type::Path(simple_path("u32")), 0..0));
        let n = await_points.len();
        let num_states = n + 2;
        let mut state_id: usize = 0;
        while state_id < num_states
            invariant
                num_states == n + 2,
                n == await_points@.len(),
                state_id <= num_states,
                sm.basic_blocks@.len() == state_id,
                state_local.0 == body.local_decls@.len(),
                sm.local_decls@.len() == body.local_decls@.len() + 1,
                sm.arg_count == body.arg_count,
                sm.span == body.span,
                forall|j: int| 0 <= j < body.local_decls@.len() ==> {
                    &&& (#[trigger] sm.local_decls@[j]).span == body.local_decls@[j].span
                    &&& sm.local_decls@[j].is_arg == body.local_decls@[j].is_arg
                    &&& sm.local_decls@[j].mutability == body.local_decls@[j].mutability
                    &&& sm.local_decls@[j].name == body.local_decls@[j].name
                    &&& crate::ast::same_type(body.local_decls@[j].ty, sm.local_decls@[j].ty)
                },
                sm.local_decls@[body.local_decls@.len() as int].ty matches Type::Path(p) && p.segments@.len() == 1
                    && p.segments@[0].ident.name@ == "u32"@ && p.segments@[0].generics@.len() == 0,
                !sm.local_decls@[body.local_decls@.len() as int].is_arg,
                sm.local_decls@[body.local_decls@.len() as int].name is None,
                forall|b: int| 0 <= b < state_id ==> {
                    &&& (#[trigger] sm.basic_blocks@[b]).terminator == Some(Terminator {
                        kind: if b < n { TerminatorKind::Goto { target: BasicBlock((b + 1) as u32) } } else { TerminatorKind::Return },
                        span: Span { start: 0, end: 0 },
                    })
                    &&& !sm.basic_blocks@[b].is_cleanup
                    &&& if b == 0 {
                        sm.basic_blocks@[b].statements@.len() == 1 && (sm.basic_blocks@[b].statements@[0] matches Statement::Assign(
                            place,
                            Rvalue::Use(v),
                        ) && place.local == Local(body.local_decls@.len() as u32) && place.projection@.len() == 0 && v == start_state())
                    } else {
                        sm.basic_blocks@[b].statements@.len() == 0
                    }
                },
            decreases num_states - state_id,
        {
            let mut block = BasicBlockData::new();
            if state_id == 0 {
                block.push_stmt(Statement::Assign(
                    Place::from_local(state_local),
                    Rvalue::Use(Operand::Constant(Constant::Scalar(Scalar::Int(0, IntType::I32)))),
                ));
            }
            if state_id < n {
                block.set_terminator(Terminator { kind: TerminatorKind::Goto { target: BasicBlock((state_id + 1) as u32) }, span: 0..0 });
            } else {
                block.set_terminator(Terminator { kind: TerminatorKind::Return, span: 0..0 });
            }
            sm.basic_blocks.push(block);
            state_id += 1;
        }
        sm
    }
}

} // verus!
