//! Constant propagation: within each block, a use of a local known to hold
//! a constant is replaced by that constant.

use vstd::prelude::*;
use std::collections::HashMap;
use crate::middle::mir::{BasicBlockData, Constant, MirBody, Operand, Place, Rvalue, Statement, Terminator, TerminatorKind};

verus! {

broadcast use vstd::std_specs::hash::group_hash_axioms;

/// The constant propagation pass.
#[derive(Debug, Clone, Copy, PartialEq, Eq, Structural)]
pub struct ConstantPropagation;

/// The local a place names when it has no projection.
pub open spec fn place_local(p: Place) -> Option<u32> {
    if p.projection@.len() == 0 { Some(p.local.0) } else { None }
}

/// An operand with a known constant put in for the local it reads.
pub open spec fn prop_operand(o: Operand, env: Map<u32, Constant>) -> Operand {
    match o.place() {
        Some(p) => match place_local(p) {
            Some(l) => if env.contains_key(l) { Operand::Constant(env[l]) } else { o },
            None => o,
        },
        None => o,
    }
}

/// Operand lists of equal length, each propagated.
pub open spec fn prop_operands(old: Seq<Operand>, new: Seq<Operand>, env: Map<u32, Constant>) -> bool {
    &&& new.len() == old.len()
    &&& forall|i: int| 0 <= i < old.len() ==> #[trigger] new[i] == prop_operand(old[i], env)
}

/// An rvalue with known constants put in for its operands: those of a
/// use, of a binary or unary operation and of an aggregate.
pub open spec fn prop_rvalue(old: Rvalue, new: Rvalue, env: Map<u32, Constant>) -> bool {
    match old {
        Rvalue::Use(o) => new == Rvalue::Use(prop_operand(o, env)),
        Rvalue::BinaryOp(op, l, r) => new == Rvalue::BinaryOp(op, Box::new(prop_operand(*l, env)), Box::new(prop_operand(*r, env))),
        Rvalue::UnaryOp(op, o) => new == Rvalue::UnaryOp(op, Box::new(prop_operand(*o, env))),
        Rvalue::Aggregate(k, ops) => match new {
            Rvalue::Aggregate(k2, ops2) => k2 == k && prop_operands(ops@, ops2@, env),
            _ => false,
        },
        _ => new == old,
    }
}

/// The constant an assignment of `rv` stores once constants are put in.
pub open spec fn assigned_constant(rv: Rvalue, env: Map<u32, Constant>) -> Option<Constant> {
    match rv {
        Rvalue::Use(o) => match prop_operand(o, env) {
            Operand::Constant(c) => Some(c),
            _ => None,
        },
        _ => None,
    }
}

/// The known constants after a statement: an assignment of a constant to a
/// bare local records it; nothing is ever forgotten.
pub open spec fn env_step(env: Map<u32, Constant>, s: Statement) -> Map<u32, Constant> {
    match s {
        Statement::Assign(p, rv) => match (place_local(p), assigned_constant(rv, env)) {
            (Some(l), Some(c)) => env.insert(l, c),
            _ => env,
        },
        _ => env,
    }
}

/// The known constants before statement `i` of a block.
pub open spec fn env_before(ss: Seq<Statement>, i: int) -> Map<u32, Constant>
    decreases i,
{
    if i <= 0 { Map::empty() } else { env_step(env_before(ss, i - 1), ss[i - 1]) }
}

/// A statement with constants put in.
pub open spec fn prop_statement(old: Statement, new: Statement, env: Map<u32, Constant>) -> bool {
    match old {
        Statement::Assign(p, rv) => match new {
            Statement::Assign(p2, rv2) => p2 == p && prop_rvalue(rv, rv2, env),
            _ => false,
        },
        _ => new == old,
    }
}

/// A terminator with constants put in: the switch operand, the callee and
/// the call's arguments.
pub open spec fn prop_terminator(old: Option<Terminator>, new: Option<Terminator>, env: Map<u32, Constant>) -> bool {
    match old {
        Some(t) => match new {
            Some(t2) => t2.span == t.span && match t.kind {
                TerminatorKind::SwitchInt { discr, switch_ty, targets, otherwise } => t2.kind == TerminatorKind::SwitchInt {
                    discr: prop_operand(discr, env), switch_ty, targets, otherwise,
                },
                TerminatorKind::Call { func, args, destination, target } => match t2.kind {
                    TerminatorKind::Call { func: f2, args: a2, destination: d2, target: g2 } =>
                        f2 == prop_operand(func, env) && prop_operands(args@, a2@, env) && d2 == destination && g2 == target,
                    _ => false,
                },
                _ => t2.kind == t.kind,
            },
            None => false,
        },
        None => new is None,
    }
}

/// A block after propagation.
pub open spec fn propagated_block(old: BasicBlockData, new: BasicBlockData) -> bool {
    &&& new.statements@.len() == old.statements@.len()
    &&& forall|i: int| 0 <= i < old.statements@.len()
        ==> prop_statement(#[trigger] old.statements@[i], new.statements@[i], env_before(old.statements@, i))
    &&& prop_terminator(old.terminator, new.terminator, env_before(old.statements@, old.statements@.len() as int))
    &&& new.is_cleanup == old.is_cleanup
}

/// A body after propagation: every block on its own.
pub open spec fn propagated_body(old: MirBody, new: MirBody) -> bool {
    &&& new.basic_blocks@.len() == old.basic_blocks@.len()
    &&& forall|b: int| 0 <= b < old.basic_blocks@.len()
        ==> propagated_block(#[trigger] old.basic_blocks@[b], new.basic_blocks@[b])
    &&& new.local_decls == old.local_decls
    &&& new.arg_count == old.arg_count
    &&& new.span == old.span
}

fn as_local(p: &Place) -> (r: Option<u32>)
    ensures
        r == place_local(*p),
{
    if p.projection.len() == 0 { Some(p.local.0) } else { None }
}

fn propagate_in_operand(o: Operand, env: &HashMap<u32, Constant>) -> (r: Operand)
    ensures
        r == prop_operand(o, env@),
{
    let known = match &o {
        Operand::Copy(p) | Operand::Move(p) => match as_local(p) {
            Some(l) => match env.get(&l) {
                Some(c) => Some(*c),
                None => None,
            },
            None => None,
        },
        Operand::Constant(_) => None,
    };
    match known {
        Some(c) => Operand::Constant(c),
        None => o,
    }
}

fn propagate_in_operands(ops: Vec<Operand>, env: &HashMap<u32, Constant>) -> (r: Vec<Operand>)
    ensures
        prop_operands(ops@, r@, env@),
{
    let mut ops = ops;
    let ghost start = ops@;
    let n = ops.len();
    let mut i: usize = 0;
    while i < n
        invariant
            n == start.len(),
            0 <= i <= n,
            ops@.len() == n,
            forall|j: int| 0 <= j < i ==> #[trigger] ops@[j] == prop_operand(start[j], env@),
            forall|j: int| i <= j < n ==> #[trigger] ops@[j] == start[j],
        decreases n - i,
    {
        let mut o = Operand::Constant(Constant::ZST);
        std::mem::swap(&mut ops[i], &mut o);
        let mut p = propagate_in_operand(o, env);
        std::mem::swap(&mut ops[i], &mut p);
        i += 1;
    }
    ops
}

fn propagate_in_rvalue(rv: Rvalue, env: &HashMap<u32, Constant>) -> (r: Rvalue)
    ensures
        prop_rvalue(rv, r, env@),
{
    match rv {
        Rvalue::Use(o) => Rvalue::Use(propagate_in_operand(o, env)),
        Rvalue::BinaryOp(op, l, r) => Rvalue::BinaryOp(op, Box::new(propagate_in_operand(*l, env)), Box::new(propagate_in_operand(*r, env))),
        Rvalue::UnaryOp(op, o) => Rvalue::UnaryOp(op, Box::new(propagate_in_operand(*o, env))),
        Rvalue::Aggregate(k, ops) => Rvalue::Aggregate(k, propagate_in_operands(ops, env)),
        other => other,
    }
}

fn propagate_in_terminator(t: Option<Terminator>, env: &HashMap<u32, Constant>) -> (r: Option<Terminator>)
    ensures
        prop_terminator(t, r, env@),
{
    match t {
        Some(Terminator { kind, span }) => {
            let kind = match kind {
                TerminatorKind::SwitchInt { discr, switch_ty, targets, otherwise } => TerminatorKind::SwitchInt {
                    discr: propagate_in_operand(discr, env), switch_ty, targets, otherwise,
                },
                TerminatorKind::Call { func, args, destination, target } => TerminatorKind::Call {
                    func: propagate_in_operand(func, env),
                    args: propagate_in_operands(args, env),
                    destination,
                    target,
                },
                other => other,
            };
            Some(Terminator { kind, span })
        },
        None => None,
    }
}

fn propagate_in_block(block: &mut BasicBlockData)
    ensures
        propagated_block(*old(block), *final(block)),
{
    let ghost start = *block;
    let mut env: HashMap<u32, Constant> = HashMap::new();
    let n = block.statements.len();
    let mut i: usize = 0;
    while i < n
        invariant
            n == start.statements@.len(),
            0 <= i <= n,
            block.statements@.len() == n,
            block.terminator == start.terminator,
            block.is_cleanup == start.is_cleanup,
            env@ == env_before(start.statements@, i as int),
            forall|j: int| 0 <= j < i ==> prop_statement(#[trigger] start.statements@[j], block.statements@[j], env_before(start.statements@, j)),
            forall|j: int| i <= j < n ==> #[trigger] block.statements@[j] == start.statements@[j],
        decreases n - i,
    {
        let mut s = Statement::Nop;
        std::mem::swap(&mut block.statements[i], &mut s);
        let mut t = match s {
            Statement::Assign(p, rv) => {
                let rv2 = propagate_in_rvalue(rv, &env);
                if let Rvalue::Use(Operand::Constant(c)) = &rv2 {
                    if let Some(l) = as_local(&p) {
                        env.insert(l, *c);
                    }
                }
                Statement::Assign(p, rv2)
            },
            other => other,
        };
        std::mem::swap(&mut block.statements[i], &mut t);
        i += 1;
    }
    let mut term = None;
    std::mem::swap(&mut block.terminator, &mut term);
    block.terminator = propagate_in_terminator(term, &env);
}

impl ConstantPropagation {
    /// The pass's name.
    pub fn name(&self) -> (s: &'static str)
        ensures
            s@ == "constant_propagation"@,
    {
        "constant_propagation"
    }

    /// Propagates, block by block, the constants assigned to bare locals
    /// into later operands of the same block and into its terminator.
    pub fn run(&self, body: &mut MirBody)
        ensures
            propagated_body(*old(body), *final(body)),
    {
        let ghost start = *body;
        let n = body.basic_blocks.len();
        let mut b: usize = 0;
        while b < n
            invariant
                n == start.basic_blocks@.len(),
                0 <= b <= n,
                body.basic_blocks@.len() == n,
                body.local_decls == start.local_decls,
                body.arg_count == start.arg_count,
                body.span == start.span,
                forall|j: int| 0 <= j < b ==> propagated_block(#[trigger] start.basic_blocks@[j], body.basic_blocks@[j]),
                forall|j: int| b <= j < n ==> #[trigger] body.basic_blocks@[j] == start.basic_blocks@[j],
            decreases n - b,
        {
            propagate_in_block(&mut body.basic_blocks[b]);
            b += 1;
        }
    }
}

} // verus!
