//! Function inlining: the limits that decide which callees are small
//! enough, and the copying of a callee's blocks into the caller with its
//! locals and blocks renumbered.

use vstd::prelude::*;
use std::collections::HashMap;
use crate::ast::{simple_path, Type};
use crate::middle::mir::{
    AggregateKind, AssertMessage, BasicBlock, BasicBlockData, Local, MirBody, Operand, Place, Rvalue, Statement, Terminator,
    TerminatorKind,
};

verus! {

/// Limits for inlining decisions.
#[derive(Debug, Clone, Copy, PartialEq, Eq, Structural)]
pub struct InlineConfig {
    /// Most basic blocks a callee may have.
    pub max_blocks: usize,
    /// Most statements per basic block.
    pub max_stmts_per_block: usize,
    /// Deepest nesting of inlined calls.
    pub max_depth: u32,
    /// Whether an inline attribute is honoured.
    pub respect_inline_attr: bool,
}

impl Default for InlineConfig {
    fn default() -> (c: Self)
        ensures
            c == (InlineConfig { max_blocks: 10, max_stmts_per_block: 20, max_depth: 5, respect_inline_attr: true }),
    {
        InlineConfig { max_blocks: 10, max_stmts_per_block: 20, max_depth: 5, respect_inline_attr: true }
    }
}

/// The inlining pass with its limits and how many calls it inlined.
#[derive(Debug)]
pub struct FunctionInlining {
    config: InlineConfig,
    inlined_count: usize,
}

impl FunctionInlining {
    pub closed spec fn limits(&self) -> InlineConfig {
        self.config
    }

    pub closed spec fn inlined(&self) -> nat {
        self.inlined_count as nat
    }

    /// The pass with the default limits.
    pub fn new() -> (p: Self)
        ensures
            p.limits() == (InlineConfig { max_blocks: 10, max_stmts_per_block: 20, max_depth: 5, respect_inline_attr: true }),
            p.inlined() == 0,
    {
        FunctionInlining { config: InlineConfig::default(), inlined_count: 0 }
    }

    pub fn with_config(config: InlineConfig) -> (p: Self)
        ensures
            p.limits() == config,
            p.inlined() == 0,
    {
        FunctionInlining { config, inlined_count: 0 }
    }

    pub fn inlined_count(&self) -> (n: usize)
        ensures
            n == self.inlined(),
    {
        self.inlined_count
    }

    /// Whether a callee is small enough to inline: at most `max_blocks`
    /// blocks, each with at most `max_stmts_per_block` statements.
    pub fn should_inline(&self, body: &MirBody) -> (b: bool)
        ensures
            b == (body.basic_blocks@.len() <= self.limits().max_blocks && forall|i: int|
                0 <= i < body.basic_blocks@.len() ==> #[trigger] body.basic_blocks@[i].statements@.len() <= self.limits().max_stmts_per_block),
    {
        if body.basic_blocks.len() > self.config.max_blocks {
            return false;
        }
        let mut i: usize = 0;
        while i < body.basic_blocks.len()
            invariant
                i <= body.basic_blocks@.len(),
                forall|k: int| 0 <= k < i ==> #[trigger] body.basic_blocks@[k].statements@.len() <= self.config.max_stmts_per_block,
            decreases body.basic_blocks@.len() - i,
        {
            if body.basic_blocks[i].statements.len() > self.config.max_stmts_per_block {
                return false;
            }
            i = i + 1;
        }
        true
    }

    /// The renaming of the callee's locals (see `local_mapping`).
    pub fn create_local_mapping(&self, caller_body: &mut MirBody, callee_body: &MirBody, args: &[Operand]) -> (m: HashMap<u32, u32>)
        requires
            args@.len() < u32::MAX,
            old(caller_body).local_decls@.len() + callee_body.local_decls@.len() <= u32::MAX,
        ensures
            m@ == local_mapping(old(caller_body).local_decls@.len(), callee_body.local_decls@.len(), args@),
            *final(caller_body) == *old(caller_body),
    {
        mapping_for(caller_body.local_decls.len(), callee_body.local_decls.len(), args)
    }

    /// Copies the callee's blocks after the caller's, with locals renamed by
    /// `local_mapping` and blocks shifted past the caller's, and points the
    /// call in block `call_site_block` at the copied entry.
    pub fn inline_call(
        &mut self,
        caller_body: &mut MirBody,
        call_site_block: usize,
        call_site_stmt_idx: usize,
        callee_body: &MirBody,
        args: &[Operand],
        dest: Place,
    )
        requires
            callee_body.basic_blocks@.len() > 0,
            args@.len() < u32::MAX,
            old(caller_body).local_decls@.len() + callee_body.local_decls@.len() <= u32::MAX,
            old(caller_body).basic_blocks@.len() + callee_body.basic_blocks@.len() <= u32::MAX,
            old(self).inlined() < usize::MAX,
            call_site_block < old(caller_body).basic_blocks@.len(),
        ensures
            final(self).inlined() == old(self).inlined() + 1,
            final(self).limits() == old(self).limits(),
            inlined_into(*old(caller_body), *final(caller_body), call_site_block as int, *callee_body,
                local_mapping(old(caller_body).local_decls@.len(), callee_body.local_decls@.len(), args@), dest),
    {
        let local_map = mapping_for(caller_body.local_decls.len(), callee_body.local_decls.len(), args);
        let offset = caller_body.basic_blocks.len();
        let count = callee_body.basic_blocks.len();
        let ghost start = *caller_body;
        let mut i: usize = 0;
        while i < count
            invariant
                count == callee_body.basic_blocks@.len(),
                offset == start.basic_blocks@.len(),
                offset + count <= u32::MAX,
                0 <= i <= count,
                caller_body.basic_blocks@.len() == offset + i,
                forall|k: int| 0 <= k < offset ==> #[trigger] caller_body.basic_blocks@[k] == start.basic_blocks@[k],
                forall|k: int| 0 <= k < i ==> copied_block(#[trigger] callee_body.basic_blocks@[k], caller_body.basic_blocks@[offset + k],
                    local_map@, offset as int, count as int, dest),
                caller_body.local_decls == start.local_decls,
                caller_body.arg_count == start.arg_count,
                caller_body.span == start.span,
            decreases count - i,
        {
            let src = &callee_body.basic_blocks[i];
            let mut stmts: Vec<Statement> = Vec::new();
            let mut k: usize = 0;
            while k < src.statements.len()
                invariant
                    0 <= k <= src.statements@.len(),
                    mapped_statements(src.statements@.take(k as int), stmts@, local_map@),
                decreases src.statements.len() - k,
            {
                let ghost before = stmts@;
                match map_statement(&src.statements[k], &local_map) {
                    Some(st) => {
                        stmts.push(st);
                        proof { assert(stmts@.drop_last() =~= before); }
                    },
                    None => {},
                }
                proof {
                    assert(src.statements@.take(k + 1).drop_last() =~= src.statements@.take(k as int));
                    assert(src.statements@.take(k + 1).last() == src.statements@[k as int]);
                }
                k += 1;
            }
            proof { assert(src.statements@.take(src.statements@.len() as int) =~= src.statements@); }
            let terminator = match &src.terminator {
                Some(t) => map_terminator(t, &local_map, offset, count, &dest),
                None => None,
            };
            caller_body.basic_blocks.push(BasicBlockData { statements: stmts, terminator, is_cleanup: false });
            i += 1;
        }
        let new_entry = BasicBlock(offset as u32);
        if call_site_block < caller_body.basic_blocks.len() {
            let blk = &mut caller_body.basic_blocks[call_site_block];
            let mut t = None;
            std::mem::swap(&mut blk.terminator, &mut t);
            blk.terminator = match t {
                Some(Terminator { kind: TerminatorKind::Call { func, args, destination, target: _ }, span }) =>
                    Some(Terminator { kind: TerminatorKind::Call { func, args, destination, target: Some(new_entry) }, span }),
                other => other,
            };
        }
        self.inlined_count = self.inlined_count + 1;
    }

    /// The pass's name.
    pub fn name(&self) -> (s: &'static str)
        ensures
            s@ == "function_inlining"@,
    {
        "function_inlining"
    }

    /// Each call site would be inlined with an empty callee body, which has
    /// no entry block to jump to; so the pass runs on bodies without calls,
    /// and leaves them as they are.
    pub fn run(&self, body: &mut MirBody)
        requires
            forall|b: int| 0 <= b < old(body).basic_blocks@.len() ==> !(#[trigger] old(body).basic_blocks@[b].terminator matches Some(t)
                && t.kind is Call),
        ensures
            *final(body) == *old(body),
    {
        let mut this = FunctionInlining::new();
        let mut call_sites: Vec<usize> = Vec::new();
        let mut b: usize = 0;
        while b < body.basic_blocks.len()
            invariant
                0 <= b <= body.basic_blocks@.len(),
                call_sites@.len() == 0,
                *body == *old(body),
                forall|k: int| 0 <= k < body.basic_blocks@.len() ==> !(#[trigger] body.basic_blocks@[k].terminator matches Some(t)
                    && t.kind is Call),
            decreases body.basic_blocks.len() - b,
        {
            if let Some(t) = &body.basic_blocks[b].terminator {
                if let TerminatorKind::Call { .. } = &t.kind {
                    call_sites.push(b);
                }
            }
            b += 1;
        }
        let mut k: usize = 0;
        while k < call_sites.len()
            invariant
                call_sites@.len() == 0,
                *body == *old(body),
            decreases call_sites.len() - k,
        {
            let callee_body = MirBody::new(0, 0..10);
            if this.should_inline(&callee_body) {
                this.inline_call(body, call_sites[k], 0, &callee_body, &[], Place::from_local(Local(0)));
            }
            k += 1;
        }
    }
}

/// The renaming of the callee's argument locals `1, 2, ...` to the bare
/// locals passed for them.
pub open spec fn arg_map(args: Seq<Operand>) -> Map<u32, u32> {
    Map::new(|k: u32| 1 <= k <= args.len() && match args[k - 1].place() {
            Some(p) => p.projection@.len() == 0,
            None => false,
        },
        |k: u32| args[k - 1].place()->0.local.0)
}

/// How many of the callee locals below `k` are not arguments passed as
/// bare locals.
pub open spec fn fresh_rank(args: Seq<Operand>, k: int) -> nat
    decreases k,
{
    if k <= 0 { 0 } else { fresh_rank(args, k - 1) + if arg_map(args).contains_key((k - 1) as u32) { 0nat } else { 1nat } }
}

/// The renaming of the callee's locals: arguments passed as bare locals
/// become those locals, and every other callee local, in order, a fresh
/// local numbered from the caller's count of locals on.
pub open spec fn local_mapping(caller_locals: nat, callee_locals: nat, args: Seq<Operand>) -> Map<u32, u32> {
    Map::new(|k: u32| arg_map(args).contains_key(k) || (k as int) < callee_locals,
        |k: u32| if arg_map(args).contains_key(k) { arg_map(args)[k] } else { (caller_locals + fresh_rank(args, k as int)) as u32 })
}

/// A local after renaming; locals outside the map keep their number.
pub open spec fn rename(map: Map<u32, u32>, l: Local) -> Local {
    if map.contains_key(l.0) { Local(map[l.0]) } else { l }
}

/// A place with its local renamed and its projection kept.
pub open spec fn renamed_place(old: Place, new: Place, map: Map<u32, u32>) -> bool {
    new.local == rename(map, old.local) && new.projection@ == old.projection@
}

/// An operand with the local it reads renamed.
pub open spec fn renamed_operand(old: Operand, new: Operand, map: Map<u32, u32>) -> bool {
    match (old, new) {
        (Operand::Copy(a), Operand::Copy(b)) => renamed_place(a, b, map),
        (Operand::Move(a), Operand::Move(b)) => renamed_place(a, b, map),
        (Operand::Constant(a), Operand::Constant(b)) => a == b,
        _ => false,
    }
}

/// Operand lists renamed element by element.
pub open spec fn renamed_operands(old: Seq<Operand>, new: Seq<Operand>, map: Map<u32, u32>) -> bool {
    &&& new.len() == old.len()
    &&& forall|i: int| 0 <= i < old.len() ==> renamed_operand(#[trigger] old[i], new[i], map)
}

/// An aggregate kind copied: the same kind with the same names (an array's
/// element type is copied too).
pub open spec fn same_kind(old: AggregateKind, new: AggregateKind) -> bool {
    match (old, new) {
        (AggregateKind::Array(_), AggregateKind::Array(_)) => true,
        (AggregateKind::Tuple, AggregateKind::Tuple) => true,
        (AggregateKind::Struct(a), AggregateKind::Struct(b)) => a == b,
        (AggregateKind::Enum(a, x), AggregateKind::Enum(b, y)) => a == b && x == y,
        (AggregateKind::Closure(a), AggregateKind::Closure(b)) => a == b,
        _ => false,
    }
}

/// An rvalue with every local it names renamed (a cast's target type is
/// copied).
pub open spec fn renamed_rvalue(old: Rvalue, new: Rvalue, map: Map<u32, u32>) -> bool {
    match (old, new) {
        (Rvalue::Use(a), Rvalue::Use(b)) => renamed_operand(a, b, map),
        (Rvalue::Copy(a), Rvalue::Copy(b)) => renamed_place(a, b, map),
        (Rvalue::Move(a), Rvalue::Move(b)) => renamed_place(a, b, map),
        (Rvalue::BinaryOp(o1, l1, r1), Rvalue::BinaryOp(o2, l2, r2)) =>
            o1 == o2 && renamed_operand(*l1, *l2, map) && renamed_operand(*r1, *r2, map),
        (Rvalue::UnaryOp(o1, a), Rvalue::UnaryOp(o2, b)) => o1 == o2 && renamed_operand(*a, *b, map),
        (Rvalue::Cast(k1, a, _), Rvalue::Cast(k2, b, _)) => k1 == k2 && renamed_operand(*a, *b, map),
        (Rvalue::Ref(a, m1), Rvalue::Ref(b, m2)) => m1 == m2 && renamed_place(a, b, map),
        (Rvalue::AddressOf(a, m1), Rvalue::AddressOf(b, m2)) => m1 == m2 && renamed_place(a, b, map),
        (Rvalue::Len(a), Rvalue::Len(b)) => renamed_place(a, b, map),
        (Rvalue::Discriminant(a), Rvalue::Discriminant(b)) => renamed_place(a, b, map),
        (Rvalue::Aggregate(k1, a), Rvalue::Aggregate(k2, b)) => same_kind(k1, k2) && renamed_operands(a@, b@, map),
        _ => false,
    }
}

/// A statement as copied into the caller: assignments renamed, storage
/// markers of mapped locals renamed, the others dropped, no-ops kept and
/// inline assembly dropped.
pub open spec fn renamed_statement(old: Statement, new: Option<Statement>, map: Map<u32, u32>) -> bool {
    match old {
        Statement::Assign(p, rv) => match new {
            Some(Statement::Assign(p2, rv2)) => renamed_place(p, p2, map) && renamed_rvalue(rv, rv2, map),
            _ => false,
        },
        Statement::StorageLive(l) => new == (if map.contains_key(l.0) { Some(Statement::StorageLive(Local(map[l.0]))) } else { None }),
        Statement::StorageDead(l) => new == (if map.contains_key(l.0) { Some(Statement::StorageDead(Local(map[l.0]))) } else { None }),
        Statement::Nop => new == Some(Statement::Nop),
        Statement::InlineAsm(_) => new is None,
    }
}

/// Whether a statement survives the copy.
pub open spec fn kept_in_copy(s: Statement, map: Map<u32, u32>) -> bool {
    match s {
        Statement::Assign(..) | Statement::Nop => true,
        Statement::StorageLive(l) | Statement::StorageDead(l) => map.contains_key(l.0),
        Statement::InlineAsm(_) => false,
    }
}

/// The statements a list of callee statements becomes: the surviving
/// ones, in order, each renamed.
pub open spec fn mapped_statements(old: Seq<Statement>, new: Seq<Statement>, map: Map<u32, u32>) -> bool
    decreases old.len(),
{
    if old.len() == 0 {
        new.len() == 0
    } else if kept_in_copy(old.last(), map) {
        &&& new.len() > 0
        &&& renamed_statement(old.last(), Some(new.last()), map)
        &&& mapped_statements(old.drop_last(), new.drop_last(), map)
    } else {
        mapped_statements(old.drop_last(), new, map)
    }
}

/// A callee block index shifted past the caller's blocks; others are kept.
pub open spec fn shift(b: BasicBlock, offset: int, count: int) -> BasicBlock {
    if (b.0 as int) < count { BasicBlock((offset + b.0) as u32) } else { b }
}

/// Whether a type is the path `i64`.
pub open spec fn is_i64(t: Type) -> bool {
    match t {
        Type::Path(p) => p.segments@.len() == 1 && p.segments@[0].ident.name@ == "i64"@ && p.segments@[0].generics@.len() == 0,
        _ => false,
    }
}

/// A callee terminator as copied: targets shifted, operands renamed, a
/// switch's type made `i64`, a return turned into a jump to block 0, a call
/// storing into `dest` and continuing only at a callee block, an assertion
/// without cleanup; anything else is dropped.
pub open spec fn mapped_terminator(old: Terminator, new: Option<Terminator>, map: Map<u32, u32>, offset: int, count: int, dest: Place) -> bool {
    match old.kind {
        TerminatorKind::Goto { target } => new == Some(Terminator { kind: TerminatorKind::Goto { target: shift(target, offset, count) }, span: old.span }),
        TerminatorKind::SwitchInt { discr, targets, otherwise, .. } => match new {
            Some(t) => t.span == old.span && match t.kind {
                TerminatorKind::SwitchInt { discr: d2, switch_ty: s2, targets: g2, otherwise: o2 } => {
                    &&& renamed_operand(discr, d2, map)
                    &&& is_i64(s2)
                    &&& o2 == shift(otherwise, offset, count)
                    &&& g2@.len() == targets@.len()
                    &&& forall|k: int| 0 <= k < targets@.len() ==> #[trigger] g2@[k] == (targets@[k].0, shift(targets@[k].1, offset, count))
                },
                _ => false,
            },
            None => false,
        },
        TerminatorKind::Return => new == Some(Terminator { kind: TerminatorKind::Goto { target: BasicBlock(0) }, span: old.span }),
        TerminatorKind::Call { func, args, target, .. } => match new {
            Some(t) => t.span == old.span && match t.kind {
                TerminatorKind::Call { func: f2, args: a2, destination: d2, target: g2 } => {
                    &&& renamed_operand(func, f2, map)
                    &&& renamed_operands(args@, a2@, map)
                    &&& d2@ == dest@
                    &&& g2 == (match target { Some(b) => if (b.0 as int) < count { Some(shift(b, offset, count)) } else { None }, None => None })
                },
                _ => false,
            },
            None => false,
        },
        TerminatorKind::Assert { cond, expected, target, .. } => match new {
            Some(t) => t.span == old.span && match t.kind {
                TerminatorKind::Assert { cond: c2, expected: e2, msg: _, target: g2, cleanup: k2 } => {
                    &&& renamed_operand(cond, c2, map)
                    &&& e2 == expected
                    &&& g2 == shift(target, offset, count)
                    &&& k2 is None
                },
                _ => false,
            },
            None => false,
        },
        TerminatorKind::Unwind => new is None,
    }
}

/// A callee block as copied into the caller.
pub open spec fn copied_block(old: BasicBlockData, new: BasicBlockData, map: Map<u32, u32>, offset: int, count: int, dest: Place) -> bool {
    &&& mapped_statements(old.statements@, new.statements@, map)
    &&& match old.terminator {
        Some(t) => mapped_terminator(t, new.terminator, map, offset, count, dest),
        None => new.terminator is None,
    }
    &&& !new.is_cleanup
}

/// The caller after inlining: its blocks kept but for the call at
/// `site`, which now continues at the copied entry, then the callee's
/// blocks copied.
pub open spec fn inlined_into(old: MirBody, new: MirBody, site: int, callee: MirBody, map: Map<u32, u32>, dest: Place) -> bool {
    let (offset, count) = (old.basic_blocks@.len() as int, callee.basic_blocks@.len() as int);
    &&& new.basic_blocks@.len() == offset + count
    &&& forall|k: int| 0 <= k < offset && k != site ==> #[trigger] new.basic_blocks@[k] == old.basic_blocks@[k]
    &&& 0 <= site < offset ==> {
        let (o, n) = (old.basic_blocks@[site], new.basic_blocks@[site]);
        &&& n.statements == o.statements
        &&& n.is_cleanup == o.is_cleanup
        &&& n.terminator == match o.terminator {
            Some(t) => match t.kind {
                TerminatorKind::Call { func, args, destination, .. } => Some(Terminator {
                    kind: TerminatorKind::Call { func, args, destination, target: Some(BasicBlock(offset as u32)) },
                    span: t.span,
                }),
                _ => Some(t),
            },
            None => None,
        }
    }
    &&& forall|k: int| 0 <= k < count ==> copied_block(#[trigger] callee.basic_blocks@[k], new.basic_blocks@[offset + k], map, offset, count, dest)
    &&& new.local_decls == old.local_decls
    &&& new.arg_count == old.arg_count
    &&& new.span == old.span
}

fn mapping_for(caller_locals: usize, callee_locals: usize, args: &[Operand]) -> (m: HashMap<u32, u32>)
    requires
        args@.len() < u32::MAX,
        caller_locals + callee_locals <= u32::MAX,
    ensures
        m@ == local_mapping(caller_locals as nat, callee_locals as nat, args@),
{
    let mut map: HashMap<u32, u32> = HashMap::new();
    let mut i: usize = 0;
    while i < args.len()
        invariant
            args@.len() < u32::MAX,
            0 <= i <= args@.len(),
            map@ == arg_map(args@).restrict(Set::new(|k: u32| 1 <= k <= i)),
        decreases args.len() - i,
    {
        match &args[i] {
            Operand::Copy(place) | Operand::Move(place) => {
                if place.projection.len() == 0 {
                    map.insert((i + 1) as u32, place.local.0);
                }
            },
            Operand::Constant(_) => {},
        }
        assert(map@ =~= arg_map(args@).restrict(Set::new(|k: u32| 1 <= k <= i + 1)));
        i += 1;
    }
    assert(map@ =~= arg_map(args@));
    let ghost amap = map@;
    let mut next_local: u32 = caller_locals as u32;
    let mut l: usize = 0;
    while l < callee_locals
        invariant
            caller_locals + callee_locals <= u32::MAX,
            0 <= l <= callee_locals,
            amap == arg_map(args@),
            next_local == caller_locals + fresh_rank(args@, l as int),
            fresh_rank(args@, l as int) <= l,
            map@ == Map::new(|k: u32| amap.contains_key(k) || (k as int) < l,
                |k: u32| if amap.contains_key(k) { amap[k] } else { (caller_locals + fresh_rank(args@, k as int)) as u32 }),
        decreases callee_locals - l,
    {
        let key = l as u32;
        if !map.contains_key(&key) {
            map.insert(key, next_local);
            next_local = next_local + 1;
        }
        assert(map@ =~= Map::new(|k: u32| amap.contains_key(k) || (k as int) < l + 1,
            |k: u32| if amap.contains_key(k) { amap[k] } else { (caller_locals + fresh_rank(args@, k as int)) as u32 }));
        l += 1;
    }
    assert(map@ =~= local_mapping(caller_locals as nat, callee_locals as nat, args@));
    map
}

fn rename_local(map: &HashMap<u32, u32>, l: Local) -> (r: Local)
    ensures
        r == rename(map@, l),
{
    match map.get(&l.0) {
        Some(v) => Local(*v),
        None => l,
    }
}

fn map_place(place: &Place, map: &HashMap<u32, u32>) -> (r: Place)
    ensures
        renamed_place(*place, r, map@),
{
    Place { local: rename_local(map, place.local), projection: place.projection.clone() }
}

fn map_operand(o: &Operand, map: &HashMap<u32, u32>) -> (r: Operand)
    ensures
        renamed_operand(*o, r, map@),
{
    match o {
        Operand::Copy(p) => Operand::Copy(map_place(p, map)),
        Operand::Move(p) => Operand::Move(map_place(p, map)),
        Operand::Constant(c) => Operand::Constant(*c),
    }
}

fn map_operands(ops: &Vec<Operand>, map: &HashMap<u32, u32>) -> (r: Vec<Operand>)
    ensures
        renamed_operands(ops@, r@, map@),
{
    let mut r: Vec<Operand> = Vec::new();
    let mut i: usize = 0;
    while i < ops.len()
        invariant
            0 <= i <= ops@.len(),
            r@.len() == i,
            forall|k: int| 0 <= k < i ==> renamed_operand(#[trigger] ops@[k], r@[k], map@),
        decreases ops.len() - i,
    {
        r.push(map_operand(&ops[i], map));
        i += 1;
    }
    r
}

fn copy_kind(k: &AggregateKind) -> (r: AggregateKind)
    ensures
        same_kind(*k, r),
{
    match k {
        AggregateKind::Array(t) => AggregateKind::Array(t.clone()),
        AggregateKind::Tuple => AggregateKind::Tuple,
        AggregateKind::Struct(n) => AggregateKind::Struct(n.clone()),
        AggregateKind::Enum(e, v) => AggregateKind::Enum(e.clone(), v.clone()),
        AggregateKind::Closure(n) => AggregateKind::Closure(n.clone()),
    }
}

fn map_rvalue(rv: &Rvalue, map: &HashMap<u32, u32>) -> (r: Rvalue)
    ensures
        renamed_rvalue(*rv, r, map@),
{
    match rv {
        Rvalue::Use(o) => Rvalue::Use(map_operand(o, map)),
        Rvalue::Copy(p) => Rvalue::Copy(map_place(p, map)),
        Rvalue::Move(p) => Rvalue::Move(map_place(p, map)),
        Rvalue::BinaryOp(op, l, r) => Rvalue::BinaryOp(*op, Box::new(map_operand(l, map)), Box::new(map_operand(r, map))),
        Rvalue::UnaryOp(op, o) => Rvalue::UnaryOp(*op, Box::new(map_operand(o, map))),
        Rvalue::Cast(kind, o, ty) => Rvalue::Cast(*kind, Box::new(map_operand(o, map)), ty.clone()),
        Rvalue::Ref(p, m) => Rvalue::Ref(map_place(p, map), *m),
        Rvalue::AddressOf(p, m) => Rvalue::AddressOf(map_place(p, map), *m),
        Rvalue::Len(p) => Rvalue::Len(map_place(p, map)),
        Rvalue::Discriminant(p) => Rvalue::Discriminant(map_place(p, map)),
        Rvalue::Aggregate(k, ops) => Rvalue::Aggregate(copy_kind(k), map_operands(ops, map)),
    }
}

fn map_statement(stmt: &Statement, map: &HashMap<u32, u32>) -> (r: Option<Statement>)
    ensures
        renamed_statement(*stmt, r, map@),
{
    match stmt {
        Statement::Assign(p, rv) => Some(Statement::Assign(map_place(p, map), map_rvalue(rv, map))),
        Statement::StorageLive(l) => match map.get(&l.0) {
            Some(v) => Some(Statement::StorageLive(Local(*v))),
            None => None,
        },
        Statement::StorageDead(l) => match map.get(&l.0) {
            Some(v) => Some(Statement::StorageDead(Local(*v))),
            None => None,
        },
        Statement::Nop => Some(Statement::Nop),
        Statement::InlineAsm(_) => None,
    }
}

fn copy_message(m: &AssertMessage) -> (r: AssertMessage)
    ensures
        match (*m, r) {
            (AssertMessage::BoundsCheck { len: l1, index: i1 }, AssertMessage::BoundsCheck { len: l2, index: i2 }) =>
                l1.same_as(l2) && i1.same_as(i2),
            (AssertMessage::DivisionByZero, AssertMessage::DivisionByZero) => true,
            (AssertMessage::RemainderByZero, AssertMessage::RemainderByZero) => true,
            (AssertMessage::Overflow(a), AssertMessage::Overflow(b)) => a == b,
            _ => false,
        },
{
    match m {
        AssertMessage::BoundsCheck { len, index } => AssertMessage::BoundsCheck { len: len.copy(), index: index.copy() },
        AssertMessage::DivisionByZero => AssertMessage::DivisionByZero,
        AssertMessage::RemainderByZero => AssertMessage::RemainderByZero,
        AssertMessage::Overflow(op) => AssertMessage::Overflow(*op),
    }
}

fn shift_exec(b: BasicBlock, offset: usize, count: usize) -> (r: BasicBlock)
    requires
        offset + count <= u32::MAX,
    ensures
        r == shift(b, offset as int, count as int),
{
    if (b.0 as usize) < count { BasicBlock((offset + b.0 as usize) as u32) } else { b }
}

/// A callee terminator as copied into the caller (see `mapped_terminator`).
pub fn map_terminator(t: &Terminator, map: &HashMap<u32, u32>, offset: usize, count: usize, dest: &Place) -> (r: Option<Terminator>)
    requires
        offset + count <= u32::MAX,
    ensures
        mapped_terminator(*t, r, map@, offset as int, count as int, *dest),
{
    let span = crate::ast::clone_span(&t.span);
    let kind = match &t.kind {
        TerminatorKind::Goto { target } => TerminatorKind::Goto { target: shift_exec(*target, offset, count) },
        TerminatorKind::SwitchInt { discr, targets, otherwise, .. } => {
            let mut g: Vec<(u128, BasicBlock)> = Vec::new();
            let mut k: usize = 0;
            while k < targets.len()
                invariant
                    offset + count <= u32::MAX,
                    0 <= k <= targets@.len(),
                    g@.len() == k,
                    forall|m: int| 0 <= m < k ==> #[trigger] g@[m] == (targets@[m].0, shift(targets@[m].1, offset as int, count as int)),
                decreases targets.len() - k,
            {
                let (v, b) = targets[k];
                g.push((v, shift_exec(b, offset, count)));
                k += 1;
            }
            TerminatorKind::SwitchInt {
                discr: map_operand(discr, map),
                switch_ty: Type::Path(simple_path("i64")),
                targets: g,
                otherwise: shift_exec(*otherwise, offset, count),
            }
        },
        TerminatorKind::Return => TerminatorKind::Goto { target: BasicBlock(0) },
        TerminatorKind::Call { func, args, target, .. } => {
            let target = match target {
                Some(b) => if (b.0 as usize) < count { Some(shift_exec(*b, offset, count)) } else { None },
                None => None,
            };
            TerminatorKind::Call { func: map_operand(func, map), args: map_operands(args, map), destination: dest.copy(), target }
        },
        TerminatorKind::Assert { cond, expected, msg, target, .. } => TerminatorKind::Assert {
            cond: map_operand(cond, map),
            expected: *expected,
            msg: copy_message(msg),
            target: shift_exec(*target, offset, count),
            cleanup: None,
        },
        TerminatorKind::Unwind => return None,
    };
    Some(Terminator { kind, span })
}

impl Default for FunctionInlining {
    fn default() -> (p: Self)
        ensures
            p.limits() == (InlineConfig { max_blocks: 10, max_stmts_per_block: 20, max_depth: 5, respect_inline_attr: true }),
            p.inlined() == 0,
    {
        FunctionInlining::new()
    }
}

} // verus!
