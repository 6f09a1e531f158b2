//! MIR optimisation passes, the trait they share, and pipelines of them.

pub mod const_fold;
pub mod const_prop;
pub mod const_prop_advanced;
pub mod cse;
pub mod dead_code;
pub mod dead_code_advanced;
pub mod inline;
pub mod licm;
pub mod simplify_cfg;

use vstd::prelude::*;
use crate::middle::mir::{BasicBlockData, MirBody, TerminatorKind};
use self::const_fold::{folded_body, ConstantFolding};
use self::const_prop::{propagated_body, ConstantPropagation};
use self::const_prop_advanced::{transformed, AdvancedConstantPropagation, LatticeValue};
use self::cse::{cse_body, CommonSubexpressionElimination};
use self::dead_code::{without_dead_code, DeadCodeElimination};
use self::dead_code_advanced::{rounds, AdvancedDeadCodeElimination};
use self::inline::FunctionInlining;
use self::licm::{hoisted_run, loops_of, LoopInfo, LoopInvariantCodeMotion};
use self::simplify_cfg::{simplified, total_statements, SimplifyCfg};

verus! {

/// How hard the optimiser works.
#[derive(Debug, Clone, Copy, PartialEq, Eq, Structural)]
pub enum OptLevel {
    NoOptimization,
    Minimal,
    Default,
    Aggressive,
}

/// A MIR optimisation pass.
pub trait MirPass {
    /// What running the pass makes of a body; a pass that states nothing
    /// allows any result.
    open spec fn effect(&self, before: MirBody, after: MirBody) -> bool {
        true
    }

    /// The pass's name.
    fn name(&self) -> &'static str;

    /// Runs the pass on a body.
    fn run(&self, body: &mut MirBody)
        ensures
            self.effect(*old(body), *final(body)),
    ;
}

impl MirPass for ConstantFolding {
    open spec fn effect(&self, before: MirBody, after: MirBody) -> bool {
        folded_body(before, after)
    }

    fn name(&self) -> (s: &'static str)
        ensures
            s@ == "constant_folding"@,
    {
        ConstantFolding::name(self)
    }

    fn run(&self, body: &mut MirBody) {
        ConstantFolding::run(self, body)
    }
}

impl MirPass for ConstantPropagation {
    open spec fn effect(&self, before: MirBody, after: MirBody) -> bool {
        propagated_body(before, after)
    }

    fn name(&self) -> (s: &'static str)
        ensures
            s@ == "constant_propagation"@,
    {
        ConstantPropagation::name(self)
    }

    fn run(&self, body: &mut MirBody) {
        ConstantPropagation::run(self, body)
    }
}

impl MirPass for CommonSubexpressionElimination {
    open spec fn effect(&self, before: MirBody, after: MirBody) -> bool {
        cse_body(before, after)
    }

    fn name(&self) -> (s: &'static str)
        ensures
            s@ == "common_subexpression_elimination"@,
    {
        CommonSubexpressionElimination::name(self)
    }

    fn run(&self, body: &mut MirBody) {
        CommonSubexpressionElimination::run(self, body)
    }
}

impl MirPass for DeadCodeElimination {
    open spec fn effect(&self, before: MirBody, after: MirBody) -> bool {
        without_dead_code(before, after)
    }

    fn name(&self) -> (s: &'static str)
        ensures
            s@ == "dead_code_elimination"@,
    {
        DeadCodeElimination::name(self)
    }

    fn run(&self, body: &mut MirBody) {
        DeadCodeElimination::run(self, body)
    }
}

/// Whether a body's blocks can all be numbered by `u32`.
fn numbered(body: &MirBody) -> (b: bool)
    ensures
        b == (body.basic_blocks@.len() <= u32::MAX),
{
    body.basic_blocks.len() <= 0xffff_ffffusize
}

impl MirPass for SimplifyCfg {
    open spec fn effect(&self, before: MirBody, after: MirBody) -> bool {
        if before.basic_blocks@.len() <= u32::MAX { simplified(before, after) } else { after == before }
    }

    fn name(&self) -> (s: &'static str)
        ensures
            s@ == "simplify_cfg"@,
    {
        SimplifyCfg::name(self)
    }

    /// Runs on bodies whose blocks `u32` can number, all that block indices
    /// can address.
    fn run(&self, body: &mut MirBody) {
        if numbered(body) {
            SimplifyCfg::run(self, body)
        }
    }
}

impl MirPass for LoopInvariantCodeMotion {
    open spec fn effect(&self, before: MirBody, after: MirBody) -> bool {
        if before.basic_blocks@.len() <= u32::MAX {
            exists|loops: Seq<LoopInfo>, chain: Seq<Seq<BasicBlockData>>| loops_of(before.basic_blocks@, loops)
                && hoisted_run(chain, loops) && chain[0] == before.basic_blocks@ && chain.last() == after.basic_blocks@
        } else {
            after == before
        }
    }

    fn name(&self) -> (s: &'static str)
        ensures
            s@ == "loop_invariant_code_motion"@,
    {
        LoopInvariantCodeMotion::name(self)
    }

    fn run(&self, body: &mut MirBody) {
        if numbered(body) {
            LoopInvariantCodeMotion::run(self, body)
        }
    }
}

impl MirPass for AdvancedConstantPropagation {
    open spec fn effect(&self, before: MirBody, after: MirBody) -> bool {
        if before.basic_blocks@.len() <= u32::MAX {
            exists|tables: Seq<Map<u32, LatticeValue>>| transformed(before, after, tables)
        } else {
            after == before
        }
    }

    fn name(&self) -> (s: &'static str)
        ensures
            s@ == "advanced_constant_propagation"@,
    {
        AdvancedConstantPropagation::name(self)
    }

    fn run(&self, body: &mut MirBody) {
        if numbered(body) {
            AdvancedConstantPropagation::run(self, body)
        }
    }
}

/// The number of statements of a body, when it fits in a `usize`.
fn statement_count(body: &MirBody) -> (r: Option<usize>)
    ensures
        match r {
            Some(c) => c == total_statements(body.basic_blocks@),
            None => total_statements(body.basic_blocks@) > usize::MAX,
        },
{
    let mut c: usize = 0;
    let mut b: usize = 0;
    while b < body.basic_blocks.len()
        invariant
            0 <= b <= body.basic_blocks@.len(),
            c == total_statements(body.basic_blocks@.take(b as int)),
        decreases body.basic_blocks.len() - b,
    {
        assert(body.basic_blocks@.take(b + 1).drop_last() =~= body.basic_blocks@.take(b as int));
        let k = body.basic_blocks[b].statements.len();
        if c > usize::MAX - k {
            proof { lemma_total_prefix(body.basic_blocks@, b as int + 1); }
            return None;
        }
        c = c + k;
        b += 1;
    }
    assert(body.basic_blocks@.take(body.basic_blocks@.len() as int) =~= body.basic_blocks@);
    Some(c)
}

proof fn lemma_total_prefix(bs: Seq<crate::middle::mir::BasicBlockData>, b: int)
    requires
        0 <= b <= bs.len(),
    ensures
        total_statements(bs.take(b)) <= total_statements(bs),
    decreases bs.len() - b,
{
    if b < bs.len() {
        lemma_total_prefix(bs, b + 1);
        assert(bs.take(b + 1).drop_last() =~= bs.take(b));
    } else {
        assert(bs.take(b) =~= bs);
    }
}

impl MirPass for AdvancedDeadCodeElimination {
    open spec fn effect(&self, before: MirBody, after: MirBody) -> bool {
        if before.basic_blocks@.len() <= u32::MAX && total_statements(before.basic_blocks@) <= usize::MAX {
            exists|chain: Seq<MirBody>, mids: Seq<MirBody>| rounds(chain, mids) && chain[0] == before && chain.last() == after
        } else {
            after == before
        }
    }

    fn name(&self) -> (s: &'static str)
        ensures
            s@ == "advanced_dead_code_elimination"@,
    {
        AdvancedDeadCodeElimination::name(self)
    }

    fn run(&self, body: &mut MirBody) {
        if numbered(body) && statement_count(body).is_some() {
            AdvancedDeadCodeElimination::run(self, body)
        }
    }
}

/// Whether some block of a body ends in a call.
fn has_call(body: &MirBody) -> (b: bool)
    ensures
        b == exists|k: int| 0 <= k < body.basic_blocks@.len() && (#[trigger] body.basic_blocks@[k].terminator matches Some(t)
            && t.kind is Call),
{
    let mut k: usize = 0;
    while k < body.basic_blocks.len()
        invariant
            0 <= k <= body.basic_blocks@.len(),
            forall|j: int| 0 <= j < k ==> !(#[trigger] body.basic_blocks@[j].terminator matches Some(t) && t.kind is Call),
        decreases body.basic_blocks.len() - k,
    {
        if let Some(t) = &body.basic_blocks[k].terminator {
            if let TerminatorKind::Call { .. } = &t.kind {
                return true;
            }
        }
        k += 1;
    }
    false
}

impl MirPass for FunctionInlining {
    open spec fn effect(&self, before: MirBody, after: MirBody) -> bool {
        after == before
    }

    fn name(&self) -> (s: &'static str)
        ensures
            s@ == "function_inlining"@,
    {
        FunctionInlining::name(self)
    }

    /// Inlining needs a callee body for each call; with none to hand, a
    /// body that calls is left as it is.
    fn run(&self, body: &mut MirBody) {
        if !has_call(body) {
            FunctionInlining::run(self, body)
        }
    }
}

/// One pass of a pipeline.
struct Stage {
    pass: Box<dyn MirPass>,
}

fn push_stage(v: &mut Vec<Stage>, s: Stage)
    ensures
        final(v)@.len() == old(v)@.len() + 1,
{
    v.push(s);
}

/// A sequence of passes run in order, with the level it was built for.
pub struct OptimizationPipeline {
    passes: Vec<Stage>,
    level: OptLevel,
}

impl OptimizationPipeline {
    /// The number of passes.
    pub closed spec fn count(&self) -> nat {
        self.passes@.len()
    }

    /// The level the pipeline was built for.
    pub closed spec fn opt_level(&self) -> OptLevel {
        self.level
    }

    /// An empty pipeline at the default level.
    pub fn new() -> (p: Self)
        ensures
            p.count() == 0,
            p.opt_level() == OptLevel::Default,
    {
        OptimizationPipeline { passes: Vec::new(), level: OptLevel::Default }
    }

    /// Appends a pass.
    pub fn add_pass<P: MirPass + 'static>(&mut self, pass: P)
        ensures
            final(self).count() == old(self).count() + 1,
            final(self).opt_level() == old(self).opt_level(),
    {
        let b: Box<dyn MirPass> = Box::new(pass);
        push_stage(&mut self.passes, Stage { pass: b });
    }

    /// What pass `i` makes of a body.
    pub closed spec fn stage_effect(&self, i: int, before: MirBody, after: MirBody) -> bool {
        self.passes@[i].pass.effect(before, after)
    }

    /// Runs every pass, in order, on the body: the body goes through a chain
    /// of bodies, each what the next pass makes of the one before.
    pub fn run(&self, body: &mut MirBody)
        ensures
            exists|chain: Seq<MirBody>| {
                &&& chain.len() == self.count() + 1
                &&& chain[0] == *old(body)
                &&& chain.last() == *final(body)
                &&& forall|i: int| 0 <= i < self.count() ==> #[trigger] self.stage_effect(i, chain[i], chain[i + 1])
            },
    {
        let ghost mut chain: Seq<MirBody> = seq![*body];
        let mut i: usize = 0;
        while i < self.passes.len()
            invariant
                0 <= i <= self.passes@.len(),
                chain.len() == i + 1,
                chain[0] == *old(body),
                chain[i as int] == *body,
                forall|j: int| 0 <= j < i ==> #[trigger] self.stage_effect(j, chain[j], chain[j + 1]),
            decreases self.passes.len() - i,
        {
            self.passes[i].pass.run(body);
            proof {
                let prev = chain;
                chain = chain.push(*body);
                assert forall|j: int| 0 <= j < i + 1 implies #[trigger] self.stage_effect(j, chain[j], chain[j + 1]) by {
                    if j < i {
                        assert(chain[j] == prev[j] && chain[j + 1] == prev[j + 1]);
                    }
                }
            }
            i += 1;
        }
    }

    /// The default pipeline: simplify, fold, propagate, eliminate common
    /// subexpressions and dead code, simplify again.
    pub fn default_pipeline() -> (p: Self)
        ensures
            p.count() == 6,
            p.opt_level() == OptLevel::Default,
    {
        let mut p = OptimizationPipeline::new();
        p.level = OptLevel::Default;
        p.add_pass(SimplifyCfg);
        p.add_pass(ConstantFolding);
        p.add_pass(ConstantPropagation);
        p.add_pass(CommonSubexpressionElimination::new());
        p.add_pass(DeadCodeElimination);
        p.add_pass(SimplifyCfg);
        p
    }

    /// The debug pipeline: control-flow simplification alone.
    pub fn debug_pipeline() -> (p: Self)
        ensures
            p.count() == 1,
            p.opt_level() == OptLevel::Minimal,
    {
        let mut p = OptimizationPipeline::new();
        p.level = OptLevel::Minimal;
        p.add_pass(SimplifyCfg);
        p
    }

    /// The release pipeline: simplify, inline, hoist, three rounds of
    /// folding, propagation across blocks and common subexpressions, then
    /// dead code to a fixpoint and a last simplification.
    pub fn release_pipeline() -> (p: Self)
        ensures
            p.count() == 14,
            p.opt_level() == OptLevel::Aggressive,
    {
        let mut p = OptimizationPipeline::new();
        p.level = OptLevel::Aggressive;
        p.add_pass(SimplifyCfg);
        p.add_pass(FunctionInlining::new());
        p.add_pass(LoopInvariantCodeMotion::new());
        let mut round: usize = 0;
        while round < 3
            invariant
                0 <= round <= 3,
                p.count() == 3 + 3 * round,
                p.opt_level() == OptLevel::Aggressive,
            decreases 3 - round,
        {
            p.add_pass(ConstantFolding);
            p.add_pass(AdvancedConstantPropagation::new());
            p.add_pass(CommonSubexpressionElimination::new());
            round += 1;
        }
        p.add_pass(AdvancedDeadCodeElimination::new());
        p.add_pass(SimplifyCfg);
        p
    }

    /// The pipeline for an optimisation level: 0 none, 1 debug, 2 default,
    /// anything higher release.
    pub fn from_level(level: u8) -> (p: Self)
        ensures
            level == 0 ==> p.count() == 0 && p.opt_level() == OptLevel::NoOptimization,
            level == 1 ==> p.count() == 1 && p.opt_level() == OptLevel::Minimal,
            level == 2 ==> p.count() == 6 && p.opt_level() == OptLevel::Default,
            level >= 3 ==> p.count() == 14 && p.opt_level() == OptLevel::Aggressive,
    {
        match level {
            0 => OptimizationPipeline::no_optimization(),
            1 => OptimizationPipeline::debug_pipeline(),
            2 => OptimizationPipeline::default_pipeline(),
            _ => OptimizationPipeline::release_pipeline(),
        }
    }

    /// A pipeline without passes.
    pub fn no_optimization() -> (p: Self)
        ensures
            p.count() == 0,
            p.opt_level() == OptLevel::NoOptimization,
    {
        OptimizationPipeline { passes: Vec::new(), level: OptLevel::NoOptimization }
    }

    pub fn level(&self) -> (l: OptLevel)
        ensures
            l == self.opt_level(),
    {
        self.level
    }

    pub fn pass_count(&self) -> (n: usize)
        ensures
            n == self.count(),
    {
        self.passes.len()
    }
}

impl Default for OptimizationPipeline {
    fn default() -> (p: Self)
        ensures
            p.count() == 6,
            p.opt_level() == OptLevel::Default,
    {
        OptimizationPipeline::default_pipeline()
    }
}

} // verus!
