//! Constant folding with overflow checks on 128-bit integer arithmetic.

use vstd::prelude::*;
use crate::middle::mir::{
    BasicBlockData, BinOp, Constant, FloatType, IntType, MirBody, Operand, Rvalue, Scalar, Statement, UnOp,
};

verus! {

/// An arithmetic operation on constants that has no 128-bit result.
#[derive(Debug, Clone, PartialEq)]
pub struct OverflowError {
    pub operation: BinOp,
    pub left: i128,
    pub right: i128,
    pub message: String,
}

/// The constant folding pass.
#[derive(Debug, Clone, Copy, PartialEq, Eq, Structural)]
pub struct ConstantFolding;

/// Whether `x` is a value of `i128`.
pub open spec fn fits_i128(x: int) -> bool {
    i128::MIN <= x <= i128::MAX
}

/// The message for `left op right` when the operation has no `i128`
/// result, and none when it has one (or is not arithmetic).
pub open spec fn overflow_text(op: BinOp, left: int, right: int) -> Option<Seq<char>> {
    match op {
        BinOp::Add => if fits_i128(left + right) { None } else { Some("integer overflow in addition"@) },
        BinOp::Sub => if fits_i128(left - right) { None } else { Some("integer overflow in subtraction"@) },
        BinOp::Mul => if fits_i128(left * right) { None } else { Some("integer overflow in multiplication"@) },
        BinOp::Div => if right == 0 {
            Some("division by zero"@)
        } else if left == i128::MIN && right == -1 {
            Some("integer overflow in division (MIN / -1)"@)
        } else {
            None
        },
        BinOp::Rem => if right == 0 {
            Some("remainder by zero"@)
        } else if left == i128::MIN && right == -1 {
            Some("integer overflow in remainder (MIN % -1)"@)
        } else {
            None
        },
        _ => None,
    }
}

fn overflow(op: BinOp, left: i128, right: i128, text: &str) -> (e: OverflowError)
    ensures
        e.operation == op,
        e.left == left,
        e.right == right,
        e.message@ == text@,
{
    OverflowError { operation: op, left, right, message: text.to_owned() }
}

/// Reports whether `left op right` overflows (or divides by zero) on
/// `i128`, with the operands and a message; other operations never do.
pub fn would_overflow(op: BinOp, left: i128, right: i128) -> (r: Option<OverflowError>)
    ensures
        r is Some <==> overflow_text(op, left as int, right as int) is Some,
        r matches Some(e) ==> e.operation == op && e.left == left && e.right == right
            && e.message@ == overflow_text(op, left as int, right as int)->0,
{
    match op {
        BinOp::Add => {
            if left.checked_add(right).is_none() {
                Some(overflow(op, left, right, "integer overflow in addition"))
            } else {
                None
            }
        },
        BinOp::Sub => {
            if left.checked_sub(right).is_none() {
                Some(overflow(op, left, right, "integer overflow in subtraction"))
            } else {
                None
            }
        },
        BinOp::Mul => {
            if left.checked_mul(right).is_none() {
                Some(overflow(op, left, right, "integer overflow in multiplication"))
            } else {
                None
            }
        },
        BinOp::Div => {
            if right == 0 {
                Some(overflow(op, left, right, "division by zero"))
            } else if left == i128::MIN && right == -1 {
                Some(overflow(op, left, right, "integer overflow in division (MIN / -1)"))
            } else {
                None
            }
        },
        BinOp::Rem => {
            if right == 0 {
                Some(overflow(op, left, right, "remainder by zero"))
            } else if left == i128::MIN && right == -1 {
                Some(overflow(op, left, right, "integer overflow in remainder (MIN % -1)"))
            } else {
                None
            }
        },
        _ => None,
    }
}

/// The magnitude of an integer.
pub open spec fn magnitude_of(a: int) -> int {
    if a < 0 { -a } else { a }
}

/// Division rounding toward zero, as Rust's `/` on signed integers.
pub open spec fn trunc_div(a: int, b: int) -> int {
    if (a < 0) == (b < 0) {
        magnitude_of(a) / magnitude_of(b)
    } else {
        -(magnitude_of(a) / magnitude_of(b))
    }
}

/// The remainder of `trunc_div`: it takes the sign of the dividend.
pub open spec fn trunc_rem(a: int, b: int) -> int {
    if a < 0 { -(magnitude_of(a) % magnitude_of(b)) } else { magnitude_of(a) % magnitude_of(b) }
}

fn magnitude(a: i128) -> (m: u128)
    ensures
        m == magnitude_of(a as int),
{
    if a >= 0 { a as u128 } else { ((-(a + 1)) as u128) + 1 }
}

/// `a / b` on `i128`, rounding toward zero.
pub fn div_trunc(a: i128, b: i128) -> (q: i128)
    requires
        b != 0,
        !(a == i128::MIN && b == -1),
    ensures
        q == trunc_div(a as int, b as int),
{
    let ua = magnitude(a);
    let ub = magnitude(b);
    let q = ua / ub;
    assert(q <= ua) by (nonlinear_arith)
        requires
            ub >= 1,
            q == ua / ub,
    ;
    if (a < 0) == (b < 0) {
        assert(q < 0x8000_0000_0000_0000_0000_0000_0000_0000u128) by (nonlinear_arith)
            requires
                ub >= 1,
                q == ua / ub,
                ua <= 0x8000_0000_0000_0000_0000_0000_0000_0000u128,
                ua == 0x8000_0000_0000_0000_0000_0000_0000_0000u128 ==> ub >= 2,
        ;
        q as i128
    } else if q == 0x8000_0000_0000_0000_0000_0000_0000_0000u128 {
        i128::MIN
    } else {
        -(q as i128)
    }
}

/// `a % b` on `i128`: the remainder of `div_trunc`.
pub fn rem_trunc(a: i128, b: i128) -> (r: i128)
    requires
        b != 0,
    ensures
        r == trunc_rem(a as int, b as int),
{
    let ua = magnitude(a);
    let ub = magnitude(b);
    let m = ua % ub;
    assert(m < ub && m <= ua) by (nonlinear_arith)
        requires
            ub >= 1,
            m == ua % ub,
    ;
    if a < 0 { -(m as i128) } else { m as i128 }
}

/// The sign bit of an `f64` bit pattern.
pub const FLOAT_SIGN_BIT: u64 = 0x8000_0000_0000_0000u64;

/// An integer constant of type `ty`.
pub open spec fn int_constant(v: int, ty: IntType) -> Constant {
    Constant::Scalar(Scalar::Int(v as i128, ty))
}

/// The `i64` constant 1 for true and 0 for false, as comparisons yield.
pub open spec fn flag(b: bool) -> Constant {
    Constant::Scalar(Scalar::Int(if b { 1 } else { 0 }, IntType::I64))
}

/// Folding `left op right`. Integer arithmetic folds when it has an
/// `i128` result; shifts fold for amounts in `0..128`; comparisons give an
/// `i64` flag; the result keeps the left operand's integer type. Float
/// operands are not folded.
pub open spec fn fold_binary(op: BinOp, left: Scalar, right: Scalar) -> Option<Constant> {
    match (left, right) {
        (Scalar::Int(a, ty), Scalar::Int(b, _)) => match op {
            BinOp::Add => if fits_i128(a + b) { Some(int_constant(a + b, ty)) } else { None },
            BinOp::Sub => if fits_i128(a - b) { Some(int_constant(a - b, ty)) } else { None },
            BinOp::Mul => if fits_i128(a * b) { Some(int_constant(a * b, ty)) } else { None },
            BinOp::Div => if b == 0 || (a == i128::MIN && b == -1) {
                None
            } else {
                Some(int_constant(trunc_div(a as int, b as int), ty))
            },
            BinOp::Rem => if b == 0 || (a == i128::MIN && b == -1) {
                None
            } else {
                Some(int_constant(trunc_rem(a as int, b as int), ty))
            },
            BinOp::Eq => Some(flag(a == b)),
            BinOp::Ne => Some(flag(a != b)),
            BinOp::Lt => Some(flag(a < b)),
            BinOp::Le => Some(flag(a <= b)),
            BinOp::Gt => Some(flag(a > b)),
            BinOp::Ge => Some(flag(a >= b)),
            BinOp::BitAnd => Some(Constant::Scalar(Scalar::Int(a & b, ty))),
            BinOp::BitOr => Some(Constant::Scalar(Scalar::Int(a | b, ty))),
            BinOp::BitXor => Some(Constant::Scalar(Scalar::Int(a ^ b, ty))),
            BinOp::Shl => if b < 0 || b >= 128 {
                None
            } else {
                Some(Constant::Scalar(Scalar::Int(a << (b as u32), ty)))
            },
            BinOp::Shr => if b < 0 || b >= 128 {
                None
            } else {
                Some(Constant::Scalar(Scalar::Int(a >> (b as u32), ty)))
            },
            _ => None,
        },
        _ => None,
    }
}

/// Folding `op operand`: integer negation folds unless it overflows, a
/// float is negated by flipping its sign bit, `!` complements an integer.
pub open spec fn fold_unary(op: UnOp, operand: Scalar) -> Option<Constant> {
    match (op, operand) {
        (UnOp::Neg, Scalar::Int(v, ty)) => if v == i128::MIN { None } else { Some(int_constant(-v, ty)) },
        (UnOp::Neg, Scalar::Float(bits, ty)) => Some(Constant::Scalar(Scalar::Float(bits ^ FLOAT_SIGN_BIT, ty))),
        (UnOp::Not, Scalar::Int(v, ty)) => Some(Constant::Scalar(Scalar::Int(!v, ty))),
        _ => None,
    }
}

/// The constant an rvalue folds to: an operation whose operands are all
/// scalar constants and which folds.
pub open spec fn fold_rvalue_spec(rvalue: Rvalue) -> Option<Constant> {
    match rvalue {
        Rvalue::BinaryOp(op, l, r) => match ((*l).scalar(), (*r).scalar()) {
            (Some(a), Some(b)) => fold_binary(op, a, b),
            _ => None,
        },
        Rvalue::UnaryOp(op, o) => match (*o).scalar() {
            Some(a) => fold_unary(op, a),
            None => None,
        },
        _ => None,
    }
}

/// A statement after folding: an assignment of a foldable rvalue assigns
/// the constant instead; everything else stays.
pub open spec fn fold_statement_spec(s: Statement) -> Statement {
    match s {
        Statement::Assign(p, rv) => match fold_rvalue_spec(rv) {
            Some(c) => Statement::Assign(p, Rvalue::Use(Operand::Constant(c))),
            None => s,
        },
        _ => s,
    }
}

/// A block after folding: each statement folded, the rest unchanged.
pub open spec fn folded_block(old: BasicBlockData, new: BasicBlockData) -> bool {
    &&& new.statements@.len() == old.statements@.len()
    &&& forall|i: int| 0 <= i < old.statements@.len()
        ==> #[trigger] new.statements@[i] == fold_statement_spec(old.statements@[i])
    &&& new.terminator == old.terminator
    &&& new.is_cleanup == old.is_cleanup
}

/// A body after folding: each block folded, locals and the rest unchanged.
pub open spec fn folded_body(old: MirBody, new: MirBody) -> bool {
    &&& new.basic_blocks@.len() == old.basic_blocks@.len()
    &&& forall|b: int| 0 <= b < old.basic_blocks@.len()
        ==> folded_block(#[trigger] old.basic_blocks@[b], new.basic_blocks@[b])
    &&& new.local_decls == old.local_decls
    &&& new.arg_count == old.arg_count
    &&& new.span == old.span
}

fn int_result(v: i128, ty: IntType) -> (c: Option<Constant>)
    ensures
        c == Some(Constant::Scalar(Scalar::Int(v, ty))),
{
    Some(Constant::Scalar(Scalar::Int(v, ty)))
}

fn flag_result(b: bool) -> (c: Option<Constant>)
    ensures
        c == Some(flag(b)),
{
    Some(Constant::Scalar(Scalar::Int(if b { 1 } else { 0 }, IntType::I64)))
}

/// Folds `left op right` (see `fold_binary`).
pub fn fold_binary_op(op: BinOp, left: Scalar, right: Scalar) -> (r: Option<Constant>)
    ensures
        r == fold_binary(op, left, right),
{
    match (left, right) {
        (Scalar::Int(l, ty), Scalar::Int(r, _)) => match op {
            BinOp::Add => match l.checked_add(r) {
                Some(v) => int_result(v, ty),
                None => None,
            },
            BinOp::Sub => match l.checked_sub(r) {
                Some(v) => int_result(v, ty),
                None => None,
            },
            BinOp::Mul => match l.checked_mul(r) {
                Some(v) => int_result(v, ty),
                None => None,
            },
            BinOp::Div => {
                if r == 0 || (l == i128::MIN && r == -1) {
                    None
                } else {
                    int_result(div_trunc(l, r), ty)
                }
            },
            BinOp::Rem => {
                if r == 0 || (l == i128::MIN && r == -1) {
                    None
                } else {
                    int_result(rem_trunc(l, r), ty)
                }
            },
            BinOp::Eq => flag_result(l == r),
            BinOp::Ne => flag_result(l != r),
            BinOp::Lt => flag_result(l < r),
            BinOp::Le => flag_result(l <= r),
            BinOp::Gt => flag_result(l > r),
            BinOp::Ge => flag_result(l >= r),
            BinOp::BitAnd => int_result(l & r, ty),
            BinOp::BitOr => int_result(l | r, ty),
            BinOp::BitXor => int_result(l ^ r, ty),
            BinOp::Shl => {
                if r < 0 || r >= 128 {
                    None
                } else {
                    int_result(l << (r as u32), ty)
                }
            },
            BinOp::Shr => {
                if r < 0 || r >= 128 {
                    None
                } else {
                    int_result(l >> (r as u32), ty)
                }
            },
            _ => None,
        },
        _ => None,
    }
}

/// Folds `op operand` (see `fold_unary`).
pub fn fold_unary_op(op: UnOp, operand: Scalar) -> (r: Option<Constant>)
    ensures
        r == fold_unary(op, operand),
{
    match (op, operand) {
        (UnOp::Neg, Scalar::Int(v, ty)) => {
            if v == i128::MIN {
                None
            } else {
                int_result(-v, ty)
            }
        },
        (UnOp::Neg, Scalar::Float(bits, ty)) => Some(Constant::Scalar(Scalar::Float(bits ^ FLOAT_SIGN_BIT, ty))),
        (UnOp::Not, Scalar::Int(v, ty)) => int_result(!v, ty),
        _ => None,
    }
}

/// The scalar an operand holds, when it is a scalar constant.
pub fn operand_to_scalar(operand: &Operand) -> (r: Option<Scalar>)
    ensures
        r == operand.scalar(),
{
    match operand {
        Operand::Constant(Constant::Scalar(s)) => Some(*s),
        _ => None,
    }
}

/// Folds an rvalue into a constant (see `fold_rvalue_spec`).
pub fn fold_rvalue(rvalue: &Rvalue) -> (r: Option<Constant>)
    ensures
        r == fold_rvalue_spec(*rvalue),
{
    match rvalue {
        Rvalue::BinaryOp(op, left, right) => {
            match (operand_to_scalar(left), operand_to_scalar(right)) {
                (Some(a), Some(b)) => fold_binary_op(*op, a, b),
                _ => None,
            }
        },
        Rvalue::UnaryOp(op, operand) => match operand_to_scalar(operand) {
            Some(a) => fold_unary_op(*op, a),
            None => None,
        },
        _ => None,
    }
}

fn fold_statement(s: Statement) -> (r: Statement)
    ensures
        r == fold_statement_spec(s),
{
    match s {
        Statement::Assign(p, rv) => match fold_rvalue(&rv) {
            Some(c) => Statement::Assign(p, Rvalue::Use(Operand::Constant(c))),
            None => Statement::Assign(p, rv),
        },
        other => other,
    }
}

fn fold_block(block: &mut BasicBlockData)
    ensures
        folded_block(*old(block), *final(block)),
{
    let ghost start = *block;
    let n = block.statements.len();
    let mut i: usize = 0;
    while i < n
        invariant
            n == start.statements@.len(),
            0 <= i <= n,
            block.statements@.len() == n,
            block.terminator == start.terminator,
            block.is_cleanup == start.is_cleanup,
            forall|j: int| 0 <= j < i ==> #[trigger] block.statements@[j] == fold_statement_spec(start.statements@[j]),
            forall|j: int| i <= j < n ==> #[trigger] block.statements@[j] == start.statements@[j],
        decreases n - i,
    {
        let mut s = Statement::Nop;
        std::mem::swap(&mut block.statements[i], &mut s);
        let mut f = fold_statement(s);
        std::mem::swap(&mut block.statements[i], &mut f);
        i += 1;
    }
}

impl ConstantFolding {
    /// The pass's name.
    pub fn name(&self) -> (s: &'static str)
        ensures
            s@ == "constant_folding"@,
    {
        "constant_folding"
    }

    /// Replaces every assignment of a foldable rvalue by the constant.
    pub fn run(&self, body: &mut MirBody)
        ensures
            folded_body(*old(body), *final(body)),
    {
        let ghost start = *body;
        let n = body.basic_blocks.len();
        let mut b: usize = 0;
        while b < n
            invariant
                n == start.basic_blocks@.len(),
                0 <= b <= n,
                body.basic_blocks@.len() == n,
                body.local_decls == start.local_decls,
                body.arg_count == start.arg_count,
                body.span == start.span,
                forall|j: int| 0 <= j < b ==> folded_block(#[trigger] start.basic_blocks@[j], body.basic_blocks@[j]),
                forall|j: int| b <= j < n ==> #[trigger] body.basic_blocks@[j] == start.basic_blocks@[j],
            decreases n - b,
        {
            fold_block(&mut body.basic_blocks[b]);
            b += 1;
        }
    }
}

/// What an overflow record says.
pub struct OverflowFact {
    pub operation: BinOp,
    pub left: i128,
    pub right: i128,
    pub message: Seq<char>,
}

impl View for OverflowError {
    type V = OverflowFact;

    open spec fn view(&self) -> OverflowFact {
        OverflowFact { operation: self.operation, left: self.left, right: self.right, message: self.message@ }
    }
}

/// What a list of overflow records says, in order.
pub open spec fn facts(errors: Seq<OverflowError>) -> Seq<OverflowFact> {
    errors.map_values(|e: OverflowError| e@)
}

/// The record that folding `left op right` leaves: one when both are
/// integers and the operation has no `i128` result, else none.
pub open spec fn binary_overflows(op: BinOp, left: Scalar, right: Scalar) -> Seq<OverflowFact> {
    match (left, right) {
        (Scalar::Int(a, _), Scalar::Int(b, _)) => match overflow_text(op, a as int, b as int) {
            Some(t) => seq![OverflowFact { operation: op, left: a, right: b, message: t }],
            None => Seq::empty(),
        },
        _ => Seq::empty(),
    }
}

/// The record that folding `op operand` leaves: one for the negation of
/// `i128::MIN`, written as the subtraction `0 - MIN`.
pub open spec fn unary_overflows(op: UnOp, operand: Scalar) -> Seq<OverflowFact> {
    match (op, operand) {
        (UnOp::Neg, Scalar::Int(v, _)) => if v == i128::MIN {
            seq![OverflowFact { operation: BinOp::Sub, left: 0, right: v, message: "integer overflow in negation"@ }]
        } else {
            Seq::empty()
        },
        _ => Seq::empty(),
    }
}

/// The records that folding an rvalue leaves.
pub open spec fn rvalue_overflows(rvalue: Rvalue) -> Seq<OverflowFact> {
    match rvalue {
        Rvalue::BinaryOp(op, l, r) => match ((*l).scalar(), (*r).scalar()) {
            (Some(a), Some(b)) => binary_overflows(op, a, b),
            _ => Seq::empty(),
        },
        Rvalue::UnaryOp(op, o) => match (*o).scalar() {
            Some(a) => unary_overflows(op, a),
            None => Seq::empty(),
        },
        _ => Seq::empty(),
    }
}

/// The records that folding a statement leaves.
pub open spec fn statement_overflows(s: Statement) -> Seq<OverflowFact> {
    match s {
        Statement::Assign(_, rv) => rvalue_overflows(rv),
        _ => Seq::empty(),
    }
}

/// The records that folding statements in order leaves.
pub open spec fn statements_overflows(ss: Seq<Statement>) -> Seq<OverflowFact>
    decreases ss.len(),
{
    if ss.len() == 0 {
        Seq::empty()
    } else {
        statements_overflows(ss.drop_last()) + statement_overflows(ss.last())
    }
}

/// The records that folding blocks in order leaves.
pub open spec fn blocks_overflows(bs: Seq<BasicBlockData>) -> Seq<OverflowFact>
    decreases bs.len(),
{
    if bs.len() == 0 {
        Seq::empty()
    } else {
        blocks_overflows(bs.drop_last()) + statements_overflows(bs.last().statements@)
    }
}

fn record(errors: &mut Vec<OverflowError>, e: OverflowError)
    ensures
        facts(final(errors)@) == facts(old(errors)@).push(e@),
{
    errors.push(e);
    assert(facts(errors@) =~= facts(old(errors)@).push(e@));
}

fn negation_overflow(v: i128) -> (e: OverflowError)
    ensures
        e@ == (OverflowFact { operation: BinOp::Sub, left: 0, right: v, message: "integer overflow in negation"@ }),
{
    overflow(BinOp::Sub, 0, v, "integer overflow in negation")
}

/// Folds `left op right` as `fold_binary_op` does, and records the
/// overflow when the integer operation has no result.
pub fn fold_binary_op_with_errors(op: BinOp, left: Scalar, right: Scalar, errors: &mut Vec<OverflowError>) -> (r: Option<Constant>)
    ensures
        r == fold_binary(op, left, right),
        facts(final(errors)@) == facts(old(errors)@) + binary_overflows(op, left, right),
{
    if let (Scalar::Int(l, _), Scalar::Int(r, _)) = (left, right) {
        if let Some(e) = would_overflow(op, l, r) {
            record(errors, e);
            assert(facts(errors@) =~= facts(old(errors)@) + binary_overflows(op, left, right));
            return None;
        }
    }
    assert(facts(errors@) =~= facts(old(errors)@) + binary_overflows(op, left, right));
    fold_binary_op(op, left, right)
}

/// Folds `op operand` as `fold_unary_op` does, and records the overflow of
/// an integer negation.
pub fn fold_unary_op_with_errors(op: UnOp, operand: Scalar, errors: &mut Vec<OverflowError>) -> (r: Option<Constant>)
    ensures
        r == fold_unary(op, operand),
        facts(final(errors)@) == facts(old(errors)@) + unary_overflows(op, operand),
{
    if let (UnOp::Neg, Scalar::Int(v, _)) = (op, operand) {
        if v == i128::MIN {
            record(errors, negation_overflow(v));
            assert(facts(errors@) =~= facts(old(errors)@) + unary_overflows(op, operand));
            return None;
        }
    }
    assert(facts(errors@) =~= facts(old(errors)@) + unary_overflows(op, operand));
    fold_unary_op(op, operand)
}

/// Folds an rvalue as `fold_rvalue` does, and records the overflows met.
pub fn fold_rvalue_with_errors(rvalue: &Rvalue, errors: &mut Vec<OverflowError>) -> (r: Option<Constant>)
    ensures
        r == fold_rvalue_spec(*rvalue),
        facts(final(errors)@) == facts(old(errors)@) + rvalue_overflows(*rvalue),
{
    match rvalue {
        Rvalue::BinaryOp(op, left, right) => {
            match (operand_to_scalar(left), operand_to_scalar(right)) {
                (Some(a), Some(b)) => fold_binary_op_with_errors(*op, a, b, errors),
                _ => {
                    assert(facts(errors@) =~= facts(old(errors)@) + rvalue_overflows(*rvalue));
                    None
                },
            }
        },
        Rvalue::UnaryOp(op, operand) => match operand_to_scalar(operand) {
            Some(a) => fold_unary_op_with_errors(*op, a, errors),
            None => {
                assert(facts(errors@) =~= facts(old(errors)@) + rvalue_overflows(*rvalue));
                None
            },
        },
        _ => {
            assert(facts(errors@) =~= facts(old(errors)@) + rvalue_overflows(*rvalue));
            None
        },
    }
}

fn fold_statement_with_errors(s: Statement, errors: &mut Vec<OverflowError>) -> (r: Statement)
    ensures
        r == fold_statement_spec(s),
        facts(final(errors)@) == facts(old(errors)@) + statement_overflows(s),
{
    match s {
        Statement::Assign(p, rv) => match fold_rvalue_with_errors(&rv, errors) {
            Some(c) => Statement::Assign(p, Rvalue::Use(Operand::Constant(c))),
            None => Statement::Assign(p, rv),
        },
        other => {
            assert(facts(errors@) =~= facts(old(errors)@) + statement_overflows(other));
            other
        },
    }
}

fn fold_block_with_errors(block: &mut BasicBlockData, errors: &mut Vec<OverflowError>)
    ensures
        folded_block(*old(block), *final(block)),
        facts(final(errors)@) == facts(old(errors)@) + statements_overflows(old(block).statements@),
{
    let ghost start = *block;
    let ghost start_errors = facts(errors@);
    let n = block.statements.len();
    let mut i: usize = 0;
    assert(start.statements@.subrange(0, 0) =~= Seq::<Statement>::empty());
    assert(facts(errors@) =~= start_errors + statements_overflows(start.statements@.subrange(0, 0)));
    while i < n
        invariant
            n == start.statements@.len(),
            0 <= i <= n,
            block.statements@.len() == n,
            block.terminator == start.terminator,
            block.is_cleanup == start.is_cleanup,
            forall|j: int| 0 <= j < i ==> #[trigger] block.statements@[j] == fold_statement_spec(start.statements@[j]),
            forall|j: int| i <= j < n ==> #[trigger] block.statements@[j] == start.statements@[j],
            facts(errors@) == start_errors + statements_overflows(start.statements@.subrange(0, i as int)),
        decreases n - i,
    {
        let mut s = Statement::Nop;
        std::mem::swap(&mut block.statements[i], &mut s);
        let ghost before = facts(errors@);
        let mut f = fold_statement_with_errors(s, errors);
        std::mem::swap(&mut block.statements[i], &mut f);
        assert(start.statements@.subrange(0, i + 1).drop_last() =~= start.statements@.subrange(0, i as int));
        assert(facts(errors@) =~= start_errors + statements_overflows(start.statements@.subrange(0, i + 1)));
        i += 1;
    }
    assert(start.statements@.subrange(0, n as int) =~= start.statements@);
}

/// Constant folding that collects the overflows it meets.
pub struct ConstantFoldingWithErrors {
    pub errors: Vec<OverflowError>,
}

impl ConstantFoldingWithErrors {
    pub fn new() -> (p: Self)
        ensures
            p.errors@.len() == 0,
    {
        ConstantFoldingWithErrors { errors: Vec::new() }
    }

    /// Folds every foldable assignment, as `ConstantFolding::run` does, and
    /// records the overflows met, block by block and statement by statement.
    pub fn run(&mut self, body: &mut MirBody)
        ensures
            folded_body(*old(body), *final(body)),
            facts(final(self).errors@) == facts(old(self).errors@) + blocks_overflows(old(body).basic_blocks@),
    {
        let ghost start = *body;
        let ghost start_errors = facts(self.errors@);
        let n = body.basic_blocks.len();
        let mut b: usize = 0;
        assert(start.basic_blocks@.subrange(0, 0) =~= Seq::<BasicBlockData>::empty());
        assert(facts(self.errors@) =~= start_errors + blocks_overflows(start.basic_blocks@.subrange(0, 0)));
        while b < n
            invariant
                n == start.basic_blocks@.len(),
                0 <= b <= n,
                body.basic_blocks@.len() == n,
                body.local_decls == start.local_decls,
                body.arg_count == start.arg_count,
                body.span == start.span,
                forall|j: int| 0 <= j < b ==> folded_block(#[trigger] start.basic_blocks@[j], body.basic_blocks@[j]),
                forall|j: int| b <= j < n ==> #[trigger] body.basic_blocks@[j] == start.basic_blocks@[j],
                facts(self.errors@) == start_errors + blocks_overflows(start.basic_blocks@.subrange(0, b as int)),
            decreases n - b,
        {
            fold_block_with_errors(&mut body.basic_blocks[b], &mut self.errors);
            assert(start.basic_blocks@.subrange(0, b + 1).drop_last() =~= start.basic_blocks@.subrange(0, b as int));
            assert(facts(self.errors@) =~= start_errors + blocks_overflows(start.basic_blocks@.subrange(0, b + 1)));
            b += 1;
        }
        assert(start.basic_blocks@.subrange(0, n as int) =~= start.basic_blocks@);
    }

    pub fn has_errors(&self) -> (b: bool)
        ensures
            b == (self.errors@.len() > 0),
    {
        self.errors.len() > 0
    }

    pub fn errors(&self) -> (r: &[OverflowError])
        ensures
            r@ == self.errors@,
    {
        self.errors.as_slice()
    }
}

impl Default for ConstantFoldingWithErrors {
    fn default() -> (p: Self)
        ensures
            p.errors@.len() == 0,
    {
        ConstantFoldingWithErrors::new()
    }
}


/// Folding compares two integer constants by their integer values: each of
/// `<`, `<=`, `>`, `>=`, `==` and `!=` folds to the `i64` constant 1 when
/// the comparison holds of the two integers and to the `i64` constant 0
/// when it does not, whatever the operands' integer types.
pub proof fn law_fold_compares_integers(a: i128, b: i128, ta: IntType, tb: IntType)
    ensures
        fold_binary(BinOp::Lt, Scalar::Int(a, ta), Scalar::Int(b, tb))
            == Some(Constant::Scalar(Scalar::Int(if a < b { 1i128 } else { 0i128 }, IntType::I64))),
        fold_binary(BinOp::Le, Scalar::Int(a, ta), Scalar::Int(b, tb))
            == Some(Constant::Scalar(Scalar::Int(if a < b || a == b { 1i128 } else { 0i128 }, IntType::I64))),
        fold_binary(BinOp::Gt, Scalar::Int(a, ta), Scalar::Int(b, tb))
            == Some(Constant::Scalar(Scalar::Int(if b < a { 1i128 } else { 0i128 }, IntType::I64))),
        fold_binary(BinOp::Ge, Scalar::Int(a, ta), Scalar::Int(b, tb))
            == Some(Constant::Scalar(Scalar::Int(if b < a || a == b { 1i128 } else { 0i128 }, IntType::I64))),
        fold_binary(BinOp::Eq, Scalar::Int(a, ta), Scalar::Int(b, tb))
            == Some(Constant::Scalar(Scalar::Int(if a == b { 1i128 } else { 0i128 }, IntType::I64))),
        fold_binary(BinOp::Ne, Scalar::Int(a, ta), Scalar::Int(b, tb))
            == Some(Constant::Scalar(Scalar::Int(if a == b { 0i128 } else { 1i128 }, IntType::I64))),
{
}

/// Folding adds, subtracts and multiplies integer constants exactly: the
/// result is the integer sum, difference or product, of the left operand's
/// type, whenever it is an `i128`, and nothing is folded otherwise.
pub proof fn law_fold_arithmetic_is_exact(a: i128, b: i128, ta: IntType, tb: IntType)
    ensures
        i128::MIN <= a + b <= i128::MAX ==> (fold_binary(BinOp::Add, Scalar::Int(a, ta), Scalar::Int(b, tb))
            matches Some(Constant::Scalar(Scalar::Int(v, t))) && v == a + b && t == ta),
        i128::MIN <= a - b <= i128::MAX ==> (fold_binary(BinOp::Sub, Scalar::Int(a, ta), Scalar::Int(b, tb))
            matches Some(Constant::Scalar(Scalar::Int(v, t))) && v == a - b && t == ta),
        i128::MIN <= a * b <= i128::MAX ==> (fold_binary(BinOp::Mul, Scalar::Int(a, ta), Scalar::Int(b, tb))
            matches Some(Constant::Scalar(Scalar::Int(v, t))) && v == a * b && t == ta),
        !(i128::MIN <= a + b <= i128::MAX) ==> fold_binary(BinOp::Add, Scalar::Int(a, ta), Scalar::Int(b, tb)) is None,
        !(i128::MIN <= a - b <= i128::MAX) ==> fold_binary(BinOp::Sub, Scalar::Int(a, ta), Scalar::Int(b, tb)) is None,
        !(i128::MIN <= a * b <= i128::MAX) ==> fold_binary(BinOp::Mul, Scalar::Int(a, ta), Scalar::Int(b, tb)) is None,
{
}

/// Folded division and remainder agree with each other as Rust's signed
/// `/` and `%` do: for a non-zero divisor (and not `i128::MIN / -1`) the
/// quotient `q` and remainder `r` satisfy `q * b + r == a`, `r` is smaller
/// than `b` in magnitude and is zero or has the sign of `a`; a zero divisor
/// folds nothing.
pub proof fn law_fold_division(a: i128, b: i128, ta: IntType, tb: IntType)
    ensures
        (b != 0 && !(a == i128::MIN && b == -1)) ==> ({
            &&& fold_binary(BinOp::Div, Scalar::Int(a, ta), Scalar::Int(b, tb)) matches Some(Constant::Scalar(Scalar::Int(q, t)))
            &&& t == ta
            &&& fold_binary(BinOp::Rem, Scalar::Int(a, ta), Scalar::Int(b, tb)) matches Some(Constant::Scalar(Scalar::Int(r, u)))
            &&& u == ta
            &&& q * b + r == a
            &&& (if r < 0 { -r } else { r as int }) < (if b < 0 { -b } else { b as int })
            &&& (r == 0 || (r < 0) == (a < 0))
        }),
        b == 0 ==> fold_binary(BinOp::Div, Scalar::Int(a, ta), Scalar::Int(b, tb)) is None
            && fold_binary(BinOp::Rem, Scalar::Int(a, ta), Scalar::Int(b, tb)) is None,
{
    if b != 0 && !(a == i128::MIN && b == -1) {
        let ma = magnitude_of(a as int);
        let mb = magnitude_of(b as int);
        let q0 = ma / mb;
        let r0 = ma % mb;
        assert(ma == mb * q0 + r0 && 0 <= r0 < mb) by (nonlinear_arith)
            requires
                mb > 0,
                ma >= 0,
                q0 == ma / mb,
                r0 == ma % mb,
        ;
        let q = trunc_div(a as int, b as int);
        let r = trunc_rem(a as int, b as int);
        assert(q * b + r == a) by (nonlinear_arith)
            requires
                ma == mb * q0 + r0,
                ma == (if a < 0 { -a } else { a as int }),
                mb == (if b < 0 { -b } else { b as int }),
                q == (if (a < 0) == (b < 0) { q0 } else { -q0 }),
                r == (if a < 0 { -r0 } else { r0 }),
        ;
        assert(q0 <= ma) by (nonlinear_arith)
            requires
                mb >= 1,
                ma >= 0,
                ma == mb * q0 + r0,
                0 <= r0,
        ;
        assert(fits_i128(q)) by {
            if a == i128::MIN {
                assert(mb >= 2 || (b == 1));
                if b == 1 {
                    assert(q0 == ma) by (nonlinear_arith)
                        requires mb == 1, ma == mb * q0 + r0, 0 <= r0 < mb;
                } else {
                    assert(q0 * 2 <= ma) by (nonlinear_arith)
                        requires mb >= 2, ma == mb * q0 + r0, 0 <= r0, q0 >= 0;
                }
            }
        }
    }
}


/// Folding negates an integer constant exactly (nothing folds for
/// `i128::MIN`, whose negation is no `i128`), complements it bitwise (`!v`
/// is `-v - 1`), keeps its type, and negates a float by its sign bit alone.
pub proof fn law_fold_unary(v: i128, t: IntType, bits: u64, ft: FloatType)
    ensures
        v != i128::MIN ==> (fold_unary(UnOp::Neg, Scalar::Int(v, t)) matches Some(Constant::Scalar(Scalar::Int(w, u)))
            && w + v == 0 && u == t),
        v == i128::MIN ==> fold_unary(UnOp::Neg, Scalar::Int(v, t)) is None,
        fold_unary(UnOp::Not, Scalar::Int(v, t)) matches Some(Constant::Scalar(Scalar::Int(w, u))) && w == -v - 1 && u == t,
        fold_unary(UnOp::Neg, Scalar::Float(bits, ft)) matches Some(Constant::Scalar(Scalar::Float(b2, u)))
            && u == ft && b2 != bits && (b2 ^ bits) == 0x8000_0000_0000_0000u64,
{
    assert(!v == -v - 1) by (bit_vector);
    assert((bits ^ 0x8000_0000_0000_0000u64) != bits && ((bits ^ 0x8000_0000_0000_0000u64) ^ bits) == 0x8000_0000_0000_0000u64)
        by (bit_vector);
}


/// Folding the bitwise operators and shifts computes them on the integers'
/// bits: `&` with 0 and `|` with -1 absorb, `&` with -1 and `|` with 0 and
/// `^` with 0 keep the other operand, `^` of equal operands is 0, `&`, `|`
/// and `^` do not depend on the order of their operands, shifting by 0
/// keeps the operand, and shifting a non-negative integer right by one
/// halves it (rounding down); shifts by a negative amount or by 128 or more
/// fold nothing.
pub proof fn law_fold_bitwise(a: i128, b: i128, ta: IntType, tb: IntType)
    ensures
        fold_binary(BinOp::BitAnd, Scalar::Int(a, ta), Scalar::Int(0, tb)) == Some(Constant::Scalar(Scalar::Int(0, ta))),
        fold_binary(BinOp::BitAnd, Scalar::Int(a, ta), Scalar::Int(-1i128, tb)) == Some(Constant::Scalar(Scalar::Int(a, ta))),
        fold_binary(BinOp::BitOr, Scalar::Int(a, ta), Scalar::Int(0, tb)) == Some(Constant::Scalar(Scalar::Int(a, ta))),
        fold_binary(BinOp::BitOr, Scalar::Int(a, ta), Scalar::Int(-1i128, tb)) == Some(Constant::Scalar(Scalar::Int(-1i128, ta))),
        fold_binary(BinOp::BitXor, Scalar::Int(a, ta), Scalar::Int(0, tb)) == Some(Constant::Scalar(Scalar::Int(a, ta))),
        fold_binary(BinOp::BitXor, Scalar::Int(a, ta), Scalar::Int(a, tb)) == Some(Constant::Scalar(Scalar::Int(0, ta))),
        fold_binary(BinOp::BitAnd, Scalar::Int(a, ta), Scalar::Int(b, tb)) == fold_binary(BinOp::BitAnd, Scalar::Int(b, ta), Scalar::Int(a, tb)),
        fold_binary(BinOp::BitOr, Scalar::Int(a, ta), Scalar::Int(b, tb)) == fold_binary(BinOp::BitOr, Scalar::Int(b, ta), Scalar::Int(a, tb)),
        fold_binary(BinOp::BitXor, Scalar::Int(a, ta), Scalar::Int(b, tb)) == fold_binary(BinOp::BitXor, Scalar::Int(b, ta), Scalar::Int(a, tb)),
        fold_binary(BinOp::Shl, Scalar::Int(a, ta), Scalar::Int(0, tb)) == Some(Constant::Scalar(Scalar::Int(a, ta))),
        fold_binary(BinOp::Shr, Scalar::Int(a, ta), Scalar::Int(0, tb)) == Some(Constant::Scalar(Scalar::Int(a, ta))),
        a >= 0 ==> fold_binary(BinOp::Shr, Scalar::Int(a, ta), Scalar::Int(1, tb)) == Some(Constant::Scalar(Scalar::Int((a / 2) as i128, ta))),
        (b < 0 || b >= 128) ==> fold_binary(BinOp::Shl, Scalar::Int(a, ta), Scalar::Int(b, tb)) is None
            && fold_binary(BinOp::Shr, Scalar::Int(a, ta), Scalar::Int(b, tb)) is None,
{
    assert(a & 0 == 0 && a & -1i128 == a && a | 0 == a && a | -1i128 == -1i128 && a ^ 0 == a && a ^ a == 0) by (bit_vector);
    assert(a & b == b & a && a | b == b | a && a ^ b == b ^ a) by (bit_vector);
    assert(a << 0u32 == a && a >> 0u32 == a) by (bit_vector);
    if a >= 0 {
        assert(a >> 1u32 == a / 2) by (bit_vector)
            requires a >= 0;
    }
}

} // verus!
