//! MIR vocabulary: locals, blocks, places and operators.

pub mod builder;
pub mod optimize;
pub mod pretty_print;

use vstd::prelude::*;
use crate::ast::{Ident, Span, Type};
use crate::util::text::{decimal, prefixed_decimal};

verus! {

/// Index of a local variable.
#[derive(Debug, Clone, Copy, PartialEq, Eq, Hash, Structural)]
pub struct Local(pub u32);

impl Local {
    /// The local that holds the return value.
    pub fn return_place() -> (l: Local)
        ensures
            l.0 == 0,
    {
        Local(0)
    }

    pub fn new(index: u32) -> (l: Local)
        ensures
            l.0 == index,
    {
        Local(index)
    }

    pub fn index(&self) -> (i: usize)
        ensures
            i == self.0,
    {
        self.0 as usize
    }

    /// The printed form `_N`.
    pub fn to_string(&self) -> (s: String)
        ensures
            s@ == seq!['_'] + decimal(self.0 as nat),
    {
        proof { reveal_strlit("_"); }
        prefixed_decimal("_", self.0 as u64)
    }
}

/// Index of a basic block.
#[derive(Debug, Clone, Copy, PartialEq, Eq, Hash, Structural)]
pub struct BasicBlock(pub u32);

impl BasicBlock {
    pub fn new(index: u32) -> (b: BasicBlock)
        ensures
            b.0 == index,
    {
        BasicBlock(index)
    }

    pub fn index(&self) -> (i: usize)
        ensures
            i == self.0,
    {
        self.0 as usize
    }

    /// The printed form `bbN`.
    pub fn to_string(&self) -> (s: String)
        ensures
            s@ == seq!['b', 'b'] + decimal(self.0 as nat),
    {
        proof { reveal_strlit("bb"); }
        prefixed_decimal("bb", self.0 as u64)
    }
}

/// A projection element (accessing part of a value).
#[derive(Debug, Clone, Copy, PartialEq, Eq, Structural)]
pub enum PlaceElem {
    Deref,
    Field(usize),
    Index(Local),
    ConstantIndex { offset: u64, min_length: u64, from_end: bool },
    Subslice { from: u64, to: u64, from_end: bool },
}

/// A memory location: a local and a path of projections into it.
#[derive(Debug, PartialEq)]
pub struct Place {
    pub local: Local,
    pub projection: Vec<PlaceElem>,
}

/// The mathematical value of a place.
pub struct PlaceModel {
    pub local: Local,
    pub projection: Seq<PlaceElem>,
}

impl View for Place {
    type V = PlaceModel;

    open spec fn view(&self) -> PlaceModel {
        PlaceModel { local: self.local, projection: self.projection@ }
    }
}

impl Clone for Place {
    fn clone(&self) -> (r: Self)
        ensures
            r@ == self@,
    {
        self.copy()
    }
}

impl Place {
    pub fn from_local(local: Local) -> (p: Place)
        ensures
            p.local == local,
            p.projection@ == Seq::<PlaceElem>::empty(),
    {
        Place { local, projection: Vec::new() }
    }

    pub fn project(self, elem: PlaceElem) -> (p: Place)
        ensures
            p.local == self.local,
            p.projection@ == self.projection@.push(elem),
    {
        let mut p = self;
        p.projection.push(elem);
        p
    }

    pub fn is_local(&self) -> (b: bool)
        ensures
            b == (self.projection@.len() == 0),
    {
        self.projection.len() == 0
    }

    /// A copy of this place.
    pub fn copy(&self) -> (p: Place)
        ensures
            p@ == self@,
    {
        Place { local: self.local, projection: self.projection.clone() }
    }
}

/// Mutability of a reference or binding.
#[derive(Debug, Clone, Copy, PartialEq, Eq, Hash, Structural)]
pub enum Mutability {
    Mut,
    Not,
}

/// Binary operations in MIR.
#[derive(Debug, Clone, Copy, PartialEq, Eq, Hash, Structural)]
pub enum BinOp {
    Add,
    Sub,
    Mul,
    Div,
    Rem,
    BitXor,
    BitAnd,
    BitOr,
    Shl,
    Shr,
    Eq,
    Lt,
    Le,
    Ne,
    Ge,
    Gt,
    Offset,
    And,
    Or,
}

/// Unary operations in MIR.
#[derive(Debug, Clone, Copy, PartialEq, Eq, Hash, Structural)]
pub enum UnOp {
    Not,
    Neg,
}

/// Cast kinds.
#[derive(Debug, Clone, Copy, PartialEq, Eq, Hash, Structural)]
pub enum CastKind {
    Numeric,
    Pointer,
    Reference,
    Unsize,
}

/// Integer types.
#[derive(Debug, Clone, Copy, PartialEq, Eq, Hash, Structural)]
pub enum IntType {
    I8,
    I16,
    I32,
    I64,
    I128,
    Isize,
    U8,
    U16,
    U32,
    U64,
    U128,
    Usize,
}

/// Float types.
#[derive(Debug, Clone, Copy, PartialEq, Eq, Hash, Structural)]
pub enum FloatType {
    F32,
    F64,
}

/// Inline assembly options.
#[derive(Debug, Clone, Copy, PartialEq, Eq, Default, Structural)]
pub struct InlineAsmOptions {
    pub pure: bool,
    pub nomem: bool,
    pub readonly: bool,
    pub preserves_flags: bool,
    pub nostack: bool,
}

/// Local variable declaration.
#[derive(Debug)]
pub struct LocalDecl {
    pub ty: Type,
    pub span: Span,
    pub is_arg: bool,
    pub mutability: Mutability,
    pub name: Option<Ident>,
}

impl Clone for LocalDecl {
    fn clone(&self) -> (r: Self)
        ensures
            r.span == self.span,
            r.is_arg == self.is_arg,
            r.mutability == self.mutability,
            r.name == self.name,
            crate::ast::same_type(self.ty, r.ty),
    {
        LocalDecl {
            ty: self.ty.clone(),
            span: crate::ast::clone_span(&self.span),
            is_arg: self.is_arg,
            mutability: self.mutability,
            name: match &self.name {
                Some(n) => Some(n.clone()),
                None => None,
            },
        }
    }
}

impl LocalDecl {
    pub fn new(ty: Type, span: Span) -> (d: LocalDecl)
        ensures
            d.ty == ty,
            d.span == span,
            !d.is_arg,
            d.mutability == Mutability::Not,
            d.name is None,
    {
        LocalDecl { ty, span, is_arg: false, mutability: Mutability::Not, name: None }
    }

    pub fn arg(self) -> (d: LocalDecl)
        ensures
            d == (LocalDecl { is_arg: true, ..self }),
    {
        let mut d = self;
        d.is_arg = true;
        d
    }

    pub fn mutable(self) -> (d: LocalDecl)
        ensures
            d == (LocalDecl { mutability: Mutability::Mut, ..self }),
    {
        let mut d = self;
        d.mutability = Mutability::Mut;
        d
    }

    pub fn with_name(self, name: Ident) -> (d: LocalDecl)
        ensures
            d == (LocalDecl { name: Some(name), ..self }),
    {
        let mut d = self;
        d.name = Some(name);
        d
    }
}

/// What an aggregate value is built as.
#[derive(Debug, Clone)]
pub enum AggregateKind {
    Array(Type),
    Tuple,
    Struct(Ident),
    Enum(Ident, Ident),
    Closure(Ident),
}


/// A scalar constant. A float is carried by the bit pattern of its `f64`
/// value, so that it can be stored, compared and moved exactly.
#[derive(Debug, Clone, Copy, PartialEq, Eq, Structural)]
pub enum Scalar {
    Int(i128, IntType),
    Float(u64, FloatType),
    Pointer(u64),
}

/// A constant value.
#[derive(Debug, Clone, Copy, PartialEq, Eq, Structural)]
pub enum Constant {
    Scalar(Scalar),
    ZST,
}

/// An argument to an operation.
#[derive(Debug)]
pub enum Operand {
    Copy(Place),
    Move(Place),
    Constant(Constant),
}

impl Operand {
    /// The scalar this operand holds, when it is a scalar constant.
    pub open spec fn scalar(self) -> Option<Scalar> {
        match self {
            Operand::Constant(Constant::Scalar(s)) => Some(s),
            _ => None,
        }
    }

    /// The place this operand reads, when it reads one.
    pub open spec fn place(self) -> Option<Place> {
        match self {
            Operand::Copy(p) => Some(p),
            Operand::Move(p) => Some(p),
            Operand::Constant(_) => None,
        }
    }

    /// Two operands of the same kind over the same place or constant.
    pub open spec fn same_as(self, other: Operand) -> bool {
        match (self, other) {
            (Operand::Copy(a), Operand::Copy(b)) => b@ == a@,
            (Operand::Move(a), Operand::Move(b)) => b@ == a@,
            (Operand::Constant(a), Operand::Constant(b)) => a == b,
            _ => false,
        }
    }

    /// A copy of this operand.
    pub fn copy(&self) -> (r: Operand)
        ensures
            r.scalar() == self.scalar(),
            self.same_as(r),
    {
        match self {
            Operand::Copy(p) => Operand::Copy(p.copy()),
            Operand::Move(p) => Operand::Move(p.copy()),
            Operand::Constant(c) => Operand::Constant(*c),
        }
    }
}

impl Clone for Operand {
    fn clone(&self) -> (r: Self)
        ensures
            r.scalar() == self.scalar(),
    {
        self.copy()
    }
}

/// A right-hand side value.
#[derive(Debug, Clone)]
pub enum Rvalue {
    Use(Operand),
    Copy(Place),
    Move(Place),
    Ref(Place, Mutability),
    AddressOf(Place, Mutability),
    BinaryOp(BinOp, Box<Operand>, Box<Operand>),
    UnaryOp(UnOp, Box<Operand>),
    Cast(CastKind, Box<Operand>, Type),
    Len(Place),
    Discriminant(Place),
    Aggregate(AggregateKind, Vec<Operand>),
}

/// An inline assembly operand.
#[derive(Debug, Clone)]
pub struct InlineAsmOperand {
    pub constraint: String,
    pub value: Operand,
}

/// Inline assembly.
#[derive(Debug, Clone)]
pub struct InlineAsm {
    pub template: String,
    pub inputs: Vec<InlineAsmOperand>,
    pub outputs: Vec<InlineAsmOperand>,
    pub clobbers: Vec<String>,
    pub options: InlineAsmOptions,
}

/// A statement in MIR.
#[derive(Debug, Clone)]
pub enum Statement {
    Assign(Place, Rvalue),
    StorageLive(Local),
    StorageDead(Local),
    InlineAsm(Box<InlineAsm>),
    Nop,
}

/// Why an assertion fails.
#[derive(Debug, Clone)]
pub enum AssertMessage {
    BoundsCheck { len: Operand, index: Operand },
    DivisionByZero,
    RemainderByZero,
    Overflow(BinOp),
}

/// Kinds of terminator instructions.
#[derive(Debug, Clone)]
pub enum TerminatorKind {
    Goto { target: BasicBlock },
    SwitchInt { discr: Operand, switch_ty: Type, targets: Vec<(u128, BasicBlock)>, otherwise: BasicBlock },
    Return,
    Unwind,
    Call { func: Operand, args: Vec<Operand>, destination: Place, target: Option<BasicBlock> },
    Assert { cond: Operand, expected: bool, msg: AssertMessage, target: BasicBlock, cleanup: Option<BasicBlock> },
}

/// The instruction that ends a basic block.
#[derive(Debug)]
pub struct Terminator {
    pub kind: TerminatorKind,
    pub span: Span,
}

impl Clone for Terminator {
    fn clone(&self) -> (r: Self)
        ensures
            r.span == self.span,
    {
        Terminator { kind: self.kind.clone(), span: crate::ast::clone_span(&self.span) }
    }
}

/// A basic block: statements, then an optional terminator.
#[derive(Debug, Clone)]
pub struct BasicBlockData {
    pub statements: Vec<Statement>,
    pub terminator: Option<Terminator>,
    pub is_cleanup: bool,
}

impl BasicBlockData {
    pub fn new() -> (b: BasicBlockData)
        ensures
            b.statements@.len() == 0,
            b.terminator is None,
            !b.is_cleanup,
    {
        BasicBlockData { statements: Vec::new(), terminator: None, is_cleanup: false }
    }

    pub fn push_stmt(&mut self, stmt: Statement)
        ensures
            final(self).statements@ == old(self).statements@.push(stmt),
            final(self).terminator == old(self).terminator,
            final(self).is_cleanup == old(self).is_cleanup,
    {
        self.statements.push(stmt);
    }

    pub fn set_terminator(&mut self, term: Terminator)
        ensures
            final(self).statements@ == old(self).statements@,
            final(self).terminator == Some(term),
            final(self).is_cleanup == old(self).is_cleanup,
    {
        self.terminator = Some(term);
    }
}

impl Default for BasicBlockData {
    fn default() -> (b: BasicBlockData)
        ensures
            b.statements@.len() == 0,
            b.terminator is None,
            !b.is_cleanup,
    {
        BasicBlockData::new()
    }
}

/// A MIR function body.
#[derive(Debug)]
pub struct MirBody {
    pub basic_blocks: Vec<BasicBlockData>,
    pub local_decls: Vec<LocalDecl>,
    pub arg_count: usize,
    pub span: Span,
}

impl Clone for MirBody {
    /// A copy with the same argument count and span; blocks and locals are
    /// copied by their own `clone`.
    fn clone(&self) -> (r: Self)
        ensures
            r.arg_count == self.arg_count,
            r.span == self.span,
    {
        MirBody {
            basic_blocks: self.basic_blocks.clone(),
            local_decls: self.local_decls.clone(),
            arg_count: self.arg_count,
            span: crate::ast::clone_span(&self.span),
        }
    }
}

impl MirBody {
    pub fn new(arg_count: usize, span: Span) -> (b: MirBody)
        ensures
            b.basic_blocks@.len() == 0,
            b.local_decls@.len() == 0,
            b.arg_count == arg_count,
            b.span == span,
    {
        MirBody { basic_blocks: Vec::new(), local_decls: Vec::new(), arg_count, span }
    }

    pub fn return_local(&self) -> (l: Local)
        ensures
            l.0 == 0,
    {
        Local::return_place()
    }

    pub fn local_decl(&self, local: Local) -> (d: &LocalDecl)
        requires
            local.0 < self.local_decls@.len(),
        ensures
            *d == self.local_decls@[local.0 as int],
    {
        &self.local_decls[local.index()]
    }

    pub fn basic_block(&self, block: BasicBlock) -> (b: &BasicBlockData)
        requires
            block.0 < self.basic_blocks@.len(),
        ensures
            *b == self.basic_blocks@[block.0 as int],
    {
        &self.basic_blocks[block.index()]
    }

    pub fn basic_block_mut(&mut self, block: BasicBlock) -> (b: &mut BasicBlockData)
        requires
            block.0 < old(self).basic_blocks@.len(),
        ensures
            *b == old(self).basic_blocks@[block.0 as int],
            final(self).basic_blocks@ == old(self).basic_blocks@.update(block.0 as int, *final(b)),
            final(self).local_decls == old(self).local_decls,
            final(self).arg_count == old(self).arg_count,
            final(self).span == old(self).span,
    {
        &mut self.basic_blocks[block.index()]
    }

    /// Appends a block and returns its index.
    pub fn push_block(&mut self, block: BasicBlockData) -> (bb: BasicBlock)
        requires
            old(self).basic_blocks@.len() < u32::MAX,
        ensures
            bb.0 == old(self).basic_blocks@.len(),
            final(self).basic_blocks@ == old(self).basic_blocks@.push(block),
            final(self).local_decls == old(self).local_decls,
            final(self).arg_count == old(self).arg_count,
            final(self).span == old(self).span,
    {
        let index = self.basic_blocks.len() as u32;
        self.basic_blocks.push(block);
        BasicBlock(index)
    }

    /// Appends a local declaration and returns its local.
    pub fn push_local(&mut self, decl: LocalDecl) -> (l: Local)
        requires
            old(self).local_decls@.len() < u32::MAX,
        ensures
            l.0 == old(self).local_decls@.len(),
            final(self).local_decls@ == old(self).local_decls@.push(decl),
            final(self).basic_blocks == old(self).basic_blocks,
            final(self).arg_count == old(self).arg_count,
            final(self).span == old(self).span,
    {
        let index = self.local_decls.len() as u32;
        self.local_decls.push(decl);
        Local(index)
    }
}

} // verus!
