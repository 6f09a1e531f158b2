//! The slice of the surface syntax tree that the verified passes read:
//! identifiers, paths and written types.

use vstd::prelude::*;

verus! {

/// Source span: a half-open range of byte offsets.
pub type Span = std::ops::Range<usize>;

/// An identifier as written in the source.
#[derive(Debug, PartialEq, Eq, Hash)]
pub struct Ident {
    pub name: String,
}

impl Clone for Ident {
    fn clone(&self) -> (r: Self)
        ensures
            r == *self,
    {
        Ident { name: self.name.clone() }
    }
}

/// A copy of a span.
pub fn clone_span(s: &Span) -> (r: Span)
    ensures
        r == *s,
{
    s.start..s.end
}

impl Ident {
    pub fn new(name: &str) -> (id: Ident)
        ensures
            id.name@ == name@,
    {
        Ident { name: name.to_owned() }
    }

    pub fn as_str(&self) -> (s: &str)
        ensures
            s@ == self.name@,
    {
        self.name.as_str()
    }

    /// Structural equality of two identifiers.
    pub fn same_as(&self, other: &Ident) -> (b: bool)
        ensures
            b == (self.name@ == other.name@),
    {
        self.name == other.name
    }
}

/// One segment of a path, with its generic arguments.
#[derive(Debug)]
pub struct PathSegment {
    pub ident: Ident,
    pub generics: Vec<Type>,
}

/// A path such as `std::io::Write`.
#[derive(Debug)]
pub struct Path {
    pub segments: Vec<PathSegment>,
}

/// A function type `fn(params) -> return_type`.
#[derive(Debug)]
pub struct FunctionType {
    pub params: Vec<Type>,
    pub return_type: Box<Type>,
}

/// A trait bound in `impl Trait` / `dyn Trait`.
#[derive(Debug)]
pub struct TraitBound {
    pub path: Path,
}

/// A type as written in the source.
#[derive(Debug)]
pub enum Type {
    Path(Path),
    Ref(Box<Type>, bool),
    Ptr(Box<Type>, bool),
    Array(Box<Type>, Option<usize>),
    Slice(Box<Type>),
    Tuple(Vec<Type>),
    Function(FunctionType),
    Unit,
    Never,
    Generic(Box<Type>, Vec<Type>),
    ImplTrait(Vec<TraitBound>),
    DynTrait(Vec<TraitBound>),
}

/// Two types written the same way, node by node.
pub open spec fn same_type(a: Type, b: Type) -> bool
    decreases a,
{
    match (a, b) {
        (Type::Path(p), Type::Path(q)) => same_path(p, q),
        (Type::Ref(x, m), Type::Ref(y, n)) => m == n && same_type(*x, *y),
        (Type::Ptr(x, m), Type::Ptr(y, n)) => m == n && same_type(*x, *y),
        (Type::Array(x, m), Type::Array(y, n)) => m == n && same_type(*x, *y),
        (Type::Slice(x), Type::Slice(y)) => same_type(*x, *y),
        (Type::Tuple(xs), Type::Tuple(ys)) => same_types(xs@, ys@),
        (Type::Function(f), Type::Function(g)) => same_types(f.params@, g.params@) && same_type(
            *f.return_type,
            *g.return_type,
        ),
        (Type::Unit, Type::Unit) => true,
        (Type::Never, Type::Never) => true,
        (Type::Generic(x, xs), Type::Generic(y, ys)) => same_type(*x, *y) && same_types(xs@, ys@),
        (Type::ImplTrait(xs), Type::ImplTrait(ys)) => same_bounds(xs@, ys@),
        (Type::DynTrait(xs), Type::DynTrait(ys)) => same_bounds(xs@, ys@),
        _ => false,
    }
}

/// Two lists of types, pairwise the same.
pub open spec fn same_types(xs: Seq<Type>, ys: Seq<Type>) -> bool
    decreases xs,
{
    if xs.len() == 0 {
        ys.len() == 0
    } else {
        ys.len() > 0 && same_types(xs.drop_last(), ys.drop_last()) && same_type(xs.last(), ys.last())
    }
}

/// Two paths with the same segments.
pub open spec fn same_path(p: Path, q: Path) -> bool
    decreases p,
{
    same_segments(p.segments@, q.segments@)
}

/// Two lists of path segments with the same names and generic arguments.
pub open spec fn same_segments(xs: Seq<PathSegment>, ys: Seq<PathSegment>) -> bool
    decreases xs,
{
    if xs.len() == 0 {
        ys.len() == 0
    } else {
        ys.len() > 0 && same_segments(xs.drop_last(), ys.drop_last()) && xs.last().ident == ys.last().ident
            && same_types(xs.last().generics@, ys.last().generics@)
    }
}

/// Two lists of trait bounds over the same paths.
pub open spec fn same_bounds(xs: Seq<TraitBound>, ys: Seq<TraitBound>) -> bool
    decreases xs,
{
    if xs.len() == 0 {
        ys.len() == 0
    } else {
        ys.len() > 0 && same_bounds(xs.drop_last(), ys.drop_last()) && same_path(xs.last().path, ys.last().path)
    }
}

fn clone_types(ts: &Vec<Type>) -> (r: Vec<Type>)
    ensures
        r.len() == ts.len(),
        same_types(ts@, r@),
    decreases ts,
{
    let mut r = Vec::new();
    let mut i: usize = 0;
    while i < ts.len()
        invariant
            i <= ts.len(),
            r.len() == i,
            same_types(ts@.take(i as int), r@),
        decreases ts.len() - i,
    {
        assert(decreases_to!(ts => ts@[i as int]));
        let ghost prev = r@;
        r.push(ts[i].deep_clone());
        proof {
            assert(ts@.take(i + 1).drop_last() =~= ts@.take(i as int));
            assert(r@.drop_last() =~= prev);
        }
        i += 1;
    }
    proof {
        assert(ts@.take(i as int) =~= ts@);
    }
    r
}

impl Path {
    /// A copy of this path, segment by segment.
    pub fn deep_clone(&self) -> (r: Path)
        ensures
            r.segments.len() == self.segments.len(),
            same_path(*self, r),
        decreases self,
    {
        let mut segs = Vec::new();
        let mut i: usize = 0;
        while i < self.segments.len()
            invariant
                i <= self.segments.len(),
                segs.len() == i,
                same_segments(self.segments@.take(i as int), segs@),
            decreases self.segments.len() - i,
        {
            let seg = &self.segments[i];
            assert(decreases_to!(self => seg.generics));
            let ghost prev = segs@;
            segs.push(PathSegment { ident: seg.ident.clone(), generics: clone_types(&seg.generics) });
            proof {
                assert(self.segments@.take(i + 1).drop_last() =~= self.segments@.take(i as int));
                assert(segs@.drop_last() =~= prev);
            }
            i += 1;
        }
        proof {
            assert(self.segments@.take(i as int) =~= self.segments@);
        }
        Path { segments: segs }
    }
}

impl Type {
    /// A copy of this type, node by node.
    pub fn deep_clone(&self) -> (r: Type)
        ensures
            same_type(*self, r),
        decreases self,
    {
        match self {
            Type::Path(p) => Type::Path(p.deep_clone()),
            Type::Ref(t, m) => Type::Ref(Box::new(t.deep_clone()), *m),
            Type::Ptr(t, m) => Type::Ptr(Box::new(t.deep_clone()), *m),
            Type::Array(t, n) => Type::Array(Box::new(t.deep_clone()), *n),
            Type::Slice(t) => Type::Slice(Box::new(t.deep_clone())),
            Type::Tuple(ts) => Type::Tuple(clone_types(ts)),
            Type::Function(f) => Type::Function(FunctionType {
                params: clone_types(&f.params),
                return_type: Box::new(f.return_type.deep_clone()),
            }),
            Type::Unit => Type::Unit,
            Type::Never => Type::Never,
            Type::Generic(b, args) => Type::Generic(Box::new(b.deep_clone()), clone_types(args)),
            Type::ImplTrait(bs) => Type::ImplTrait(clone_bounds(bs)),
            Type::DynTrait(bs) => Type::DynTrait(clone_bounds(bs)),
        }
    }
}

fn clone_bounds(bs: &Vec<TraitBound>) -> (r: Vec<TraitBound>)
    ensures
        r.len() == bs.len(),
        same_bounds(bs@, r@),
    decreases bs,
{
    let mut r = Vec::new();
    let mut i: usize = 0;
    while i < bs.len()
        invariant
            i <= bs.len(),
            r.len() == i,
            same_bounds(bs@.take(i as int), r@),
        decreases bs.len() - i,
    {
        assert(decreases_to!(bs => bs@[i as int].path));
        let ghost prev = r@;
        r.push(TraitBound { path: bs[i].path.deep_clone() });
        proof {
            assert(bs@.take(i + 1).drop_last() =~= bs@.take(i as int));
            assert(r@.drop_last() =~= prev);
        }
        i += 1;
    }
    proof {
        assert(bs@.take(i as int) =~= bs@);
    }
    r
}

impl Clone for Type {
    fn clone(&self) -> (r: Self)
        ensures
            same_type(*self, r),
    {
        self.deep_clone()
    }
}

impl Clone for Path {
    fn clone(&self) -> (r: Self)
        ensures
            same_path(*self, r),
    {
        self.deep_clone()
    }
}

/// The path made of the single segment `name`, without generics.
pub fn simple_path(name: &str) -> (p: Path)
    ensures
        p.segments.len() == 1,
        p.segments@[0].ident.name@ == name@,
        p.segments@[0].generics.len() == 0,
{
    let mut segments = Vec::new();
    segments.push(PathSegment { ident: Ident::new(name), generics: Vec::new() });
    Path { segments }
}

/// A literal as written in the source. A float literal is held by the
/// bits of its `f64` value.
#[derive(Debug)]
pub enum Literal {
    Integer(i64),
    Float(u64),
    Bool(bool),
    Char(char),
    String(String),
    Null,
}

/// A pattern.
#[derive(Debug)]
pub enum Pattern {
    Ident(Ident),
    /// `name @ pattern`.
    Binding(Ident, Box<Pattern>),
    Literal(Literal),
    Wildcard,
}

/// A block of statements.
#[derive(Debug)]
pub struct Block {
    pub stmts: Vec<Stmt>,
    pub span: Span,
}

/// A statement.
#[derive(Debug)]
pub enum Stmt {
    Let(LetStmt),
    Expr(Expr),
    Item(Item),
}

/// `let pattern: ty = init;`
#[derive(Debug)]
pub struct LetStmt {
    pub pattern: Pattern,
    pub ty: Option<Type>,
    pub init: Option<Expr>,
}

/// An item of a module or nested in a block.
#[derive(Debug)]
pub enum Item {
    Function(Function),
    Struct(StructDef),
    Enum(EnumDef),
    Impl(ImplBlock),
    ExternBlock(ExternBlock),
}

/// An `extern` block and the foreign items it declares.
#[derive(Debug)]
pub struct ExternBlock {
    pub items: Vec<ExternItem>,
}

/// A foreign item.
#[derive(Debug)]
pub enum ExternItem {
    Function(ExternFunction),
}

/// A foreign function: its name, parameters and result type.
#[derive(Debug)]
pub struct ExternFunction {
    pub name: Ident,
    pub params: Vec<(Ident, Type)>,
    pub return_type: Option<Type>,
}

/// An `impl` block: the type it is for and its items.
#[derive(Debug)]
pub struct ImplBlock {
    pub ty: Type,
    pub items: Vec<ImplItem>,
}

/// An item of an `impl` block.
#[derive(Debug)]
pub enum ImplItem {
    Function(Function),
}

/// A struct definition: its name and its named fields.
#[derive(Debug)]
pub struct StructDef {
    pub name: Ident,
    pub fields: Vec<(Ident, Type)>,
}

/// The fields of an enum variant: none, positional, or named.
#[derive(Debug)]
pub enum EnumVariantFields {
    Unit,
    Tuple(Vec<Type>),
    Struct(Vec<(Ident, Type)>),
}

/// An enum variant.
#[derive(Debug)]
pub struct EnumVariant {
    pub name: Ident,
    pub fields: EnumVariantFields,
}

/// An enum definition: its name and its variants.
#[derive(Debug)]
pub struct EnumDef {
    pub name: Ident,
    pub variants: Vec<EnumVariant>,
}

/// A function definition.
#[derive(Debug)]
pub struct Function {
    pub name: Ident,
    pub params: Vec<(Ident, Type)>,
    pub return_type: Option<Type>,
    pub body: Block,
    pub is_async: bool,
}

/// An expression.
#[derive(Debug)]
pub enum Expr {
    Literal(Literal),
    Ident(Ident),
    Path(Path),
    PathCall(Path, Vec<Expr>),
    Range(RangeExpr),
    Break(Option<Box<Expr>>),
    Continue,
    Unsafe(Block),
    Await(Box<Expr>),
    Block(Block),
    If(IfExpr),
    While(WhileExpr),
    Loop(LoopExpr),
    For(ForExpr),
    Match(MatchExpr),
    Binary(BinaryExpr),
    Unary(UnaryExpr),
    Call(CallExpr),
    MethodCall(MethodCallExpr),
    Return(Option<Box<Expr>>),
    Assign(AssignExpr),
    FieldAccess(FieldAccessExpr),
    Index(IndexExpr),
    ArrayInit(ArrayInitExpr),
    StructInit(StructInitExpr),
    Closure(ClosureExpr),
    Async(Block),
}

#[derive(Debug)]
pub struct IfExpr {
    pub cond: Box<Expr>,
    pub then_branch: Block,
    pub else_branch: Option<Box<Expr>>,
}

#[derive(Debug)]
pub struct WhileExpr {
    pub cond: Box<Expr>,
    pub body: Block,
}

#[derive(Debug)]
pub struct LoopExpr {
    pub body: Block,
}

#[derive(Debug)]
pub struct ForExpr {
    pub pattern: Pattern,
    pub expr: Box<Expr>,
    pub body: Block,
}

#[derive(Debug)]
pub struct MatchExpr {
    pub expr: Box<Expr>,
    pub arms: Vec<MatchArm>,
}

#[derive(Debug)]
pub struct MatchArm {
    pub pattern: Pattern,
    pub guard: Option<Expr>,
    pub body: Expr,
}

/// `start..end` or `start..=end`, either end optional.
#[derive(Debug)]
pub struct RangeExpr {
    pub start: Option<Box<Expr>>,
    pub end: Option<Box<Expr>>,
    pub inclusive: bool,
}

/// A binary operator.
#[derive(Debug, Clone, Copy, PartialEq, Eq, Structural)]
pub enum BinaryOp {
    Add,
    Sub,
    Mul,
    Div,
    Rem,
    And,
    Or,
    Xor,
    Shl,
    Shr,
    Eq,
    Ne,
    Lt,
    Le,
    Gt,
    Ge,
    LogicalAnd,
    LogicalOr,
    Assign,
    Pipe,
}

/// A unary operator.
#[derive(Debug, Clone, Copy, PartialEq, Eq, Structural)]
pub enum UnaryOp {
    Neg,
    Not,
    Deref,
    Ref,
    RefMut,
}

#[derive(Debug)]
pub struct BinaryExpr {
    pub op: BinaryOp,
    pub left: Box<Expr>,
    pub right: Box<Expr>,
}

#[derive(Debug)]
pub struct UnaryExpr {
    pub op: UnaryOp,
    pub expr: Box<Expr>,
}

#[derive(Debug)]
pub struct CallExpr {
    pub func: Box<Expr>,
    pub args: Vec<Expr>,
}

#[derive(Debug)]
pub struct MethodCallExpr {
    pub receiver: Box<Expr>,
    pub method: Ident,
    pub args: Vec<Expr>,
}

#[derive(Debug)]
pub struct AssignExpr {
    pub left: Box<Expr>,
    pub right: Box<Expr>,
}

#[derive(Debug)]
pub struct FieldAccessExpr {
    pub expr: Box<Expr>,
    pub field: Ident,
}

#[derive(Debug)]
pub struct IndexExpr {
    pub expr: Box<Expr>,
    pub index: Box<Expr>,
}

#[derive(Debug)]
pub struct ArrayInitExpr {
    pub elements: Vec<Expr>,
}

#[derive(Debug)]
pub struct StructInitExpr {
    pub name: Path,
    pub fields: Vec<(Ident, Expr)>,
}

#[derive(Debug)]
pub struct ClosureExpr {
    pub params: Vec<Ident>,
    pub body: Box<Expr>,
}

/// Two optional expressions, both absent or the same expression.
pub open spec fn same_opt_box(a: Option<Box<Expr>>, b: Option<Box<Expr>>) -> bool
    decreases a,
{
    match (a, b) {
        (Some(x), Some(y)) => same_expr(*x, *y),
        (None, None) => true,
        _ => false,
    }
}

/// Two optional expressions, both absent or the same expression.
pub open spec fn same_opt_expr(a: Option<Expr>, b: Option<Expr>) -> bool
    decreases a,
{
    match (a, b) {
        (Some(x), Some(y)) => same_expr(x, y),
        (None, None) => true,
        _ => false,
    }
}

/// Two optional types, both absent or the same type.
pub open spec fn same_opt_type(a: Option<Type>, b: Option<Type>) -> bool {
    match (a, b) {
        (Some(x), Some(y)) => same_type(x, y),
        (None, None) => true,
        _ => false,
    }
}

/// Two expressions written the same way, node by node.
pub open spec fn same_expr(a: Expr, b: Expr) -> bool
    decreases a,
{
    match (a, b) {
        (Expr::Literal(x), Expr::Literal(y)) => x == y,
        (Expr::Ident(x), Expr::Ident(y)) => x == y,
        (Expr::Path(p), Expr::Path(q)) => same_path(p, q),
        (Expr::PathCall(p, xs), Expr::PathCall(q, ys)) => same_path(p, q) && same_exprs(xs@, ys@),
        (Expr::Range(r), Expr::Range(t)) => same_opt_box(r.start, t.start) && same_opt_box(r.end, t.end)
            && r.inclusive == t.inclusive,
        (Expr::Break(x), Expr::Break(y)) => same_opt_box(x, y),
        (Expr::Continue, Expr::Continue) => true,
        (Expr::Unsafe(x), Expr::Unsafe(y)) => same_block(x, y),
        (Expr::Await(x), Expr::Await(y)) => same_expr(*x, *y),
        (Expr::Block(x), Expr::Block(y)) => same_block(x, y),
        (Expr::If(x), Expr::If(y)) => same_expr(*x.cond, *y.cond) && same_block(x.then_branch, y.then_branch)
            && same_opt_box(x.else_branch, y.else_branch),
        (Expr::While(x), Expr::While(y)) => same_expr(*x.cond, *y.cond) && same_block(x.body, y.body),
        (Expr::Loop(x), Expr::Loop(y)) => same_block(x.body, y.body),
        (Expr::For(x), Expr::For(y)) => x.pattern == y.pattern && same_expr(*x.expr, *y.expr) && same_block(
            x.body,
            y.body,
        ),
        (Expr::Match(x), Expr::Match(y)) => same_expr(*x.expr, *y.expr) && same_arms(x.arms@, y.arms@),
        (Expr::Binary(x), Expr::Binary(y)) => x.op == y.op && same_expr(*x.left, *y.left) && same_expr(
            *x.right,
            *y.right,
        ),
        (Expr::Unary(x), Expr::Unary(y)) => x.op == y.op && same_expr(*x.expr, *y.expr),
        (Expr::Call(x), Expr::Call(y)) => same_expr(*x.func, *y.func) && same_exprs(x.args@, y.args@),
        (Expr::MethodCall(x), Expr::MethodCall(y)) => same_expr(*x.receiver, *y.receiver) && x.method == y.method
            && same_exprs(x.args@, y.args@),
        (Expr::Return(x), Expr::Return(y)) => same_opt_box(x, y),
        (Expr::Assign(x), Expr::Assign(y)) => same_expr(*x.left, *y.left) && same_expr(*x.right, *y.right),
        (Expr::FieldAccess(x), Expr::FieldAccess(y)) => same_expr(*x.expr, *y.expr) && x.field == y.field,
        (Expr::Index(x), Expr::Index(y)) => same_expr(*x.expr, *y.expr) && same_expr(*x.index, *y.index),
        (Expr::ArrayInit(x), Expr::ArrayInit(y)) => same_exprs(x.elements@, y.elements@),
        (Expr::StructInit(x), Expr::StructInit(y)) => same_path(x.name, y.name) && same_field_inits(
            x.fields@,
            y.fields@,
        ),
        (Expr::Closure(x), Expr::Closure(y)) => x.params@ == y.params@ && same_expr(*x.body, *y.body),
        (Expr::Async(x), Expr::Async(y)) => same_block(x, y),
        _ => false,
    }
}

/// Two lists of expressions, pairwise the same.
pub open spec fn same_exprs(xs: Seq<Expr>, ys: Seq<Expr>) -> bool
    decreases xs,
{
    if xs.len() == 0 {
        ys.len() == 0
    } else {
        ys.len() > 0 && same_exprs(xs.drop_last(), ys.drop_last()) && same_expr(xs.last(), ys.last())
    }
}

/// Two lists of match arms with the same patterns, guards and bodies.
pub open spec fn same_arms(xs: Seq<MatchArm>, ys: Seq<MatchArm>) -> bool
    decreases xs,
{
    if xs.len() == 0 {
        ys.len() == 0
    } else {
        ys.len() > 0 && same_arms(xs.drop_last(), ys.drop_last()) && xs.last().pattern == ys.last().pattern
            && same_opt_expr(xs.last().guard, ys.last().guard) && same_expr(xs.last().body, ys.last().body)
    }
}

/// Two lists of field initializers with the same names and expressions.
pub open spec fn same_field_inits(xs: Seq<(Ident, Expr)>, ys: Seq<(Ident, Expr)>) -> bool
    decreases xs,
{
    if xs.len() == 0 {
        ys.len() == 0
    } else {
        ys.len() > 0 && same_field_inits(xs.drop_last(), ys.drop_last()) && xs.last().0 == ys.last().0
            && same_expr(xs.last().1, ys.last().1)
    }
}

/// Two lists of parameters with the same names and types.
pub open spec fn same_params(xs: Seq<(Ident, Type)>, ys: Seq<(Ident, Type)>) -> bool
    decreases xs.len(),
{
    if xs.len() == 0 {
        ys.len() == 0
    } else {
        ys.len() > 0 && same_params(xs.drop_last(), ys.drop_last()) && xs.last().0 == ys.last().0 && same_type(
            xs.last().1,
            ys.last().1,
        )
    }
}

/// Two blocks with the same statements and span.
pub open spec fn same_block(a: Block, b: Block) -> bool
    decreases a,
{
    same_stmts(a.stmts@, b.stmts@) && a.span == b.span
}

/// Two lists of statements, pairwise the same.
pub open spec fn same_stmts(xs: Seq<Stmt>, ys: Seq<Stmt>) -> bool
    decreases xs,
{
    if xs.len() == 0 {
        ys.len() == 0
    } else {
        ys.len() > 0 && same_stmts(xs.drop_last(), ys.drop_last()) && same_stmt(xs.last(), ys.last())
    }
}

/// Two statements written the same way.
pub open spec fn same_stmt(a: Stmt, b: Stmt) -> bool
    decreases a,
{
    match (a, b) {
        (Stmt::Let(x), Stmt::Let(y)) => x.pattern == y.pattern && same_opt_type(x.ty, y.ty) && same_opt_expr(
            x.init,
            y.init,
        ),
        (Stmt::Expr(x), Stmt::Expr(y)) => same_expr(x, y),
        (Stmt::Item(Item::Function(f)), Stmt::Item(Item::Function(g))) => same_function(f, g),
        (Stmt::Item(Item::Struct(x)), Stmt::Item(Item::Struct(y))) => same_struct_def(x, y),
        (Stmt::Item(Item::Enum(x)), Stmt::Item(Item::Enum(y))) => same_enum_def(x, y),
        (Stmt::Item(Item::Impl(x)), Stmt::Item(Item::Impl(y))) => same_type(x.ty, y.ty) && same_impl_items(
            x.items@,
            y.items@,
        ),
        (Stmt::Item(Item::ExternBlock(x)), Stmt::Item(Item::ExternBlock(y))) => same_extern_items(x.items@, y.items@),
        _ => false,
    }
}

/// Two lists of `impl` items written the same way.
pub open spec fn same_impl_items(xs: Seq<ImplItem>, ys: Seq<ImplItem>) -> bool
    decreases xs,
{
    if xs.len() == 0 {
        ys.len() == 0
    } else {
        ys.len() > 0 && same_impl_items(xs.drop_last(), ys.drop_last()) && match (xs.last(), ys.last()) {
            (ImplItem::Function(f), ImplItem::Function(g)) => same_function(f, g),
        }
    }
}

/// Two foreign functions written the same way.
pub open spec fn same_extern_fn(f: ExternFunction, g: ExternFunction) -> bool {
    f.name == g.name && same_params(f.params@, g.params@) && same_opt_type(f.return_type, g.return_type)
}

/// Two lists of foreign items written the same way.
pub open spec fn same_extern_items(xs: Seq<ExternItem>, ys: Seq<ExternItem>) -> bool
    decreases xs.len(),
{
    if xs.len() == 0 {
        ys.len() == 0
    } else {
        ys.len() > 0 && same_extern_items(xs.drop_last(), ys.drop_last()) && match (xs.last(), ys.last()) {
            (ExternItem::Function(f), ExternItem::Function(g)) => same_extern_fn(f, g),
        }
    }
}

/// Two struct definitions written the same way.
pub open spec fn same_struct_def(x: StructDef, y: StructDef) -> bool {
    x.name == y.name && same_params(x.fields@, y.fields@)
}

/// Two variant field lists written the same way.
pub open spec fn same_variant_fields(a: EnumVariantFields, b: EnumVariantFields) -> bool {
    match (a, b) {
        (EnumVariantFields::Unit, EnumVariantFields::Unit) => true,
        (EnumVariantFields::Tuple(x), EnumVariantFields::Tuple(y)) => same_types(x@, y@),
        (EnumVariantFields::Struct(x), EnumVariantFields::Struct(y)) => same_params(x@, y@),
        _ => false,
    }
}

/// Two lists of variants written the same way.
pub open spec fn same_enum_variants(xs: Seq<EnumVariant>, ys: Seq<EnumVariant>) -> bool
    decreases xs.len(),
{
    if xs.len() == 0 {
        ys.len() == 0
    } else {
        ys.len() > 0 && same_enum_variants(xs.drop_last(), ys.drop_last()) && xs.last().name == ys.last().name
            && same_variant_fields(xs.last().fields, ys.last().fields)
    }
}

/// Two enum definitions written the same way.
pub open spec fn same_enum_def(x: EnumDef, y: EnumDef) -> bool {
    x.name == y.name && same_enum_variants(x.variants@, y.variants@)
}

impl ImplBlock {
    pub fn deep_clone(&self) -> (r: ImplBlock)
        ensures
            same_type(self.ty, r.ty),
            same_impl_items(self.items@, r.items@),
        decreases self,
    {
        let mut items: Vec<ImplItem> = Vec::new();
        let mut i: usize = 0;
        while i < self.items.len()
            invariant
                i <= self.items@.len(),
                same_impl_items(self.items@.take(i as int), items@),
            decreases self.items@.len() - i,
        {
            let ghost prev = items@;
            assert(decreases_to!(self => self.items@[i as int]));
            match &self.items[i] {
                ImplItem::Function(f) => items.push(ImplItem::Function(f.deep_clone())),
            }
            proof {
                assert(self.items@.take(i + 1).drop_last() =~= self.items@.take(i as int));
                assert(items@.drop_last() =~= prev);
            }
            i += 1;
        }
        proof {
            assert(self.items@.take(i as int) =~= self.items@);
        }
        ImplBlock { ty: self.ty.deep_clone(), items }
    }
}

impl ExternBlock {
    pub fn deep_clone(&self) -> (r: ExternBlock)
        ensures
            same_extern_items(self.items@, r.items@),
    {
        let mut items: Vec<ExternItem> = Vec::new();
        let mut i: usize = 0;
        while i < self.items.len()
            invariant
                i <= self.items@.len(),
                same_extern_items(self.items@.take(i as int), items@),
            decreases self.items@.len() - i,
        {
            let ghost prev = items@;
            match &self.items[i] {
                ExternItem::Function(f) => items.push(ExternItem::Function(ExternFunction {
                    name: f.name.clone(),
                    params: clone_params(&f.params),
                    return_type: clone_opt_type(&f.return_type),
                })),
            }
            proof {
                assert(self.items@.take(i + 1).drop_last() =~= self.items@.take(i as int));
                assert(items@.drop_last() =~= prev);
            }
            i += 1;
        }
        proof {
            assert(self.items@.take(i as int) =~= self.items@);
        }
        ExternBlock { items }
    }
}

impl StructDef {
    pub fn deep_clone(&self) -> (r: StructDef)
        ensures
            same_struct_def(*self, r),
    {
        StructDef { name: self.name.clone(), fields: clone_params(&self.fields) }
    }
}

impl EnumVariant {
    pub fn deep_clone(&self) -> (r: EnumVariant)
        ensures
            r.name == self.name,
            same_variant_fields(self.fields, r.fields),
    {
        let fields = match &self.fields {
            EnumVariantFields::Unit => EnumVariantFields::Unit,
            EnumVariantFields::Tuple(ts) => EnumVariantFields::Tuple(clone_types(ts)),
            EnumVariantFields::Struct(ps) => EnumVariantFields::Struct(clone_params(ps)),
        };
        EnumVariant { name: self.name.clone(), fields }
    }
}

impl EnumDef {
    pub fn deep_clone(&self) -> (r: EnumDef)
        ensures
            same_enum_def(*self, r),
    {
        let mut vs: Vec<EnumVariant> = Vec::new();
        let mut i: usize = 0;
        while i < self.variants.len()
            invariant
                i <= self.variants@.len(),
                same_enum_variants(self.variants@.take(i as int), vs@),
            decreases self.variants@.len() - i,
        {
            let ghost prev = vs@;
            vs.push(self.variants[i].deep_clone());
            proof {
                assert(self.variants@.take(i + 1).drop_last() =~= self.variants@.take(i as int));
                assert(vs@.drop_last() =~= prev);
            }
            i += 1;
        }
        proof {
            assert(self.variants@.take(i as int) =~= self.variants@);
        }
        EnumDef { name: self.name.clone(), variants: vs }
    }
}

/// Two function definitions written the same way.
pub open spec fn same_function(f: Function, g: Function) -> bool
    decreases f,
{
    &&& f.name == g.name
    &&& same_params(f.params@, g.params@)
    &&& same_opt_type(f.return_type, g.return_type)
    &&& same_block(f.body, g.body)
    &&& f.is_async == g.is_async
}

impl Literal {
    pub fn deep_clone(&self) -> (r: Literal)
        ensures
            r == *self,
    {
        match self {
            Literal::Integer(n) => Literal::Integer(*n),
            Literal::Float(f) => Literal::Float(*f),
            Literal::Bool(b) => Literal::Bool(*b),
            Literal::Char(c) => Literal::Char(*c),
            Literal::String(s) => Literal::String(s.clone()),
            Literal::Null => Literal::Null,
        }
    }
}

impl Pattern {
    pub fn deep_clone(&self) -> (r: Pattern)
        ensures
            r == *self,
        decreases self,
    {
        match self {
            Pattern::Ident(i) => Pattern::Ident(i.clone()),
            Pattern::Binding(i, p) => Pattern::Binding(i.clone(), Box::new(p.deep_clone())),
            Pattern::Literal(l) => Pattern::Literal(l.deep_clone()),
            Pattern::Wildcard => Pattern::Wildcard,
        }
    }
}

fn clone_opt_expr(e: &Option<Box<Expr>>) -> (r: Option<Box<Expr>>)
    ensures
        same_opt_box(*e, r),
    decreases e,
{
    match e {
        Some(e) => Some(Box::new(e.deep_clone())),
        None => None,
    }
}

fn clone_opt_type(t: &Option<Type>) -> (r: Option<Type>)
    ensures
        same_opt_type(*t, r),
{
    match t {
        Some(t) => Some(t.deep_clone()),
        None => None,
    }
}

fn clone_exprs(es: &Vec<Expr>) -> (r: Vec<Expr>)
    ensures
        same_exprs(es@, r@),
    decreases es,
{
    let mut r = Vec::new();
    let mut i: usize = 0;
    while i < es.len()
        invariant
            i <= es.len(),
            same_exprs(es@.take(i as int), r@),
        decreases es.len() - i,
    {
        assert(decreases_to!(es => es@[i as int]));
        let ghost prev = r@;
        r.push(es[i].deep_clone());
        proof {
            assert(es@.take(i + 1).drop_last() =~= es@.take(i as int));
            assert(r@.drop_last() =~= prev);
        }
        i += 1;
    }
    proof {
        assert(es@.take(i as int) =~= es@);
    }
    r
}

fn clone_stmts(ss: &Vec<Stmt>) -> (r: Vec<Stmt>)
    ensures
        same_stmts(ss@, r@),
    decreases ss,
{
    let mut r = Vec::new();
    let mut i: usize = 0;
    while i < ss.len()
        invariant
            i <= ss.len(),
            same_stmts(ss@.take(i as int), r@),
        decreases ss.len() - i,
    {
        assert(decreases_to!(ss => ss@[i as int]));
        let ghost prev = r@;
        r.push(ss[i].deep_clone());
        proof {
            assert(ss@.take(i + 1).drop_last() =~= ss@.take(i as int));
            assert(r@.drop_last() =~= prev);
        }
        i += 1;
    }
    proof {
        assert(ss@.take(i as int) =~= ss@);
    }
    r
}

fn clone_arms(arms: &Vec<MatchArm>) -> (r: Vec<MatchArm>)
    ensures
        same_arms(arms@, r@),
    decreases arms,
{
    let mut r = Vec::new();
    let mut i: usize = 0;
    while i < arms.len()
        invariant
            i <= arms.len(),
            same_arms(arms@.take(i as int), r@),
        decreases arms.len() - i,
    {
        assert(decreases_to!(arms => arms@[i as int]));
        let arm = &arms[i];
        let guard = match &arm.guard {
            Some(g) => Some(g.deep_clone()),
            None => None,
        };
        let pattern = arm.pattern.deep_clone();
        let body = arm.body.deep_clone();
        assert(same_opt_expr(arm.guard, guard));
        let ghost prev = r@;
        r.push(MatchArm { pattern, guard, body });
        proof {
            assert(r@.last() == MatchArm { pattern, guard, body });
            assert(arms@.take(i + 1).drop_last() =~= arms@.take(i as int));
            assert(r@.drop_last() =~= prev);
        }
        i += 1;
    }
    proof {
        assert(arms@.take(i as int) =~= arms@);
    }
    r
}

fn clone_fields(fs: &Vec<(Ident, Expr)>) -> (r: Vec<(Ident, Expr)>)
    ensures
        same_field_inits(fs@, r@),
    decreases fs,
{
    let mut r = Vec::new();
    let mut i: usize = 0;
    while i < fs.len()
        invariant
            i <= fs.len(),
            same_field_inits(fs@.take(i as int), r@),
        decreases fs.len() - i,
    {
        assert(decreases_to!(fs => fs@[i as int]));
        let (name, e) = &fs[i];
        let ghost prev = r@;
        r.push((name.clone(), e.deep_clone()));
        proof {
            assert(fs@.take(i + 1).drop_last() =~= fs@.take(i as int));
            assert(r@.drop_last() =~= prev);
        }
        i += 1;
    }
    proof {
        assert(fs@.take(i as int) =~= fs@);
    }
    r
}

fn clone_params(ps: &Vec<(Ident, Type)>) -> (r: Vec<(Ident, Type)>)
    ensures
        same_params(ps@, r@),
{
    let mut r = Vec::new();
    let mut i: usize = 0;
    while i < ps.len()
        invariant
            i <= ps.len(),
            same_params(ps@.take(i as int), r@),
        decreases ps.len() - i,
    {
        let (name, t) = &ps[i];
        let ghost prev = r@;
        r.push((name.clone(), t.deep_clone()));
        proof {
            assert(ps@.take(i + 1).drop_last() =~= ps@.take(i as int));
            assert(r@.drop_last() =~= prev);
        }
        i += 1;
    }
    proof {
        assert(ps@.take(i as int) =~= ps@);
    }
    r
}

impl Block {
    pub fn deep_clone(&self) -> (r: Block)
        ensures
            same_block(*self, r),
        decreases self,
    {
        Block { stmts: clone_stmts(&self.stmts), span: clone_span(&self.span) }
    }
}

impl Function {
    pub fn deep_clone(&self) -> (r: Function)
        ensures
            same_function(*self, r),
        decreases self,
    {
        Function {
            name: self.name.clone(),
            params: clone_params(&self.params),
            return_type: clone_opt_type(&self.return_type),
            body: self.body.deep_clone(),
            is_async: self.is_async,
        }
    }
}

impl Stmt {
    pub fn deep_clone(&self) -> (r: Stmt)
        ensures
            same_stmt(*self, r),
        decreases self,
    {
        match self {
            Stmt::Let(l) => {
                let init = match &l.init {
                    Some(e) => Some(e.deep_clone()),
                    None => None,
                };
                Stmt::Let(LetStmt { pattern: l.pattern.deep_clone(), ty: clone_opt_type(&l.ty), init })
            },
            Stmt::Expr(e) => Stmt::Expr(e.deep_clone()),
            Stmt::Item(Item::Function(f)) => Stmt::Item(Item::Function(f.deep_clone())),
            Stmt::Item(Item::Struct(d)) => Stmt::Item(Item::Struct(d.deep_clone())),
            Stmt::Item(Item::Enum(d)) => Stmt::Item(Item::Enum(d.deep_clone())),
            Stmt::Item(Item::Impl(b)) => Stmt::Item(Item::Impl(b.deep_clone())),
            Stmt::Item(Item::ExternBlock(b)) => Stmt::Item(Item::ExternBlock(b.deep_clone())),
        }
    }
}

impl Expr {
    pub fn deep_clone(&self) -> (r: Expr)
        ensures
            same_expr(*self, r),
        decreases self,
    {
        match self {
            Expr::Literal(l) => Expr::Literal(l.deep_clone()),
            Expr::Ident(i) => Expr::Ident(i.clone()),
            Expr::Path(p) => Expr::Path(p.deep_clone()),
            Expr::PathCall(p, args) => Expr::PathCall(p.deep_clone(), clone_exprs(args)),
            Expr::Range(r) => Expr::Range(RangeExpr {
                start: clone_opt_expr(&r.start),
                end: clone_opt_expr(&r.end),
                inclusive: r.inclusive,
            }),
            Expr::Break(v) => Expr::Break(clone_opt_expr(v)),
            Expr::Continue => Expr::Continue,
            Expr::Unsafe(b) => Expr::Unsafe(b.deep_clone()),
            Expr::Await(e) => Expr::Await(Box::new(e.deep_clone())),
            Expr::Block(b) => Expr::Block(b.deep_clone()),
            Expr::If(i) => {
                let else_branch = clone_opt_expr(&i.else_branch);
                Expr::If(IfExpr { cond: Box::new(i.cond.deep_clone()), then_branch: i.then_branch.deep_clone(), else_branch })
            },
            Expr::While(w) => Expr::While(WhileExpr { cond: Box::new(w.cond.deep_clone()), body: w.body.deep_clone() }),
            Expr::Loop(l) => Expr::Loop(LoopExpr { body: l.body.deep_clone() }),
            Expr::For(f) => Expr::For(ForExpr {
                pattern: f.pattern.deep_clone(),
                expr: Box::new(f.expr.deep_clone()),
                body: f.body.deep_clone(),
            }),
            Expr::Match(m) => Expr::Match(MatchExpr { expr: Box::new(m.expr.deep_clone()), arms: clone_arms(&m.arms) }),
            Expr::Binary(b) => Expr::Binary(BinaryExpr {
                op: b.op,
                left: Box::new(b.left.deep_clone()),
                right: Box::new(b.right.deep_clone()),
            }),
            Expr::Unary(u) => Expr::Unary(UnaryExpr { op: u.op, expr: Box::new(u.expr.deep_clone()) }),
            Expr::Call(c) => Expr::Call(CallExpr { func: Box::new(c.func.deep_clone()), args: clone_exprs(&c.args) }),
            Expr::MethodCall(m) => Expr::MethodCall(MethodCallExpr {
                receiver: Box::new(m.receiver.deep_clone()),
                method: m.method.clone(),
                args: clone_exprs(&m.args),
            }),
            Expr::Return(r) => Expr::Return(clone_opt_expr(r)),
            Expr::Assign(a) => Expr::Assign(AssignExpr {
                left: Box::new(a.left.deep_clone()),
                right: Box::new(a.right.deep_clone()),
            }),
            Expr::FieldAccess(f) => Expr::FieldAccess(FieldAccessExpr {
                expr: Box::new(f.expr.deep_clone()),
                field: f.field.clone(),
            }),
            Expr::Index(i) => Expr::Index(IndexExpr {
                expr: Box::new(i.expr.deep_clone()),
                index: Box::new(i.index.deep_clone()),
            }),
            Expr::ArrayInit(a) => Expr::ArrayInit(ArrayInitExpr { elements: clone_exprs(&a.elements) }),
            Expr::StructInit(s) => Expr::StructInit(StructInitExpr { name: s.name.deep_clone(), fields: clone_fields(&s.fields) }),
            Expr::Closure(c) => {
                let params = c.params.clone();
                proof {
                    assert forall|k: int| 0 <= k < params@.len() implies params@[k] == c.params@[k] by {
                        assert(cloned::<Ident>(c.params@[k], params@[k]));
                    }
                    assert(params@ =~= c.params@);
                }
                Expr::Closure(ClosureExpr { params, body: Box::new(c.body.deep_clone()) })
            },
            Expr::Async(b) => Expr::Async(b.deep_clone()),
        }
    }
}

impl Clone for Expr {
    fn clone(&self) -> (r: Self)
        ensures
            same_expr(*self, r),
    {
        self.deep_clone()
    }
}

impl Clone for Stmt {
    fn clone(&self) -> (r: Self)
        ensures
            same_stmt(*self, r),
    {
        self.deep_clone()
    }
}

impl Clone for Block {
    fn clone(&self) -> (r: Self)
        ensures
            same_block(*self, r),
    {
        self.deep_clone()
    }
}

impl Clone for Function {
    fn clone(&self) -> (r: Self)
        ensures
            same_function(*self, r),
    {
        self.deep_clone()
    }
}

impl Clone for Pattern {
    fn clone(&self) -> (r: Self)
        ensures
            r == *self,
    {
        self.deep_clone()
    }
}

/// A parsed source file: its top-level items.
#[derive(Debug)]
pub struct Module {
    pub items: Vec<Item>,
}

} // verus!
