//! Type checking errors and a collector for them.

use vstd::prelude::*;
use crate::ast::Span;

verus! {

/// A type checking error.  `line` and `column` are 0 when unknown.
#[derive(Debug)]
pub enum TypeError {
    MismatchedTypes { expected: String, found: String, span: Span, line: usize, column: usize },
    CannotInfer { name: String, span: Span, line: usize, column: usize },
    UndefinedVar { name: String, span: Span, line: usize, column: usize },
    UndefinedFunction { name: String, span: Span, line: usize, column: usize },
    UndefinedType { name: String, span: Span, line: usize, column: usize },
    ArgCountMismatch { expected: usize, found: usize, span: Span, line: usize, column: usize },
    InvalidBinaryOp { op: String, left: String, right: String, span: Span, line: usize, column: usize },
    InvalidUnaryOp { op: String, ty: String, span: Span, line: usize, column: usize },
    AssignToImmutable { name: String, span: Span, line: usize, column: usize },
    MissingReturnType { span: Span, line: usize, column: usize },
    ReturnTypeMismatch { expected: String, found: String, span: Span, line: usize, column: usize },
    DeadCode { span: Span, line: usize, column: usize },
    RecursiveType { span: Span, line: usize, column: usize },
    TypeAnnotationNeeded { span: Span, line: usize, column: usize },
    UndefinedMethod { ty_name: String, method_name: String, span: Span, line: usize, column: usize },
    UndefinedField { ty_name: String, field_name: String, span: Span, line: usize, column: usize },
    InvalidType { name: String, span: Span, line: usize, column: usize },
    AwaitOutsideAsync { span: Span, line: usize, column: usize },
    NotAwaitable { ty: String, span: Span, line: usize, column: usize },
    Multiple(Vec<TypeError>),
}

/// The result of a type checking step.
pub type TypeResult<T> = Result<T, TypeError>;

/// The span of an error; a group of errors has none.
pub open spec fn error_span(e: TypeError) -> Option<Span> {
    match e {
        TypeError::MismatchedTypes { span, .. } => Some(span),
        TypeError::CannotInfer { span, .. } => Some(span),
        TypeError::UndefinedVar { span, .. } => Some(span),
        TypeError::UndefinedFunction { span, .. } => Some(span),
        TypeError::UndefinedType { span, .. } => Some(span),
        TypeError::ArgCountMismatch { span, .. } => Some(span),
        TypeError::InvalidBinaryOp { span, .. } => Some(span),
        TypeError::InvalidUnaryOp { span, .. } => Some(span),
        TypeError::AssignToImmutable { span, .. } => Some(span),
        TypeError::MissingReturnType { span, .. } => Some(span),
        TypeError::ReturnTypeMismatch { span, .. } => Some(span),
        TypeError::DeadCode { span, .. } => Some(span),
        TypeError::RecursiveType { span, .. } => Some(span),
        TypeError::TypeAnnotationNeeded { span, .. } => Some(span),
        TypeError::UndefinedMethod { span, .. } => Some(span),
        TypeError::UndefinedField { span, .. } => Some(span),
        TypeError::InvalidType { span, .. } => Some(span),
        TypeError::AwaitOutsideAsync { span, .. } => Some(span),
        TypeError::NotAwaitable { span, .. } => Some(span),
        TypeError::Multiple(_) => None,
    }
}

impl TypeError {
    /// The source span the error points at; none for a group of errors.
    pub fn span(&self) -> (r: Option<&Span>)
        ensures
            match r {
                Some(s) => error_span(*self) == Some(*s),
                None => error_span(*self) is None,
            },
    {
        match self {
            TypeError::MismatchedTypes { span, .. } => Some(span),
            TypeError::CannotInfer { span, .. } => Some(span),
            TypeError::UndefinedVar { span, .. } => Some(span),
            TypeError::UndefinedFunction { span, .. } => Some(span),
            TypeError::UndefinedType { span, .. } => Some(span),
            TypeError::ArgCountMismatch { span, .. } => Some(span),
            TypeError::InvalidBinaryOp { span, .. } => Some(span),
            TypeError::InvalidUnaryOp { span, .. } => Some(span),
            TypeError::AssignToImmutable { span, .. } => Some(span),
            TypeError::MissingReturnType { span, .. } => Some(span),
            TypeError::ReturnTypeMismatch { span, .. } => Some(span),
            TypeError::DeadCode { span, .. } => Some(span),
            TypeError::RecursiveType { span, .. } => Some(span),
            TypeError::TypeAnnotationNeeded { span, .. } => Some(span),
            TypeError::UndefinedMethod { span, .. } => Some(span),
            TypeError::UndefinedField { span, .. } => Some(span),
            TypeError::InvalidType { span, .. } => Some(span),
            TypeError::AwaitOutsideAsync { span, .. } => Some(span),
            TypeError::NotAwaitable { span, .. } => Some(span),
            TypeError::Multiple(_) => None,
        }
    }

    pub fn mismatched_types(expected: String, found: String, span: Span, line: usize, column: usize) -> (e:
        TypeError)
        ensures
            e == (TypeError::MismatchedTypes { expected, found, span, line, column }),
    {
        TypeError::MismatchedTypes { expected, found, span, line, column }
    }

    pub fn undefined_var(name: &str, span: Span, line: usize, column: usize) -> (e: TypeError)
        ensures
            e matches TypeError::UndefinedVar { name: n, span: s, line: l, column: c } && n@ == name@ && s == span
                && l == line && c == column,
    {
        TypeError::UndefinedVar { name: name.to_owned(), span, line, column }
    }

    pub fn undefined_function(name: &str, span: Span, line: usize, column: usize) -> (e: TypeError)
        ensures
            e matches TypeError::UndefinedFunction { name: n, span: s, line: l, column: c } && n@ == name@
                && s == span && l == line && c == column,
    {
        TypeError::UndefinedFunction { name: name.to_owned(), span, line, column }
    }

    pub fn invalid_binary_op(op: String, left: String, right: String, span: Span, line: usize, column: usize) -> (e:
        TypeError)
        ensures
            e == (TypeError::InvalidBinaryOp { op, left, right, span, line, column }),
    {
        TypeError::InvalidBinaryOp { op, left, right, span, line, column }
    }

    pub fn invalid_unary_op(op: String, ty: String, span: Span, line: usize, column: usize) -> (e: TypeError)
        ensures
            e == (TypeError::InvalidUnaryOp { op, ty, span, line, column }),
    {
        TypeError::InvalidUnaryOp { op, ty, span, line, column }
    }

    pub fn arg_count_mismatch(expected: usize, found: usize, span: Span, line: usize, column: usize) -> (e:
        TypeError)
        ensures
            e == (TypeError::ArgCountMismatch { expected, found, span, line, column }),
    {
        TypeError::ArgCountMismatch { expected, found, span, line, column }
    }

    pub fn undefined_method(ty_name: String, method_name: String, span: Span, line: usize, column: usize) -> (e:
        TypeError)
        ensures
            e == (TypeError::UndefinedMethod { ty_name, method_name, span, line, column }),
    {
        TypeError::UndefinedMethod { ty_name, method_name, span, line, column }
    }
}

/// The errors collected while checking, in the order they were found.
#[derive(Debug)]
pub struct TypeErrors {
    errors: Vec<TypeError>,
}

/// Whether `r` is what the errors `errors` amount to: success when there
/// is none, the error itself when there is one, and the whole group
/// otherwise.
pub open spec fn is_outcome(errors: Seq<TypeError>, r: Result<(), TypeError>) -> bool {
    if errors.len() == 0 {
        r is Ok
    } else if errors.len() == 1 {
        r == Err::<(), TypeError>(errors[0])
    } else {
        r matches Err(TypeError::Multiple(v)) && v@ == errors
    }
}

impl Default for TypeErrors {
    fn default() -> (e: Self)
        ensures
            e.items() == Seq::<TypeError>::empty(),
    {
        TypeErrors::new()
    }
}

impl TypeErrors {
    pub closed spec fn items(&self) -> Seq<TypeError> {
        self.errors@
    }

    pub fn new() -> (e: Self)
        ensures
            e.items() == Seq::<TypeError>::empty(),
    {
        TypeErrors { errors: Vec::new() }
    }

    pub fn push(&mut self, error: TypeError)
        ensures
            final(self).items() == old(self).items().push(error),
    {
        self.errors.push(error);
    }

    pub fn is_empty(&self) -> (b: bool)
        ensures
            b == (self.items().len() == 0),
    {
        self.errors.len() == 0
    }

    pub fn len(&self) -> (n: usize)
        ensures
            n == self.items().len(),
    {
        self.errors.len()
    }

    /// The errors as a result: `Ok` when there is none, the error itself
    /// when there is one, the whole group otherwise.
    pub fn into_result(self) -> (r: TypeResult<()>)
        ensures
            is_outcome(self.items(), r),
    {
        let mut errors = self.errors;
        if errors.len() == 0 {
            Ok(())
        } else if errors.len() == 1 {
            let first = errors.pop().unwrap();
            Err(first)
        } else {
            Err(TypeError::Multiple(errors))
        }
    }

    /// The same result as `into_result`, leaving the collection empty.
    pub fn take_result(&mut self) -> (r: TypeResult<()>)
        ensures
            is_outcome(old(self).items(), r),
            final(self).items() == Seq::<TypeError>::empty(),
    {
        if self.errors.len() == 0 {
            Ok(())
        } else if self.errors.len() == 1 {
            let first = self.errors.pop().unwrap();
            Err(first)
        } else {
            let mut errors = Vec::new();
            std::mem::swap(&mut errors, &mut self.errors);
            Err(TypeError::Multiple(errors))
        }
    }

    /// The errors, oldest first.
    pub fn iter(&self) -> (r: &[TypeError])
        ensures
            r@ == self.items(),
    {
        self.errors.as_slice()
    }
}

} // verus!
