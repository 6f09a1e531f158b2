//! Type classes (traits): their definitions, their implementations and the
//! registry that checks each implementation against its class.

pub mod builtin;

use vstd::prelude::*;
use crate::ast::{clone_span, Ident, Path, PathSegment, Span, TraitBound, Type};
use crate::util::text::{decimal, join_with, lemma_join_push, push_decimal, push_quoted, quoted, str_eq};

verus! {

/// The path type made of the single segment `name`.
pub fn path_type(name: &str) -> (t: Type)
    ensures
        t matches Type::Path(p) && p.segments@.len() == 1 && p.segments@[0].ident.name@ == name@
            && p.segments@[0].generics@.len() == 0,
{
    Type::Path(crate::ast::simple_path(name))
}

/// The names of a path's segments, joined by `::`.
pub open spec fn path_text(p: Path) -> Seq<char> {
    join_with(p.segments@.map_values(|s: PathSegment| s.ident.name@), "::"@)
}

/// The texts of a list of trait bounds.
pub open spec fn bounds_text(bs: Seq<TraitBound>) -> Seq<Seq<char>> {
    bs.map_values(|b: TraitBound| path_text(b.path))
}

/// The texts of a list of types.
pub open spec fn types_text(ts: Seq<Type>) -> Seq<Seq<char>>
    decreases ts,
{
    if ts.len() == 0 {
        Seq::empty()
    } else {
        types_text(ts.drop_last()).push(type_text(ts.last()))
    }
}

/// How a type is written in registry keys, such as `&mut [i32; 4]`,
/// `fn(i32, bool) -> ()` or `Vec<u8>`.
pub open spec fn type_text(t: Type) -> Seq<char>
    decreases t,
{
    match t {
        Type::Path(p) => path_text(p),
        Type::Ref(inner, m) => (if m { "&mut "@ } else { "&"@ }) + type_text(*inner),
        Type::Ptr(inner, m) => (if m { "*mut "@ } else { "*const "@ }) + type_text(*inner),
        Type::Array(inner, size) => match size {
            Some(n) => "["@ + type_text(*inner) + "; "@ + decimal(n as nat) + "]"@,
            None => "["@ + type_text(*inner) + "]"@,
        },
        Type::Slice(inner) => "["@ + type_text(*inner) + "]"@,
        Type::Tuple(elems) => "("@ + join_with(types_text(elems@), ", "@) + ")"@,
        Type::Function(f) => "fn("@ + join_with(types_text(f.params@), ", "@) + ") -> "@ + type_text(
            *f.return_type,
        ),
        Type::Unit => "()"@,
        Type::Never => "!"@,
        Type::Generic(base, args) => type_text(*base) + "<"@ + join_with(types_text(args@), ", "@) + ">"@,
        Type::ImplTrait(bs) => "impl "@ + join_with(bounds_text(bs@), " + "@),
        Type::DynTrait(bs) => "dyn "@ + join_with(bounds_text(bs@), " + "@),
    }
}

pub fn write_path(out: &mut String, p: &Path)
    ensures
        final(out)@ == old(out)@ + path_text(*p),
{
    let ghost names = p.segments@.map_values(|s: PathSegment| s.ident.name@);
    let ghost start = out@;
    let mut i: usize = 0;
    while i < p.segments.len()
        invariant
            i <= p.segments@.len(),
            names == p.segments@.map_values(|s: PathSegment| s.ident.name@),
            out@ == start + join_with(names.take(i as int), "::"@),
        decreases p.segments@.len() - i,
    {
        proof {
            assert(names.take(i as int + 1) =~= names.take(i as int).push(names[i as int]));
            lemma_join_push(names.take(i as int), "::"@, names[i as int]);
        }
        if i > 0 {
            out.append("::");
        }
        out.append(p.segments[i].ident.as_str());
        proof {
            assert(out@ =~= start + join_with(names.take(i as int + 1), "::"@));
        }
        i = i + 1;
    }
    proof {
        assert(names.take(i as int) =~= names);
    }
}

fn write_bounds(out: &mut String, bs: &Vec<TraitBound>)
    ensures
        final(out)@ == old(out)@ + join_with(bounds_text(bs@), " + "@),
{
    let ghost texts = bounds_text(bs@);
    let ghost start = out@;
    let mut i: usize = 0;
    while i < bs.len()
        invariant
            i <= bs@.len(),
            texts == bounds_text(bs@),
            out@ == start + join_with(texts.take(i as int), " + "@),
        decreases bs@.len() - i,
    {
        proof {
            assert(texts.take(i as int + 1) =~= texts.take(i as int).push(texts[i as int]));
            lemma_join_push(texts.take(i as int), " + "@, texts[i as int]);
        }
        if i > 0 {
            out.append(" + ");
        }
        write_path(out, &bs[i].path);
        proof {
            assert(out@ =~= start + join_with(texts.take(i as int + 1), " + "@));
        }
        i = i + 1;
    }
    proof {
        assert(texts.take(i as int) =~= texts);
    }
}

fn write_types(out: &mut String, ts: &Vec<Type>)
    ensures
        final(out)@ == old(out)@ + join_with(types_text(ts@), ", "@),
    decreases ts,
{
    let ghost start = out@;
    let mut i: usize = 0;
    while i < ts.len()
        invariant
            i <= ts@.len(),
            out@ == start + join_with(types_text(ts@.take(i as int)), ", "@),
        decreases ts@.len() - i,
    {
        proof {
            let pre = ts@.take(i as int + 1);
            assert(pre.drop_last() =~= ts@.take(i as int));
            assert(types_text(pre) == types_text(ts@.take(i as int)).push(type_text(ts@[i as int])));
            assert(types_text(ts@.take(i as int)).len() == i) by {
                lemma_types_text_len(ts@.take(i as int));
            }
            lemma_join_push(types_text(ts@.take(i as int)), ", "@, type_text(ts@[i as int]));
        }
        if i > 0 {
            out.append(", ");
        }
        assert(decreases_to!(ts => ts@[i as int]));
        write_type(out, &ts[i]);
        i = i + 1;
    }
    proof {
        assert(ts@.take(i as int) =~= ts@);
    }
}

proof fn lemma_types_text_len(ts: Seq<Type>)
    ensures
        types_text(ts).len() == ts.len(),
    decreases ts.len(),
{
    if ts.len() > 0 {
        lemma_types_text_len(ts.drop_last());
    }
}

/// Appends the key text of `t`.
pub fn write_type(out: &mut String, t: &Type)
    ensures
        final(out)@ == old(out)@ + type_text(*t),
    decreases t,
{
    let ghost start = out@;
    match t {
        Type::Path(p) => write_path(out, p),
        Type::Ref(inner, m) => {
            if *m {
                out.append("&mut ");
            } else {
                out.append("&");
            }
            write_type(out, inner);
        },
        Type::Ptr(inner, m) => {
            if *m {
                out.append("*mut ");
            } else {
                out.append("*const ");
            }
            write_type(out, inner);
        },
        Type::Array(inner, size) => {
            out.append("[");
            write_type(out, inner);
            match size {
                Some(n) => {
                    out.append("; ");
                    push_decimal(out, *n as u64);
                },
                None => {},
            }
            out.append("]");
        },
        Type::Slice(inner) => {
            out.append("[");
            write_type(out, inner);
            out.append("]");
        },
        Type::Tuple(elems) => {
            out.append("(");
            write_types(out, elems);
            out.append(")");
        },
        Type::Function(f) => {
            out.append("fn(");
            write_types(out, &f.params);
            out.append(") -> ");
            write_type(out, &f.return_type);
        },
        Type::Unit => out.append("()"),
        Type::Never => out.append("!"),
        Type::Generic(base, args) => {
            write_type(out, base);
            out.append("<");
            write_types(out, args);
            out.append(">");
        },
        Type::ImplTrait(bs) => {
            out.append("impl ");
            write_bounds(out, bs);
        },
        Type::DynTrait(bs) => {
            out.append("dyn ");
            write_bounds(out, bs);
        },
    }
    proof {
        assert(out@ =~= start + type_text(*t));
    }
}

/// A type class definition.
#[derive(Debug)]
pub struct TypeClass {
    pub name: Ident,
    pub params: Vec<TypeParam>,
    pub associated_types: Vec<AssociatedType>,
    pub methods: Vec<TypeClassMethod>,
    pub super_classes: Vec<Ident>,
    pub span: Span,
}

/// A type parameter of a type class, method or implementation.
#[derive(Debug, Clone)]
pub struct TypeParam {
    pub name: Ident,
    pub bounds: Vec<Ident>,
    pub default: Option<Type>,
    pub is_const: bool,
}

/// An associated type declared by a type class.
#[derive(Debug, Clone)]
pub struct AssociatedType {
    pub name: Ident,
    pub bounds: Vec<Ident>,
    pub default: Option<Type>,
}

/// A method declared by a type class; one without a default
/// implementation must be implemented by every implementation.
#[derive(Debug)]
pub struct TypeClassMethod {
    pub name: Ident,
    pub signature: MethodSignature,
    pub default_impl: Option<()>,
    pub docs: String,
}

/// A method signature.
#[derive(Debug, Clone)]
pub struct MethodSignature {
    pub generics: Vec<TypeParam>,
    pub params: Vec<Param>,
    pub return_type: Option<Type>,
    pub is_const: bool,
    pub is_unsafe: bool,
}

/// A parameter of a method signature.
#[derive(Debug, Clone)]
pub struct Param {
    pub name: Ident,
    pub ty: Type,
    pub is_self: bool,
    pub is_ref: bool,
    pub is_mut: bool,
}

/// An implementation of a type class for a type.
#[derive(Debug)]
pub struct Impl {
    pub type_class: Ident,
    pub generics: Vec<TypeParam>,
    pub for_type: Type,
    /// Associated type assignments, by name.
    pub associated_types: Vec<(Ident, Type)>,
    pub methods: Vec<MethodImpl>,
    pub span: Span,
}

/// A method implementation.
#[derive(Debug)]
pub struct MethodImpl {
    pub name: Ident,
    pub generics: Vec<TypeParam>,
    pub params: Vec<Param>,
    pub return_type: Option<Type>,
    pub body: (),
    pub docs: String,
}

impl Clone for TypeClass {
    fn clone(&self) -> Self {
        TypeClass {
            name: self.name.clone(),
            params: self.params.clone(),
            associated_types: self.associated_types.clone(),
            methods: self.methods.clone(),
            super_classes: self.super_classes.clone(),
            span: clone_span(&self.span),
        }
    }
}

impl Clone for Impl {
    fn clone(&self) -> Self {
        Impl {
            type_class: self.type_class.clone(),
            generics: self.generics.clone(),
            for_type: self.for_type.clone(),
            associated_types: self.associated_types.clone(),
            methods: self.methods.clone(),
            span: clone_span(&self.span),
        }
    }
}

impl Clone for TypeClassMethod {
    fn clone(&self) -> Self {
        TypeClassMethod {
            name: self.name.clone(),
            signature: self.signature.clone(),
            default_impl: match self.default_impl {
                Some(()) => Some(()),
                None => None,
            },
            docs: self.docs.clone(),
        }
    }
}

impl Clone for MethodImpl {
    fn clone(&self) -> Self {
        MethodImpl {
            name: self.name.clone(),
            generics: self.generics.clone(),
            params: self.params.clone(),
            return_type: self.return_type.clone(),
            body: (),
            docs: self.docs.clone(),
        }
    }
}

/// Why a type class or an implementation was refused.
#[derive(Debug, Clone)]
pub enum TypeClassError {
    DuplicateTypeClass { name: String },
    DuplicateImpl { type_class: String, for_type: String },
    UnknownTypeClass { name: String },
    MissingMethod { type_class: String, method: String },
    OrphanRuleViolation { type_class: String, for_type: String },
    MethodSignatureMismatch { method: String, expected: String, found: String },
    UnknownAssociatedType { name: String },
    SuperClassNotSatisfied { type_class: String, super_class: String },
}

/// The message of a type class error.
pub open spec fn class_error_text(e: TypeClassError) -> Seq<char> {
    match e {
        TypeClassError::DuplicateTypeClass { name } => "type class "@ + quoted(name@) + " is already defined"@,
        TypeClassError::DuplicateImpl { type_class, for_type } => "implementation of "@ + quoted(type_class@)
            + " for "@ + quoted(for_type@) + " already exists"@,
        TypeClassError::UnknownTypeClass { name } => "unknown type class "@ + quoted(name@),
        TypeClassError::MissingMethod { type_class, method } => "missing method "@ + quoted(method@)
            + " in implementation of "@ + quoted(type_class@),
        TypeClassError::OrphanRuleViolation { type_class, for_type } => "orphan rule violation: cannot implement "@
            + quoted(type_class@) + " for "@ + quoted(for_type@),
        TypeClassError::MethodSignatureMismatch { method, expected, found } => "method "@ + quoted(method@)
            + " has signature "@ + quoted(found@) + " but expected "@ + quoted(expected@),
        TypeClassError::UnknownAssociatedType { name } => "unknown associated type "@ + quoted(name@),
        TypeClassError::SuperClassNotSatisfied { type_class, super_class } => "super class "@ + quoted(
            super_class@,
        ) + " not satisfied for "@ + quoted(type_class@),
    }
}

impl TypeClassError {
    /// The message that describes the error.
    pub fn message(&self) -> (s: String)
        ensures
            s@ == class_error_text(*self),
    {
        let mut s = String::new();
        match self {
            TypeClassError::DuplicateTypeClass { name } => {
                s.append("type class ");
                push_quoted(&mut s, name.as_str());
                s.append(" is already defined");
            },
            TypeClassError::DuplicateImpl { type_class, for_type } => {
                s.append("implementation of ");
                push_quoted(&mut s, type_class.as_str());
                s.append(" for ");
                push_quoted(&mut s, for_type.as_str());
                s.append(" already exists");
            },
            TypeClassError::UnknownTypeClass { name } => {
                s.append("unknown type class ");
                push_quoted(&mut s, name.as_str());
            },
            TypeClassError::MissingMethod { type_class, method } => {
                s.append("missing method ");
                push_quoted(&mut s, method.as_str());
                s.append(" in implementation of ");
                push_quoted(&mut s, type_class.as_str());
            },
            TypeClassError::OrphanRuleViolation { type_class, for_type } => {
                s.append("orphan rule violation: cannot implement ");
                push_quoted(&mut s, type_class.as_str());
                s.append(" for ");
                push_quoted(&mut s, for_type.as_str());
            },
            TypeClassError::MethodSignatureMismatch { method, expected, found } => {
                s.append("method ");
                push_quoted(&mut s, method.as_str());
                s.append(" has signature ");
                push_quoted(&mut s, found.as_str());
                s.append(" but expected ");
                push_quoted(&mut s, expected.as_str());
            },
            TypeClassError::UnknownAssociatedType { name } => {
                s.append("unknown associated type ");
                push_quoted(&mut s, name.as_str());
            },
            TypeClassError::SuperClassNotSatisfied { type_class, super_class } => {
                s.append("super class ");
                push_quoted(&mut s, super_class.as_str());
                s.append(" not satisfied for ");
                push_quoted(&mut s, type_class.as_str());
            },
        }
        proof {
            assert(s@ =~= class_error_text(*self));
        }
        s
    }
}

/// The names of the methods an implementation provides.
pub open spec fn impl_method_names(ms: Seq<MethodImpl>) -> Seq<Seq<char>> {
    ms.map_values(|m: MethodImpl| m.name.name@)
}

/// The first method of `ms` from position `i` on that has no default and
/// is not among `have`.
pub open spec fn first_missing_from(ms: Seq<TypeClassMethod>, have: Seq<Seq<char>>, i: int) -> Option<
    Seq<char>,
>
    decreases ms.len() - i,
{
    if i < 0 || i >= ms.len() {
        None
    } else if ms[i].default_impl is None && !have.contains(ms[i].name.name@) {
        Some(ms[i].name.name@)
    } else {
        first_missing_from(ms, have, i + 1)
    }
}

/// The first required method of a class that an implementation lacks.
pub open spec fn first_missing(ms: Seq<TypeClassMethod>, have: Seq<Seq<char>>) -> Option<Seq<char>> {
    first_missing_from(ms, have, 0)
}

/// The registry of type classes and of their implementations.
#[derive(Debug)]
pub struct TypeClassRegistry {
    type_classes: Vec<TypeClass>,
    implementations: Vec<Impl>,
    impl_types: Vec<String>,
    orphan_check: bool,
}

impl TypeClassRegistry {
    /// The registered classes, in registration order.
    pub closed spec fn classes(&self) -> Seq<TypeClass> {
        self.type_classes@
    }

    /// The registered implementations, in registration order.
    pub closed spec fn impls(&self) -> Seq<Impl> {
        self.implementations@
    }

    pub closed spec fn orphan_check_enabled(&self) -> bool {
        self.orphan_check
    }

    pub open spec fn class_names(&self) -> Seq<Seq<char>> {
        self.classes().map_values(|c: TypeClass| c.name.name@)
    }

    /// The key of each implementation: its class and its type's text.
    pub open spec fn impl_keys(&self) -> Seq<(Seq<char>, Seq<char>)> {
        self.impls().map_values(|i: Impl| (i.type_class.name@, type_text(i.for_type)))
    }

    pub closed spec fn wf(&self) -> bool {
        &&& self.impl_types@.len() == self.implementations@.len()
        &&& forall|i: int| 0 <= i < self.impl_types@.len()
            ==> (#[trigger] self.impl_types@[i])@ == type_text(self.implementations@[i].for_type)
        &&& forall|i: int, j: int| 0 <= i < j < self.type_classes@.len()
            ==> (#[trigger] self.type_classes@[i]).name.name@ != (#[trigger] self.type_classes@[j]).name.name@
    }

    /// An empty registry with orphan checking on.
    pub fn new() -> (r: Self)
        ensures
            r.wf(),
            r.classes() == Seq::<TypeClass>::empty(),
            r.impls() == Seq::<Impl>::empty(),
            r.orphan_check_enabled(),
    {
        TypeClassRegistry {
            type_classes: Vec::new(),
            implementations: Vec::new(),
            impl_types: Vec::new(),
            orphan_check: true,
        }
    }

    fn class_index(&self, name: &Ident) -> (r: Option<usize>)
        ensures
            match r {
                Some(i) => i < self.classes().len() && self.classes()[i as int].name.name@ == name.name@,
                None => !self.class_names().contains(name.name@),
            },
    {
        let mut i: usize = 0;
        while i < self.type_classes.len()
            invariant
                i <= self.type_classes@.len(),
                forall|k: int| 0 <= k < i ==> (#[trigger] self.type_classes@[k]).name.name@ != name.name@,
            decreases self.type_classes@.len() - i,
        {
            if self.type_classes[i].name.same_as(name) {
                return Some(i);
            }
            i = i + 1;
        }
        proof {
            if self.class_names().contains(name.name@) {
                let k = choose|k: int| 0 <= k < self.class_names().len() && self.class_names()[k] == name.name@;
                assert(self.type_classes@[k].name.name@ == name.name@);
            }
        }
        None
    }

    /// Registers a class; refused when a class of that name exists.
    pub fn register_type_class(&mut self, type_class: TypeClass) -> (r: Result<(), TypeClassError>)
        requires
            old(self).wf(),
        ensures
            final(self).wf(),
            final(self).impls() == old(self).impls(),
            final(self).orphan_check_enabled() == old(self).orphan_check_enabled(),
            old(self).class_names().contains(type_class.name.name@) ==> final(self).classes() == old(self).classes()
                && (r matches Err(TypeClassError::DuplicateTypeClass { name }) && name@ == type_class.name.name@),
            !old(self).class_names().contains(type_class.name.name@) ==> r is Ok
                && final(self).classes() == old(self).classes().push(type_class),
    {
        match self.class_index(&type_class.name) {
            Some(i) => {
                proof {
                    assert(self.class_names()[i as int] == type_class.name.name@);
                }
                let name = type_class.name.as_str().to_owned();
                Err(TypeClassError::DuplicateTypeClass { name })
            },
            None => {
                let ghost n = type_class.name.name@;
                self.type_classes.push(type_class);
                proof {
                    let cs = self.type_classes@;
                    assert forall|i: int, j: int| 0 <= i < j < cs.len()
                        implies (#[trigger] cs[i]).name.name@ != (#[trigger] cs[j]).name.name@ by {
                        if j == cs.len() - 1 {
                            assert(old(self).class_names()[i] == cs[i].name.name@);
                        } else {
                            assert(old(self).type_classes@[i].name.name@ != old(self).type_classes@[j].name.name@);
                        }
                    }
                }
                Ok(())
            },
        }
    }

    /// The class named `name`, if one is registered.
    pub fn lookup_type_class(&self, name: &Ident) -> (r: Option<&TypeClass>)
        ensures
            r is Some <==> self.class_names().contains(name.name@),
            r matches Some(c) ==> c.name.name@ == name.name@ && self.classes().contains(*c),
    {
        match self.class_index(name) {
            Some(i) => {
                proof {
                    assert(self.class_names()[i as int] == name.name@);
                }
                Some(&self.type_classes[i])
            },
            None => None,
        }
    }

    fn impl_index(&self, type_class: &Ident, for_type: &str) -> (r: Option<usize>)
        requires
            self.wf(),
        ensures
            match r {
                Some(i) => i < self.impls().len() && self.impl_keys()[i as int] == (type_class.name@, for_type@),
                None => !self.impl_keys().contains((type_class.name@, for_type@)),
            },
    {
        let mut i: usize = 0;
        while i < self.implementations.len()
            invariant
                self.wf(),
                i <= self.implementations@.len(),
                forall|k: int| 0 <= k < i ==> #[trigger] self.impl_keys()[k] != (type_class.name@, for_type@),
            decreases self.implementations@.len() - i,
        {
            if self.implementations[i].type_class.same_as(type_class) && str_eq(
                self.impl_types[i].as_str(),
                for_type,
            ) {
                return Some(i);
            }
            i = i + 1;
        }
        proof {
            if self.impl_keys().contains((type_class.name@, for_type@)) {
                let k = choose|k: int| 0 <= k < self.impl_keys().len() && self.impl_keys()[k] == (type_class.name@, for_type@);
                assert(self.impl_keys()[k] != (type_class.name@, for_type@));
            }
        }
        None
    }

    /// The implementation of `type_class` for the type written `for_type`.
    pub fn lookup_impl(&self, type_class: &Ident, for_type: &str) -> (r: Option<&Impl>)
        requires
            self.wf(),
        ensures
            r is Some <==> self.impl_keys().contains((type_class.name@, for_type@)),
            r matches Some(i) ==> i.type_class.name@ == type_class.name@ && type_text(i.for_type) == for_type@
                && self.impls().contains(*i),
    {
        match self.impl_index(type_class, for_type) {
            Some(i) => {
                proof {
                    assert(self.impl_keys()[i as int] == (type_class.name@, for_type@));
                }
                Some(&self.implementations[i])
            },
            None => None,
        }
    }

    /// Whether the type written `for_type` implements `type_class`.
    pub fn implements(&self, type_class: &Ident, for_type: &str) -> (b: bool)
        requires
            self.wf(),
        ensures
            b == self.impl_keys().contains((type_class.name@, for_type@)),
    {
        self.lookup_impl(type_class, for_type).is_some()
    }

    /// Every implementation of `type_class`, in registration order.
    pub fn implementations_for(&self, type_class: &Ident) -> (r: Vec<&Impl>)
        ensures
            r@.map_values(|i: &Impl| *i) == self.impls().filter(|i: Impl| i.type_class.name@ == type_class.name@),
    {
        let mut r: Vec<&Impl> = Vec::new();
        let mut i: usize = 0;
        while i < self.implementations.len()
            invariant
                i <= self.implementations@.len(),
                r@.map_values(|x: &Impl| *x) == self.implementations@.take(i as int).filter(
                    |x: Impl| x.type_class.name@ == type_class.name@,
                ),
            decreases self.implementations@.len() - i,
        {
            proof {
                reveal_with_fuel(Seq::<_>::filter, 1);
                assert(self.implementations@.take(i as int + 1).drop_last() =~= self.implementations@.take(i as int));
            }
            let ghost before = r@;
            if self.implementations[i].type_class.same_as(type_class) {
                r.push(&self.implementations[i]);
                proof {
                    assert(r@.map_values(|x: &Impl| *x) =~= before.map_values(|x: &Impl| *x).push(
                        self.implementations@[i as int],
                    ));
                }
            }
            i = i + 1;
        }
        proof {
            assert(self.implementations@.take(i as int) =~= self.implementations@);
        }
        r
    }

    fn first_missing_method(class: &TypeClass, imp: &Impl) -> (r: Option<usize>)
        ensures
            match r {
                Some(k) => k < class.methods@.len() && first_missing(
                    class.methods@,
                    impl_method_names(imp.methods@),
                ) == Some(class.methods@[k as int].name.name@),
                None => first_missing(class.methods@, impl_method_names(imp.methods@)) is None,
            },
    {
        let ghost ms = class.methods@;
        let ghost have = impl_method_names(imp.methods@);
        let mut k: usize = class.methods.len();
        let mut found: Option<usize> = None;
        while k > 0
            invariant
                k <= ms.len(),
                ms == class.methods@,
                have == impl_method_names(imp.methods@),
                match found {
                    Some(f) => k <= f < ms.len() && first_missing_from(ms, have, k as int) == Some(ms[f as int].name.name@),
                    None => first_missing_from(ms, have, k as int) is None,
                },
            decreases k,
        {
            k = k - 1;
            let m = &class.methods[k];
            if m.default_impl.is_none() && !Self::provides(imp, &m.name) {
                found = Some(k);
            }
        }
        found
    }

    fn provides(imp: &Impl, name: &Ident) -> (b: bool)
        ensures
            b == impl_method_names(imp.methods@).contains(name.name@),
    {
        let ghost names = impl_method_names(imp.methods@);
        let mut i: usize = 0;
        while i < imp.methods.len()
            invariant
                i <= imp.methods@.len(),
                names == impl_method_names(imp.methods@),
                forall|k: int| 0 <= k < i ==> names[k] != name.name@,
            decreases imp.methods@.len() - i,
        {
            if imp.methods[i].name.same_as(name) {
                proof {
                    assert(names[i as int] == name.name@);
                }
                return true;
            }
            i = i + 1;
        }
        false
    }

    /// Registers an implementation.  It is refused when the class already
    /// has an implementation for the same type, when the class is unknown,
    /// or when a method without a default is not implemented (the first
    /// such method in the class's order is reported).
    pub fn register_impl(&mut self, impl_def: Impl) -> (r: Result<(), TypeClassError>)
        requires
            old(self).wf(),
        ensures
            final(self).wf(),
            final(self).classes() == old(self).classes(),
            final(self).orphan_check_enabled() == old(self).orphan_check_enabled(),
            ({
                let key = (impl_def.type_class.name@, type_text(impl_def.for_type));
                let tc = impl_def.type_class.name@;
                if old(self).impl_keys().contains(key) {
                    &&& r matches Err(TypeClassError::DuplicateImpl { type_class, for_type })
                    &&& type_class@ == tc && for_type@ == key.1
                    &&& final(self).impls() == old(self).impls()
                } else if !old(self).class_names().contains(tc) {
                    &&& r matches Err(TypeClassError::UnknownTypeClass { name }) && name@ == tc
                    &&& final(self).impls() == old(self).impls()
                } else {
                    let c = old(self).classes()[old(self).class_names().index_of(tc)];
                    match first_missing(c.methods@, impl_method_names(impl_def.methods@)) {
                        Some(m) => {
                            &&& r matches Err(TypeClassError::MissingMethod { type_class, method })
                            &&& type_class@ == tc && method@ == m
                            &&& final(self).impls() == old(self).impls()
                        },
                        None => r is Ok && final(self).impls() == old(self).impls().push(impl_def),
                    }
                }
            }),
    {
        let mut key_type = String::new();
        write_type(&mut key_type, &impl_def.for_type);
        if let Some(_) = self.impl_index(&impl_def.type_class, key_type.as_str()) {
            return Err(TypeClassError::DuplicateImpl {
                type_class: impl_def.type_class.as_str().to_owned(),
                for_type: key_type,
            });
        }
        if self.orphan_check {
            Self::check_orphan_rules(&impl_def);
        }
        let ci = match self.class_index(&impl_def.type_class) {
            Some(ci) => ci,
            None => {
                return Err(TypeClassError::UnknownTypeClass { name: impl_def.type_class.as_str().to_owned() });
            },
        };
        proof {
            let names = self.class_names();
            assert(names[ci as int] == impl_def.type_class.name@);
            assert forall|j: int| 0 <= j < names.len() && names[j] == impl_def.type_class.name@ implies j == ci by {
                if j < ci {
                    assert(self.type_classes@[j].name.name@ != self.type_classes@[ci as int].name.name@);
                } else if j > ci {
                    assert(self.type_classes@[ci as int].name.name@ != self.type_classes@[j].name.name@);
                }
            }
            assert(names.index_of(impl_def.type_class.name@) == ci);
        }
        match Self::first_missing_method(&self.type_classes[ci], &impl_def) {
            Some(k) => {
                let class = &self.type_classes[ci];
                return Err(TypeClassError::MissingMethod {
                    type_class: class.name.as_str().to_owned(),
                    method: class.methods[k].name.as_str().to_owned(),
                });
            },
            None => {},
        }
        self.implementations.push(impl_def);
        self.impl_types.push(key_type);
        Ok(())
    }

    /// The orphan rule for implementations: every implementation is
    /// accepted here; the rule that one of the class and the type must be
    /// local is checked by the borrow checker's `check_orphan_rules`.
    fn check_orphan_rules(_impl_def: &Impl) -> (r: Result<(), TypeClassError>)
        ensures
            r is Ok,
    {
        Ok(())
    }

    /// Turns orphan checking on or off.
    pub fn set_orphan_check(&mut self, enabled: bool)
        requires
            old(self).wf(),
        ensures
            final(self).wf(),
            final(self).orphan_check_enabled() == enabled,
            final(self).classes() == old(self).classes(),
            final(self).impls() == old(self).impls(),
    {
        self.orphan_check = enabled;
    }

    /// How a type is written in implementation keys.
    pub fn type_to_string(ty: &Type) -> (s: String)
        ensures
            s@ == type_text(*ty),
    {
        let mut s = String::new();
        write_type(&mut s, ty);
        s
    }
}

/// An implementation that was registered is found again: after a
/// registration that succeeded, the registry holds an implementation of
/// the class for the type's text, and every implementation it held before.
pub proof fn law_registered_impl_found(before: Seq<Impl>, impl_def: Impl)
    ensures
        before.push(impl_def).map_values(|i: Impl| (i.type_class.name@, type_text(i.for_type))).contains(
            (impl_def.type_class.name@, type_text(impl_def.for_type)),
        ),
        forall|k: int| 0 <= k < before.len() ==> #[trigger] before.push(impl_def)[k] == before[k],
{
    let keys = before.push(impl_def).map_values(|i: Impl| (i.type_class.name@, type_text(i.for_type)));
    assert(keys[before.len() as int] == (impl_def.type_class.name@, type_text(impl_def.for_type)));
}

/// A class that was registered is found by its name.
pub proof fn law_registered_class_found(before: Seq<TypeClass>, class: TypeClass)
    ensures
        before.push(class).map_values(|c: TypeClass| c.name.name@).contains(class.name.name@),
{
    let names = before.push(class).map_values(|c: TypeClass| c.name.name@);
    assert(names[before.len() as int] == class.name.name@);
}

impl Default for TypeClassRegistry {
    /// An empty registry.  Unlike `new`, orphan checking starts off.
    fn default() -> (r: Self)
        ensures
            r.wf(),
            r.classes() == Seq::<TypeClass>::empty(),
            r.impls() == Seq::<Impl>::empty(),
            !r.orphan_check_enabled(),
    {
        TypeClassRegistry {
            type_classes: Vec::new(),
            implementations: Vec::new(),
            impl_types: Vec::new(),
            orphan_check: false,
        }
    }
}

} // verus!
