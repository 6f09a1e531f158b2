//! Inference of type variables: fresh variables, the occurs check,
//! unification against a substitution, and trait bounds on variables.

use vstd::prelude::*;
use std::collections::HashMap;
use crate::ast::Ident;
use crate::typeck::error::TypeError;
use crate::typeck::typeclass::{TypeClassError, TypeClassRegistry};
use crate::typeck::ty::{FieldDef, Ty, TypeVarId, VariantDef, copy_ty, same, same_ty, ty_text};

verus! {

broadcast use vstd::std_specs::hash::group_hash_axioms;

/// Variable `v` occurs in `t`: as `t` itself, or inside a reference,
/// pointer, array, slice, tuple, function type, future or the fields of a
/// struct or enum.
pub open spec fn occurs(v: TypeVarId, t: Ty) -> bool
    decreases t,
{
    match t {
        Ty::Var(id) => id == v,
        Ty::Ref(inner, _) => occurs(v, *inner),
        Ty::Ptr(inner, _) => occurs(v, *inner),
        Ty::Array(inner, _) => occurs(v, *inner),
        Ty::Slice(inner) => occurs(v, *inner),
        Ty::Tuple(es) => occurs_in(v, es@),
        Ty::Fn { params, ret } => occurs_in(v, params@) || occurs(v, *ret),
        Ty::Future(inner) => occurs(v, *inner),
        Ty::Adt(a) => occurs_in_variants(v, a.variants@),
        _ => false,
    }
}

/// `v` occurs in one of the types.
pub open spec fn occurs_in(v: TypeVarId, ts: Seq<Ty>) -> bool
    decreases ts,
{
    if ts.len() == 0 {
        false
    } else {
        occurs_in(v, ts.drop_last()) || occurs(v, ts.last())
    }
}

/// `v` occurs in the type of one of the fields.
pub open spec fn occurs_in_fields(v: TypeVarId, fs: Seq<FieldDef>) -> bool
    decreases fs,
{
    if fs.len() == 0 {
        false
    } else {
        occurs_in_fields(v, fs.drop_last()) || occurs(v, fs.last().ty)
    }
}

/// `v` occurs in a field of one of the variants.
pub open spec fn occurs_in_variants(v: TypeVarId, vs: Seq<VariantDef>) -> bool
    decreases vs,
{
    if vs.len() == 0 {
        false
    } else {
        occurs_in_variants(v, vs.drop_last()) || occurs_in_fields(v, vs.last().fields@)
    }
}

/// Why two types do not unify.
pub enum UnifyFailure {
    /// A variable would be bound to a type that contains it.
    Recursive,
    /// The types differ; the texts of the two types.
    Mismatch(Seq<char>, Seq<char>),
    /// Any other error.
    Other,
}

/// How a unification step treats `t1` and `t2`: 0 for the same variable,
/// 1 for a variable on the left, 2 for one on the right, 3 for references
/// of equal mutability, 4 for arrays of equal length, 5 for tuples of equal
/// length, 6 for other equal types, 7 for a mismatch.
pub open spec fn unify_case(t1: Ty, t2: Ty) -> int {
    if t1 is Var && t2 is Var && t1->Var_0 == t2->Var_0 {
        0
    } else if t1 is Var {
        1
    } else if t2 is Var {
        2
    } else if t1 is Ref && t2 is Ref && t1->Ref_1 == t2->Ref_1 {
        3
    } else if t1 is Array && t2 is Array && t1->Array_1 == t2->Array_1 {
        4
    } else if t1 is Tuple && t2 is Tuple && t1->Tuple_0@.len() == t2->Tuple_0@.len() {
        5
    } else if same_ty(t1, t2) {
        6
    } else {
        7
    }
}

/// Whether unifying `t1` with `t2` fails, and why: binding a variable to a
/// type that contains it, a failure inside a reference, array or tuple
/// (the first, left to right), or two different types.
pub open spec fn unify_fail(t1: Ty, t2: Ty) -> Option<UnifyFailure>
    decreases t1, 1int,
{
    let c = unify_case(t1, t2);
    if c == 1 {
        if occurs(t1->Var_0, t2) { Some(UnifyFailure::Recursive) } else { None }
    } else if c == 2 {
        if occurs(t2->Var_0, t1) { Some(UnifyFailure::Recursive) } else { None }
    } else if c == 3 {
        unify_fail(*t1->Ref_0, *t2->Ref_0)
    } else if c == 4 {
        unify_fail(*t1->Array_0, *t2->Array_0)
    } else if c == 5 {
        tuple_fail(t1->Tuple_0@, t2->Tuple_0@)
    } else if c == 7 {
        Some(UnifyFailure::Mismatch(ty_text(t1), ty_text(t2)))
    } else {
        None
    }
}

/// The first failure among the pairs, left to right.
pub open spec fn tuple_fail(xs: Seq<Ty>, ys: Seq<Ty>) -> Option<UnifyFailure>
    decreases xs, 0int,
{
    if xs.len() == 0 || ys.len() == 0 {
        None
    } else {
        match tuple_fail(xs.drop_last(), ys.drop_last()) {
            Some(f) => Some(f),
            None => unify_fail(xs.last(), ys.last()),
        }
    }
}

/// The bindings that unifying `t1` with `t2` files, in order: a variable
/// bound to the other side, the bindings of the components, none otherwise.
pub open spec fn unify_binds(t1: Ty, t2: Ty) -> Seq<(u32, Ty)>
    decreases t1, 1int,
{
    let c = unify_case(t1, t2);
    if c == 1 {
        if occurs(t1->Var_0, t2) { Seq::empty() } else { seq![(t1->Var_0.0, t2)] }
    } else if c == 2 {
        if occurs(t2->Var_0, t1) { Seq::empty() } else { seq![(t2->Var_0.0, t1)] }
    } else if c == 3 {
        unify_binds(*t1->Ref_0, *t2->Ref_0)
    } else if c == 4 {
        unify_binds(*t1->Array_0, *t2->Array_0)
    } else if c == 5 {
        tuple_binds(t1->Tuple_0@, t2->Tuple_0@)
    } else {
        Seq::empty()
    }
}

/// The bindings of the pairs, left to right, up to the first failure.
pub open spec fn tuple_binds(xs: Seq<Ty>, ys: Seq<Ty>) -> Seq<(u32, Ty)>
    decreases xs, 0int,
{
    if xs.len() == 0 || ys.len() == 0 {
        Seq::empty()
    } else if tuple_fail(xs.drop_last(), ys.drop_last()) is Some {
        tuple_binds(xs.drop_last(), ys.drop_last())
    } else {
        tuple_binds(xs.drop_last(), ys.drop_last()) + unify_binds(xs.last(), ys.last())
    }
}

/// `r` is the type that unifying `t1` with `t2` gives when it succeeds: the
/// other side of a bound variable, the type itself for the same variable or
/// equal types, and a reference, array or tuple over the unified
/// components.
pub open spec fn unify_res(t1: Ty, t2: Ty, r: Ty) -> bool
    decreases t1, 1int,
{
    let c = unify_case(t1, t2);
    if c == 0 || c == 2 || c == 6 {
        same_ty(t1, r)
    } else if c == 1 {
        same_ty(t2, r)
    } else if c == 3 {
        r matches Ty::Ref(x, m) && m == t1->Ref_1 && unify_res(*t1->Ref_0, *t2->Ref_0, *x)
    } else if c == 4 {
        r matches Ty::Array(x, n) && n == t1->Array_1 && unify_res(*t1->Array_0, *t2->Array_0, *x)
    } else if c == 5 {
        r matches Ty::Tuple(es) && tuple_res(t1->Tuple_0@, t2->Tuple_0@, es@)
    } else {
        false
    }
}

/// Each unified component, in order.
pub open spec fn tuple_res(xs: Seq<Ty>, ys: Seq<Ty>, rs: Seq<Ty>) -> bool
    decreases xs, 0int,
{
    if xs.len() == 0 || ys.len() == 0 {
        rs.len() == 0
    } else {
        rs.len() == xs.len() && tuple_res(xs.drop_last(), ys.drop_last(), rs.drop_last()) && unify_res(
            xs.last(),
            ys.last(),
            rs.last(),
        )
    }
}

/// `s` with the bindings filed in order, a later one replacing an earlier
/// one for the same variable.
pub open spec fn apply_binds(s: Map<u32, Ty>, bs: Seq<(u32, Ty)>) -> Map<u32, Ty>
    decreases bs.len(),
{
    if bs.len() == 0 {
        s
    } else {
        apply_binds(s, bs.drop_last()).insert(bs.last().0, bs.last().1)
    }
}

/// Two lists of bindings of the same variables to the same types.
pub open spec fn same_binds(a: Seq<(u32, Ty)>, b: Seq<(u32, Ty)>) -> bool {
    a.len() == b.len() && forall|i: int| 0 <= i < a.len() ==> (#[trigger] a[i]).0 == b[i].0 && same_ty(a[i].1, b[i].1)
}

/// The failure an error stands for.
pub open spec fn failure_of(e: TypeError) -> UnifyFailure {
    match e {
        TypeError::RecursiveType { .. } => UnifyFailure::Recursive,
        TypeError::MismatchedTypes { expected, found, .. } => UnifyFailure::Mismatch(expected@, found@),
        _ => UnifyFailure::Other,
    }
}

/// A unification error: at no position.
pub open spec fn unify_error_shape(e: TypeError) -> bool {
    match e {
        TypeError::RecursiveType { span, line, column } => span == (crate::ast::Span { start: 0, end: 0 }) && line == 0
            && column == 0,
        TypeError::MismatchedTypes { span, line, column, .. } => span == (crate::ast::Span { start: 0, end: 0 })
            && line == 0 && column == 0,
        _ => false,
    }
}

/// Filing two lists of bindings one after the other.
proof fn lemma_apply_concat(s: Map<u32, Ty>, a: Seq<(u32, Ty)>, b: Seq<(u32, Ty)>)
    ensures
        apply_binds(s, a + b) == apply_binds(apply_binds(s, a), b),
    decreases b.len(),
{
    if b.len() > 0 {
        assert((a + b).drop_last() =~= a + b.drop_last());
        lemma_apply_concat(s, a, b.drop_last());
    } else {
        assert(a + b =~= a);
    }
}

/// Matching lists of bindings joined one after the other still match.
proof fn lemma_same_binds_concat(a: Seq<(u32, Ty)>, b: Seq<(u32, Ty)>, c: Seq<(u32, Ty)>, d: Seq<(u32, Ty)>)
    requires
        same_binds(a, b),
        same_binds(c, d),
    ensures
        same_binds(a + c, b + d),
{
    assert forall|i: int| 0 <= i < (a + c).len() implies (#[trigger] (a + c)[i]).0 == (b + d)[i].0 && same_ty(
        (a + c)[i].1,
        (b + d)[i].1,
    ) by {
        if i < a.len() {
            assert((a + c)[i] == a[i] && (b + d)[i] == b[i]);
        } else {
            assert((a + c)[i] == c[i - a.len()] && (b + d)[i] == d[i - a.len()]);
        }
    }
}

/// Every variable bound in `s` has a rank below `n`, and the bound
/// variables in the type filed for a variable rank below it: following
/// bindings always ends.
pub open spec fn ranked_by(s: Map<u32, Ty>, rank: spec_fn(u32) -> nat, n: nat) -> bool {
    &&& forall|k: u32| #[trigger] s.contains_key(k) ==> rank(k) < n
    &&& forall|k: u32, j: u32|
        #![trigger s[k], rank(j)]
        s.contains_key(k) && s.contains_key(j) && occurs(TypeVarId(j), s[k]) ==> rank(j) < rank(k)
}

/// No variable reaches itself through the bindings of `s`.
pub open spec fn acyclic(s: Map<u32, Ty>) -> bool {
    exists|rank: spec_fn(u32) -> nat, n: nat| ranked_by(s, rank, n)
}

/// Every bound variable occurring in `t` has a rank below `b`.
pub open spec fn below(s: Map<u32, Ty>, rank: spec_fn(u32) -> nat, t: Ty, b: nat) -> bool {
    forall|j: u32| #[trigger] occurs(TypeVarId(j), t) && s.contains_key(j) ==> rank(j) < b
}

/// `r` is `t` with every bound variable replaced, again and again, by what
/// `s` files for it: inside references, pointers, arrays, slices, tuples,
/// function types and futures; any other type stays as it is.
pub open spec fn resolves_under(s: Map<u32, Ty>, rank: spec_fn(u32) -> nat, b: nat, t: Ty, r: Ty) -> bool
    decreases b, t, 1int,
{
    match t {
        Ty::Var(id) => if s.contains_key(id.0) {
            rank(id.0) < b && resolves_under(s, rank, rank(id.0), s[id.0], r)
        } else {
            same_ty(t, r)
        },
        Ty::Ref(inner, m) => r matches Ty::Ref(x, mm) && mm == m && resolves_under(s, rank, b, *inner, *x),
        Ty::Ptr(inner, m) => r matches Ty::Ptr(x, mm) && mm == m && resolves_under(s, rank, b, *inner, *x),
        Ty::Array(inner, n) => r matches Ty::Array(x, nn) && nn == n && resolves_under(s, rank, b, *inner, *x),
        Ty::Slice(inner) => r matches Ty::Slice(x) && resolves_under(s, rank, b, *inner, *x),
        Ty::Tuple(es) => r matches Ty::Tuple(xs) && resolve_all(s, rank, b, es@, xs@),
        Ty::Fn { params, ret } => r matches Ty::Fn { params: ps, ret: rr } && resolve_all(s, rank, b, params@, ps@)
            && resolves_under(s, rank, b, *ret, *rr),
        Ty::Future(inner) => r matches Ty::Future(x) && resolves_under(s, rank, b, *inner, *x),
        _ => same_ty(t, r),
    }
}

/// Each type resolves to the one at the same position.
pub open spec fn resolve_all(s: Map<u32, Ty>, rank: spec_fn(u32) -> nat, b: nat, ts: Seq<Ty>, rs: Seq<Ty>) -> bool
    decreases b, ts, 0int,
{
    if ts.len() == 0 {
        rs.len() == 0
    } else {
        rs.len() == ts.len() && resolve_all(s, rank, b, ts.drop_last(), rs.drop_last()) && resolves_under(
            s,
            rank,
            b,
            ts.last(),
            rs.last(),
        )
    }
}

/// `r` is `t` resolved against the acyclic substitution `s`.
pub open spec fn resolved(s: Map<u32, Ty>, t: Ty, r: Ty) -> bool {
    exists|rank: spec_fn(u32) -> nat, n: nat| ranked_by(s, rank, n) && resolves_under(s, rank, n, t, r)
}

/// A variable occurring in one of the types occurs in the list.
proof fn lemma_occurs_in_elem(v: TypeVarId, ts: Seq<Ty>, i: int)
    requires
        0 <= i < ts.len(),
        occurs(v, ts[i]),
    ensures
        occurs_in(v, ts),
    decreases ts.len(),
{
    if i < ts.len() - 1 {
        lemma_occurs_in_elem(v, ts.drop_last(), i);
    }
}

/// `r` is the outcome of checking the bounds `traits` on a type written
/// `text`: the first bound that the registry has no implementation for is
/// refused, naming the type and the bound; with none, the check passes.
pub open spec fn bounds_outcome(keys: Seq<(Seq<char>, Seq<char>)>, traits: Seq<Ident>, text: Seq<char>, r: Result<(), TypeClassError>) -> bool {
    match r {
        Ok(()) => forall|i: int| 0 <= i < traits.len() ==> keys.contains((#[trigger] traits[i].name@, text)),
        Err(e) => exists|i: int|
            0 <= i < traits.len() && !keys.contains((#[trigger] traits[i].name@, text)) && (forall|j: int|
                0 <= j < i ==> keys.contains((#[trigger] traits[j].name@, text))) && (e matches TypeClassError::SuperClassNotSatisfied {
                type_class,
                super_class,
            } && type_class@ == text && super_class@ == traits[i].name@),
    }
}

/// The state of type inference: the next variable number, the type filed
/// for each bound variable, and the trait bounds of each variable.
pub struct GenericInference {
    type_var_counter: u32,
    substitutions: HashMap<u32, Ty>,
    trait_bounds: HashMap<u32, Vec<Ident>>,
}

impl GenericInference {
    /// The number the next fresh variable gets.
    pub closed spec fn counter(&self) -> u32 {
        self.type_var_counter
    }

    /// The type filed for each bound variable.
    pub closed spec fn subst(&self) -> Map<u32, Ty> {
        self.substitutions@
    }

    /// The trait bounds of each variable, in the order they were added.
    pub closed spec fn bounds(&self) -> Map<u32, Seq<Ident>> {
        self.trait_bounds@.map_values(|v: Vec<Ident>| v@)
    }

    /// No variable reaches itself through the substitution.
    pub closed spec fn wf(&self) -> bool {
        acyclic(self.subst())
    }

    /// No variables, no substitution, no bounds.
    pub fn new() -> (g: Self)
        ensures
            g.wf(),
            g.counter() == 0,
            g.subst() == Map::<u32, Ty>::empty(),
            g.bounds() == Map::<u32, Seq<Ident>>::empty(),
    {
        let g = GenericInference { type_var_counter: 0, substitutions: HashMap::new(), trait_bounds: HashMap::new() };
        proof {
            assert(g.bounds() =~= Map::<u32, Seq<Ident>>::empty());
            let rank = |k: u32| 0nat;
            assert(ranked_by(g.subst(), rank, 0));
        }
        g
    }

    /// A variable not handed out before.
    pub fn fresh_type_var(&mut self) -> (t: Ty)
        requires
            old(self).counter() < u32::MAX,
        ensures
            t == Ty::Var(TypeVarId(old(self).counter())),
            final(self).counter() == old(self).counter() + 1,
            final(self).subst() == old(self).subst(),
            final(self).bounds() == old(self).bounds(),
    {
        let id = self.type_var_counter;
        self.type_var_counter = self.type_var_counter + 1;
        Ty::Var(TypeVarId(id))
    }

    /// Adds `trait_name` to the bounds of variable `type_var_id`, after any
    /// it already has.
    pub fn add_trait_bound(&mut self, type_var_id: u32, trait_name: Ident)
        ensures
            final(self).bounds() == old(self).bounds().insert(
                type_var_id,
                (if old(self).bounds().contains_key(type_var_id) {
                    old(self).bounds()[type_var_id]
                } else {
                    Seq::empty()
                }).push(trait_name),
            ),
            final(self).counter() == old(self).counter(),
            final(self).subst() == old(self).subst(),
    {
        let ghost b0 = self.trait_bounds@;
        let mut v = match self.trait_bounds.remove(&type_var_id) {
            Some(v) => v,
            None => Vec::new(),
        };
        let ghost v0 = v@;
        v.push(trait_name);
        self.trait_bounds.insert(type_var_id, v);
        proof {
            assert(self.bounds() =~= b0.map_values(|w: Vec<Ident>| w@).insert(type_var_id, v0.push(trait_name)));
        }
    }

    /// Binds variable `id` to `other`, unless it occurs there.
    fn bind_var(&mut self, id: &TypeVarId, other: &Ty) -> (r: Result<Ty, TypeError>)
        ensures
            final(self).counter() == old(self).counter(),
            final(self).bounds() == old(self).bounds(),
            match r {
                Ok(t) => !occurs(*id, *other) && same_ty(*other, t),
                Err(e) => occurs(*id, *other) && failure_of(e) == UnifyFailure::Recursive && unify_error_shape(e),
            },
            occurs(*id, *other) ==> final(self).subst() == old(self).subst(),
            !occurs(*id, *other) ==> exists|v: Ty| same_ty(*other, v) && final(self).subst() == old(self).subst().insert(id.0, v),
    {
        if self.occurs_check(id, other) {
            return Err(TypeError::RecursiveType { span: 0..0, line: 0, column: 0 });
        }
        let v = copy_ty(other);
        let ghost gv = v;
        self.substitutions.insert(id.0, v);
        proof {
            assert(same_ty(*other, gv) && self.subst() == old(self).subst().insert(id.0, gv));
        }
        Ok(copy_ty(other))
    }

    /// Unifies `t1` with `t2`, filing the bindings it needs: equal variables
    /// unify; a variable on the left, else on the right, is bound to the
    /// other side unless it occurs there; references of equal mutability,
    /// arrays of equal length and tuples of equal length unify component by
    /// component, left to right, stopping at the first failure; other equal
    /// types unify; anything else is a mismatch naming both types.
    pub fn unify(&mut self, t1: &Ty, t2: &Ty) -> (r: Result<Ty, TypeError>)
        ensures
            final(self).counter() == old(self).counter(),
            final(self).bounds() == old(self).bounds(),
            match r {
                Ok(t) => unify_fail(*t1, *t2) is None && unify_res(*t1, *t2, t),
                Err(e) => unify_fail(*t1, *t2) == Some(failure_of(e)) && unify_error_shape(e),
            },
            exists|bs: Seq<(u32, Ty)>| same_binds(unify_binds(*t1, *t2), bs) && final(self).subst() == apply_binds(
                old(self).subst(),
                bs,
            ),
        decreases t1, 1int,
    {
        let ghost s0 = self.subst();
        let ghost c = unify_case(*t1, *t2);
        match (t1, t2) {
            (Ty::Var(a), Ty::Var(b)) => {
                if a.0 == b.0 {
                    proof {
                        assert(same_binds(unify_binds(*t1, *t2), Seq::empty()));
                        assert(apply_binds(s0, Seq::empty()) == s0);
                    }
                    return Ok(copy_ty(t1));
                }
            },
            _ => {},
        }
        match t1 {
            Ty::Var(id) => {
                let r = self.bind_var(id, t2);
                proof {
                    assert(c == 1);
                    if occurs(*id, *t2) {
                        assert(same_binds(unify_binds(*t1, *t2), Seq::empty()));
                        assert(apply_binds(s0, Seq::empty()) == s0);
                    } else {
                        let v = choose|v: Ty| same_ty(*t2, v) && self.subst() == s0.insert(id.0, v);
                        let bs = seq![(id.0, v)];
                        assert(same_binds(unify_binds(*t1, *t2), bs));
                        assert(bs.drop_last() =~= Seq::<(u32, Ty)>::empty());
                        assert(apply_binds(s0, bs.drop_last()) == s0);
                        assert(bs.last() == (id.0, v));
                        assert(apply_binds(s0, bs) == s0.insert(id.0, v));
                    }
                }
                return r;
            },
            _ => {},
        }
        match t2 {
            Ty::Var(id) => {
                let r = self.bind_var(id, t1);
                proof {
                    assert(c == 2);
                    if occurs(*id, *t1) {
                        assert(same_binds(unify_binds(*t1, *t2), Seq::empty()));
                        assert(apply_binds(s0, Seq::empty()) == s0);
                    } else {
                        let v = choose|v: Ty| same_ty(*t1, v) && self.subst() == s0.insert(id.0, v);
                        let bs = seq![(id.0, v)];
                        assert(same_binds(unify_binds(*t1, *t2), bs));
                        assert(bs.drop_last() =~= Seq::<(u32, Ty)>::empty());
                        assert(apply_binds(s0, bs.drop_last()) == s0);
                        assert(bs.last() == (id.0, v));
                        assert(apply_binds(s0, bs) == s0.insert(id.0, v));
                    }
                }
                return r;
            },
            _ => {},
        }
        match (t1, t2) {
            (Ty::Ref(a1, m1), Ty::Ref(a2, m2)) => {
                if *m1 == *m2 {
                    assert(c == 3);
                    return match self.unify(a1, a2) {
                        Ok(inner) => Ok(Ty::Ref(Box::new(inner), *m1)),
                        Err(e) => Err(e),
                    };
                }
            },
            (Ty::Array(e1, n1), Ty::Array(e2, n2)) => {
                if *n1 == *n2 {
                    assert(c == 4);
                    return match self.unify(e1, e2) {
                        Ok(inner) => Ok(Ty::Array(Box::new(inner), *n1)),
                        Err(e) => Err(e),
                    };
                }
            },
            (Ty::Tuple(x1), Ty::Tuple(x2)) => {
                if x1.len() == x2.len() {
                    assert(c == 5);
                    return match self.unify_elems(x1, x2) {
                        Ok(es) => Ok(Ty::Tuple(es)),
                        Err(e) => Err(e),
                    };
                }
            },
            _ => {},
        }
        proof {
            assert(c == 6 || c == 7);
            assert(same_binds(unify_binds(*t1, *t2), Seq::empty()));
            assert(apply_binds(s0, Seq::empty()) == s0);
        }
        if same(t1, t2) {
            Ok(copy_ty(t1))
        } else {
            Err(TypeError::mismatched_types(t1.to_string(), t2.to_string(), 0..0, 0, 0))
        }
    }

    /// Unifies the pairs of `xs` and `ys`, left to right, stopping at the
    /// first failure.
    fn unify_elems(&mut self, xs: &Vec<Ty>, ys: &Vec<Ty>) -> (r: Result<Vec<Ty>, TypeError>)
        requires
            xs@.len() == ys@.len(),
        ensures
            final(self).counter() == old(self).counter(),
            final(self).bounds() == old(self).bounds(),
            match r {
                Ok(es) => tuple_fail(xs@, ys@) is None && tuple_res(xs@, ys@, es@),
                Err(e) => tuple_fail(xs@, ys@) == Some(failure_of(e)) && unify_error_shape(e),
            },
            exists|bs: Seq<(u32, Ty)>| same_binds(tuple_binds(xs@, ys@), bs) && final(self).subst() == apply_binds(
                old(self).subst(),
                bs,
            ),
        decreases xs, 0int,
    {
        let ghost s0 = self.subst();
        let ghost mut acc: Seq<(u32, Ty)> = Seq::empty();
        let mut out: Vec<Ty> = Vec::new();
        let mut i: usize = 0;
        proof {
            assert(xs@.take(0) =~= Seq::<Ty>::empty());
            assert(ys@.take(0) =~= Seq::<Ty>::empty());
            assert(same_binds(tuple_binds(xs@.take(0), ys@.take(0)), acc));
        }
        while i < xs.len()
            invariant
                xs@.len() == ys@.len(),
                i <= xs@.len(),
                self.counter() == old(self).counter(),
                self.bounds() == old(self).bounds(),
                old(self).subst() == s0,
                tuple_fail(xs@.take(i as int), ys@.take(i as int)) is None,
                tuple_res(xs@.take(i as int), ys@.take(i as int), out@),
                same_binds(tuple_binds(xs@.take(i as int), ys@.take(i as int)), acc),
                self.subst() == apply_binds(s0, acc),
            decreases xs@.len() - i,
        {
            assert(decreases_to!(xs => xs@[i as int]));
            let ghost si = self.subst();
            let res = self.unify(&xs[i], &ys[i]);
            proof {
                let bs_i = choose|bs: Seq<(u32, Ty)>| same_binds(unify_binds(xs@[i as int], ys@[i as int]), bs)
                    && self.subst() == apply_binds(si, bs);
                lemma_apply_concat(s0, acc, bs_i);
                let xp = xs@.take(i + 1);
                let yp = ys@.take(i + 1);
                assert(xp.drop_last() =~= xs@.take(i as int));
                assert(yp.drop_last() =~= ys@.take(i as int));
                assert(xp.last() == xs@[i as int]);
                assert(yp.last() == ys@[i as int]);
                lemma_same_binds_concat(tuple_binds(xs@.take(i as int), ys@.take(i as int)), acc, unify_binds(xs@[i as int], ys@[i as int]), bs_i);
                assert(tuple_binds(xp, yp) == tuple_binds(xs@.take(i as int), ys@.take(i as int)) + unify_binds(xs@[i as int], ys@[i as int]));
                acc = acc + bs_i;
            }
            match res {
                Ok(t) => {
                    let ghost prev = out@;
                    out.push(t);
                    proof {
                        assert(out@.drop_last() =~= prev);
                    }
                },
                Err(e) => {
                    proof {
                        lemma_tuple_fail_stays(xs@, ys@, i as int + 1);
                        lemma_tuple_binds_stay(xs@, ys@, i as int + 1);
                    }
                    return Err(e);
                },
            }
            i += 1;
        }
        proof {
            assert(xs@.take(i as int) =~= xs@);
            assert(ys@.take(i as int) =~= ys@);
        }
        Ok(out)
    }

    /// `ty` with every bound variable replaced, again and again, by the type
    /// filed for it.
    pub fn resolve(&self, ty: &Ty) -> (r: Ty)
        requires
            self.wf(),
        ensures
            resolved(self.subst(), *ty, r),
    {
        let ghost rn = choose|rank: spec_fn(u32) -> nat, n: nat| ranked_by(self.subst(), rank, n);
        let ghost rank = rn.0;
        let ghost n = rn.1;
        let r = self.resolve_from(ty, Ghost(rank), Ghost(n));
        proof {
            assert(ranked_by(self.subst(), rank, n) && resolves_under(self.subst(), rank, n, *ty, r));
        }
        r
    }

    fn resolve_from(&self, ty: &Ty, Ghost(rank): Ghost<spec_fn(u32) -> nat>, Ghost(b): Ghost<nat>) -> (r: Ty)
        requires
            forall|k: u32, j: u32|
                #![trigger self.subst()[k], rank(j)]
                self.subst().contains_key(k) && self.subst().contains_key(j) && occurs(TypeVarId(j), self.subst()[k])
                    ==> rank(j) < rank(k),
            below(self.subst(), rank, *ty, b),
        ensures
            resolves_under(self.subst(), rank, b, *ty, r),
        decreases b, ty, 1int,
    {
        match ty {
            Ty::Var(id) => {
                match self.substitutions.get(&id.0) {
                    Some(t) => {
                        proof {
                            assert(occurs(TypeVarId(id.0), *ty));
                            assert(self.subst().contains_key(id.0));
                            assert forall|j: u32| #[trigger] occurs(TypeVarId(j), *t) && self.subst().contains_key(j)
                                implies rank(j) < rank(id.0) by {
                                assert(self.subst()[id.0] == *t);
                            }
                        }
                        self.resolve_from(t, Ghost(rank), Ghost(rank(id.0)))
                    },
                    None => copy_ty(ty),
                }
            },
            Ty::Ref(inner, m) => {
                proof {
                    assert forall|j: u32| #[trigger] occurs(TypeVarId(j), **inner) && self.subst().contains_key(j)
                        implies rank(j) < b by {
                        assert(occurs(TypeVarId(j), *ty));
                    }
                }
                Ty::Ref(Box::new(self.resolve_from(inner, Ghost(rank), Ghost(b))), *m)
            },
            Ty::Ptr(inner, m) => {
                proof {
                    assert forall|j: u32| #[trigger] occurs(TypeVarId(j), **inner) && self.subst().contains_key(j)
                        implies rank(j) < b by {
                        assert(occurs(TypeVarId(j), *ty));
                    }
                }
                Ty::Ptr(Box::new(self.resolve_from(inner, Ghost(rank), Ghost(b))), *m)
            },
            Ty::Array(inner, n) => {
                proof {
                    assert forall|j: u32| #[trigger] occurs(TypeVarId(j), **inner) && self.subst().contains_key(j)
                        implies rank(j) < b by {
                        assert(occurs(TypeVarId(j), *ty));
                    }
                }
                Ty::Array(Box::new(self.resolve_from(inner, Ghost(rank), Ghost(b))), *n)
            },
            Ty::Slice(inner) => {
                proof {
                    assert forall|j: u32| #[trigger] occurs(TypeVarId(j), **inner) && self.subst().contains_key(j)
                        implies rank(j) < b by {
                        assert(occurs(TypeVarId(j), *ty));
                    }
                }
                Ty::Slice(Box::new(self.resolve_from(inner, Ghost(rank), Ghost(b))))
            },
            Ty::Tuple(elems) => {
                proof {
                    assert forall|j: u32| #[trigger] occurs_in(TypeVarId(j), elems@) && self.subst().contains_key(j)
                        implies rank(j) < b by {
                        assert(occurs(TypeVarId(j), *ty));
                    }
                }
                Ty::Tuple(self.resolve_list(elems, Ghost(rank), Ghost(b)))
            },
            Ty::Fn { params, ret } => {
                proof {
                    assert forall|j: u32| #[trigger] occurs_in(TypeVarId(j), params@) && self.subst().contains_key(j)
                        implies rank(j) < b by {
                        assert(occurs(TypeVarId(j), *ty));
                    }
                    assert forall|j: u32| #[trigger] occurs(TypeVarId(j), **ret) && self.subst().contains_key(j)
                        implies rank(j) < b by {
                        assert(occurs(TypeVarId(j), *ty));
                    }
                }
                let ps = self.resolve_list(params, Ghost(rank), Ghost(b));
                let rr = self.resolve_from(ret, Ghost(rank), Ghost(b));
                Ty::Fn { params: ps, ret: Box::new(rr) }
            },
            Ty::Future(inner) => {
                proof {
                    assert forall|j: u32| #[trigger] occurs(TypeVarId(j), **inner) && self.subst().contains_key(j)
                        implies rank(j) < b by {
                        assert(occurs(TypeVarId(j), *ty));
                    }
                }
                Ty::Future(Box::new(self.resolve_from(inner, Ghost(rank), Ghost(b))))
            },
            _ => copy_ty(ty),
        }
    }

    fn resolve_list(&self, ts: &Vec<Ty>, Ghost(rank): Ghost<spec_fn(u32) -> nat>, Ghost(b): Ghost<nat>) -> (r: Vec<Ty>)
        requires
            forall|k: u32, j: u32|
                #![trigger self.subst()[k], rank(j)]
                self.subst().contains_key(k) && self.subst().contains_key(j) && occurs(TypeVarId(j), self.subst()[k])
                    ==> rank(j) < rank(k),
            forall|j: u32| #[trigger] occurs_in(TypeVarId(j), ts@) && self.subst().contains_key(j) ==> rank(j) < b,
        ensures
            resolve_all(self.subst(), rank, b, ts@, r@),
        decreases b, ts, 0int,
    {
        let mut r: Vec<Ty> = Vec::new();
        let mut i: usize = 0;
        while i < ts.len()
            invariant
                i <= ts@.len(),
                forall|k: u32, j: u32|
                    #![trigger self.subst()[k], rank(j)]
                    self.subst().contains_key(k) && self.subst().contains_key(j) && occurs(TypeVarId(j), self.subst()[k])
                        ==> rank(j) < rank(k),
                forall|j: u32| #[trigger] occurs_in(TypeVarId(j), ts@) && self.subst().contains_key(j) ==> rank(j) < b,
                resolve_all(self.subst(), rank, b, ts@.take(i as int), r@),
            decreases ts@.len() - i,
        {
            assert(decreases_to!(ts => ts@[i as int]));
            proof {
                assert forall|j: u32| #[trigger] occurs(TypeVarId(j), ts@[i as int]) && self.subst().contains_key(j)
                    implies rank(j) < b by {
                    lemma_occurs_in_elem(TypeVarId(j), ts@, i as int);
                }
            }
            let t = self.resolve_from(&ts[i], Ghost(rank), Ghost(b));
            let ghost prev = r@;
            r.push(t);
            proof {
                assert(ts@.take(i + 1).drop_last() =~= ts@.take(i as int));
                assert(r@.drop_last() =~= prev);
                assert(ts@.take(i + 1).last() == ts@[i as int]);
            }
            i += 1;
        }
        proof {
            assert(ts@.take(i as int) =~= ts@);
        }
        r
    }

    /// Checks the trait bounds of a variable: for a bound variable type, each
    /// of its bounds in order must be implemented, in `registry`, for the
    /// variable resolved and written out; any other type passes.
    pub fn check_trait_bounds(&self, ty: &Ty, registry: &TypeClassRegistry) -> (r: Result<(), TypeClassError>)
        requires
            self.wf(),
            registry.wf(),
        ensures
            if *ty is Var && self.bounds().contains_key(ty->Var_0.0) {
                exists|rt: Ty| resolved(self.subst(), *ty, rt) && bounds_outcome(
                    registry.impl_keys(),
                    self.bounds()[ty->Var_0.0],
                    ty_text(rt),
                    r,
                )
            } else {
                r is Ok
            },
    {
        match ty {
            Ty::Var(id) => {
                match self.trait_bounds.get(&id.0) {
                    Some(traits) => {
                        proof {
                            assert(self.trait_bounds@.contains_key(id.0));
                            assert(self.trait_bounds@[id.0] == *traits);
                            assert(self.bounds().contains_key(id.0));
                            assert(self.bounds()[id.0] == traits@);
                        }
                        let resolved_ty = self.resolve(ty);
                        let type_str = resolved_ty.to_string();
                        let ghost text = type_str@;
                        let mut i: usize = 0;
                        while i < traits.len()
                            invariant
                                i <= traits@.len(),
                                registry.wf(),
                                self.bounds()[id.0] == traits@,
                                self.bounds().contains_key(id.0),
                                *ty == Ty::Var(*id),
                                resolved(self.subst(), *ty, resolved_ty),
                                text == ty_text(resolved_ty),
                                type_str@ == text,
                                forall|j: int| 0 <= j < i ==> registry.impl_keys().contains((#[trigger] traits@[j].name@, text)),
                            decreases traits@.len() - i,
                        {
                            if !registry.implements(&traits[i], type_str.as_str()) {
                                let r = Err(TypeClassError::SuperClassNotSatisfied {
                                    type_class: type_str,
                                    super_class: traits[i].name.clone(),
                                });
                                proof {
                                    assert(!registry.impl_keys().contains((traits@[i as int].name@, text)));
                                    assert(bounds_outcome(registry.impl_keys(), traits@, text, r));
                                    assert(ty->Var_0.0 == id.0);
                                    assert(resolved(self.subst(), *ty, resolved_ty) && bounds_outcome(
                                        registry.impl_keys(),
                                        self.bounds()[ty->Var_0.0],
                                        ty_text(resolved_ty),
                                        r,
                                    ));
                                }
                                return r;
                            }
                            i += 1;
                        }
                        Ok(())
                    },
                    None => Ok(()),
                }
            },
            _ => Ok(()),
        }
    }

    /// Whether variable `var_id` occurs in `ty`.
    pub fn occurs_check(&self, var_id: &TypeVarId, ty: &Ty) -> (b: bool)
        ensures
            b == occurs(*var_id, *ty),
        decreases ty,
    {
        match ty {
            Ty::Var(id) => id.0 == var_id.0,
            Ty::Ref(inner, _) => self.occurs_check(var_id, inner),
            Ty::Ptr(inner, _) => self.occurs_check(var_id, inner),
            Ty::Array(inner, _) => self.occurs_check(var_id, inner),
            Ty::Slice(inner) => self.occurs_check(var_id, inner),
            Ty::Tuple(elems) => self.occurs_in_tys(var_id, elems),
            Ty::Fn { params, ret } => self.occurs_in_tys(var_id, params) || self.occurs_check(var_id, ret),
            Ty::Future(inner) => self.occurs_check(var_id, inner),
            Ty::Adt(adt) => self.occurs_in_variants(var_id, &adt.variants),
            _ => false,
        }
    }

    fn occurs_in_tys(&self, var_id: &TypeVarId, ts: &Vec<Ty>) -> (b: bool)
        ensures
            b == occurs_in(*var_id, ts@),
        decreases ts,
    {
        let mut i: usize = 0;
        while i < ts.len()
            invariant
                i <= ts@.len(),
                !occurs_in(*var_id, ts@.take(i as int)),
            decreases ts@.len() - i,
        {
            assert(decreases_to!(ts => ts@[i as int]));
            proof {
                assert(ts@.take(i + 1).drop_last() =~= ts@.take(i as int));
            }
            if self.occurs_check(var_id, &ts[i]) {
                proof {
                    lemma_occurs_in_prefix(*var_id, ts@, i as int + 1);
                }
                return true;
            }
            i += 1;
        }
        proof {
            assert(ts@.take(i as int) =~= ts@);
        }
        false
    }

    fn occurs_in_fields(&self, var_id: &TypeVarId, fs: &Vec<FieldDef>) -> (b: bool)
        ensures
            b == occurs_in_fields(*var_id, fs@),
        decreases fs,
    {
        let mut i: usize = 0;
        while i < fs.len()
            invariant
                i <= fs@.len(),
                !occurs_in_fields(*var_id, fs@.take(i as int)),
            decreases fs@.len() - i,
        {
            assert(decreases_to!(fs => fs@[i as int]));
            proof {
                assert(fs@.take(i + 1).drop_last() =~= fs@.take(i as int));
            }
            if self.occurs_check(var_id, &fs[i].ty) {
                proof {
                    lemma_occurs_in_fields_prefix(*var_id, fs@, i as int + 1);
                }
                return true;
            }
            i += 1;
        }
        proof {
            assert(fs@.take(i as int) =~= fs@);
        }
        false
    }

    fn occurs_in_variants(&self, var_id: &TypeVarId, vs: &Vec<VariantDef>) -> (b: bool)
        ensures
            b == occurs_in_variants(*var_id, vs@),
        decreases vs,
    {
        let mut i: usize = 0;
        while i < vs.len()
            invariant
                i <= vs@.len(),
                !occurs_in_variants(*var_id, vs@.take(i as int)),
            decreases vs@.len() - i,
        {
            assert(decreases_to!(vs => vs@[i as int]));
            proof {
                assert(vs@.take(i + 1).drop_last() =~= vs@.take(i as int));
            }
            if self.occurs_in_fields(var_id, &vs[i].fields) {
                proof {
                    lemma_occurs_in_variants_prefix(*var_id, vs@, i as int + 1);
                }
                return true;
            }
            i += 1;
        }
        proof {
            assert(vs@.take(i as int) =~= vs@);
        }
        false
    }
}

/// Once a prefix fails, every longer prefix fails the same way.
proof fn lemma_tuple_fail_stays(xs: Seq<Ty>, ys: Seq<Ty>, k: int)
    requires
        xs.len() == ys.len(),
        0 <= k <= xs.len(),
        tuple_fail(xs.take(k), ys.take(k)) is Some,
    ensures
        tuple_fail(xs, ys) == tuple_fail(xs.take(k), ys.take(k)),
    decreases xs.len() - k,
{
    if k < xs.len() {
        assert(xs.take(k + 1).drop_last() =~= xs.take(k));
        assert(ys.take(k + 1).drop_last() =~= ys.take(k));
        lemma_tuple_fail_stays(xs, ys, k + 1);
    } else {
        assert(xs.take(k) =~= xs);
        assert(ys.take(k) =~= ys);
    }
}

/// Once a prefix fails, no longer prefix files more bindings.
proof fn lemma_tuple_binds_stay(xs: Seq<Ty>, ys: Seq<Ty>, k: int)
    requires
        xs.len() == ys.len(),
        0 <= k <= xs.len(),
        tuple_fail(xs.take(k), ys.take(k)) is Some,
    ensures
        tuple_binds(xs, ys) == tuple_binds(xs.take(k), ys.take(k)),
    decreases xs.len() - k,
{
    if k < xs.len() {
        assert(xs.take(k + 1).drop_last() =~= xs.take(k));
        assert(ys.take(k + 1).drop_last() =~= ys.take(k));
        lemma_tuple_binds_stay(xs, ys, k + 1);
    } else {
        assert(xs.take(k) =~= xs);
        assert(ys.take(k) =~= ys);
    }
}

/// Occurring in a prefix is occurring in the whole.
proof fn lemma_occurs_in_prefix(v: TypeVarId, ts: Seq<Ty>, k: int)
    requires
        0 <= k <= ts.len(),
        occurs_in(v, ts.take(k)),
    ensures
        occurs_in(v, ts),
    decreases ts.len() - k,
{
    if k < ts.len() {
        assert(ts.take(k + 1).drop_last() =~= ts.take(k));
        lemma_occurs_in_prefix(v, ts, k + 1);
    } else {
        assert(ts.take(k) =~= ts);
    }
}

proof fn lemma_occurs_in_fields_prefix(v: TypeVarId, fs: Seq<FieldDef>, k: int)
    requires
        0 <= k <= fs.len(),
        occurs_in_fields(v, fs.take(k)),
    ensures
        occurs_in_fields(v, fs),
    decreases fs.len() - k,
{
    if k < fs.len() {
        assert(fs.take(k + 1).drop_last() =~= fs.take(k));
        lemma_occurs_in_fields_prefix(v, fs, k + 1);
    } else {
        assert(fs.take(k) =~= fs);
    }
}

proof fn lemma_occurs_in_variants_prefix(v: TypeVarId, vs: Seq<VariantDef>, k: int)
    requires
        0 <= k <= vs.len(),
        occurs_in_variants(v, vs.take(k)),
    ensures
        occurs_in_variants(v, vs),
    decreases vs.len() - k,
{
    if k < vs.len() {
        assert(vs.take(k + 1).drop_last() =~= vs.take(k));
        lemma_occurs_in_variants_prefix(v, vs, k + 1);
    } else {
        assert(vs.take(k) =~= vs);
    }
}

} // verus!
