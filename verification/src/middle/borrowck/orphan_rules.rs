//! Orphan rules for trait implementations: an implementation must involve
//! a trait or a type of the crate being compiled.

use vstd::prelude::*;
use crate::ast::{Path, PathSegment, Type};
use crate::typeck::typeclass::{path_text, write_path};
use crate::util::text::str_eq;

verus! {

/// Whether `path` names an item of `local_crate`: it is empty, or its first
/// segment is the crate's name or `crate`.
pub open spec fn local_path(path: Path, local_crate: Seq<char>) -> bool {
    path.segments@.len() == 0 || path.segments@[0].ident.name@ == local_crate || path.segments@[0].ident.name@
        == "crate"@
}

/// Whether some type of `ts` is local.
pub open spec fn any_local(ts: Seq<Type>, local_crate: Seq<char>) -> bool
    decreases ts,
{
    if ts.len() == 0 {
        false
    } else {
        any_local(ts.drop_last(), local_crate) || local_type(ts.last(), local_crate)
    }
}

/// Whether a type is local to `local_crate`: a path type with a local
/// path, a reference, pointer, array, slice or generic instance of a local
/// type, a tuple with a local element, or a function type with a local
/// parameter or result.  Primitive and other built-in types are not.
pub open spec fn local_type(ty: Type, local_crate: Seq<char>) -> bool
    decreases ty,
{
    match ty {
        Type::Path(p) => local_path(p, local_crate),
        Type::Ref(inner, _) => local_type(*inner, local_crate),
        Type::Ptr(inner, _) => local_type(*inner, local_crate),
        Type::Array(inner, _) => local_type(*inner, local_crate),
        Type::Slice(inner) => local_type(*inner, local_crate),
        Type::Tuple(ts) => any_local(ts@, local_crate),
        Type::Function(f) => any_local(f.params@, local_crate) || local_type(*f.return_type, local_crate),
        Type::Generic(inner, _) => local_type(*inner, local_crate),
        _ => false,
    }
}

/// Whether `path` names an item of `local_crate`.
pub fn is_local_path(path: &Path, local_crate: &str) -> (b: bool)
    ensures
        b == local_path(*path, local_crate@),
{
    if path.segments.len() == 0 {
        return true;
    }
    let first = path.segments[0].ident.as_str();
    proof {
        reveal_strlit("crate");
    }
    str_eq(first, local_crate) || str_eq(first, "crate")
}

fn any_local_type(ts: &Vec<Type>, local_crate: &str) -> (b: bool)
    ensures
        b == any_local(ts@, local_crate@),
    decreases ts,
{
    let mut i: usize = 0;
    while i < ts.len()
        invariant
            i <= ts@.len(),
            !any_local(ts@.take(i as int), local_crate@),
        decreases ts@.len() - i,
    {
        proof {
            assert(ts@.take(i as int + 1).drop_last() =~= ts@.take(i as int));
        }
        assert(decreases_to!(ts => ts@[i as int]));
        if is_local_type(&ts[i], local_crate) {
            proof {
                lemma_any_local_prefix(ts@, i as int + 1, local_crate@);
            }
            return true;
        }
        i = i + 1;
    }
    proof {
        assert(ts@.take(i as int) =~= ts@);
    }
    false
}

proof fn lemma_any_local_prefix(ts: Seq<Type>, k: int, c: Seq<char>)
    requires
        0 <= k <= ts.len(),
        any_local(ts.take(k), c),
    ensures
        any_local(ts, c),
    decreases ts.len(),
{
    if k < ts.len() {
        assert(ts.drop_last().take(k) =~= ts.take(k));
        lemma_any_local_prefix(ts.drop_last(), k, c);
    } else {
        assert(ts.take(k) =~= ts);
    }
}

/// Whether a type is local to `local_crate`.
pub fn is_local_type(ty: &Type, local_crate: &str) -> (b: bool)
    ensures
        b == local_type(*ty, local_crate@),
    decreases ty,
{
    match ty {
        Type::Path(p) => is_local_path(p, local_crate),
        Type::Ref(inner, _) => is_local_type(inner, local_crate),
        Type::Ptr(inner, _) => is_local_type(inner, local_crate),
        Type::Array(inner, _) => is_local_type(inner, local_crate),
        Type::Slice(inner) => is_local_type(inner, local_crate),
        Type::Tuple(ts) => any_local_type(ts, local_crate),
        Type::Function(f) => any_local_type(&f.params, local_crate) || is_local_type(&f.return_type, local_crate),
        Type::Generic(inner, _) => is_local_type(inner, local_crate),
        _ => false,
    }
}

/// The text that the derived `Debug` of `Type` writes for a type.  Its
/// layout is std's derive output and is not spelled out here; it depends on
/// the type alone.
pub uninterp spec fn type_debug_text(t: Type) -> Seq<char>;

/// Calls the `Debug` formatter of `Type` through `format!`: the result is
/// the derived `Debug` text of the type.
#[verifier::external_body]
pub(crate) fn debug_text(ty: &Type) -> (s: String)
    ensures
        s@ == type_debug_text(*ty),
{
    format!("{:?}", ty)
}

/// The message for an `impl` refused by the orphan rule.
pub open spec fn orphan_message(trait_path: Path, impl_type: Type) -> Seq<char> {
    "Orphan rule violation: cannot implement foreign trait `"@ + path_text(trait_path) + "` for foreign type `"@
        + type_debug_text(impl_type) + "`"@
}

/// Checks the orphan rule for `impl trait_path for impl_type` in
/// `local_crate`: refused exactly when neither the trait nor the type is
/// local, with a message that names the trait by its path.
pub fn check_impl(trait_path: &Path, impl_type: &Type, local_crate: &str) -> (r: Result<(), String>)
    ensures
        r is Ok <==> (local_path(*trait_path, local_crate@) || local_type(*impl_type, local_crate@)),
        r matches Err(msg) ==> msg@ == orphan_message(*trait_path, *impl_type),
{
    let trait_is_local = is_local_path(trait_path, local_crate);
    let type_is_local = is_local_type(impl_type, local_crate);
    if !trait_is_local && !type_is_local {
        let mut msg = String::new();
        msg.append("Orphan rule violation: cannot implement foreign trait `");
        write_path(&mut msg, trait_path);
        msg.append("` for foreign type `");
        let shown = debug_text(impl_type);
        msg.append(shown.as_str());
        msg.append("`");
        Err(msg)
    } else {
        Ok(())
    }
}

} // verus!
