//! The type classes that the language provides: Display, Eq, Ord and Add.

use vstd::prelude::*;
use crate::ast::{Ident, Type};
use super::{AssociatedType, MethodSignature, Param, TypeClass, TypeClassMethod, TypeParam, path_type};

verus! {

fn param(name: &str, ty: &str, is_self: bool, is_ref: bool) -> (p: Param)
    ensures
        p.name.name@ == name@,
        p.is_self == is_self,
        p.is_ref == is_ref,
        !p.is_mut,
{
    Param { name: Ident::new(name), ty: path_type(ty), is_self, is_ref, is_mut: false }
}

fn self_param(bounds: Vec<Ident>) -> (p: TypeParam)
    ensures
        p.name.name@ == "Self"@,
        p.bounds@ == bounds@,
        p.default is None,
        !p.is_const,
{
    TypeParam { name: Ident::new("Self"), bounds, default: None, is_const: false }
}

/// A class over `Self` with one required method taking `self` and a second
/// parameter.
fn one_method_class(
    name: &str,
    bounds: Vec<Ident>,
    associated_types: Vec<AssociatedType>,
    method: &str,
    self_by_ref: bool,
    other: Param,
    ret: Type,
    docs: &str,
    super_classes: Vec<Ident>,
) -> (c: TypeClass)
    ensures
        c.name.name@ == name@,
        c.params@.len() == 1,
        c.params@[0].name.name@ == "Self"@,
        c.params@[0].bounds@ == bounds@,
        c.associated_types@ == associated_types@,
        c.methods@.len() == 1,
        c.methods@[0].name.name@ == method@,
        c.methods@[0].default_impl is None,
        c.methods@[0].docs@ == docs@,
        c.methods@[0].signature.params@.len() == 2,
        c.methods@[0].signature.params@[0].is_self,
        c.methods@[0].signature.params@[0].is_ref == self_by_ref,
        c.methods@[0].signature.params@[1] == other,
        c.methods@[0].signature.return_type == Some(ret),
        c.super_classes@ == super_classes@,
        c.span == (0usize..0usize),
{
    let mut params = Vec::new();
    params.push(param("self", "Self", true, self_by_ref));
    params.push(other);
    let mut type_params = Vec::new();
    type_params.push(self_param(bounds));
    let mut methods = Vec::new();
    methods.push(TypeClassMethod {
        name: Ident::new(method),
        signature: MethodSignature {
            generics: Vec::new(),
            params,
            return_type: Some(ret),
            is_const: false,
            is_unsafe: false,
        },
        default_impl: None,
        docs: docs.to_owned(),
    });
    TypeClass {
        name: Ident::new(name),
        params: type_params,
        associated_types,
        methods,
        super_classes,
        span: 0..0,
    }
}

/// `Display`: one required method `fmt(&self, f: Formatter) -> Result`.
pub fn display_type_class() -> (c: TypeClass)
    ensures
        c.name.name@ == "Display"@,
        c.methods@.len() == 1,
        c.methods@[0].name.name@ == "fmt"@,
        c.methods@[0].default_impl is None,
        c.methods@[0].signature.params@.len() == 2,
        c.methods@[0].signature.params@[1].name.name@ == "f"@,
        c.super_classes@.len() == 0,
        c.associated_types@.len() == 0,
{
    one_method_class(
        "Display",
        Vec::new(),
        Vec::new(),
        "fmt",
        true,
        param("f", "Formatter", false, false),
        path_type("Result"),
        "Format the value using the given formatter",
        Vec::new(),
    )
}

/// `Eq`: one required method `eq(&self, other: &Self) -> bool`.
pub fn eq_type_class() -> (c: TypeClass)
    ensures
        c.name.name@ == "Eq"@,
        c.methods@.len() == 1,
        c.methods@[0].name.name@ == "eq"@,
        c.methods@[0].default_impl is None,
        c.methods@[0].signature.params@.len() == 2,
        c.methods@[0].signature.params@[1].name.name@ == "other"@,
        c.methods@[0].signature.params@[1].is_ref,
        c.super_classes@.len() == 0,
        c.associated_types@.len() == 0,
{
    one_method_class(
        "Eq",
        Vec::new(),
        Vec::new(),
        "eq",
        true,
        param("other", "Self", false, true),
        path_type("bool"),
        "Compare two values for equality",
        Vec::new(),
    )
}

/// `Ord`: requires `Eq`; one required method `cmp(&self, other: &Self)`.
pub fn ord_type_class() -> (c: TypeClass)
    ensures
        c.name.name@ == "Ord"@,
        c.methods@.len() == 1,
        c.methods@[0].name.name@ == "cmp"@,
        c.methods@[0].default_impl is None,
        c.params@[0].bounds@.len() == 1,
        c.params@[0].bounds@[0].name@ == "Eq"@,
        c.super_classes@.len() == 1,
        c.super_classes@[0].name@ == "Eq"@,
        c.associated_types@.len() == 0,
{
    let mut bounds = Vec::new();
    bounds.push(Ident::new("Eq"));
    let mut supers = Vec::new();
    supers.push(Ident::new("Eq"));
    one_method_class(
        "Ord",
        bounds,
        Vec::new(),
        "cmp",
        true,
        param("other", "Self", false, true),
        path_type("Ordering"),
        "Compare two values",
        supers,
    )
}

/// `Add`: associated type `Output` (default `Self`) and one required method
/// `add(self, rhs: Self) -> Output`.
pub fn add_type_class() -> (c: TypeClass)
    ensures
        c.name.name@ == "Add"@,
        c.methods@.len() == 1,
        c.methods@[0].name.name@ == "add"@,
        c.methods@[0].default_impl is None,
        !c.methods@[0].signature.params@[0].is_ref,
        c.associated_types@.len() == 1,
        c.associated_types@[0].name.name@ == "Output"@,
        c.associated_types@[0].default is Some,
        c.super_classes@.len() == 0,
{
    let mut assoc = Vec::new();
    assoc.push(AssociatedType { name: Ident::new("Output"), bounds: Vec::new(), default: Some(path_type("Self")) });
    one_method_class(
        "Add",
        Vec::new(),
        assoc,
        "add",
        false,
        param("rhs", "Self", false, false),
        path_type("Output"),
        "Add two values",
        Vec::new(),
    )
}

} // verus!
