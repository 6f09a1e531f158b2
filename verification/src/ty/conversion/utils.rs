//! Enum variants in the type system's terms, with written types converted
//! by the standard converter.

use vstd::prelude::*;
use crate::ast::{EnumDef, EnumVariant, EnumVariantFields};
use crate::ty::conversion::{all_convert, converts, convert_type, convert_types};
use crate::typeck::check::{constructor_params, param_types};
use crate::typeck::ty::{FieldDef, Ty, VariantDef, copy_ty, same_ty};
use crate::util::text::{decimal, prefixed_decimal};

verus! {

/// `d` is variant `v` with its field types converted: no fields for a unit
/// variant, `_0`, `_1`, ... for positional fields, the written names for
/// named ones.
pub open spec fn converted_variant(v: EnumVariant, d: VariantDef) -> bool {
    &&& d.name@ == v.name.name@
    &&& match v.fields {
        EnumVariantFields::Unit => d.fields@.len() == 0,
        EnumVariantFields::Tuple(ts) => d.fields@.len() == ts@.len() && forall|j: int|
            0 <= j < ts@.len() ==> (#[trigger] d.fields@[j]).name@ == "_"@ + decimal(j as nat) && converts(ts@[j], d.fields@[j].ty),
        EnumVariantFields::Struct(ps) => d.fields@.len() == ps@.len() && forall|j: int|
            0 <= j < ps@.len() ==> (#[trigger] d.fields@[j]).name@ == ps@[j].0.name@ && converts(ps@[j].1, d.fields@[j].ty),
    }
}

/// The type system's form of an enum variant.
pub fn convert_enum_variant(variant: &EnumVariant) -> (d: VariantDef)
    ensures
        converted_variant(*variant, d),
{
    let mut fields: Vec<FieldDef> = Vec::new();
    match &variant.fields {
        EnumVariantFields::Unit => {},
        EnumVariantFields::Tuple(types) => {
            let mut j: usize = 0;
            while j < types.len()
                invariant
                    j <= types@.len(),
                    fields@.len() == j,
                    forall|k: int| 0 <= k < j ==> (#[trigger] fields@[k]).name@ == "_"@ + decimal(k as nat) && converts(types@[k], fields@[k].ty),
                decreases types@.len() - j,
            {
                fields.push(FieldDef { name: prefixed_decimal("_", j as u64), ty: convert_type(&types[j]) });
                j += 1;
            }
        },
        EnumVariantFields::Struct(named) => {
            let mut j: usize = 0;
            while j < named.len()
                invariant
                    j <= named@.len(),
                    fields@.len() == j,
                    forall|k: int| 0 <= k < j ==> (#[trigger] fields@[k]).name@ == named@[k].0.name@ && converts(named@[k].1, fields@[k].ty),
                decreases named@.len() - j,
            {
                fields.push(FieldDef { name: named[j].0.name.clone(), ty: convert_type(&named[j].1) });
                j += 1;
            }
        },
    }
    VariantDef { name: variant.name.name.clone(), fields }
}

/// The type of a variant's constructor: the enum type itself for a unit
/// variant, else a function from the converted field types to the enum
/// type.
pub fn get_variant_constructor_type(_enum_def: &EnumDef, variant: &EnumVariant, enum_ty: &Ty) -> (t: Ty)
    ensures
        if variant.fields is Unit {
            same_ty(*enum_ty, t)
        } else {
            t matches Ty::Fn { params, ret } && all_convert(constructor_params(*variant), params@) && same_ty(*enum_ty, *ret)
        },
{
    match &variant.fields {
        EnumVariantFields::Unit => copy_ty(enum_ty),
        EnumVariantFields::Tuple(types) => Ty::Fn { params: convert_types(types), ret: Box::new(copy_ty(enum_ty)) },
        EnumVariantFields::Struct(named) => {
            let mut params: Vec<Ty> = Vec::new();
            let mut i: usize = 0;
            while i < named.len()
                invariant
                    i <= named@.len(),
                    all_convert(param_types(named@).take(i as int), params@),
                decreases named@.len() - i,
            {
                let t = convert_type(&named[i].1);
                let ghost prev = params@;
                params.push(t);
                proof {
                    let ts = param_types(named@);
                    assert(ts.take(i + 1).drop_last() =~= ts.take(i as int));
                    assert(params@.drop_last() =~= prev);
                    assert(ts.take(i + 1).last() == named@[i as int].1);
                }
                i += 1;
            }
            proof {
                assert(param_types(named@).take(i as int) =~= param_types(named@));
            }
            Ty::Fn { params, ret: Box::new(copy_ty(enum_ty)) }
        },
    }
}

} // verus!
