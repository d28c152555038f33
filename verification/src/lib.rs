//! Maximum encoded sizes of data structures under CDR encoding.
//!
//! Deriving the size capability for a structure yields a [`Registration`]:
//! the structure's name, its generic parameters, each type parameter bound
//! by the capability, and a sum over the types of the members. A
//! [`registry::Registry`] holds such registrations and resolves the size of
//! a type reference against them.
//!
//! - [`size`]: the sizes and their addition.
//! - [`types`] and [`input`]: type references and definitions.
//! - [`registration`]: what deriving yields.
//! - [`registry`]: the table of capabilities and the resolution of sizes.
//! - [`error`]: why a size is not resolved or a definition is refused.
//! - [`laws`]: what holds of all of these.

use vstd::prelude::*;

pub mod error;
pub mod input;
pub mod laws;
pub mod registration;
pub mod registry;
pub mod size;
pub mod types;

pub use crate::error::{DeriveError, DeriveFault, SizeError, UnsupportedShape};
pub use crate::input::{
    Data, DataModel, DeriveInput, Field, Fields, GenericParam, GenericParamModel, Generics,
    GenericsModel, TypeParam, TypeParamModel,
};
pub use crate::registration::{Registration, RegistrationModel, SizeSum};
pub use crate::size::CdrEncodingMaxSize;
pub use crate::types::Type;
use crate::input::DeriveInputModel;
use crate::types::{texts, type_refs, TypeRef};

verus! {

/// The path of the capability that every type parameter is bound by.
pub const CAPABILITY: &'static str = "cdr_encoding_size::CdrEncodingSize";

/// The path of the capability, as a sequence of characters.
pub open spec fn capability_bound() -> Seq<char> {
    CAPABILITY@
}

/// A generic parameter with the capability bound added, where it is a type
/// parameter; lifetimes and constants stay as they are.
pub open spec fn bounded_param(param: GenericParamModel) -> GenericParamModel {
    match param {
        GenericParamModel::Type(p) => GenericParamModel::Type(
            TypeParamModel { ident: p.ident, bounds: p.bounds.push(capability_bound()) },
        ),
        other => other,
    }
}

/// The generic parameters with the capability bound added to each type
/// parameter.
pub open spec fn bounded_generics(generics: GenericsModel) -> GenericsModel {
    GenericsModel {
        params: Seq::new(generics.params.len(), |i: int| bounded_param(generics.params[i])),
    }
}

/// Adds the capability bound to every type parameter.
pub fn add_trait_bounds(generics: Generics) -> (r: Generics)
    ensures
        r@ == bounded_generics(generics@),
{
    let mut generics = generics;
    let ghost before = generics@;
    let mut i: usize = 0;
    while i < generics.params.len()
        invariant
            i <= generics.params.len(),
            generics.params.len() == before.params.len(),
            forall|j: int| 0 <= j < i ==> generics.params@[j]@ == bounded_param(before.params[j]),
            forall|j: int| i <= j < generics.params.len() ==> generics.params@[j]@ == before.params[j],
        decreases generics.params.len() - i,
    {
        let ghost param_before = generics.params@[i as int];
        match &mut generics.params[i] {
            GenericParam::Type(param) => {
                param.bounds.push(CAPABILITY.to_owned());
                assert(texts(param.bounds@) =~= texts(param_before->Type_0.bounds@).push(
                    capability_bound(),
                ));
            },
            _ => {},
        }
        i += 1;
    }
    assert(generics@.params =~= bounded_generics(before).params);
    generics
}

/// The sum that gives the size of a definition of the given shape: a term
/// for the type of each member, in the order of declaration. A tagged union
/// has none.
pub open spec fn size_sum(data: DataModel) -> Option<Seq<TypeRef>> {
    match data {
        DataModel::Struct(fields) => Some(fields.types()),
        DataModel::Enum => None,
        DataModel::Union => None,
    }
}

/// The types of the given members, in order.
fn member_types(fields: &Vec<Field>) -> (r: Vec<Type>)
    ensures
        type_refs(r@) == Seq::new(fields@.len(), |i: int| fields@[i]@.ty),
{
    let mut types: Vec<Type> = Vec::new();
    let mut i: usize = 0;
    while i < fields.len()
        invariant
            i <= fields.len(),
            types.len() == i,
            forall|j: int| 0 <= j < i ==> types@[j]@ == fields@[j]@.ty,
        decreases fields.len() - i,
    {
        types.push(fields[i].ty.clone());
        i += 1;
    }
    assert(type_refs(types@) =~= Seq::new(fields@.len(), |i: int| fields@[i]@.ty));
    types
}

/// Builds the sum that gives the size of a structure: zero bytes plus the
/// size of the type of each member, in the order of declaration. Whether the
/// members are named or positional makes no difference, and a structure
/// without members sums to zero bytes. A tagged union is refused.
pub fn cdr_size_sum(data: &Data) -> (r: Result<SizeSum, UnsupportedShape>)
    ensures
        match r {
            Ok(sum) => size_sum(data@) == Some(sum@),
            Err(_) => size_sum(data@) is None,
        },
{
    match data {
        Data::Struct(fields) => {
            match fields {
                Fields::Named(named) => {
                    let terms = member_types(named);
                    assert(type_refs(terms@) =~= fields@.types());
                    Ok(SizeSum { terms })
                },
                Fields::Unnamed(unnamed) => {
                    let terms = member_types(unnamed);
                    assert(type_refs(terms@) =~= fields@.types());
                    Ok(SizeSum { terms })
                },
                Fields::Unit => {
                    let terms: Vec<Type> = Vec::new();
                    assert(type_refs(terms@) =~= fields@.types());
                    Ok(SizeSum { terms })
                },
            }
        },
        Data::Enum => Err(UnsupportedShape),
        Data::Union => Err(UnsupportedShape),
    }
}

/// What deriving the capability for a definition yields.
pub open spec fn derived(input: DeriveInputModel) -> Result<RegistrationModel, DeriveFault> {
    match size_sum(input.data) {
        Some(sum) => Ok(
            RegistrationModel {
                name: input.ident,
                generics: bounded_generics(input.generics),
                sum,
            },
        ),
        None => Err(DeriveFault::UnsupportedShape { name: input.ident }),
    }
}

/// Derives the size capability for a definition: it is bound to the
/// definition's name, every type parameter is bound by the capability, and
/// the size is the sum over the members. A tagged union is refused.
pub fn derive_cdr_encoding_size(input: DeriveInput) -> (r: Result<Registration, DeriveError>)
    ensures
        match r {
            Ok(registration) => derived(input@) == Ok::<RegistrationModel, DeriveFault>(
                registration@,
            ),
            Err(error) => derived(input@) == Err::<RegistrationModel, DeriveFault>(error@),
        },
{
    let DeriveInput { ident, generics, data } = input;
    let name = ident;
    let generics = add_trait_bounds(generics);
    match cdr_size_sum(&data) {
        Ok(sum) => Ok(Registration { name, generics, sum }),
        Err(_) => Err(DeriveError::UnsupportedShape { name }),
    }
}

} // verus!
