//! What deriving the capability for a structure produces.

use crate::input::{Generics, GenericsModel};
use crate::types::{type_refs, Type, TypeRef};
use vstd::prelude::*;

verus! {

/// A sum of sizes: zero bytes plus the size of each term, in order.
#[derive(Clone, Debug, PartialEq, Eq)]
pub struct SizeSum {
    pub terms: Vec<Type>,
}

impl View for SizeSum {
    type V = Seq<TypeRef>;

    open spec fn view(&self) -> Seq<TypeRef> {
        type_refs(self.terms@)
    }
}

/// The mathematical form of a [`Registration`].
pub struct RegistrationModel {
    pub name: Seq<char>,
    pub generics: GenericsModel,
    pub sum: Seq<TypeRef>,
}

/// The capability derived for a structure: the name that it is bound to,
/// the generic parameters with their bounds, and the sum that gives the size.
#[derive(Clone, Debug, PartialEq, Eq)]
pub struct Registration {
    pub name: String,
    pub generics: Generics,
    pub sum: SizeSum,
}

impl View for Registration {
    type V = RegistrationModel;

    open spec fn view(&self) -> RegistrationModel {
        RegistrationModel { name: self.name@, generics: self.generics@, sum: self.sum@ }
    }
}

} // verus!
