//! Definitions of data structures: a name, generic parameters and a shape.

use crate::types::{texts, Type, TypeRef};
use vstd::prelude::*;

verus! {

/// The mathematical form of a field.
pub struct FieldModel {
    pub ident: Option<Seq<char>>,
    pub ty: TypeRef,
}

/// One member of a structure: its name, where it has one, and its type.
#[derive(Clone, Debug, PartialEq, Eq)]
pub struct Field {
    pub ident: Option<String>,
    pub ty: Type,
}

impl View for Field {
    type V = FieldModel;

    open spec fn view(&self) -> FieldModel {
        FieldModel {
            ident: match self.ident {
                Some(name) => Some(name@),
                None => None,
            },
            ty: self.ty@,
        }
    }
}

/// The mathematical forms of a list of fields, in order.
pub open spec fn field_models(fields: Seq<Field>) -> Seq<FieldModel> {
    Seq::new(fields.len(), |i: int| fields[i]@)
}

/// The mathematical form of the members of a structure.
pub enum FieldsModel {
    Named(Seq<FieldModel>),
    Unnamed(Seq<FieldModel>),
    Unit,
}

impl FieldsModel {
    /// The members in the order of their declaration; none for a unit.
    pub open spec fn members(self) -> Seq<FieldModel> {
        match self {
            FieldsModel::Named(fields) => fields,
            FieldsModel::Unnamed(fields) => fields,
            FieldsModel::Unit => Seq::empty(),
        }
    }

    /// The types of the members in the order of their declaration.
    pub open spec fn types(self) -> Seq<TypeRef> {
        Seq::new(self.members().len(), |i: int| self.members()[i].ty)
    }
}

/// The members of a structure: named, positional, or none at all.
#[derive(Clone, Debug, PartialEq, Eq)]
pub enum Fields {
    Named(Vec<Field>),
    Unnamed(Vec<Field>),
    Unit,
}

impl View for Fields {
    type V = FieldsModel;

    open spec fn view(&self) -> FieldsModel {
        match self {
            Fields::Named(fields) => FieldsModel::Named(field_models(fields@)),
            Fields::Unnamed(fields) => FieldsModel::Unnamed(field_models(fields@)),
            Fields::Unit => FieldsModel::Unit,
        }
    }
}

/// The mathematical form of the shape of a definition.
pub enum DataModel {
    Struct(FieldsModel),
    Enum,
    Union,
}

/// The shape of a definition. Of a tagged union only its kind is kept.
#[derive(Clone, Debug, PartialEq, Eq)]
pub enum Data {
    Struct(Fields),
    Enum,
    Union,
}

impl View for Data {
    type V = DataModel;

    open spec fn view(&self) -> DataModel {
        match self {
            Data::Struct(fields) => DataModel::Struct(fields@),
            Data::Enum => DataModel::Enum,
            Data::Union => DataModel::Union,
        }
    }
}

/// The mathematical form of a type parameter.
pub struct TypeParamModel {
    pub ident: Seq<char>,
    pub bounds: Seq<Seq<char>>,
}

/// A type parameter and the bounds that it must meet.
#[derive(Clone, Debug, PartialEq, Eq)]
pub struct TypeParam {
    pub ident: String,
    pub bounds: Vec<String>,
}

impl View for TypeParam {
    type V = TypeParamModel;

    open spec fn view(&self) -> TypeParamModel {
        TypeParamModel { ident: self.ident@, bounds: texts(self.bounds@) }
    }
}

/// The mathematical form of a generic parameter.
pub enum GenericParamModel {
    Lifetime(Seq<char>),
    Type(TypeParamModel),
    Const(Seq<char>),
}

/// A generic parameter of a definition.
#[derive(Clone, Debug, PartialEq, Eq)]
pub enum GenericParam {
    Lifetime(String),
    Type(TypeParam),
    Const(String),
}

impl View for GenericParam {
    type V = GenericParamModel;

    open spec fn view(&self) -> GenericParamModel {
        match self {
            GenericParam::Lifetime(name) => GenericParamModel::Lifetime(name@),
            GenericParam::Type(param) => GenericParamModel::Type(param@),
            GenericParam::Const(name) => GenericParamModel::Const(name@),
        }
    }
}

/// The mathematical form of the generic parameters of a definition.
pub struct GenericsModel {
    pub params: Seq<GenericParamModel>,
}

/// The generic parameters of a definition, in the order of their declaration.
#[derive(Clone, Debug, PartialEq, Eq)]
pub struct Generics {
    pub params: Vec<GenericParam>,
}

impl View for Generics {
    type V = GenericsModel;

    open spec fn view(&self) -> GenericsModel {
        GenericsModel { params: Seq::new(self.params@.len(), |i: int| self.params@[i]@) }
    }
}

/// The mathematical form of a definition.
pub struct DeriveInputModel {
    pub ident: Seq<char>,
    pub generics: GenericsModel,
    pub data: DataModel,
}

/// The definition of a data structure.
#[derive(Clone, Debug, PartialEq, Eq)]
pub struct DeriveInput {
    pub ident: String,
    pub generics: Generics,
    pub data: Data,
}

impl View for DeriveInput {
    type V = DeriveInputModel;

    open spec fn view(&self) -> DeriveInputModel {
        DeriveInputModel { ident: self.ident@, generics: self.generics@, data: self.data@ }
    }
}

} // verus!
