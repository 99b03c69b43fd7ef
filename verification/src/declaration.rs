//! The declaration that an implementation is derived for.

use crate::meta::{Attribute, AttributeModel};
use crate::text::{positional, positional_name};
use vstd::prelude::*;

verus! {

/// The declared type of a field.
#[derive(Clone, Debug, PartialEq, Eq)]
pub struct FieldType {
    /// The type as written.
    pub text: String,
    /// The first identifier of the type, where the type is a path.
    pub head: Option<String>,
}

/// A field with a name.
#[derive(Clone, Debug, PartialEq, Eq)]
pub struct NamedField {
    pub name: String,
    pub ty: FieldType,
}

/// The fields of a struct or of a variant.
#[derive(Clone, Debug, PartialEq, Eq)]
pub enum Fields {
    /// None, and no brackets.
    Unit,
    /// Named fields in braces.
    Named(Vec<NamedField>),
    /// Fields by position, in parentheses.
    Unnamed(Vec<FieldType>),
}

/// A variant of an enum.
#[derive(Clone, Debug, PartialEq, Eq)]
pub struct Variant {
    pub name: String,
    pub attrs: Vec<Attribute>,
    pub fields: Fields,
}

/// What kind of type is declared, with what it holds.
#[derive(Clone, Debug, PartialEq, Eq)]
pub enum Data {
    Struct(Fields),
    Enum(Vec<Variant>),
    Union,
}

/// A type declaration.
#[derive(Clone, Debug, PartialEq, Eq)]
pub struct Declaration {
    pub name: String,
    /// The names of its generic type parameters.
    pub type_params: Vec<String>,
    /// The predicates of its where clause, each as written.
    pub where_predicates: Vec<String>,
    pub attrs: Vec<Attribute>,
    pub data: Data,
}

/// A declared type as plain text.
pub struct FieldTypeModel {
    pub text: Seq<char>,
    pub head: Option<Seq<char>>,
}

/// A named field as plain text.
pub struct NamedFieldModel {
    pub name: Seq<char>,
    pub ty: FieldTypeModel,
}

/// Fields as plain text.
pub enum FieldsModel {
    Unit,
    Named(Seq<NamedFieldModel>),
    Unnamed(Seq<FieldTypeModel>),
}

/// A variant as plain text.
pub struct VariantModel {
    pub name: Seq<char>,
    pub attrs: Seq<AttributeModel>,
    pub fields: FieldsModel,
}

/// What a declaration holds, as plain text.
pub enum DataModel {
    Struct(FieldsModel),
    Enum(Seq<VariantModel>),
    Union,
}

/// A declaration as plain text.
pub struct DeclarationModel {
    pub name: Seq<char>,
    pub type_params: Seq<Seq<char>>,
    pub where_predicates: Seq<Seq<char>>,
    pub attrs: Seq<AttributeModel>,
    pub data: DataModel,
}

impl DeepView for FieldType {
    type V = FieldTypeModel;

    open spec fn deep_view(&self) -> FieldTypeModel {
        FieldTypeModel { text: self.text@, head: self.head.deep_view() }
    }
}

impl DeepView for NamedField {
    type V = NamedFieldModel;

    open spec fn deep_view(&self) -> NamedFieldModel {
        NamedFieldModel { name: self.name@, ty: self.ty.deep_view() }
    }
}

impl DeepView for Fields {
    type V = FieldsModel;

    open spec fn deep_view(&self) -> FieldsModel {
        match *self {
            Fields::Unit => FieldsModel::Unit,
            Fields::Named(v) => FieldsModel::Named(v.deep_view()),
            Fields::Unnamed(v) => FieldsModel::Unnamed(v.deep_view()),
        }
    }
}

impl DeepView for Variant {
    type V = VariantModel;

    open spec fn deep_view(&self) -> VariantModel {
        VariantModel {
            name: self.name@,
            attrs: self.attrs.deep_view(),
            fields: self.fields.deep_view(),
        }
    }
}

impl DeepView for Data {
    type V = DataModel;

    open spec fn deep_view(&self) -> DataModel {
        match *self {
            Data::Struct(fields) => DataModel::Struct(fields.deep_view()),
            Data::Enum(variants) => DataModel::Enum(variants.deep_view()),
            Data::Union => DataModel::Union,
        }
    }
}

impl DeepView for Declaration {
    type V = DeclarationModel;

    open spec fn deep_view(&self) -> DeclarationModel {
        DeclarationModel {
            name: self.name@,
            type_params: self.type_params.deep_view(),
            where_predicates: self.where_predicates.deep_view(),
            attrs: self.attrs.deep_view(),
            data: self.data.deep_view(),
        }
    }
}

impl FieldsModel {
    /// How many fields there are.
    pub open spec fn len(self) -> nat {
        match self {
            FieldsModel::Unit => 0,
            FieldsModel::Named(v) => v.len(),
            FieldsModel::Unnamed(v) => v.len(),
        }
    }

    /// The name that binds the field at position `k` in a pattern: its own
    /// name, or an underscore and its position.
    pub open spec fn name(self, k: int) -> Seq<char> {
        match self {
            FieldsModel::Named(v) => v[k].name,
            _ => positional_name(k as nat),
        }
    }

    /// The declared type of the field at position `k`.
    pub open spec fn ty(self, k: int) -> FieldTypeModel {
        match self {
            FieldsModel::Named(v) => v[k].ty,
            FieldsModel::Unnamed(v) => v[k],
            FieldsModel::Unit => arbitrary(),
        }
    }
}

impl Fields {
    /// How many fields there are.
    pub fn len(&self) -> (r: usize)
        ensures
            r == self.deep_view().len(),
    {
        match self {
            Fields::Unit => 0,
            Fields::Named(v) => v.len(),
            Fields::Unnamed(v) => v.len(),
        }
    }

    /// The name that binds the field at position `k` in a pattern.
    pub fn field_name(&self, k: usize) -> (r: String)
        requires
            k < self.deep_view().len(),
        ensures
            r@ == self.deep_view().name(k as int),
    {
        match self {
            Fields::Named(v) => v[k].name.clone(),
            _ => positional(k),
        }
    }

    /// The declared type of the field at position `k`.
    pub fn field_type(&self, k: usize) -> (r: &FieldType)
        requires
            k < self.deep_view().len(),
        ensures
            r.deep_view() == self.deep_view().ty(k as int),
    {
        match self {
            Fields::Named(v) => &v[k].ty,
            Fields::Unnamed(v) => &v[k],
            Fields::Unit => {
                proof {
                    assert(false);
                }
                vstd::pervasive::unreached()
            },
        }
    }
}

} // verus!
