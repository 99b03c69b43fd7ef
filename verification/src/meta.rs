//! Attributes as loosely typed metadata trees.

use crate::text::{clone_strings, str_eq};
use vstd::prelude::*;

verus! {

/// A path of identifiers, such as `display` or `::a::b`.
#[derive(Clone, Debug, PartialEq, Eq)]
pub struct MetaPath {
    /// Whether the path starts with `::`.
    pub leading_colon: bool,
    /// Its identifiers, in order.
    pub segments: Vec<String>,
}

/// A path as plain text.
pub struct PathModel {
    pub leading_colon: bool,
    pub segments: Seq<Seq<char>>,
}

impl PathModel {
    /// The first identifier of the path.
    pub open spec fn first(self) -> Option<Seq<char>> {
        if self.segments.len() > 0 {
            Some(self.segments[0])
        } else {
            None
        }
    }

    /// The identifier that the path is, where it is a single identifier.
    pub open spec fn ident(self) -> Option<Seq<char>> {
        if !self.leading_colon && self.segments.len() == 1 {
            Some(self.segments[0])
        } else {
            None
        }
    }
}

impl DeepView for MetaPath {
    type V = PathModel;

    open spec fn deep_view(&self) -> PathModel {
        PathModel { leading_colon: self.leading_colon, segments: self.segments.deep_view() }
    }
}

impl MetaPath {
    /// The path that is the single identifier `name`.
    pub fn from_ident(name: &str) -> (r: MetaPath)
        ensures
            r.deep_view() == (PathModel { leading_colon: false, segments: seq![name@] }),
    {
        let mut segments: Vec<String> = Vec::new();
        segments.push(String::from_str(name));
        let r = MetaPath { leading_colon: false, segments };
        assert(r.deep_view().segments =~= seq![name@]);
        r
    }

    /// Whether the first identifier of the path is `name`.
    pub fn first_is(&self, name: &str) -> (r: bool)
        ensures
            r == (self.deep_view().first() == Some(name@)),
    {
        self.segments.len() > 0 && str_eq(self.segments[0].as_str(), name)
    }

    /// Whether the path is the single identifier `name`.
    pub fn is_ident(&self, name: &str) -> (r: bool)
        ensures
            r == (self.deep_view().ident() == Some(name@)),
    {
        !self.leading_colon && self.segments.len() == 1 && str_eq(self.segments[0].as_str(), name)
    }

    /// The identifier that the path is, where it is a single identifier.
    pub fn get_ident(&self) -> (r: Option<String>)
        ensures
            r.deep_view() == self.deep_view().ident(),
    {
        if !self.leading_colon && self.segments.len() == 1 {
            Some(self.segments[0].clone())
        } else {
            None
        }
    }

    /// A copy of the path.
    pub fn duplicate(&self) -> (r: MetaPath)
        ensures
            r.deep_view() == self.deep_view(),
    {
        MetaPath { leading_colon: self.leading_colon, segments: clone_strings(&self.segments) }
    }
}

/// A literal in an attribute.
#[derive(Clone, Debug, PartialEq, Eq)]
pub enum Literal {
    /// A string literal, by its value.
    Str(String),
    /// A literal of any other kind.
    Other,
}

/// An element of a list-shaped attribute.
#[derive(Clone, Debug, PartialEq, Eq)]
pub enum NestedMeta {
    /// A bare path, such as `field`.
    Path { path: MetaPath },
    /// A pair of a name and a literal, such as `fmt = "..."`.
    NameValue { path: MetaPath, lit: Literal },
    /// A list, such as `bound(...)`.
    List { path: MetaPath },
    /// A literal, such as `"arg"`.
    Lit { lit: Literal },
}

/// The structured form of an attribute.
#[derive(Clone, Debug, PartialEq, Eq)]
pub enum Meta {
    /// A bare path, such as `display`.
    Path { path: MetaPath },
    /// A list, such as `display(...)`.
    List { path: MetaPath, nested: Vec<NestedMeta> },
    /// A pair of a name and a literal, such as `display = "..."`.
    NameValue { path: MetaPath, lit: Literal },
}

/// An attribute of a declaration, of a variant or of a field.
#[derive(Clone, Debug, PartialEq, Eq)]
pub enum Attribute {
    /// An attribute that has a structured form.
    Meta { meta: Meta },
    /// An attribute that has none.
    Opaque,
}

/// A literal as plain text.
pub enum LiteralModel {
    Str(Seq<char>),
    Other,
}

/// An element of a list as plain text.
pub enum NestedMetaModel {
    Path { path: PathModel },
    NameValue { path: PathModel, lit: LiteralModel },
    List { path: PathModel },
    Lit { lit: LiteralModel },
}

/// The structured form of an attribute as plain text.
pub enum MetaModel {
    Path { path: PathModel },
    List { path: PathModel, nested: Seq<NestedMetaModel> },
    NameValue { path: PathModel, lit: LiteralModel },
}

/// An attribute as plain text.
pub enum AttributeModel {
    Meta { meta: MetaModel },
    Opaque,
}

impl DeepView for Literal {
    type V = LiteralModel;

    open spec fn deep_view(&self) -> LiteralModel {
        match *self {
            Literal::Str(s) => LiteralModel::Str(s@),
            Literal::Other => LiteralModel::Other,
        }
    }
}

impl DeepView for NestedMeta {
    type V = NestedMetaModel;

    open spec fn deep_view(&self) -> NestedMetaModel {
        match *self {
            NestedMeta::Path { path } => NestedMetaModel::Path { path: path.deep_view() },
            NestedMeta::NameValue { path, lit } => NestedMetaModel::NameValue {
                path: path.deep_view(),
                lit: lit.deep_view(),
            },
            NestedMeta::List { path } => NestedMetaModel::List { path: path.deep_view() },
            NestedMeta::Lit { lit } => NestedMetaModel::Lit { lit: lit.deep_view() },
        }
    }
}

impl DeepView for Meta {
    type V = MetaModel;

    open spec fn deep_view(&self) -> MetaModel {
        match *self {
            Meta::Path { path } => MetaModel::Path { path: path.deep_view() },
            Meta::List { path, nested } => MetaModel::List {
                path: path.deep_view(),
                nested: nested.deep_view(),
            },
            Meta::NameValue { path, lit } => MetaModel::NameValue {
                path: path.deep_view(),
                lit: lit.deep_view(),
            },
        }
    }
}

impl DeepView for Attribute {
    type V = AttributeModel;

    open spec fn deep_view(&self) -> AttributeModel {
        match *self {
            Attribute::Meta { meta } => AttributeModel::Meta { meta: meta.deep_view() },
            Attribute::Opaque => AttributeModel::Opaque,
        }
    }
}

impl MetaModel {
    /// The path that the attribute starts with.
    pub open spec fn path(self) -> PathModel {
        match self {
            MetaModel::Path { path } => path,
            MetaModel::List { path, .. } => path,
            MetaModel::NameValue { path, .. } => path,
        }
    }
}

impl NestedMeta {
    /// The name and the literal of a pair.
    pub fn as_name_value(&self) -> (r: Option<(&MetaPath, &Literal)>)
        ensures
            match *self {
                NestedMeta::NameValue { path, lit } => r == Some((&path, &lit)),
                _ => r is None,
            },
    {
        match self {
            NestedMeta::NameValue { path, lit } => Some((path, lit)),
            _ => None,
        }
    }
}

impl Meta {
    /// The path that the attribute starts with.
    pub fn path(&self) -> (r: &MetaPath)
        ensures
            r.deep_view() == self.deep_view().path(),
    {
        match self {
            Meta::Path { path } => path,
            Meta::List { path, .. } => path,
            Meta::NameValue { path, .. } => path,
        }
    }

    /// The elements of a list.
    pub fn as_list(&self) -> (r: Option<&Vec<NestedMeta>>)
        ensures
            match *self {
                Meta::List { nested, .. } => r == Some(&nested),
                _ => r is None,
            },
    {
        match self {
            Meta::List { nested, .. } => Some(nested),
            _ => None,
        }
    }
}

impl Literal {
    /// The value of a string literal.
    pub fn as_str(&self) -> (r: Option<&String>)
        ensures
            match *self {
                Literal::Str(s) => r == Some(&s),
                Literal::Other => r is None,
            },
    {
        match self {
            Literal::Str(s) => Some(s),
            Literal::Other => None,
        }
    }
}

} // verus!
