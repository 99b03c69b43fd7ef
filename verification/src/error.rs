//! What can go wrong, and where in the declaration.

use crate::behavior::Behavior;
use vstd::prelude::*;

verus! {

/// The kinds of failure.
#[derive(Clone, Copy, Debug, PartialEq, Eq, Structural)]
pub enum ErrorKind {
    /// More than one directive for the behaviour stands on one item.
    TooManyFormats,
    /// A directive is no list, its first element is no `fmt = "..."` pair,
    /// or an argument is neither a string literal nor a path.
    ProperSyntax,
    /// A directive on an enum holds more than its `fmt` pair.
    SingleFmtArgument,
    /// The format of a directive on an enum has more than one placeholder.
    TooManyPlaceholders,
    /// A string argument is no sequence of tokens.
    ArgumentNotCode,
    /// A variant has a directive, and so has its enum, without placeholder.
    VariantFormatUnderLiteral,
    /// A variant has a directive, and so has its enum, with one placeholder.
    VariantFormatUnderWrapper,
    /// No directive, and more than one field.
    TooManyFields,
    /// No directive on a union.
    UnionWithoutFormat,
}

/// The part of an item that a failure points at.
#[derive(Clone, Copy, Debug, PartialEq, Eq, Structural)]
pub enum Part {
    /// The whole item.
    Item,
    /// Its fields.
    Fields,
    /// Its directive: the first attribute with the behaviour's key.
    Directive,
    /// The element of its directive at this position.
    Element(usize),
}

/// A failure, with the place it points at.
#[derive(Clone, Copy, Debug, PartialEq, Eq)]
pub struct Error {
    pub kind: ErrorKind,
    /// The variant in which it lies; `None` for the declaration itself.
    pub variant: Option<usize>,
    pub part: Part,
}

impl Error {
    /// A failure on the declaration itself.
    pub open spec fn spec_new(kind: ErrorKind, part: Part) -> Error {
        Error { kind, variant: None, part }
    }

    /// The same failure, in the variant at `index`.
    pub open spec fn spec_in_variant(self, index: int) -> Error {
        Error { kind: self.kind, variant: Some(index as usize), part: self.part }
    }

    /// A failure on the declaration itself.
    #[verifier::when_used_as_spec(spec_new)]
    pub fn new(kind: ErrorKind, part: Part) -> (r: Error)
        ensures
            r == Self::spec_new(kind, part),
    {
        Error { kind, variant: None, part }
    }

    /// The same failure, in the variant at `index`.
    pub fn in_variant(self, index: usize) -> (r: Error)
        ensures
            r == self.spec_in_variant(index as int),
    {
        Error { kind: self.kind, variant: Some(index), part: self.part }
    }
}

/// The text before the key in the hint at the proper syntax of a directive.
pub open spec fn syntax_hint_head() -> Seq<char> {
    "Proper syntax: #["@
}

/// The text behind the key in the hint at the proper syntax of a directive.
pub open spec fn syntax_hint_tail() -> Seq<char> {
    "(fmt = \"My format\", \"arg1\", \"arg2\")]"@
}

impl ErrorKind {
    /// The message of a failure of this kind, for a given behaviour.
    pub open spec fn spec_message(self, behavior: Behavior) -> Seq<char> {
        match self {
            ErrorKind::TooManyFormats => "Too many formats given"@,
            ErrorKind::ProperSyntax => syntax_hint_head() + behavior.spec_attr_key()
                + syntax_hint_tail(),
            ErrorKind::SingleFmtArgument => "`fmt` formatting requires a single `fmt` argument"@,
            ErrorKind::TooManyPlaceholders => "fmt string for enum should have at at most 1 placeholder"@,
            ErrorKind::ArgumentNotCode => "lex error"@,
            ErrorKind::VariantFormatUnderLiteral => "`fmt` cannot be used on variant when the whole enum has a format string without a placeholder, maybe you want to add a placeholder?"@,
            ErrorKind::VariantFormatUnderWrapper => "`fmt` cannot be used on variant when the whole enum has a format string with a placeholder"@,
            ErrorKind::TooManyFields => "Can not automatically infer format for types with more than 1 field"@,
            ErrorKind::UnionWithoutFormat => "Can not automatically infer format for unions"@,
        }
    }

    /// The message of a failure of this kind, for a given behaviour.
    pub fn message(self, behavior: Behavior) -> (r: String)
        ensures
            r@ == self.spec_message(behavior),
    {
        match self {
            ErrorKind::TooManyFormats => String::from_str("Too many formats given"),
            ErrorKind::ProperSyntax => {
                let mut out = String::from_str("Proper syntax: #[");
                out.append(behavior.attr_key());
                out.append("(fmt = \"My format\", \"arg1\", \"arg2\")]");
                out
            },
            ErrorKind::SingleFmtArgument => String::from_str(
                "`fmt` formatting requires a single `fmt` argument",
            ),
            ErrorKind::TooManyPlaceholders => String::from_str(
                "fmt string for enum should have at at most 1 placeholder",
            ),
            ErrorKind::ArgumentNotCode => String::from_str("lex error"),
            ErrorKind::VariantFormatUnderLiteral => String::from_str(
                "`fmt` cannot be used on variant when the whole enum has a format string without a placeholder, maybe you want to add a placeholder?",
            ),
            ErrorKind::VariantFormatUnderWrapper => String::from_str(
                "`fmt` cannot be used on variant when the whole enum has a format string with a placeholder",
            ),
            ErrorKind::TooManyFields => String::from_str(
                "Can not automatically infer format for types with more than 1 field",
            ),
            ErrorKind::UnionWithoutFormat => String::from_str(
                "Can not automatically infer format for unions",
            ),
        }
    }
}

} // verus!
