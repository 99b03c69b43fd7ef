//! Directives: the attribute that says how an item is formatted.

use crate::collect::{collect, lemma_collect_err, lemma_collect_ok};
use crate::error::{Error, ErrorKind, Part};
use crate::generated::{Argument, ArgumentModel};
use crate::meta::{
    Attribute, AttributeModel, Literal, LiteralModel, Meta, MetaModel, NestedMeta, NestedMetaModel,
};
use crate::placeholder::{resolve, slots};
use crate::syntax::{lexes, lexes_as_tokens};
use vstd::prelude::*;

verus! {

/// A directive, read and checked.
#[derive(Clone, Debug, PartialEq, Eq)]
pub struct Directive {
    /// Its format string.
    pub format: String,
    /// The arguments behind the format string, in order.
    pub args: Vec<Argument>,
    /// Whether it stands on an enum and wraps, in its one placeholder, what
    /// each variant writes.
    pub wrapper: bool,
}

/// A directive as plain text.
pub struct DirectiveModel {
    pub format: Seq<char>,
    pub args: Seq<ArgumentModel>,
    pub wrapper: bool,
}

impl DeepView for Directive {
    type V = DirectiveModel;

    open spec fn deep_view(&self) -> DirectiveModel {
        DirectiveModel { format: self.format@, args: self.args.deep_view(), wrapper: self.wrapper }
    }
}

/// Whether the attribute is a directive under the key: it has a structured
/// form, and its path starts with the key.
pub open spec fn is_directive(attr: AttributeModel, key: Seq<char>) -> bool {
    attr matches AttributeModel::Meta { meta } && meta.path().first() == Some(key)
}

/// The place of the first directive under the key at or after `i`; the
/// number of attributes where none follows.
pub open spec fn directive_from(attrs: Seq<AttributeModel>, key: Seq<char>, i: int) -> int
    decreases attrs.len() - i,
{
    if 0 <= i < attrs.len() && !is_directive(attrs[i], key) {
        directive_from(attrs, key, i + 1)
    } else {
        i
    }
}

/// The place of the one directive under the key among the attributes;
/// `None` where there is none, a failure where there are more.
pub open spec fn spec_find_meta(attrs: Seq<AttributeModel>, key: Seq<char>) -> Result<
    Option<int>,
    Error,
> {
    let first = directive_from(attrs, key, 0);
    if first >= attrs.len() {
        Ok(None)
    } else if directive_from(attrs, key, first + 1) < attrs.len() {
        Err(Error::spec_new(ErrorKind::TooManyFormats, Part::Directive))
    } else {
        Ok(Some(first))
    }
}

/// The format string that the element holds, where it is the pair of the
/// name `fmt` and a string literal.
pub open spec fn spec_format_literal(item: NestedMetaModel) -> Option<Seq<char>> {
    match item {
        NestedMetaModel::NameValue { path, lit: LiteralModel::Str(s) } => if path.ident() == Some(
            "fmt"@,
        ) {
            Some(s)
        } else {
            None
        },
        _ => None,
    }
}

/// The argument that the element at place `index` of a directive is: a
/// string literal that is code, given by `lexes`, or a path.
pub open spec fn spec_argument(item: NestedMetaModel, index: int, lexes: bool) -> Result<
    ArgumentModel,
    Error,
> {
    match item {
        NestedMetaModel::Lit { lit: LiteralModel::Str(s) } => if lexes {
            Ok(ArgumentModel::Code(s))
        } else {
            Err(Error::spec_new(ErrorKind::ArgumentNotCode, Part::Element(index as usize)))
        },
        NestedMetaModel::Path { path } => Ok(ArgumentModel::Path(path)),
        _ => Err(Error::spec_new(ErrorKind::ProperSyntax, Part::Element(index as usize))),
    }
}

/// Whether the element is a string literal that is code.
pub open spec fn spec_is_code(item: NestedMetaModel) -> bool {
    item matches NestedMetaModel::Lit { lit: LiteralModel::Str(s) } && lexes_as_tokens(s)
}

/// The argument that each element behind the first is.
pub open spec fn spec_argument_results(nested: Seq<NestedMetaModel>) -> Seq<
    Result<ArgumentModel, Error>,
> {
    Seq::new(
        (nested.len() - 1) as nat,
        |k: int| spec_argument(nested[k + 1], k + 1, spec_is_code(nested[k + 1])),
    )
}

/// What the attribute says as a directive; `outer_enum` where it stands on
/// an enum.
pub open spec fn spec_directive(meta: MetaModel, outer_enum: bool) -> Result<
    DirectiveModel,
    Error,
> {
    match meta {
        MetaModel::List { path, nested } => {
            if nested.len() == 0 {
                Err(Error::spec_new(ErrorKind::ProperSyntax, Part::Directive))
            } else {
                match spec_format_literal(nested[0]) {
                    None => Err(Error::spec_new(ErrorKind::ProperSyntax, Part::Element(0))),
                    Some(format) => {
                        if outer_enum && nested.len() > 1 {
                            Err(Error::spec_new(ErrorKind::SingleFmtArgument, Part::Element(1)))
                        } else if outer_enum && slots(format).len() > 1 {
                            Err(Error::spec_new(ErrorKind::TooManyPlaceholders, Part::Element(0)))
                        } else if outer_enum && slots(format).len() == 1 {
                            Ok(DirectiveModel { format, args: Seq::empty(), wrapper: true })
                        } else {
                            match collect(spec_argument_results(nested)) {
                                Err(e) => Err(e),
                                Ok(args) => Ok(DirectiveModel { format, args, wrapper: false }),
                            }
                        }
                    },
                }
            }
        },
        _ => Err(Error::spec_new(ErrorKind::ProperSyntax, Part::Directive)),
    }
}

/// Past attributes that are no directives, the next directive is the same.
proof fn lemma_directive_run(attrs: Seq<AttributeModel>, key: Seq<char>, i: int, j: int)
    requires
        0 <= i <= j <= attrs.len(),
        forall|k: int| i <= k < j ==> !is_directive(#[trigger] attrs[k], key),
    ensures
        directive_from(attrs, key, i) == directive_from(attrs, key, j),
    decreases j - i,
{
    if i < j {
        lemma_directive_run(attrs, key, i + 1, j);
    }
}

/// The place of the first directive under the key at or after `from`.
fn next_directive(attrs: &Vec<Attribute>, key: &str, from: usize) -> (r: usize)
    requires
        from <= attrs.len(),
    ensures
        r == directive_from(attrs.deep_view(), key@, from as int),
        from <= r <= attrs.len(),
        r < attrs.len() ==> is_directive(attrs.deep_view()[r as int], key@),
{
    let mut i: usize = from;
    while i < attrs.len()
        invariant
            from <= i <= attrs.len(),
            forall|k: int| from <= k < i ==> !is_directive(#[trigger] attrs.deep_view()[k], key@),
        decreases attrs.len() - i,
    {
        let found = match &attrs[i] {
            Attribute::Meta { meta } => meta.path().first_is(key),
            Attribute::Opaque => false,
        };
        proof {
            assert(attrs.deep_view()[i as int] == attrs@[i as int].deep_view());
        }
        if found {
            proof {
                lemma_directive_run(attrs.deep_view(), key@, from as int, i as int);
            }
            return i;
        }
        i += 1;
    }
    proof {
        lemma_directive_run(attrs.deep_view(), key@, from as int, i as int);
    }
    i
}

/// The one directive under the key among the attributes; `None` where there
/// is none, a failure where there are more.
pub fn find_directive<'b>(attrs: &'b Vec<Attribute>, key: &str) -> (r: Result<
    Option<&'b Meta>,
    Error,
>)
    ensures
        match spec_find_meta(attrs.deep_view(), key@) {
            Err(e) => r == Err::<Option<&Meta>, Error>(e),
            Ok(None) => r == Ok::<Option<&Meta>, Error>(None),
            Ok(Some(i)) => r matches Ok(Some(m)) && 0 <= i < attrs@.len() && attrs@[i]
                == (Attribute::Meta { meta: *m }),
        },
{
    let first = next_directive(attrs, key, 0);
    if first >= attrs.len() {
        return Ok(None);
    }
    if next_directive(attrs, key, first + 1) < attrs.len() {
        return Err(Error::new(ErrorKind::TooManyFormats, Part::Directive));
    }
    match &attrs[first] {
        Attribute::Meta { meta } => Ok(Some(meta)),
        Attribute::Opaque => {
            proof {
                assert(attrs.deep_view()[first as int] == attrs@[first as int].deep_view());
                assert(false);
            }
            vstd::pervasive::unreached()
        },
    }
}

/// The format string that the element holds, where it is the pair of the
/// name `fmt` and a string literal.
pub fn format_literal(item: &NestedMeta) -> (r: Option<&String>)
    ensures
        r.deep_view() == spec_format_literal(item.deep_view()),
{
    match item.as_name_value() {
        Some((path, lit)) => match lit.as_str() {
            Some(s) => if path.is_ident("fmt") {
                Some(s)
            } else {
                None
            },
            None => None,
        },
        None => None,
    }
}

/// The argument that the element at place `index` of a directive is.
/// `lexes` says whether the element, where it is a string literal, is code.
pub fn argument_of(item: &NestedMeta, index: usize, lexes: bool) -> (r: Result<Argument, Error>)
    ensures
        match r {
            Ok(a) => spec_argument(item.deep_view(), index as int, lexes) == Ok::<
                ArgumentModel,
                Error,
            >(a.deep_view()),
            Err(e) => spec_argument(item.deep_view(), index as int, lexes) == Err::<
                ArgumentModel,
                Error,
            >(e),
        },
{
    match item {
        NestedMeta::Lit { lit: Literal::Str(s) } => if lexes {
            Ok(Argument::Code(s.clone()))
        } else {
            Err(Error::new(ErrorKind::ArgumentNotCode, Part::Element(index)))
        },
        NestedMeta::Path { path } => Ok(Argument::Path(path.duplicate())),
        _ => Err(Error::new(ErrorKind::ProperSyntax, Part::Element(index))),
    }
}

/// Whether the element is a string literal that is code.
pub fn is_code(item: &NestedMeta) -> (r: bool)
    ensures
        r == spec_is_code(item.deep_view()),
{
    match item {
        NestedMeta::Lit { lit: Literal::Str(s) } => lexes(s.as_str()),
        _ => false,
    }
}

/// What the attribute says as a directive; `outer_enum` where it stands on
/// an enum.
#[verifier::loop_isolation(false)]
pub fn read_directive(meta: &Meta, outer_enum: bool) -> (r: Result<Directive, Error>)
    ensures
        match r {
            Ok(d) => spec_directive(meta.deep_view(), outer_enum) == Ok::<DirectiveModel, Error>(
                d.deep_view(),
            ),
            Err(e) => spec_directive(meta.deep_view(), outer_enum) == Err::<DirectiveModel, Error>(
                e,
            ),
        },
{
    let nested = match meta.as_list() {
        Some(nested) => nested,
        None => {
            return Err(Error::new(ErrorKind::ProperSyntax, Part::Directive));
        },
    };
    if nested.len() == 0 {
        return Err(Error::new(ErrorKind::ProperSyntax, Part::Directive));
    }
    let format = match format_literal(&nested[0]) {
        Some(s) => s,
        None => {
            return Err(Error::new(ErrorKind::ProperSyntax, Part::Element(0)));
        },
    };
    if outer_enum {
        if nested.len() > 1 {
            return Err(Error::new(ErrorKind::SingleFmtArgument, Part::Element(1)));
        }
        let count = resolve(format.as_str()).len();
        if count > 1 {
            return Err(Error::new(ErrorKind::TooManyPlaceholders, Part::Element(0)));
        }
        if count == 1 {
            let d = Directive { format: format.clone(), args: Vec::new(), wrapper: true };
            proof {
                assert(d.args.deep_view() =~= Seq::<ArgumentModel>::empty());
            }
            return Ok(d);
        }
    }
    let ghost results = spec_argument_results(nested.deep_view());
    proof {
        assert(nested.deep_view()[0] == nested@[0].deep_view());
    }
    let mut args: Vec<Argument> = Vec::new();
    let mut k: usize = 1;
    while k < nested.len()
        invariant
            1 <= k <= nested.len(),
            results == spec_argument_results(nested.deep_view()),
            args.len() == k - 1,
            forall|j: int|
                0 <= j < k - 1 ==> #[trigger] results[j] == Ok::<ArgumentModel, Error>(
                    args[j].deep_view(),
                ),
        decreases nested.len() - k,
    {
        let item = &nested[k];
        proof {
            assert(nested.deep_view()[k as int] == item.deep_view());
        }
        match argument_of(item, k, is_code(item)) {
            Ok(a) => {
                args.push(a);
            },
            Err(e) => {
                proof {
                    assert(results[k - 1] == Err::<ArgumentModel, Error>(e));
                    lemma_collect_err(results, k - 1);
                }
                return Err(e);
            },
        }
        k += 1;
    }
    proof {
        lemma_collect_ok(results);
        assert(args.deep_view() =~= Seq::new(results.len(), |i: int| results[i]->Ok_0));
    }
    Ok(Directive { format: format.clone(), args, wrapper: false })
}

} // verus!
