//! The implementation of a formatting behaviour for a declared type.

use crate::behavior::Behavior;
use crate::bounds::{
    argument_idents, bounds_for, has_type_param, inferred_bounds, lemma_no_type_params,
    lemma_no_type_params_ordered, spec_has_type_param, spec_idents, spec_inferred_bounds,
    spec_inferred_ordered, spec_used_bounds, spec_used_ordered,
};
use crate::collect::{collect, lemma_collect_err, lemma_collect_ok};
use crate::declaration::{
    Data, DataModel, Declaration, DeclarationModel, FieldType, Fields, FieldsModel, Variant,
    VariantModel,
};
use crate::directive::{
    find_directive, read_directive, spec_directive, spec_find_meta, Directive, DirectiveModel,
};
use crate::error::{Error, ErrorKind, Part};
use crate::generated::{
    spec_merge, spec_where_clause, where_clause, ArmBody, ArmBodyModel, Binding, BindingModel,
    BoundModel, BoundSet, Implementation, MatchArm, MatchArmModel, Pattern, PatternModel,
    Rendering, RenderingModel,
};
use crate::meta::{Attribute, AttributeModel, Meta};
use crate::placeholder::{resolve, slots};
use crate::text::{positional, positional_name};
use vstd::prelude::*;

verus! {

/// A relation between declared types and the behaviours they must implement.
pub type Bounds = Set<(Seq<char>, Behavior)>;

/// How a pattern binds the fields: each named field under its name, each
/// field of a tuple under an underscore and its position.
pub open spec fn spec_matcher(fields: FieldsModel) -> BindingModel {
    match fields {
        FieldsModel::Unit => BindingModel::Unit,
        FieldsModel::Unnamed(v) => BindingModel::Tuple(
            Seq::new(v.len(), |k: int| positional_name(k as nat)),
        ),
        FieldsModel::Named(v) => BindingModel::Named(Seq::new(v.len(), |k: int| v[k].name)),
    }
}

/// What is written for an item without a directive: its name where it has no
/// field, its field where it has one. With more fields nothing can be
/// inferred.
pub open spec fn spec_infer(fields: FieldsModel, name: Seq<char>) -> Result<RenderingModel, Error> {
    if fields.len() == 0 {
        Ok(RenderingModel::Name(name))
    } else if fields.len() == 1 {
        Ok(RenderingModel::Forward(fields.name(0)))
    } else {
        Err(Error::spec_new(ErrorKind::TooManyFields, Part::Fields))
    }
}

/// The formatted write that a directive asks for.
pub open spec fn spec_written(d: DirectiveModel) -> RenderingModel {
    RenderingModel::Write { format: d.format, args: d.args }
}

/// The arm that writes `value` for the declared type or, with a name, for
/// one of its variants.
pub open spec fn spec_arm(
    variant: Option<Seq<char>>,
    fields: FieldsModel,
    outer: Option<Seq<char>>,
    value: RenderingModel,
) -> MatchArmModel {
    MatchArmModel {
        pattern: PatternModel::Item { variant, binding: spec_matcher(fields) },
        body: ArmBodyModel::Write { outer, value },
    }
}

/// The arm that writes `value` whatever is matched.
pub open spec fn spec_any_arm(value: RenderingModel) -> MatchArmModel {
    MatchArmModel { pattern: PatternModel::Any, body: ArmBodyModel::Write { outer: None, value } }
}

/// The arm that matches everything and writes nothing.
pub open spec fn spec_last_arm() -> MatchArmModel {
    MatchArmModel { pattern: PatternModel::Any, body: ArmBodyModel::Nothing }
}

/// What is written for a struct, or for a variant of an enum without a
/// directive of its own, and the bounds that this brings: by the item's
/// directive where it has one, else inferred from its fields.
pub open spec fn spec_shape(
    type_params: Seq<Seq<char>>,
    behavior: Behavior,
    attrs: Seq<AttributeModel>,
    fields: FieldsModel,
    name: Seq<char>,
) -> Result<(RenderingModel, Bounds), Error> {
    match spec_find_meta(attrs, behavior.spec_attr_key()) {
        Err(e) => Err(e),
        Ok(Some(i)) => match spec_directive(attrs[i]->meta, false) {
            Err(e) => Err(e),
            Ok(d) => Ok(
                (
                    spec_written(d),
                    spec_used_bounds(type_params, fields, slots(d.format), spec_idents(d.args)),
                ),
            ),
        },
        Ok(None) => match spec_infer(fields, name) {
            Err(e) => Err(e),
            Ok(value) => Ok((value, spec_inferred_bounds(type_params, fields, behavior))),
        },
    }
}

/// The bounds that a struct, or a variant of an enum without a directive of
/// its own, brings, in their order: those of its directive in the order of
/// the placeholders, or the one that is inferred. None where the item fails.
pub open spec fn spec_shape_ordered(
    type_params: Seq<Seq<char>>,
    behavior: Behavior,
    attrs: Seq<AttributeModel>,
    fields: FieldsModel,
) -> Seq<BoundModel> {
    match spec_find_meta(attrs, behavior.spec_attr_key()) {
        Err(_) => Seq::empty(),
        Ok(Some(i)) => match spec_directive(attrs[i]->meta, false) {
            Err(_) => Seq::empty(),
            Ok(d) => spec_used_ordered(
                type_params,
                fields,
                slots(d.format),
                spec_idents(d.args),
                slots(d.format).len() as int,
            ),
        },
        Ok(None) => spec_inferred_ordered(type_params, fields, behavior),
    }
}

/// The bounds of the first `n` variants of an enum without a directive, in
/// their order: those of each variant in turn are added to those before.
pub open spec fn spec_variants_ordered(
    type_params: Seq<Seq<char>>,
    behavior: Behavior,
    variants: Seq<VariantModel>,
    n: int,
) -> Seq<BoundModel>
    decreases n,
{
    if n <= 0 {
        Seq::empty()
    } else {
        spec_merge(
            spec_variants_ordered(type_params, behavior, variants, n - 1),
            spec_shape_ordered(
                type_params,
                behavior,
                variants[n - 1].attrs,
                variants[n - 1].fields,
            ),
        )
    }
}

/// The bounds of the generated implementation, in their order: a type
/// stands where a placeholder or a variant first brought it, a behaviour
/// where one first brought it for its type.
pub open spec fn spec_ordered_bounds(decl: DeclarationModel, behavior: Behavior) -> Seq<
    BoundModel,
> {
    match decl.data {
        DataModel::Struct(fields) => spec_shape_ordered(
            decl.type_params,
            behavior,
            decl.attrs,
            fields,
        ),
        DataModel::Union => Seq::empty(),
        DataModel::Enum(variants) => if spec_find_meta(decl.attrs, behavior.spec_attr_key())
            == Ok::<Option<int>, Error>(None) {
            spec_variants_ordered(decl.type_params, behavior, variants, variants.len() as int)
        } else {
            Seq::empty()
        },
    }
}

/// The arm of the variant at place `v` of an enum without a directive, and
/// the bounds that it brings.
pub open spec fn spec_variant_arm(
    type_params: Seq<Seq<char>>,
    behavior: Behavior,
    variant: VariantModel,
    v: int,
) -> Result<(MatchArmModel, Bounds), Error> {
    match spec_shape(type_params, behavior, variant.attrs, variant.fields, variant.name) {
        Err(e) => Err(e.spec_in_variant(v)),
        Ok((value, bounds)) => Ok(
            (spec_arm(Some(variant.name), variant.fields, None, value), bounds),
        ),
    }
}

/// The arm of each variant of an enum without a directive, with its bounds.
pub open spec fn spec_variant_arms(
    type_params: Seq<Seq<char>>,
    behavior: Behavior,
    variants: Seq<VariantModel>,
) -> Seq<Result<(MatchArmModel, Bounds), Error>> {
    Seq::new(variants.len(), |v: int| spec_variant_arm(type_params, behavior, variants[v], v))
}

/// The arm of the variant at place `v` of an enum whose directive wraps what
/// each variant writes: the variant may have no directive, and what it
/// writes is inferred from its fields.
pub open spec fn spec_wrapped_arm(
    behavior: Behavior,
    variant: VariantModel,
    v: int,
    outer: Seq<char>,
) -> Result<MatchArmModel, Error> {
    match spec_find_meta(variant.attrs, behavior.spec_attr_key()) {
        Err(e) => Err(e.spec_in_variant(v)),
        Ok(Some(_)) => Err(
            Error::spec_new(ErrorKind::VariantFormatUnderWrapper, Part::Directive).spec_in_variant(
                v,
            ),
        ),
        Ok(None) => match spec_infer(variant.fields, variant.name) {
            Err(e) => Err(e.spec_in_variant(v)),
            Ok(value) => Ok(spec_arm(Some(variant.name), variant.fields, Some(outer), value)),
        },
    }
}

/// The arm of each variant of an enum whose directive wraps what each
/// variant writes.
pub open spec fn spec_wrapped_arms(
    behavior: Behavior,
    variants: Seq<VariantModel>,
    outer: Seq<char>,
) -> Seq<Result<MatchArmModel, Error>> {
    Seq::new(variants.len(), |v: int| spec_wrapped_arm(behavior, variants[v], v, outer))
}

/// Whether the variant at place `v` may stand below a directive of the enum
/// that has no placeholder: it may have no directive.
pub open spec fn spec_plain_variant(behavior: Behavior, variant: VariantModel, v: int) -> Result<
    (),
    Error,
> {
    match spec_find_meta(variant.attrs, behavior.spec_attr_key()) {
        Err(e) => Err(e.spec_in_variant(v)),
        Ok(Some(_)) => Err(
            Error::spec_new(ErrorKind::VariantFormatUnderLiteral, Part::Directive).spec_in_variant(
                v,
            ),
        ),
        Ok(None) => Ok(()),
    }
}

/// For each variant, whether it may stand below a directive of the enum that
/// has no placeholder.
pub open spec fn spec_plain_variants(behavior: Behavior, variants: Seq<VariantModel>) -> Seq<
    Result<(), Error>,
> {
    Seq::new(variants.len(), |v: int| spec_plain_variant(behavior, variants[v], v))
}

/// The bounds of all the variants together.
pub open spec fn spec_merged(items: Seq<(MatchArmModel, Bounds)>) -> Bounds {
    Set::new(
        |p: (Seq<char>, Behavior)|
            exists|v: int| 0 <= v < items.len() && (#[trigger] items[v]).1.contains(p),
    )
}

/// The arms of the match for the declared type, in order, and the bounds
/// that they bring.
pub open spec fn spec_match_arms(decl: DeclarationModel, behavior: Behavior) -> Result<
    (Seq<MatchArmModel>, Bounds),
    Error,
> {
    let key = behavior.spec_attr_key();
    let type_params = decl.type_params;
    match decl.data {
        DataModel::Struct(fields) => match spec_shape(
            type_params,
            behavior,
            decl.attrs,
            fields,
            decl.name,
        ) {
            Err(e) => Err(e),
            Ok((value, bounds)) => Ok((seq![spec_arm(None, fields, None, value)], bounds)),
        },
        DataModel::Union => match spec_find_meta(decl.attrs, key) {
            Err(e) => Err(e),
            Ok(None) => Err(Error::spec_new(ErrorKind::UnionWithoutFormat, Part::Item)),
            Ok(Some(i)) => match spec_directive(decl.attrs[i]->meta, false) {
                Err(e) => Err(e),
                Ok(d) => Ok((seq![spec_any_arm(spec_written(d))], Set::empty())),
            },
        },
        DataModel::Enum(variants) => match spec_find_meta(decl.attrs, key) {
            Err(e) => Err(e),
            Ok(Some(i)) => match spec_directive(decl.attrs[i]->meta, true) {
                Err(e) => Err(e),
                Ok(d) => if d.wrapper {
                    match collect(spec_wrapped_arms(behavior, variants, d.format)) {
                        Err(e) => Err(e),
                        Ok(arms) => Ok((arms, Set::empty())),
                    }
                } else {
                    match collect(spec_plain_variants(behavior, variants)) {
                        Err(e) => Err(e),
                        Ok(_) => Ok((seq![spec_any_arm(spec_written(d))], Set::empty())),
                    }
                },
            },
            Ok(None) => match collect(spec_variant_arms(type_params, behavior, variants)) {
                Err(e) => Err(e),
                Ok(items) => Ok(
                    (Seq::new(items.len(), |v: int| items[v].0), spec_merged(items)),
                ),
            },
        },
    }
}

/// The arms of the generated match, in order, and the bounds of the
/// generated implementation: behind the arms for the declared type stands
/// one that matches everything and writes nothing.
pub open spec fn spec_expand(decl: DeclarationModel, behavior: Behavior) -> Result<
    (Seq<MatchArmModel>, Bounds),
    Error,
> {
    match spec_match_arms(decl, behavior) {
        Err(e) => Err(e),
        Ok((arms, bounds)) => Ok((arms.push(spec_last_arm()), bounds)),
    }
}

/// What the derivation works on: the declaration and the behaviour to
/// implement for it.
pub struct State<'a> {
    pub behavior: Behavior,
    pub input: &'a Declaration,
}

impl<'a> State<'a> {
    /// The hint at the proper syntax of a directive.
    pub fn get_proper_fmt_syntax(&self) -> (r: String)
        ensures
            r@ == ErrorKind::ProperSyntax.spec_message(self.behavior),
    {
        ErrorKind::ProperSyntax.message(self.behavior)
    }

    /// How a pattern binds the fields.
    pub fn get_matcher(&self, fields: &Fields) -> (r: Binding)
        ensures
            r.deep_view() == spec_matcher(fields.deep_view()),
    {
        match fields {
            Fields::Unit => Binding::Unit,
            Fields::Unnamed(v) => {
                let mut names: Vec<String> = Vec::new();
                let mut k: usize = 0;
                while k < v.len()
                    invariant
                        k <= v.len(),
                        names.len() == k,
                        forall|j: int|
                            0 <= j < k ==> (#[trigger] names[j])@ == positional_name(j as nat),
                    decreases v.len() - k,
                {
                    names.push(positional(k));
                    k += 1;
                }
                proof {
                    assert(names.deep_view() =~= Seq::new(
                        v.deep_view().len(),
                        |k: int| positional_name(k as nat),
                    ));
                }
                Binding::Tuple(names)
            },
            Fields::Named(v) => {
                let mut names: Vec<String> = Vec::new();
                let mut k: usize = 0;
                while k < v.len()
                    invariant
                        k <= v.len(),
                        names.len() == k,
                        forall|j: int| 0 <= j < k ==> (#[trigger] names[j])@ == v@[j].name@,
                    decreases v.len() - k,
                {
                    names.push(v[k].name.clone());
                    k += 1;
                }
                proof {
                    assert(names.deep_view() =~= Seq::new(
                        v.deep_view().len(),
                        |k: int| v.deep_view()[k].name,
                    ));
                }
                Binding::Named(names)
            },
        }
    }

    /// The one directive for the behaviour among the attributes; `None`
    /// where there is none, a failure where there are more.
    pub fn find_meta<'b>(&self, attrs: &'b Vec<Attribute>) -> (r: Result<Option<&'b Meta>, Error>)
        ensures
            match spec_find_meta(attrs.deep_view(), self.behavior.spec_attr_key()) {
                Err(e) => r == Err::<Option<&Meta>, Error>(e),
                Ok(None) => r == Ok::<Option<&Meta>, Error>(None),
                Ok(Some(i)) => r matches Ok(Some(m)) && 0 <= i < attrs@.len() && attrs@[i]
                    == (Attribute::Meta { meta: *m }),
            },
    {
        find_directive(attrs, self.behavior.attr_key())
    }

    /// What the attribute says as a directive; `outer_enum` where it stands
    /// on an enum.
    pub fn get_meta_fmt(&self, meta: &Meta, outer_enum: bool) -> (r: Result<Directive, Error>)
        ensures
            match r {
                Ok(d) => spec_directive(meta.deep_view(), outer_enum) == Ok::<
                    DirectiveModel,
                    Error,
                >(d.deep_view()),
                Err(e) => spec_directive(meta.deep_view(), outer_enum) == Err::<
                    DirectiveModel,
                    Error,
                >(e),
            },
    {
        read_directive(meta, outer_enum)
    }

    /// What is written for an item without a directive.
    pub fn infer_fmt(&self, fields: &Fields, name: &str) -> (r: Result<Rendering, Error>)
        ensures
            match r {
                Ok(value) => spec_infer(fields.deep_view(), name@) == Ok::<RenderingModel, Error>(
                    value.deep_view(),
                ),
                Err(e) => spec_infer(fields.deep_view(), name@) == Err::<RenderingModel, Error>(e),
            },
    {
        let n = fields.len();
        if n == 0 {
            Ok(Rendering::Name(String::from_str(name)))
        } else if n == 1 {
            Ok(Rendering::Forward(fields.field_name(0)))
        } else {
            Err(Error::new(ErrorKind::TooManyFields, Part::Fields))
        }
    }

    /// Whether the declared type starts with a type parameter of the
    /// declaration.
    pub fn has_type_param_in(&self, ty: &FieldType) -> (r: bool)
        ensures
            r == spec_has_type_param(self.input.type_params.deep_view(), ty.deep_view()),
    {
        has_type_param(&self.input.type_params, ty)
    }

    /// The bounds that the placeholders of a directive bring.
    pub fn get_used_type_params_bounds(&self, fields: &Fields, directive: &Directive) -> (r:
        BoundSet)
        ensures
            r.wf(),
            r.pairs() == spec_used_bounds(
                self.input.type_params.deep_view(),
                fields.deep_view(),
                slots(directive.format@),
                spec_idents(directive.args.deep_view()),
            ),
            r.deep_view() == spec_used_ordered(
                self.input.type_params.deep_view(),
                fields.deep_view(),
                slots(directive.format@),
                spec_idents(directive.args.deep_view()),
                slots(directive.format@).len() as int,
            ),
    {
        if self.input.type_params.len() == 0 {
            proof {
                assert(self.input.type_params.deep_view() =~= Seq::<Seq<char>>::empty());
                lemma_no_type_params(
                    fields.deep_view(),
                    slots(directive.format@),
                    spec_idents(directive.args.deep_view()),
                );
                lemma_no_type_params_ordered(
                    fields.deep_view(),
                    slots(directive.format@),
                    spec_idents(directive.args.deep_view()),
                    slots(directive.format@).len() as int,
                );
            }
            return BoundSet::new();
        }
        let idents = argument_idents(&directive.args);
        let found = resolve(directive.format.as_str());
        bounds_for(&self.input.type_params, fields, &found, &idents)
    }

    /// The bound that formatting without a directive brings.
    pub fn infer_type_params_bounds(&self, fields: &Fields) -> (r: BoundSet)
        ensures
            r.wf(),
            r.pairs() == spec_inferred_bounds(
                self.input.type_params.deep_view(),
                fields.deep_view(),
                self.behavior,
            ),
            r.deep_view() == spec_inferred_ordered(
                self.input.type_params.deep_view(),
                fields.deep_view(),
                self.behavior,
            ),
    {
        inferred_bounds(&self.input.type_params, fields, self.behavior)
    }

    /// What is written for a struct, or for a variant of an enum without a
    /// directive of its own, and the bounds that this brings.
    pub fn shape(&self, attrs: &Vec<Attribute>, fields: &Fields, name: &str) -> (r: Result<
        (Rendering, BoundSet),
        Error,
    >)
        ensures
            match r {
                Ok((value, bounds)) => {
                    &&& spec_shape(
                        self.input.type_params.deep_view(),
                        self.behavior,
                        attrs.deep_view(),
                        fields.deep_view(),
                        name@,
                    ) matches Ok(m)
                    &&& value.deep_view() == m.0
                    &&& bounds.pairs() == m.1
                    &&& bounds.wf()
                    &&& bounds.deep_view() == spec_shape_ordered(
                        self.input.type_params.deep_view(),
                        self.behavior,
                        attrs.deep_view(),
                        fields.deep_view(),
                    )
                },
                Err(e) => spec_shape(
                    self.input.type_params.deep_view(),
                    self.behavior,
                    attrs.deep_view(),
                    fields.deep_view(),
                    name@,
                ) == Err::<(RenderingModel, Bounds), Error>(e),
            },
    {
        match self.find_meta(attrs) {
            Err(e) => Err(e),
            Ok(Some(meta)) => match self.get_meta_fmt(meta, false) {
                Err(e) => Err(e),
                Ok(d) => {
                    let bounds = self.get_used_type_params_bounds(fields, &d);
                    Ok((Rendering::Write { format: d.format, args: d.args }, bounds))
                },
            },
            Ok(None) => match self.infer_fmt(fields, name) {
                Err(e) => Err(e),
                Ok(value) => {
                    let bounds = self.infer_type_params_bounds(fields);
                    Ok((value, bounds))
                },
            },
        }
    }

    /// The arm of each variant of an enum whose directive wraps what each
    /// variant writes, in the order of the variants; the failure of the
    /// first variant that fails.
    pub fn wrapped_arms(&self, variants: &Vec<Variant>, outer: &str) -> (r: Result<
        Vec<MatchArm>,
        Error,
    >)
        ensures
            match r {
                Ok(arms) => collect(
                    spec_wrapped_arms(self.behavior, variants.deep_view(), outer@),
                ) == Ok::<Seq<MatchArmModel>, Error>(arms.deep_view()),
                Err(e) => collect(
                    spec_wrapped_arms(self.behavior, variants.deep_view(), outer@),
                ) == Err::<Seq<MatchArmModel>, Error>(e),
            },
    {
        let ghost results = spec_wrapped_arms(self.behavior, variants.deep_view(), outer@);
        let mut arms: Vec<MatchArm> = Vec::new();
        let mut v: usize = 0;
        while v < variants.len()
            invariant
                v <= variants.len(),
                results == spec_wrapped_arms(self.behavior, variants.deep_view(), outer@),
                arms.len() == v,
                forall|j: int|
                    0 <= j < v ==> #[trigger] results[j] == Ok::<MatchArmModel, Error>(
                        arms[j].deep_view(),
                    ),
            decreases variants.len() - v,
        {
            let variant = &variants[v];
            let found = match self.find_meta(&variant.attrs) {
                Err(e) => Err(e.in_variant(v)),
                Ok(Some(_)) => Err(
                    Error::new(ErrorKind::VariantFormatUnderWrapper, Part::Directive).in_variant(v),
                ),
                Ok(None) => match self.infer_fmt(&variant.fields, variant.name.as_str()) {
                    Err(e) => Err(e.in_variant(v)),
                    Ok(value) => Ok(
                        MatchArm {
                            pattern: Pattern::Item {
                                variant: Some(variant.name.clone()),
                                binding: self.get_matcher(&variant.fields),
                            },
                            body: ArmBody::Write { outer: Some(String::from_str(outer)), value },
                        },
                    ),
                },
            };
            match found {
                Err(e) => {
                    proof {
                        assert(results[v as int] == Err::<MatchArmModel, Error>(e));
                        lemma_collect_err(results, v as int);
                    }
                    return Err(e);
                },
                Ok(arm) => {
                    proof {
                        assert(results[v as int] == Ok::<MatchArmModel, Error>(arm.deep_view()));
                    }
                    arms.push(arm);
                },
            }
            v += 1;
        }
        proof {
            lemma_collect_ok(results);
            assert(arms.deep_view() =~= Seq::new(results.len(), |i: int| results[i]->Ok_0));
        }
        Ok(arms)
    }

    /// Whether every variant may stand below a directive of the enum that
    /// has no placeholder; the failure of the first that may not.
    pub fn check_plain_variants(&self, variants: &Vec<Variant>) -> (r: Result<(), Error>)
        ensures
            match r {
                Ok(_) => collect(spec_plain_variants(self.behavior, variants.deep_view())) is Ok,
                Err(e) => collect(spec_plain_variants(self.behavior, variants.deep_view()))
                    == Err::<Seq<()>, Error>(e),
            },
    {
        let ghost results = spec_plain_variants(self.behavior, variants.deep_view());
        let mut v: usize = 0;
        while v < variants.len()
            invariant
                v <= variants.len(),
                results == spec_plain_variants(self.behavior, variants.deep_view()),
                forall|j: int| 0 <= j < v ==> (#[trigger] results[j]) is Ok,
            decreases variants.len() - v,
        {
            let found = match self.find_meta(&variants[v].attrs) {
                Err(e) => Err(e.in_variant(v)),
                Ok(Some(_)) => Err(
                    Error::new(ErrorKind::VariantFormatUnderLiteral, Part::Directive).in_variant(v),
                ),
                Ok(None) => Ok(()),
            };
            match found {
                Err(e) => {
                    proof {
                        assert(results[v as int] == Err::<(), Error>(e));
                        lemma_collect_err(results, v as int);
                    }
                    return Err(e);
                },
                Ok(_) => {
                    proof {
                        assert(results[v as int] is Ok);
                    }
                },
            }
            v += 1;
        }
        proof {
            lemma_collect_ok(results);
        }
        Ok(())
    }

    /// The arm of each variant of an enum without a directive, in the order
    /// of the variants, and the bounds of all of them together; the failure
    /// of the first variant that fails.
    pub fn variant_arms(&self, variants: &Vec<Variant>) -> (r: Result<
        (Vec<MatchArm>, BoundSet),
        Error,
    >)
        ensures
            match r {
                Ok((arms, bounds)) => {
                    &&& collect(
                        spec_variant_arms(
                            self.input.type_params.deep_view(),
                            self.behavior,
                            variants.deep_view(),
                        ),
                    ) matches Ok(items)
                    &&& arms.deep_view() == Seq::new(items.len(), |v: int| items[v].0)
                    &&& bounds.pairs() == spec_merged(items)
                    &&& bounds.wf()
                    &&& bounds.deep_view() == spec_variants_ordered(
                        self.input.type_params.deep_view(),
                        self.behavior,
                        variants.deep_view(),
                        variants.len() as int,
                    )
                },
                Err(e) => collect(
                    spec_variant_arms(
                        self.input.type_params.deep_view(),
                        self.behavior,
                        variants.deep_view(),
                    ),
                ) == Err::<Seq<(MatchArmModel, Bounds)>, Error>(e),
            },
    {
        let ghost results = spec_variant_arms(
            self.input.type_params.deep_view(),
            self.behavior,
            variants.deep_view(),
        );
        let mut arms: Vec<MatchArm> = Vec::new();
        let mut all = BoundSet::new();
        let mut v: usize = 0;
        proof {
            assert(all.pairs() =~= spec_merged_upto(results, 0));
        }
        while v < variants.len()
            invariant
                v <= variants.len(),
                results == spec_variant_arms(
                    self.input.type_params.deep_view(),
                    self.behavior,
                    variants.deep_view(),
                ),
                arms.len() == v,
                forall|j: int| 0 <= j < v ==> (#[trigger] results[j]) is Ok,
                forall|j: int|
                    0 <= j < v ==> (#[trigger] arms[j]).deep_view() == results[j]->Ok_0.0,
                all.wf(),
                all.pairs() == spec_merged_upto(results, v as int),
                all.deep_view() == spec_variants_ordered(
                    self.input.type_params.deep_view(),
                    self.behavior,
                    variants.deep_view(),
                    v as int,
                ),
            decreases variants.len() - v,
        {
            let variant = &variants[v];
            match self.shape(&variant.attrs, &variant.fields, variant.name.as_str()) {
                Err(e) => {
                    let e = e.in_variant(v);
                    proof {
                        assert(results[v as int] == Err::<(MatchArmModel, Bounds), Error>(e));
                        lemma_collect_err(results, v as int);
                    }
                    return Err(e);
                },
                Ok((value, bounds)) => {
                    let arm = MatchArm {
                        pattern: Pattern::Item {
                            variant: Some(variant.name.clone()),
                            binding: self.get_matcher(&variant.fields),
                        },
                        body: ArmBody::Write { outer: None, value },
                    };
                    let ghost before = all.pairs();
                    all.merge(&bounds);
                    proof {
                        assert(results[v as int] is Ok);
                        assert(results[v as int]->Ok_0.0 == arm.deep_view());
                        assert(results[v as int]->Ok_0.1 == bounds.pairs());
                        assert(spec_merged_upto(results, v + 1) =~= before.union(bounds.pairs()));
                        assert(variants.deep_view()[v as int] == variant.deep_view());
                    }
                    arms.push(arm);
                },
            }
            v += 1;
        }
        proof {
            lemma_collect_ok(results);
            let items = Seq::new(results.len(), |i: int| results[i]->Ok_0);
            assert(arms.deep_view() =~= Seq::new(items.len(), |v: int| items[v].0));
            assert forall|p: (Seq<char>, Behavior)|
                spec_merged(items).contains(p) <==> spec_merged_upto(results, v as int).contains(
                    p,
                ) by {
                if spec_merged(items).contains(p) {
                    let w = choose|w: int|
                        0 <= w < items.len() && (#[trigger] items[w]).1.contains(p);
                    assert(results[w]->Ok_0.1.contains(p));
                }
                if spec_merged_upto(results, v as int).contains(p) {
                    let w = choose|w: int|
                        0 <= w < v && w < results.len() && (#[trigger] results[w])->Ok_0.1.contains(
                            p,
                        );
                    assert(items[w].1.contains(p));
                }
            }
            assert(spec_merged(items) =~= spec_merged_upto(results, v as int));
        }
        Ok((arms, all))
    }

    /// The arms of the match for the declared type, in order, and the bounds
    /// that they bring.
    pub fn get_match_arms_and_extra_bounds(&self) -> (r: Result<(Vec<MatchArm>, BoundSet), Error>)
        ensures
            match r {
                Ok((arms, bounds)) => {
                    &&& spec_match_arms(self.input.deep_view(), self.behavior) matches Ok(m)
                    &&& arms.deep_view() == m.0
                    &&& bounds.pairs() == m.1
                    &&& bounds.wf()
                    &&& bounds.deep_view() == spec_ordered_bounds(
                        self.input.deep_view(),
                        self.behavior,
                    )
                },
                Err(e) => spec_match_arms(self.input.deep_view(), self.behavior) == Err::<
                    (Seq<MatchArmModel>, Bounds),
                    Error,
                >(e),
            },
    {
        match &self.input.data {
            Data::Struct(fields) => match self.shape(
                &self.input.attrs,
                fields,
                self.input.name.as_str(),
            ) {
                Err(e) => Err(e),
                Ok((value, bounds)) => {
                    let arm = MatchArm {
                        pattern: Pattern::Item { variant: None, binding: self.get_matcher(fields) },
                        body: ArmBody::Write { outer: None, value },
                    };
                    let mut arms: Vec<MatchArm> = Vec::new();
                    arms.push(arm);
                    proof {
                        assert(arms.deep_view() =~= seq![arm.deep_view()]);
                    }
                    Ok((arms, bounds))
                },
            },
            Data::Union => match self.find_meta(&self.input.attrs) {
                Err(e) => Err(e),
                Ok(None) => Err(Error::new(ErrorKind::UnionWithoutFormat, Part::Item)),
                Ok(Some(meta)) => match self.get_meta_fmt(meta, false) {
                    Err(e) => Err(e),
                    Ok(d) => Ok((self.single_arm(d), BoundSet::new())),
                },
            },
            Data::Enum(variants) => match self.find_meta(&self.input.attrs) {
                Err(e) => Err(e),
                Ok(Some(meta)) => match self.get_meta_fmt(meta, true) {
                    Err(e) => Err(e),
                    Ok(d) => if d.wrapper {
                        match self.wrapped_arms(variants, d.format.as_str()) {
                            Err(e) => Err(e),
                            Ok(arms) => Ok((arms, BoundSet::new())),
                        }
                    } else {
                        match self.check_plain_variants(variants) {
                            Err(e) => Err(e),
                            Ok(_) => Ok((self.single_arm(d), BoundSet::new())),
                        }
                    },
                },
                Ok(None) => self.variant_arms(variants),
            },
        }
    }

    /// The one arm that writes what a directive asks for, whatever is
    /// matched.
    pub fn single_arm(&self, d: Directive) -> (r: Vec<MatchArm>)
        ensures
            r.deep_view() == seq![spec_any_arm(spec_written(d.deep_view()))],
    {
        let arm = MatchArm {
            pattern: Pattern::Any,
            body: ArmBody::Write {
                outer: None,
                value: Rendering::Write { format: d.format, args: d.args },
            },
        };
        let mut arms: Vec<MatchArm> = Vec::new();
        arms.push(arm);
        proof {
            assert(arms.deep_view() =~= seq![arm.deep_view()]);
        }
        arms
    }
}

/// The bounds of the first `n` variants together.
pub open spec fn spec_merged_upto(
    results: Seq<Result<(MatchArmModel, Bounds), Error>>,
    n: int,
) -> Bounds {
    Set::new(
        |p: (Seq<char>, Behavior)|
            exists|v: int|
                0 <= v < n && v < results.len() && (#[trigger] results[v])->Ok_0.1.contains(p),
    )
}

/// Derives the implementation of `behavior` for the declared type: the arms
/// of its match, the bounds that it needs on the types of the fields, and
/// its where clause, which is that of the declaration with the bounds added
/// behind it.
pub fn expand_for(input: &Declaration, behavior: Behavior) -> (r: Result<Implementation, Error>)
    ensures
        match r {
            Ok(g) => {
                &&& spec_expand(input.deep_view(), behavior) matches Ok(m)
                &&& g.arms.deep_view() == m.0
                &&& g.bounds.pairs() == m.1
                &&& g.bounds.wf()
                &&& g.bounds.deep_view() == spec_ordered_bounds(input.deep_view(), behavior)
                &&& g.name@ == input.name@
                &&& g.behavior == behavior
                &&& g.where_clause.deep_view() == spec_where_clause(
                    input.where_predicates.deep_view(),
                    spec_ordered_bounds(input.deep_view(), behavior),
                )
            },
            Err(e) => spec_expand(input.deep_view(), behavior) == Err::<
                (Seq<MatchArmModel>, Bounds),
                Error,
            >(e),
        },
{
    let state = State { behavior, input };
    match state.get_match_arms_and_extra_bounds() {
        Err(e) => Err(e),
        Ok((found, bounds)) => {
            let mut arms = found;
            let last = MatchArm { pattern: Pattern::Any, body: ArmBody::Nothing };
            arms.push(last);
            proof {
                assert(arms.deep_view() =~= found.deep_view().push(spec_last_arm()));
            }
            let where_clause = where_clause(&input.where_predicates, &bounds);
            Ok(Implementation { name: input.name.clone(), behavior, arms, bounds, where_clause })
        },
    }
}

/// Derives the implementation of the behaviour that `trait_name` stands for:
/// the name of one of the nine traits, with or without `Custom` at its end.
pub fn expand(input: &Declaration, trait_name: &str) -> (r: Result<Implementation, Error>)
    requires
        Behavior::spec_requested(trait_name@) is Some,
    ensures
        match r {
            Ok(g) => {
                &&& spec_expand(
                    input.deep_view(),
                    Behavior::spec_requested(trait_name@)->0,
                ) matches Ok(m)
                &&& g.arms.deep_view() == m.0
                &&& g.bounds.pairs() == m.1
                &&& g.bounds.wf()
                &&& g.bounds.deep_view() == spec_ordered_bounds(
                    input.deep_view(),
                    Behavior::spec_requested(trait_name@)->0,
                )
                &&& g.name@ == input.name@
                &&& Some(g.behavior) == Behavior::spec_requested(trait_name@)
                &&& g.where_clause.deep_view() == spec_where_clause(
                    input.where_predicates.deep_view(),
                    spec_ordered_bounds(
                        input.deep_view(),
                        Behavior::spec_requested(trait_name@)->0,
                    ),
                )
            },
            Err(e) => spec_expand(
                input.deep_view(),
                Behavior::spec_requested(trait_name@)->0,
            ) == Err::<(Seq<MatchArmModel>, Bounds), Error>(e),
        },
{
    match Behavior::requested(trait_name) {
        Some(behavior) => expand_for(input, behavior),
        None => {
            proof {
                assert(false);
            }
            vstd::pervasive::unreached()
        },
    }
}

} // verus!
