//! What holds of every format string and of every declaration.

use crate::behavior::Behavior;
use crate::bounds::{
    lemma_no_type_params, spec_has_type_param, spec_hit, spec_idents, spec_participant,
    spec_used_bounds,
};
use crate::collect::{collect, lemma_collect, lemma_collect_ok};
use crate::declaration::{DataModel, DeclarationModel, FieldsModel};
use crate::directive::{
    directive_from, is_directive, spec_argument_results, spec_directive, spec_find_meta,
    DirectiveModel,
};
use crate::display::{
    spec_any_arm, spec_expand, spec_last_arm, spec_match_arms, spec_matcher, spec_plain_variant,
    spec_plain_variants, spec_shape, spec_variant_arm, spec_variant_arms, spec_written, Bounds,
};
use crate::error::{Error, ErrorKind, Part};
use crate::generated::{ArgumentModel, MatchArmModel, PatternModel, RenderingModel};
use crate::meta::AttributeModel;
use crate::parsing::{
    escape_at, is_brace, lemma_brace_from, lemma_placeholder_end, placeholder_at,
    placeholder_end, placeholder_texts, scan, scan_from,
};
use crate::placeholder::{
    asked_behavior, asked_index, implicit_before, lemma_implicit_before, slots, Slot,
};
use vstd::prelude::*;

verus! {

/// The placeholders found from `i` on are brace pairs with no brace inside,
/// start at or after `i`, do not overlap, and stand in the order of the
/// text.
pub proof fn lemma_scan_from(s: Seq<char>, i: int)
    requires
        0 <= i,
    ensures
        scan_from(s, i).len() <= s.len() - i || scan_from(s, i).len() == 0,
        forall|k: int|
            0 <= k < scan_from(s, i).len() ==> i <= (#[trigger] scan_from(s, i)[k]).0
                && placeholder_at(s, scan_from(s, i)[k].0, scan_from(s, i)[k].1),
        forall|k: int, l: int|
            0 <= k < l < scan_from(s, i).len() ==> (#[trigger] scan_from(s, i)[k]).1 <= (
            #[trigger] scan_from(s, i)[l]).0,
    decreases s.len() - i,
{
    if i >= s.len() {
    } else if escape_at(s, i) {
        lemma_scan_from(s, i + 2);
    } else {
        match placeholder_end(s, i) {
            Some(j) => {
                lemma_brace_from(s, i + 1);
                lemma_placeholder_end(s, i, j);
                lemma_scan_from(s, j);
                let rest = scan_from(s, j);
                let all = scan_from(s, i);
                assert(all == seq![(i, j)] + rest);
                assert(all[0] == (i, j));
                assert forall|k: int| 1 <= k < all.len() implies all[k] == rest[k - 1] by {}
            },
            None => {
                lemma_scan_from(s, i + 1);
            },
        }
    }
}

/// The placeholders of a format string are returned in the order in which
/// they stand in the text, whatever positions they name: each is a brace
/// pair with no brace inside, each ends before the next starts, and the
/// `k`-th resolved placeholder is that of the `k`-th text, with the
/// behaviour it asks for and with the position it names or, where it names
/// none, the number of placeholders before it that named none.
pub proof fn lemma_placeholders_in_textual_order(s: Seq<char>)
    requires
        s.len() <= usize::MAX,
    ensures
        slots(s).len() == scan(s).len(),
        forall|k: int|
            0 <= k < scan(s).len() ==> placeholder_at(s, (#[trigger] scan(s)[k]).0, scan(s)[k].1),
        forall|k: int, l: int|
            0 <= k < l < scan(s).len() ==> (#[trigger] scan(s)[k]).1 <= (#[trigger] scan(s)[l]).0,
        forall|k: int|
            0 <= k < slots(s).len() ==> (#[trigger] slots(s)[k]).behavior == asked_behavior(
                s.subrange(scan(s)[k].0, scan(s)[k].1),
            ),
        forall|k: int|
            0 <= k < slots(s).len() ==> (#[trigger] slots(s)[k]).position == match asked_index(
                s.subrange(scan(s)[k].0, scan(s)[k].1),
            ) {
                Some(n) => n as int,
                None => implicit_before(placeholder_texts(s), k) as int,
            },
{
    lemma_scan_from(s, 0);
    let texts = placeholder_texts(s);
    assert forall|k: int| 0 <= k < slots(s).len() implies (#[trigger] slots(s)[k]).position
        == match asked_index(s.subrange(scan(s)[k].0, scan(s)[k].1)) {
        Some(n) => n as int,
        None => implicit_before(texts, k) as int,
    } by {
        lemma_implicit_before(texts, k);
        assert(texts[k] == s.subrange(scan(s)[k].0, scan(s)[k].1));
    }
}

/// A placeholder that names its position takes none of the positions that
/// are given out in turn; one that names none takes the next.
pub proof fn lemma_implicit_positions(texts: Seq<Seq<char>>, k: int)
    requires
        0 <= k < texts.len(),
    ensures
        asked_index(texts[k]) is Some ==> implicit_before(texts, k + 1) == implicit_before(
            texts,
            k,
        ),
        asked_index(texts[k]) is None ==> implicit_before(texts, k + 1) == implicit_before(
            texts,
            k,
        ) + 1,
{
}

/// From `i` on the text holds no brace but doubled ones.
pub open spec fn literal_from(s: Seq<char>, i: int) -> bool
    decreases s.len() - i,
{
    if i < 0 || i >= s.len() {
        true
    } else if escape_at(s, i) {
        literal_from(s, i + 2)
    } else {
        !is_brace(s[i]) && literal_from(s, i + 1)
    }
}

/// From `i` on, a text whose braces are all doubled has no placeholder.
pub proof fn lemma_escaped_braces_yield_nothing(s: Seq<char>, i: int)
    requires
        literal_from(s, i),
    ensures
        scan_from(s, i) == Seq::<(int, int)>::empty(),
    decreases s.len() - i,
{
    if i < 0 || i >= s.len() {
    } else if escape_at(s, i) {
        lemma_escaped_braces_yield_nothing(s, i + 2);
    } else {
        lemma_escaped_braces_yield_nothing(s, i + 1);
    }
}

/// Escaped braces never produce placeholders: a format string whose braces
/// are all doubled has none.
pub proof fn lemma_escapes_are_no_placeholders(s: Seq<char>)
    requires
        literal_from(s, 0),
    ensures
        scan(s) == Seq::<(int, int)>::empty(),
        slots(s) == Seq::<Slot>::empty(),
{
    lemma_escaped_braces_yield_nothing(s, 0);
    assert(placeholder_texts(s) =~= Seq::<Seq<char>>::empty());
    assert(slots(s) =~= Seq::<Slot>::empty());
}

/// Each of the ten type selectors has its behaviour.
pub proof fn lemma_ten_selectors()
    ensures
        Behavior::spec_from_selector(seq![]) == Some(Behavior::Display),
        Behavior::spec_from_selector(seq!['?']) == Some(Behavior::Debug),
        Behavior::spec_from_selector(seq!['x', '?']) == Some(Behavior::Debug),
        Behavior::spec_from_selector(seq!['X', '?']) == Some(Behavior::Debug),
        Behavior::spec_from_selector(seq!['o']) == Some(Behavior::Octal),
        Behavior::spec_from_selector(seq!['x']) == Some(Behavior::LowerHex),
        Behavior::spec_from_selector(seq!['X']) == Some(Behavior::UpperHex),
        Behavior::spec_from_selector(seq!['p']) == Some(Behavior::Pointer),
        Behavior::spec_from_selector(seq!['b']) == Some(Behavior::Binary),
        Behavior::spec_from_selector(seq!['e']) == Some(Behavior::LowerExp),
        Behavior::spec_from_selector(seq!['E']) == Some(Behavior::UpperExp),
{
}

/// The first directive at or after `i` lies at or after `i`, no directive
/// lies between, and a directive lies there.
pub proof fn lemma_directive_from(attrs: Seq<AttributeModel>, key: Seq<char>, i: int)
    requires
        0 <= i <= attrs.len(),
    ensures
        i <= directive_from(attrs, key, i) <= attrs.len(),
        forall|k: int| i <= k < directive_from(attrs, key, i) ==> !is_directive(attrs[k], key),
        directive_from(attrs, key, i) < attrs.len() ==> is_directive(
            attrs[directive_from(attrs, key, i)],
            key,
        ),
    decreases attrs.len() - i,
{
    if i < attrs.len() && !is_directive(attrs[i], key) {
        lemma_directive_from(attrs, key, i + 1);
    }
}

/// The directive of an item is found where exactly one attribute is one;
/// none is found where no attribute is one; and two directives on one item
/// are too many.
pub proof fn lemma_find_meta(attrs: Seq<AttributeModel>, key: Seq<char>)
    ensures
        match spec_find_meta(attrs, key) {
            Ok(None) => forall|k: int| 0 <= k < attrs.len() ==> !is_directive(attrs[k], key),
            Ok(Some(i)) => {
                &&& 0 <= i < attrs.len()
                &&& forall|k: int|
                    0 <= k < attrs.len() ==> (is_directive(attrs[k], key) <==> k == i)
            },
            Err(e) => {
                &&& e == Error::spec_new(ErrorKind::TooManyFormats, Part::Directive)
                &&& exists|k: int, l: int|
                    0 <= k < l < attrs.len() && is_directive(attrs[k], key) && is_directive(
                        attrs[l],
                        key,
                    )
            },
        },
{
    lemma_directive_from(attrs, key, 0);
    let first = directive_from(attrs, key, 0);
    if first < attrs.len() {
        lemma_directive_from(attrs, key, first + 1);
    }
}

/// An item without directive and without fields renders its name, and
/// brings no bounds.
pub proof fn lemma_no_fields_render_the_name(
    type_params: Seq<Seq<char>>,
    behavior: Behavior,
    attrs: Seq<AttributeModel>,
    fields: FieldsModel,
    name: Seq<char>,
)
    requires
        spec_find_meta(attrs, behavior.spec_attr_key()) == Ok::<Option<int>, Error>(None),
        fields.len() == 0,
    ensures
        spec_shape(type_params, behavior, attrs, fields, name) == Ok::<
            (RenderingModel, Bounds),
            Error,
        >((RenderingModel::Name(name), Set::empty())),
{
}

/// For an item without directive and with more than one field nothing can
/// be inferred.
pub proof fn lemma_many_fields_fail(
    type_params: Seq<Seq<char>>,
    behavior: Behavior,
    attrs: Seq<AttributeModel>,
    fields: FieldsModel,
    name: Seq<char>,
)
    requires
        spec_find_meta(attrs, behavior.spec_attr_key()) == Ok::<Option<int>, Error>(None),
        fields.len() > 1,
    ensures
        spec_shape(type_params, behavior, attrs, fields, name) == Err::<
            (RenderingModel, Bounds),
            Error,
        >(Error::spec_new(ErrorKind::TooManyFields, Part::Fields)),
{
}

/// An item without directive and with one field whose type starts with a
/// type parameter forwards to the field and needs the requested behaviour
/// of the field's type, and nothing else.
pub proof fn lemma_generic_field_is_bound(
    type_params: Seq<Seq<char>>,
    behavior: Behavior,
    attrs: Seq<AttributeModel>,
    fields: FieldsModel,
    name: Seq<char>,
)
    requires
        spec_find_meta(attrs, behavior.spec_attr_key()) == Ok::<Option<int>, Error>(None),
        fields.len() == 1,
    ensures
        spec_shape(type_params, behavior, attrs, fields, name) matches Ok(m) && m.0
            == RenderingModel::Forward(fields.name(0)) && m.1 == if spec_has_type_param(
            type_params,
            fields.ty(0),
        ) {
            set![(fields.ty(0).text, behavior)]
        } else {
            Set::empty()
        },
{
}

/// A field that takes part is bound under the name asked for, and its type
/// starts with a type parameter.
pub proof fn lemma_participant(
    type_params: Seq<Seq<char>>,
    fields: FieldsModel,
    id: Seq<char>,
    n: int,
)
    ensures
        spec_participant(type_params, fields, id, n) matches Some(f) ==> 0 <= f < n
            && fields.name(f) == id && spec_has_type_param(type_params, fields.ty(f)),
    decreases n,
{
    if n > 0 {
        lemma_participant(type_params, fields, id, n - 1);
    }
}

/// A directive brings a bound only on the type of a field that one of its
/// placeholders takes by name, for the behaviour that this placeholder asks
/// for, and only where that type starts with a type parameter.
pub proof fn lemma_used_bounds_lead_with_type_params(
    type_params: Seq<Seq<char>>,
    fields: FieldsModel,
    slots: Seq<Slot>,
    idents: Seq<Option<Seq<char>>>,
    p: (Seq<char>, Behavior),
)
    requires
        spec_used_bounds(type_params, fields, slots, idents).contains(p),
    ensures
        exists|k: int, f: int|
            {
                &&& 0 <= k < slots.len()
                &&& 0 <= f < fields.len()
                &&& (#[trigger] slots[k]).behavior == p.1
                &&& slots[k].position < idents.len()
                &&& idents[slots[k].position as int] == Some(#[trigger] fields.name(f))
                &&& fields.ty(f).text == p.0
                &&& spec_has_type_param(type_params, fields.ty(f))
            },
{
    let k = choose|k: int|
        0 <= k < slots.len() && spec_hit(type_params, fields, idents, #[trigger] slots[k])
            == Some(p);
    let id = idents[slots[k].position as int]->0;
    lemma_participant(type_params, fields, id, fields.len() as int);
    let f = spec_participant(type_params, fields, id, fields.len() as int)->0;
    assert(idents[slots[k].position as int] == Some(fields.name(f)));
}

/// Below a directive of the enum that has no placeholder, every variant
/// renders as the directive's format and nothing else, with no bounds; and
/// where a variant has a directive of its own, the derivation fails in the
/// first such variant.
pub proof fn lemma_enum_directive_without_placeholder(
    decl: DeclarationModel,
    behavior: Behavior,
    i: int,
    d: DirectiveModel,
)
    requires
        decl.data is Enum,
        spec_find_meta(decl.attrs, behavior.spec_attr_key()) == Ok::<Option<int>, Error>(Some(i)),
        spec_directive(decl.attrs[i]->meta, true) == Ok::<DirectiveModel, Error>(d),
        slots(d.format).len() == 0,
    ensures
        d.args == Seq::<ArgumentModel>::empty(),
        match spec_match_arms(decl, behavior) {
            Ok(m) => {
                &&& m.0 == seq![
                    spec_any_arm(RenderingModel::Write { format: d.format, args: Seq::empty() }),
                ]
                &&& m.1 == Set::<(Seq<char>, Behavior)>::empty()
                &&& forall|v: int|
                    0 <= v < decl.data->Enum_0.len() ==> spec_find_meta(
                        (#[trigger] decl.data->Enum_0[v]).attrs,
                        behavior.spec_attr_key(),
                    ) == Ok::<Option<int>, Error>(None)
            },
            Err(e) => exists|v: int|
                {
                    &&& 0 <= v < decl.data->Enum_0.len()
                    &&& e.variant == Some(v as usize)
                    &&& spec_find_meta(
                        (#[trigger] decl.data->Enum_0[v]).attrs,
                        behavior.spec_attr_key(),
                    ) != Ok::<Option<int>, Error>(None)
                },
        },
{
    let variants = decl.data->Enum_0;
    let nested = decl.attrs[i]->meta->List_nested;
    assert(nested.len() == 1);
    let results = spec_argument_results(nested);
    assert(results.len() == 0);
    lemma_collect_ok(results);
    assert(d.args =~= Seq::<ArgumentModel>::empty());
    assert(!d.wrapper);
    assert(spec_written(d) == RenderingModel::Write { format: d.format, args: Seq::empty() });
    let checks = spec_plain_variants(behavior, variants);
    lemma_collect(checks);
    match collect(checks) {
        Ok(values) => {
            assert forall|v: int| 0 <= v < variants.len() implies spec_find_meta(
                (#[trigger] variants[v]).attrs,
                behavior.spec_attr_key(),
            ) == Ok::<Option<int>, Error>(None) by {
                assert(checks[v] == Ok::<(), Error>(values[v]));
                assert(checks[v] == spec_plain_variant(behavior, variants[v], v));
            }
        },
        Err(e) => {
            let v = choose|v: int|
                0 <= v < checks.len() && #[trigger] checks[v] == Err::<(), Error>(e) && forall|
                    j: int,
                |
                    0 <= j < v ==> (#[trigger] checks[j]) is Ok;
            assert(checks[v] == spec_plain_variant(behavior, variants[v], v));
            assert(spec_find_meta(variants[v].attrs, behavior.spec_attr_key()) != Ok::<
                Option<int>,
                Error,
            >(None));
        },
    }
}

/// An item of a declaration without type parameters brings no bounds.
pub proof fn lemma_shape_without_type_params(
    behavior: Behavior,
    attrs: Seq<AttributeModel>,
    fields: FieldsModel,
    name: Seq<char>,
)
    ensures
        spec_shape(Seq::empty(), behavior, attrs, fields, name) matches Ok(m) ==> m.1 == Set::<
            (Seq<char>, Behavior),
        >::empty(),
{
    if let Ok(Some(i)) = spec_find_meta(attrs, behavior.spec_attr_key()) {
        if let Ok(d) = spec_directive(attrs[i]->meta, false) {
            lemma_no_type_params(fields, slots(d.format), spec_idents(d.args));
        }
    }
}

/// The implementation for a declaration without type parameters needs no
/// bounds.
pub proof fn lemma_no_type_params_no_bounds(decl: DeclarationModel, behavior: Behavior)
    requires
        decl.type_params.len() == 0,
    ensures
        spec_expand(decl, behavior) matches Ok(m) ==> m.1 == Set::<(Seq<char>, Behavior)>::empty(),
{
    assert(decl.type_params =~= Seq::<Seq<char>>::empty());
    match decl.data {
        DataModel::Struct(fields) => {
            lemma_shape_without_type_params(behavior, decl.attrs, fields, decl.name);
        },
        DataModel::Union => {},
        DataModel::Enum(variants) => {
            if spec_find_meta(decl.attrs, behavior.spec_attr_key()) == Ok::<Option<int>, Error>(
                None,
            ) {
                let results = spec_variant_arms(decl.type_params, behavior, variants);
                lemma_collect(results);
                if let Ok(items) = collect(results) {
                    assert forall|v: int| 0 <= v < items.len() implies (#[trigger] items[v]).1
                        == Set::<(Seq<char>, Behavior)>::empty() by {
                        assert(results[v] == Ok::<(MatchArmModel, Bounds), Error>(items[v]));
                        lemma_shape_without_type_params(
                            behavior,
                            variants[v].attrs,
                            variants[v].fields,
                            variants[v].name,
                        );
                    }
                    assert(spec_match_arms(decl, behavior)->Ok_0.1 =~= Set::<
                        (Seq<char>, Behavior),
                    >::empty());
                }
            }
        },
    }
}

/// The generated match of an enum without a directive has one arm for each
/// variant, in the order of the variants, each with the variant's name and
/// fields in its pattern; and the last arm of every generated match matches
/// everything and writes nothing.
pub proof fn lemma_one_arm_per_variant(decl: DeclarationModel, behavior: Behavior)
    requires
        spec_expand(decl, behavior) is Ok,
    ensures
        spec_expand(decl, behavior)->Ok_0.0.last() == spec_last_arm(),
        decl.data is Enum && spec_find_meta(decl.attrs, behavior.spec_attr_key()) == Ok::<
            Option<int>,
            Error,
        >(None) ==> {
            let variants = decl.data->Enum_0;
            let arms = spec_expand(decl, behavior)->Ok_0.0;
            &&& arms.len() == variants.len() + 1
            &&& forall|v: int|
                0 <= v < variants.len() ==> (#[trigger] arms[v]).pattern == (PatternModel::Item {
                    variant: Some(variants[v].name),
                    binding: spec_matcher(variants[v].fields),
                })
        },
{
    if let DataModel::Enum(variants) = decl.data {
        if spec_find_meta(decl.attrs, behavior.spec_attr_key()) == Ok::<Option<int>, Error>(None) {
            let results = spec_variant_arms(decl.type_params, behavior, variants);
            lemma_collect(results);
            let items = collect(results)->Ok_0;
            let arms = spec_expand(decl, behavior)->Ok_0.0;
            assert forall|v: int| 0 <= v < variants.len() implies (#[trigger] arms[v]).pattern == (
            PatternModel::Item {
                variant: Some(variants[v].name),
                binding: spec_matcher(variants[v].fields),
            }) by {
                assert(results[v] == Ok::<(MatchArmModel, Bounds), Error>(items[v]));
                assert(results[v] == spec_variant_arm(decl.type_params, behavior, variants[v], v));
            }
        }
    }
}

} // verus!
