use fmt_derive::behavior::Behavior;
use fmt_derive::declaration::{Data, Declaration, FieldType, Fields, NamedField, Variant};
use fmt_derive::directive::{argument_of, Directive};
use fmt_derive::display::{expand, expand_for, State};
use fmt_derive::error::{Error, ErrorKind, Part};
use fmt_derive::generated::{
    Argument, ArmBody, Binding, Bound, BoundSet, MatchArm, Pattern, Predicate, Rendering,
};
use fmt_derive::meta::{Attribute, Literal, Meta, MetaPath, NestedMeta};

fn path(name: &str) -> MetaPath {
    MetaPath { leading_colon: false, segments: vec![name.to_string()] }
}

fn fmt(text: &str) -> NestedMeta {
    NestedMeta::NameValue { path: path("fmt"), lit: Literal::Str(text.to_string()) }
}

fn code(text: &str) -> NestedMeta {
    NestedMeta::Lit { lit: Literal::Str(text.to_string()) }
}

fn field(name: &str) -> NestedMeta {
    NestedMeta::Path { path: path(name) }
}

fn directive(key: &str, nested: Vec<NestedMeta>) -> Attribute {
    Attribute::Meta { meta: Meta::List { path: path(key), nested } }
}

fn param(name: &str) -> FieldType {
    FieldType { text: name.to_string(), head: Some(name.to_string()) }
}

fn ty(text: &str, head: &str) -> FieldType {
    FieldType { text: text.to_string(), head: Some(head.to_string()) }
}

fn named(name: &str, ty: FieldType) -> NamedField {
    NamedField { name: name.to_string(), ty }
}

fn decl(name: &str, type_params: &[&str], attrs: Vec<Attribute>, data: Data) -> Declaration {
    Declaration {
        name: name.to_string(),
        type_params: type_params.iter().map(|s| s.to_string()).collect(),
        where_predicates: vec![],
        attrs,
        data,
    }
}

fn variant(name: &str, attrs: Vec<Attribute>, fields: Fields) -> Variant {
    Variant { name: name.to_string(), attrs, fields }
}

fn last_arm() -> MatchArm {
    MatchArm { pattern: Pattern::Any, body: ArmBody::Nothing }
}

fn item_arm(variant: Option<&str>, binding: Binding, outer: Option<&str>, value: Rendering) -> MatchArm {
    MatchArm {
        pattern: Pattern::Item { variant: variant.map(|s| s.to_string()), binding },
        body: ArmBody::Write { outer: outer.map(|s| s.to_string()), value },
    }
}

fn any_arm(value: Rendering) -> MatchArm {
    MatchArm { pattern: Pattern::Any, body: ArmBody::Write { outer: None, value } }
}

fn write(format: &str, args: Vec<Argument>) -> Rendering {
    Rendering::Write { format: format.to_string(), args }
}

fn bound(ty: &str, behaviors: Vec<Behavior>) -> Bound {
    Bound { ty: ty.to_string(), behaviors }
}

fn failure(kind: ErrorKind, variant: Option<usize>, part: Part) -> Error {
    Error { kind, variant, part }
}

#[test]
fn unit_struct_renders_its_name() {
    let d = decl("Unit", &[], vec![], Data::Struct(Fields::Unit));
    let g = expand_for(&d, Behavior::Display).unwrap();
    assert_eq!(g.name, "Unit");
    assert_eq!(g.behavior, Behavior::Display);
    assert_eq!(
        g.arms,
        vec![
            item_arm(None, Binding::Unit, None, Rendering::Name("Unit".to_string())),
            last_arm(),
        ]
    );
    assert_eq!(g.bounds, BoundSet { bounds: vec![] });
}

#[test]
fn empty_tuple_and_empty_braces_render_the_name() {
    let d = decl("Unit", &[], vec![], Data::Struct(Fields::Unnamed(vec![])));
    let g = expand_for(&d, Behavior::Debug).unwrap();
    assert_eq!(
        g.arms[0],
        item_arm(None, Binding::Tuple(vec![]), None, Rendering::Name("Unit".to_string()))
    );
    let d = decl("Unit", &[], vec![], Data::Struct(Fields::Named(vec![])));
    let g = expand_for(&d, Behavior::Debug).unwrap();
    assert_eq!(
        g.arms[0],
        item_arm(None, Binding::Named(vec![]), None, Rendering::Name("Unit".to_string()))
    );
}

#[test]
fn unit_variant_renders_its_name() {
    let d = decl(
        "E",
        &[],
        vec![],
        Data::Enum(vec![variant("Unit", vec![], Fields::Unit)]),
    );
    let g = expand_for(&d, Behavior::Display).unwrap();
    assert_eq!(
        g.arms,
        vec![
            item_arm(Some("Unit"), Binding::Unit, None, Rendering::Name("Unit".to_string())),
            last_arm(),
        ]
    );
}

#[test]
fn single_field_is_forwarded() {
    let d = decl("W", &[], vec![], Data::Struct(Fields::Unnamed(vec![ty("i32", "i32")])));
    let g = expand_for(&d, Behavior::Octal).unwrap();
    assert_eq!(
        g.arms[0],
        item_arm(
            None,
            Binding::Tuple(vec!["_0".to_string()]),
            None,
            Rendering::Forward("_0".to_string())
        )
    );
    let d = decl(
        "W",
        &[],
        vec![],
        Data::Struct(Fields::Named(vec![named("inner", ty("i32", "i32"))])),
    );
    let g = expand_for(&d, Behavior::Octal).unwrap();
    assert_eq!(
        g.arms[0],
        item_arm(
            None,
            Binding::Named(vec!["inner".to_string()]),
            None,
            Rendering::Forward("inner".to_string())
        )
    );
}

#[test]
fn two_fields_cannot_be_inferred() {
    let d = decl(
        "Pair",
        &[],
        vec![],
        Data::Struct(Fields::Unnamed(vec![ty("i32", "i32"), ty("i32", "i32")])),
    );
    let e = expand_for(&d, Behavior::Display).unwrap_err();
    assert_eq!(e, failure(ErrorKind::TooManyFields, None, Part::Fields));
    assert_eq!(
        e.kind.message(Behavior::Display),
        "Can not automatically infer format for types with more than 1 field"
    );
}

#[test]
fn two_directives_are_too_many() {
    let d = decl(
        "S",
        &[],
        vec![
            directive("display", vec![fmt("a")]),
            Attribute::Opaque,
            directive("display", vec![fmt("b")]),
        ],
        Data::Struct(Fields::Unit),
    );
    let e = expand_for(&d, Behavior::Display).unwrap_err();
    assert_eq!(e, failure(ErrorKind::TooManyFormats, None, Part::Directive));
    assert_eq!(e.kind.message(Behavior::Display), "Too many formats given");
    // A directive for another behaviour does not count.
    let d = decl(
        "S",
        &[],
        vec![directive("display", vec![fmt("a")]), directive("debug", vec![fmt("b")])],
        Data::Struct(Fields::Unit),
    );
    let g = expand_for(&d, Behavior::Display).unwrap();
    assert_eq!(g.arms[0], item_arm(None, Binding::Unit, None, write("a", vec![])));
    let g = expand_for(&d, Behavior::Debug).unwrap();
    assert_eq!(g.arms[0], item_arm(None, Binding::Unit, None, write("b", vec![])));
}

#[test]
fn directive_key_is_the_first_segment() {
    let meta = Meta::List {
        path: MetaPath {
            leading_colon: false,
            segments: vec!["display".to_string(), "more".to_string()],
        },
        nested: vec![fmt("a")],
    };
    let d = decl("S", &[], vec![Attribute::Meta { meta }], Data::Struct(Fields::Unit));
    let g = expand_for(&d, Behavior::Display).unwrap();
    assert_eq!(g.arms[0], item_arm(None, Binding::Unit, None, write("a", vec![])));
}

#[test]
fn explicit_directive_keeps_format_and_arguments() {
    let d = decl(
        "Point",
        &[],
        vec![directive("display", vec![fmt("({}, {})"), field("x"), code("self.y()")])],
        Data::Struct(Fields::Named(vec![named("x", ty("i32", "i32")), named("y", ty("i32", "i32"))])),
    );
    let g = expand_for(&d, Behavior::Display).unwrap();
    assert_eq!(
        g.arms,
        vec![
            item_arm(
                None,
                Binding::Named(vec!["x".to_string(), "y".to_string()]),
                None,
                write(
                    "({}, {})",
                    vec![Argument::Path(path("x")), Argument::Code("self.y()".to_string())]
                )
            ),
            last_arm(),
        ]
    );
    assert!(g.bounds.bounds.is_empty());
}

#[test]
fn malformed_directives_get_the_syntax_hint() {
    let hint = "Proper syntax: #[display(fmt = \"My format\", \"arg1\", \"arg2\")]";
    let cases: Vec<(Attribute, Part)> = vec![
        (Attribute::Meta { meta: Meta::Path { path: path("display") } }, Part::Directive),
        (
            Attribute::Meta {
                meta: Meta::NameValue { path: path("display"), lit: Literal::Str("x".to_string()) },
            },
            Part::Directive,
        ),
        (directive("display", vec![]), Part::Directive),
        (directive("display", vec![code("x")]), Part::Element(0)),
        (directive("display", vec![field("fmt")]), Part::Element(0)),
        (
            directive(
                "display",
                vec![NestedMeta::NameValue { path: path("format"), lit: Literal::Str("x".to_string()) }],
            ),
            Part::Element(0),
        ),
        (
            directive(
                "display",
                vec![NestedMeta::NameValue { path: path("fmt"), lit: Literal::Other }],
            ),
            Part::Element(0),
        ),
        (
            directive(
                "display",
                vec![NestedMeta::NameValue {
                    path: MetaPath {
                        leading_colon: false,
                        segments: vec!["fmt".to_string(), "x".to_string()],
                    },
                    lit: Literal::Str("x".to_string()),
                }],
            ),
            Part::Element(0),
        ),
        (
            directive("display", vec![fmt("{}"), NestedMeta::Lit { lit: Literal::Other }]),
            Part::Element(1),
        ),
        (
            directive("display", vec![fmt("{}"), field("a"), NestedMeta::List { path: path("b") }]),
            Part::Element(2),
        ),
        (
            directive(
                "display",
                vec![
                    fmt("{}"),
                    NestedMeta::NameValue { path: path("a"), lit: Literal::Str("b".to_string()) },
                ],
            ),
            Part::Element(1),
        ),
    ];
    for (attr, part) in cases {
        let d = decl("S", &[], vec![attr], Data::Struct(Fields::Unit));
        let e = expand_for(&d, Behavior::Display).unwrap_err();
        assert_eq!(e, failure(ErrorKind::ProperSyntax, None, part));
        assert_eq!(e.kind.message(Behavior::Display), hint);
    }
    let state = State { behavior: Behavior::LowerHex, input: &decl("S", &[], vec![], Data::Union) };
    assert_eq!(
        state.get_proper_fmt_syntax(),
        "Proper syntax: #[lower_hex(fmt = \"My format\", \"arg1\", \"arg2\")]"
    );
}

#[test]
fn string_argument_must_be_code() {
    let d = decl(
        "S",
        &[],
        vec![directive("display", vec![fmt("{} {}"), code("a + 1"), code("(")])],
        Data::Struct(Fields::Unit),
    );
    let e = expand_for(&d, Behavior::Display).unwrap_err();
    assert_eq!(e, failure(ErrorKind::ArgumentNotCode, None, Part::Element(2)));
    assert_eq!(e.kind.message(Behavior::Display), "lex error");
}

#[test]
fn argument_of_decides_by_shape_and_lexing() {
    assert_eq!(argument_of(&code("a"), 3, true), Ok(Argument::Code("a".to_string())));
    assert_eq!(
        argument_of(&code("a"), 3, false),
        Err(failure(ErrorKind::ArgumentNotCode, None, Part::Element(3)))
    );
    assert_eq!(argument_of(&field("a"), 1, false), Ok(Argument::Path(path("a"))));
    assert_eq!(
        argument_of(&fmt("a"), 1, true),
        Err(failure(ErrorKind::ProperSyntax, None, Part::Element(1)))
    );
}

#[test]
fn union_needs_a_directive() {
    let d = decl("U", &[], vec![], Data::Union);
    let e = expand_for(&d, Behavior::Display).unwrap_err();
    assert_eq!(e, failure(ErrorKind::UnionWithoutFormat, None, Part::Item));
    assert_eq!(
        e.kind.message(Behavior::Display),
        "Can not automatically infer format for unions"
    );
    let d = decl("U", &["T"], vec![directive("display", vec![fmt("u")])], Data::Union);
    let g = expand_for(&d, Behavior::Display).unwrap();
    assert_eq!(g.arms, vec![any_arm(write("u", vec![])), last_arm()]);
    assert!(g.bounds.bounds.is_empty());
}

#[test]
fn empty_enum_has_only_the_last_arm() {
    let d = decl("Never", &[], vec![], Data::Enum(vec![]));
    let g = expand_for(&d, Behavior::Display).unwrap();
    assert_eq!(g.arms, vec![last_arm()]);
}

#[test]
fn enum_variants_in_source_order() {
    let d = decl(
        "E",
        &[],
        vec![],
        Data::Enum(vec![
            variant("A", vec![], Fields::Unit),
            variant(
                "B",
                vec![directive("display", vec![fmt("b {}"), field("_0")])],
                Fields::Unnamed(vec![ty("u8", "u8"), ty("u8", "u8")]),
            ),
            variant("C", vec![], Fields::Named(vec![named("c", ty("u8", "u8"))])),
        ]),
    );
    let g = expand_for(&d, Behavior::Display).unwrap();
    assert_eq!(
        g.arms,
        vec![
            item_arm(Some("A"), Binding::Unit, None, Rendering::Name("A".to_string())),
            item_arm(
                Some("B"),
                Binding::Tuple(vec!["_0".to_string(), "_1".to_string()]),
                None,
                write("b {}", vec![Argument::Path(path("_0"))])
            ),
            item_arm(
                Some("C"),
                Binding::Named(vec!["c".to_string()]),
                None,
                Rendering::Forward("c".to_string())
            ),
            last_arm(),
        ]
    );
}

#[test]
fn first_failing_variant_reports() {
    let d = decl(
        "E",
        &[],
        vec![],
        Data::Enum(vec![
            variant("A", vec![], Fields::Unit),
            variant("B", vec![], Fields::Unnamed(vec![ty("u8", "u8"), ty("u8", "u8")])),
            variant(
                "C",
                vec![directive("display", vec![]), directive("display", vec![])],
                Fields::Unit,
            ),
        ]),
    );
    let e = expand_for(&d, Behavior::Display).unwrap_err();
    assert_eq!(e, failure(ErrorKind::TooManyFields, Some(1), Part::Fields));
}

#[test]
fn enum_directive_without_placeholder_is_written_for_every_variant() {
    let variants = vec![
        variant("A", vec![], Fields::Unit),
        variant("B", vec![], Fields::Unnamed(vec![param("T"), param("T")])),
    ];
    let d = decl(
        "E",
        &["T"],
        vec![directive("display", vec![fmt("always {{this}}")])],
        Data::Enum(variants),
    );
    let g = expand_for(&d, Behavior::Display).unwrap();
    assert_eq!(g.arms, vec![any_arm(write("always {{this}}", vec![])), last_arm()]);
    assert!(g.bounds.bounds.is_empty());
}

#[test]
fn variant_directive_below_enum_directive_fails() {
    let variants = vec![
        variant("A", vec![], Fields::Unit),
        variant("B", vec![directive("display", vec![fmt("b")])], Fields::Unit),
    ];
    let d = decl(
        "E",
        &[],
        vec![directive("display", vec![fmt("literal")])],
        Data::Enum(variants.clone()),
    );
    let e = expand_for(&d, Behavior::Display).unwrap_err();
    assert_eq!(e, failure(ErrorKind::VariantFormatUnderLiteral, Some(1), Part::Directive));
    assert_eq!(
        e.kind.message(Behavior::Display),
        "`fmt` cannot be used on variant when the whole enum has a format string without a placeholder, maybe you want to add a placeholder?"
    );
    let d = decl(
        "E",
        &[],
        vec![directive("display", vec![fmt("wrapped: {}")])],
        Data::Enum(variants),
    );
    let e = expand_for(&d, Behavior::Display).unwrap_err();
    assert_eq!(e, failure(ErrorKind::VariantFormatUnderWrapper, Some(1), Part::Directive));
    assert_eq!(
        e.kind.message(Behavior::Display),
        "`fmt` cannot be used on variant when the whole enum has a format string with a placeholder"
    );
}

#[test]
fn enum_directive_with_one_placeholder_wraps_each_variant() {
    let d = decl(
        "E",
        &["T"],
        vec![directive("display", vec![fmt("<{}>")])],
        Data::Enum(vec![
            variant("A", vec![], Fields::Unit),
            variant("B", vec![], Fields::Unnamed(vec![param("T")])),
        ]),
    );
    let g = expand_for(&d, Behavior::Display).unwrap();
    assert_eq!(
        g.arms,
        vec![
            item_arm(Some("A"), Binding::Unit, Some("<{}>"), Rendering::Name("A".to_string())),
            item_arm(
                Some("B"),
                Binding::Tuple(vec!["_0".to_string()]),
                Some("<{}>"),
                Rendering::Forward("_0".to_string())
            ),
            last_arm(),
        ]
    );
    assert!(g.bounds.bounds.is_empty());
    // What cannot be inferred fails in the variant.
    let d = decl(
        "E",
        &[],
        vec![directive("display", vec![fmt("<{}>")])],
        Data::Enum(vec![variant("P", vec![], Fields::Unnamed(vec![param("T"), param("T")]))]),
    );
    assert_eq!(
        expand_for(&d, Behavior::Display).unwrap_err(),
        failure(ErrorKind::TooManyFields, Some(0), Part::Fields)
    );
}

#[test]
fn enum_directive_misuse() {
    let d = decl(
        "E",
        &[],
        vec![directive("display", vec![fmt("{} {}")])],
        Data::Enum(vec![]),
    );
    let e = expand_for(&d, Behavior::Display).unwrap_err();
    assert_eq!(e, failure(ErrorKind::TooManyPlaceholders, None, Part::Element(0)));
    assert_eq!(
        e.kind.message(Behavior::Display),
        "fmt string for enum should have at at most 1 placeholder"
    );
    let d = decl(
        "E",
        &[],
        vec![directive("display", vec![fmt("{}"), field("a")])],
        Data::Enum(vec![]),
    );
    let e = expand_for(&d, Behavior::Display).unwrap_err();
    assert_eq!(e, failure(ErrorKind::SingleFmtArgument, None, Part::Element(1)));
    assert_eq!(
        e.kind.message(Behavior::Display),
        "`fmt` formatting requires a single `fmt` argument"
    );
}

#[test]
fn generic_wrapper_needs_the_behavior_of_its_field() {
    let d = decl("W", &["T"], vec![], Data::Struct(Fields::Unnamed(vec![param("T")])));
    let g = expand_for(&d, Behavior::Display).unwrap();
    assert_eq!(g.bounds, BoundSet { bounds: vec![bound("T", vec![Behavior::Display])] });
    let g = expand_for(&d, Behavior::Debug).unwrap();
    assert_eq!(g.bounds, BoundSet { bounds: vec![bound("T", vec![Behavior::Debug])] });
    // The full type of the field is bound, not the parameter alone.
    let d = decl(
        "W",
        &["T"],
        vec![],
        Data::Struct(Fields::Named(vec![named("inner", ty("T :: Item", "T"))])),
    );
    let g = expand_for(&d, Behavior::UpperExp).unwrap();
    assert_eq!(g.bounds, BoundSet { bounds: vec![bound("T :: Item", vec![Behavior::UpperExp])] });
    // A type that does not start with a parameter brings no bound.
    let d = decl("W", &["T"], vec![], Data::Struct(Fields::Unnamed(vec![ty("Vec < T >", "Vec")])));
    let g = expand_for(&d, Behavior::Display).unwrap();
    assert!(g.bounds.bounds.is_empty());
    let reference = FieldType { text: "& T".to_string(), head: None };
    let d = decl("W", &["T"], vec![], Data::Struct(Fields::Unnamed(vec![reference])));
    let g = expand_for(&d, Behavior::Display).unwrap();
    assert!(g.bounds.bounds.is_empty());
    // Without type parameters there are no bounds.
    let d = decl("W", &[], vec![], Data::Struct(Fields::Unnamed(vec![param("T")])));
    let g = expand_for(&d, Behavior::Display).unwrap();
    assert!(g.bounds.bounds.is_empty());
}

#[test]
fn directive_bounds_follow_the_placeholders() {
    let fields = Fields::Named(vec![
        named("a", param("A")),
        named("b", param("B")),
        named("c", ty("i32", "i32")),
        named("d", param("A")),
    ]);
    let d = decl(
        "S",
        &["A", "B"],
        vec![directive(
            "display",
            vec![fmt("{} {:?} {0:x} {2} {3:e} {7} {4:?}"), field("a"), code("b"), field("c"), code("d"), code("a.len()")],
        )],
        Data::Struct(fields),
    );
    let g = expand_for(&d, Behavior::Display).unwrap();
    assert_eq!(
        g.bounds,
        BoundSet {
            bounds: vec![
                bound("A", vec![Behavior::Display, Behavior::LowerHex, Behavior::LowerExp]),
                bound("B", vec![Behavior::Debug]),
            ]
        }
    );
}

#[test]
fn directive_bounds_by_position_in_a_tuple() {
    let d = decl(
        "S",
        &["T"],
        vec![directive("binary", vec![fmt("{:b} {:o}"), field("_1"), code("_0")])],
        Data::Struct(Fields::Unnamed(vec![ty("u8", "u8"), param("T")])),
    );
    let g = expand_for(&d, Behavior::Binary).unwrap();
    assert_eq!(g.bounds, BoundSet { bounds: vec![bound("T", vec![Behavior::Binary])] });
}

#[test]
fn paths_longer_than_a_name_bring_no_bounds() {
    let long = NestedMeta::Path {
        path: MetaPath { leading_colon: false, segments: vec!["a".to_string(), "b".to_string()] },
    };
    let global = NestedMeta::Path {
        path: MetaPath { leading_colon: true, segments: vec!["a".to_string()] },
    };
    let d = decl(
        "S",
        &["T"],
        vec![directive(
            "display",
            vec![fmt("{} {} {} {}"), long, global, code("a::b"), code("a::<u8>")],
        )],
        Data::Struct(Fields::Named(vec![named("a", param("T"))])),
    );
    let g = expand_for(&d, Behavior::Display).unwrap();
    assert!(g.bounds.bounds.is_empty());
}

#[test]
fn variant_bounds_are_merged() {
    let d = decl(
        "E",
        &["T", "U"],
        vec![],
        Data::Enum(vec![
            variant("A", vec![], Fields::Unnamed(vec![param("T")])),
            variant(
                "B",
                vec![directive("display", vec![fmt("{:?} {:?}"), field("t"), field("u")])],
                Fields::Named(vec![named("t", param("T")), named("u", param("U"))]),
            ),
            variant("C", vec![], Fields::Unnamed(vec![param("U")])),
            variant("D", vec![], Fields::Unnamed(vec![param("T")])),
        ]),
    );
    let g = expand_for(&d, Behavior::Display).unwrap();
    assert_eq!(
        g.bounds,
        BoundSet {
            bounds: vec![
                bound("T", vec![Behavior::Display, Behavior::Debug]),
                bound("U", vec![Behavior::Debug, Behavior::Display]),
            ]
        }
    );
}

#[test]
fn state_methods_agree_with_expand() {
    let attrs = vec![directive("display", vec![fmt("{}"), field("x")])];
    let fields = Fields::Named(vec![named("x", param("T"))]);
    let d = decl("S", &["T"], attrs.clone(), Data::Struct(fields.clone()));
    let state = State { behavior: Behavior::Display, input: &d };
    let meta = state.find_meta(&attrs).unwrap().unwrap();
    let directive: Directive = state.get_meta_fmt(meta, false).unwrap();
    assert_eq!(
        directive,
        Directive {
            format: "{}".to_string(),
            args: vec![Argument::Path(path("x"))],
            wrapper: false,
        }
    );
    assert_eq!(
        state.get_meta_fmt(meta, true),
        Err(failure(ErrorKind::SingleFmtArgument, None, Part::Element(1)))
    );
    assert_eq!(state.get_matcher(&fields), Binding::Named(vec!["x".to_string()]));
    assert_eq!(state.infer_fmt(&fields, "S"), Ok(Rendering::Forward("x".to_string())));
    assert!(state.has_type_param_in(&param("T")));
    assert!(!state.has_type_param_in(&param("U")));
    assert_eq!(
        state.get_used_type_params_bounds(&fields, &directive),
        BoundSet { bounds: vec![bound("T", vec![Behavior::Display])] }
    );
    assert_eq!(
        state.infer_type_params_bounds(&fields),
        BoundSet { bounds: vec![bound("T", vec![Behavior::Display])] }
    );
    let (arms, bounds) = state.get_match_arms_and_extra_bounds().unwrap();
    assert_eq!(arms.len(), 1);
    assert_eq!(bounds.bounds.len(), 1);
}

#[test]
fn tuple_bindings_are_numbered_in_decimal() {
    let fields = Fields::Unnamed((0..12).map(|_| ty("u8", "u8")).collect());
    let d = decl("S", &[], vec![directive("display", vec![fmt("")])], Data::Struct(fields));
    let g = expand_for(&d, Behavior::Display).unwrap();
    let expected: Vec<String> = (0..12).map(|i| format!("_{}", i)).collect();
    assert_eq!(
        g.arms[0].pattern,
        Pattern::Item { variant: None, binding: Binding::Tuple(expected) }
    );
}

#[test]
fn expand_takes_the_name_of_the_trait() {
    let d = decl("W", &["T"], vec![], Data::Struct(Fields::Unnamed(vec![param("T")])));
    for (name, behavior) in vec![
        ("Display", Behavior::Display),
        ("Binary", Behavior::Binary),
        ("Octal", Behavior::Octal),
        ("LowerHex", Behavior::LowerHex),
        ("UpperHex", Behavior::UpperHex),
        ("LowerExp", Behavior::LowerExp),
        ("UpperExp", Behavior::UpperExp),
        ("Pointer", Behavior::Pointer),
        ("Debug", Behavior::Debug),
        ("DisplayCustom", Behavior::Display),
        ("DebugCustomCustom", Behavior::Debug),
    ] {
        assert_eq!(Behavior::requested(name), Some(behavior));
        let g = expand(&d, name).unwrap();
        assert_eq!(g.behavior, behavior);
        assert_eq!(g.bounds, BoundSet { bounds: vec![bound("T", vec![behavior])] });
    }
    assert_eq!(Behavior::requested("Custom"), None);
    assert_eq!(Behavior::requested("display"), None);
    assert_eq!(Behavior::requested("CustomDisplay"), None);
}

#[test]
fn behavior_tables() {
    let table = vec![
        (Behavior::Display, "Display", "display"),
        (Behavior::Binary, "Binary", "binary"),
        (Behavior::Octal, "Octal", "octal"),
        (Behavior::LowerHex, "LowerHex", "lower_hex"),
        (Behavior::UpperHex, "UpperHex", "upper_hex"),
        (Behavior::LowerExp, "LowerExp", "lower_exp"),
        (Behavior::UpperExp, "UpperExp", "upper_exp"),
        (Behavior::Pointer, "Pointer", "pointer"),
        (Behavior::Debug, "Debug", "debug"),
    ];
    for (behavior, name, key) in table {
        assert_eq!(behavior.trait_name(), name);
        assert_eq!(behavior.attr_key(), key);
        assert_eq!(behavior.trait_path(), format!("::core::fmt::{}", name));
        assert_eq!(Behavior::from_trait_name(name), Some(behavior));
    }
    assert_eq!(Behavior::from_trait_name("Write"), None);
}

#[test]
fn selectors_map_to_behaviors() {
    for (selector, behavior) in vec![
        ("", Some(Behavior::Display)),
        ("?", Some(Behavior::Debug)),
        ("x?", Some(Behavior::Debug)),
        ("X?", Some(Behavior::Debug)),
        ("o", Some(Behavior::Octal)),
        ("x", Some(Behavior::LowerHex)),
        ("X", Some(Behavior::UpperHex)),
        ("p", Some(Behavior::Pointer)),
        ("b", Some(Behavior::Binary)),
        ("e", Some(Behavior::LowerExp)),
        ("E", Some(Behavior::UpperExp)),
        ("d", None),
        ("??", None),
        ("o?", None),
        ("x?x", None),
    ] {
        assert_eq!(Behavior::from_selector(selector), behavior);
    }
}

#[test]
fn code_arguments_are_read_as_paths() {
    // The text of the argument is read as code: blanks around a name do not
    // belong to the name.
    let d = decl(
        "S",
        &["T"],
        vec![directive("display", vec![fmt("{:?}"), code(" inner ")])],
        Data::Struct(Fields::Named(vec![named("inner", param("T"))])),
    );
    let g = expand_for(&d, Behavior::Display).unwrap();
    assert_eq!(g.bounds, BoundSet { bounds: vec![bound("T", vec![Behavior::Debug])] });
    assert_eq!(
        g.arms[0],
        item_arm(
            None,
            Binding::Named(vec!["inner".to_string()]),
            None,
            write("{:?}", vec![Argument::Code(" inner ".to_string())])
        )
    );
    // Code that is more than a name brings no bound.
    let d = decl(
        "S",
        &["T"],
        vec![directive("display", vec![fmt("{:?}"), code("inner.len()")])],
        Data::Struct(Fields::Named(vec![named("inner", param("T"))])),
    );
    let g = expand_for(&d, Behavior::Display).unwrap();
    assert!(g.bounds.bounds.is_empty());
}

#[test]
fn where_clause_keeps_what_is_declared() {
    let mut d = decl(
        "E",
        &["T", "U"],
        vec![],
        Data::Enum(vec![
            variant("A", vec![], Fields::Unnamed(vec![param("U")])),
            variant("B", vec![], Fields::Unnamed(vec![param("T")])),
        ]),
    );
    d.where_predicates = vec!["T : Clone".to_string(), "U : Copy".to_string()];
    let g = expand_for(&d, Behavior::Display).unwrap();
    assert_eq!(
        g.where_clause,
        vec![
            Predicate::Declared("T : Clone".to_string()),
            Predicate::Declared("U : Copy".to_string()),
            Predicate::Needed(bound("U", vec![Behavior::Display])),
            Predicate::Needed(bound("T", vec![Behavior::Display])),
        ]
    );
    // Without bounds the where clause is that of the declaration.
    d.type_params = vec![];
    let g = expand_for(&d, Behavior::Display).unwrap();
    assert_eq!(
        g.where_clause,
        vec![
            Predicate::Declared("T : Clone".to_string()),
            Predicate::Declared("U : Copy".to_string()),
        ]
    );
}

#[test]
fn code_with_a_literal_in_angle_brackets_brings_no_bound() {
    let d = decl(
        "S",
        &["T"],
        vec![directive(
            "display",
            vec![fmt("{} {}"), code("a<c\"\">"), code("a")],
        )],
        Data::Struct(Fields::Named(vec![named("a", param("T"))])),
    );
    let g = expand_for(&d, Behavior::Display).unwrap();
    assert_eq!(g.bounds, BoundSet { bounds: vec![bound("T", vec![Behavior::Display])] });
    let d = decl(
        "S",
        &["T"],
        vec![directive("display", vec![fmt("{}"), code("a<c\"\">")])],
        Data::Struct(Fields::Named(vec![named("a", param("T"))])),
    );
    let g = expand_for(&d, Behavior::Display).unwrap();
    assert!(g.bounds.bounds.is_empty());
}

#[test]
fn bounds_stand_in_the_order_of_first_use() {
    let fields = Fields::Named(vec![named("a", param("A")), named("b", param("B"))]);
    let d = decl(
        "S",
        &["A", "B"],
        vec![directive(
            "display",
            vec![fmt("{1:x} {0:?} {1} {0:?} {0}"), field("a"), field("b")],
        )],
        Data::Struct(fields),
    );
    let first = expand_for(&d, Behavior::Display).unwrap();
    assert_eq!(
        first.bounds,
        BoundSet {
            bounds: vec![
                bound("B", vec![Behavior::LowerHex, Behavior::Display]),
                bound("A", vec![Behavior::Debug, Behavior::Display]),
            ]
        }
    );
    assert_eq!(
        first.where_clause,
        vec![
            Predicate::Needed(bound("B", vec![Behavior::LowerHex, Behavior::Display])),
            Predicate::Needed(bound("A", vec![Behavior::Debug, Behavior::Display])),
        ]
    );
    // A second derivation gives the same.
    assert_eq!(expand_for(&d, Behavior::Display).unwrap(), first);
}
