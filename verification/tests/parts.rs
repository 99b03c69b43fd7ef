use fmt_derive::behavior::Behavior;
use fmt_derive::bounds::{argument_idents, bounds_for, has_type_param, inferred_bounds, participant};
use fmt_derive::declaration::{FieldType, Fields, NamedField};
use fmt_derive::directive::{find_directive, format_literal, is_code, read_directive};
use fmt_derive::error::{Error, ErrorKind, Part};
use fmt_derive::generated::{where_clause, Argument, Bound, BoundSet, Predicate};
use fmt_derive::meta::{Attribute, Literal, Meta, MetaPath, NestedMeta};
use fmt_derive::parsing::{parse_format, parse_index, placeholder_spans};
use fmt_derive::placeholder::Slot;
use fmt_derive::text::{
    chars_of, clone_strings, contains_str, find_digit_end, find_word_end, is_digit, is_letter,
    is_word, parse_decimal, positional, str_eq,
};

fn chars(s: &str) -> Vec<char> {
    s.chars().collect()
}

fn strings(v: &[&str]) -> Vec<String> {
    v.iter().map(|s| s.to_string()).collect()
}

#[test]
fn character_classes() {
    for c in "0123456789".chars() {
        assert!(is_digit(c) && is_word(c) && !is_letter(c));
    }
    for c in "azAZmM".chars() {
        assert!(is_letter(c) && is_word(c) && !is_digit(c));
    }
    assert!(is_word('_') && !is_letter('_') && !is_digit('_'));
    for c in "/:@[`{ $é٣".chars() {
        assert!(!is_word(c) && !is_letter(c) && !is_digit(c), "{:?}", c);
    }
}

#[test]
fn strings_as_characters() {
    assert_eq!(chars_of("aé{}"), vec!['a', 'é', '{', '}']);
    assert_eq!(chars_of(""), Vec::<char>::new());
    assert!(str_eq("", ""));
    assert!(str_eq("fmt", "fmt"));
    assert!(!str_eq("fmt", "fmt "));
    assert!(!str_eq("fmt", "fmT"));
    assert!(!str_eq("é", "e"));
}

#[test]
fn runs_of_characters() {
    let s = chars("ab_1$23x.");
    assert_eq!(find_word_end(&s, 0), 4);
    assert_eq!(find_word_end(&s, 4), 4);
    assert_eq!(find_word_end(&s, 5), 8);
    assert_eq!(find_word_end(&s, 9), 9);
    assert_eq!(find_word_end(&s, 12), 12);
    assert_eq!(find_digit_end(&s, 12), 12);
    assert_eq!(find_digit_end(&s, 0), 0);
    assert_eq!(find_digit_end(&s, 3), 4);
    assert_eq!(find_digit_end(&s, 5), 7);
    assert_eq!(find_digit_end(&s, 9), 9);
}

#[test]
fn decimal_numbers() {
    let s = chars("x0042y");
    assert_eq!(parse_decimal(&s, 1, 5), Some(42));
    assert_eq!(parse_decimal(&s, 1, 1), Some(0));
    assert_eq!(parse_decimal(&s, 3, 4), Some(4));
    assert_eq!(parse_decimal(&s, 0, 5), None);
    assert_eq!(parse_decimal(&s, 1, 6), None);
    let max = usize::MAX.to_string();
    assert_eq!(parse_decimal(&chars(&max), 0, max.len()), Some(usize::MAX));
    let more = format!("{}0", max);
    assert_eq!(parse_decimal(&chars(&more), 0, more.len()), None);
    let next = (usize::MAX as u128 + 1).to_string();
    assert_eq!(parse_decimal(&chars(&next), 0, next.len()), None);
}

#[test]
fn positional_names() {
    assert_eq!(positional(0), "_0");
    assert_eq!(positional(9), "_9");
    assert_eq!(positional(10), "_10");
    assert_eq!(positional(1203), "_1203");
    assert_eq!(positional(usize::MAX), format!("_{}", usize::MAX));
}

#[test]
fn lists_of_strings() {
    let v = strings(&["T", "U", ""]);
    assert_eq!(clone_strings(&v), v);
    assert!(contains_str(&v, "U"));
    assert!(contains_str(&v, ""));
    assert!(!contains_str(&v, "V"));
    assert!(!contains_str(&Vec::new(), "T"));
}

#[test]
fn spans_of_placeholders() {
    assert_eq!(placeholder_spans(&chars("a{}{{b}}{c}")), vec![(1, 3), (8, 11)]);
    assert_eq!(placeholder_spans(&chars("{{{}}}")), vec![(2, 4)]);
    assert_eq!(placeholder_spans(&chars("{{}")), vec![]);
    assert_eq!(placeholder_spans(&chars("{a{b}")), vec![(2, 5)]);
}

#[test]
fn parts_of_a_placeholder() {
    assert_eq!(parse_format(&chars("{}")), Some((None, 1)));
    assert_eq!(parse_format(&chars("{12}")), Some((Some(12), 3)));
    assert_eq!(parse_format(&chars("{3:>+#08.2x?}")), Some((Some(3), 10)));
    assert_eq!(parse_format(&chars("{:}")), Some((None, 2)));
    assert_eq!(parse_format(&chars("{:e")), None);
}

#[test]
fn index_behind_the_opening_brace() {
    assert_eq!(parse_index(&chars("{3}")), Some(3));
    assert_eq!(parse_index(&chars("{3:!!}")), Some(3));
    assert_eq!(parse_index(&chars("{03:x}")), Some(3));
    assert_eq!(parse_index(&chars("{12:")), Some(12));
    assert_eq!(parse_index(&chars("{3abc}")), None);
    assert_eq!(parse_index(&chars("{3")), None);
    assert_eq!(parse_index(&chars("{}")), None);
    assert_eq!(parse_index(&chars("{:3}")), None);
    assert_eq!(parse_index(&chars("{a3}")), None);
    assert_eq!(parse_index(&chars("3}")), None);
    assert_eq!(parse_index(&chars("")), None);
    assert_eq!(parse_index(&chars("{99999999999999999999999999}")), None);
}

#[test]
fn selectors_in_place() {
    let s = chars("{:x?}");
    assert_eq!(Behavior::from_selector_chars(&s, 2, 4), Some(Behavior::Debug));
    assert_eq!(Behavior::from_selector_chars(&s, 2, 3), Some(Behavior::LowerHex));
    assert_eq!(Behavior::from_selector_chars(&s, 3, 4), Some(Behavior::Debug));
    assert_eq!(Behavior::from_selector_chars(&s, 2, 2), Some(Behavior::Display));
    assert_eq!(Behavior::from_selector_chars(&s, 1, 2), None);
    assert_eq!(Behavior::from_selector_chars(&s, 1, 4), None);
}

#[test]
fn paths() {
    let a = MetaPath::from_ident("a");
    assert_eq!(a, MetaPath { leading_colon: false, segments: strings(&["a"]) });
    assert!(a.first_is("a") && a.is_ident("a"));
    assert!(!a.first_is("b") && !a.is_ident("b"));
    assert_eq!(a.get_ident(), Some("a".to_string()));
    assert_eq!(a.duplicate(), a);
    let long = MetaPath { leading_colon: false, segments: strings(&["a", "b"]) };
    assert!(long.first_is("a") && !long.is_ident("a"));
    assert_eq!(long.get_ident(), None);
    assert_eq!(long.duplicate(), long);
    let global = MetaPath { leading_colon: true, segments: strings(&["a"]) };
    assert!(global.first_is("a") && !global.is_ident("a"));
    assert_eq!(global.get_ident(), None);
    let empty = MetaPath { leading_colon: false, segments: vec![] };
    assert!(!empty.first_is("a") && !empty.is_ident("a"));
    assert_eq!(empty.get_ident(), None);
}

#[test]
fn shapes_of_attributes() {
    let path = MetaPath::from_ident("display");
    let lit = Literal::Str("x".to_string());
    let pair = NestedMeta::NameValue { path: MetaPath::from_ident("fmt"), lit: lit.clone() };
    let list = Meta::List { path: path.clone(), nested: vec![pair.clone()] };
    assert_eq!(list.path(), &path);
    assert_eq!(list.as_list(), Some(&vec![pair.clone()]));
    let bare = Meta::Path { path: path.clone() };
    assert_eq!(bare.path(), &path);
    assert_eq!(bare.as_list(), None);
    let named = Meta::NameValue { path: path.clone(), lit: lit.clone() };
    assert_eq!(named.path(), &path);
    assert_eq!(named.as_list(), None);
    assert_eq!(pair.as_name_value(), Some((&MetaPath::from_ident("fmt"), &lit)));
    assert_eq!(NestedMeta::Lit { lit: lit.clone() }.as_name_value(), None);
    assert_eq!(NestedMeta::Path { path: path.clone() }.as_name_value(), None);
    assert_eq!(NestedMeta::List { path }.as_name_value(), None);
    assert_eq!(lit.as_str(), Some(&"x".to_string()));
    assert_eq!(Literal::Other.as_str(), None);
    assert_eq!(format_literal(&pair), Some(&"x".to_string()));
    assert_eq!(format_literal(&NestedMeta::Lit { lit }), None);
}

#[test]
fn one_directive_per_key() {
    let display = Attribute::Meta { meta: Meta::Path { path: MetaPath::from_ident("display") } };
    let debug = Attribute::Meta { meta: Meta::Path { path: MetaPath::from_ident("debug") } };
    let attrs = vec![Attribute::Opaque, debug.clone(), display.clone(), Attribute::Opaque];
    assert_eq!(
        find_directive(&attrs, "display"),
        Ok(Some(&Meta::Path { path: MetaPath::from_ident("display") }))
    );
    assert_eq!(find_directive(&attrs, "octal"), Ok(None));
    assert_eq!(find_directive(&Vec::new(), "display"), Ok(None));
    let twice = vec![debug.clone(), display, debug];
    assert_eq!(
        find_directive(&twice, "debug"),
        Err(Error { kind: ErrorKind::TooManyFormats, variant: None, part: Part::Directive })
    );
}

#[test]
fn code_in_string_literals() {
    let lit = |s: &str| NestedMeta::Lit { lit: Literal::Str(s.to_string()) };
    assert!(is_code(&lit("self.0 + 1")));
    assert!(is_code(&lit("")));
    assert!(is_code(&lit("f(a, [b; 2], {c})")));
    assert!(!is_code(&lit("f(")));
    assert!(!is_code(&lit("]")));
    assert!(!is_code(&lit("\"open")));
    assert!(!is_code(&NestedMeta::Lit { lit: Literal::Other }));
    assert!(!is_code(&NestedMeta::Path { path: MetaPath::from_ident("a") }));
}

#[test]
fn directives_as_read() {
    let pair = |s: &str| NestedMeta::NameValue {
        path: MetaPath::from_ident("fmt"),
        lit: Literal::Str(s.to_string()),
    };
    let list = |nested: Vec<NestedMeta>| Meta::List { path: MetaPath::from_ident("display"), nested };
    let d = read_directive(&list(vec![pair("{{}}")]), true).unwrap();
    assert_eq!((d.format.as_str(), d.args.len(), d.wrapper), ("{{}}", 0, false));
    let d = read_directive(&list(vec![pair("a {:?} b")]), true).unwrap();
    assert_eq!((d.format.as_str(), d.args.len(), d.wrapper), ("a {:?} b", 0, true));
    let d = read_directive(&list(vec![pair("a {:?} b")]), false).unwrap();
    assert_eq!((d.format.as_str(), d.args.len(), d.wrapper), ("a {:?} b", 0, false));
    let d = read_directive(&list(vec![pair("{}{}")]), false).unwrap();
    assert_eq!((d.format.as_str(), d.args.len(), d.wrapper), ("{}{}", 0, false));
    assert_eq!(
        read_directive(&list(vec![pair("{}{}")]), true).unwrap_err().kind,
        ErrorKind::TooManyPlaceholders
    );
}

#[test]
fn errors_in_variants() {
    let e = Error::new(ErrorKind::TooManyFields, Part::Fields);
    assert_eq!(e, Error { kind: ErrorKind::TooManyFields, variant: None, part: Part::Fields });
    assert_eq!(
        e.in_variant(3),
        Error { kind: ErrorKind::TooManyFields, variant: Some(3), part: Part::Fields }
    );
}

fn generic(name: &str) -> FieldType {
    FieldType { text: name.to_string(), head: Some(name.to_string()) }
}

#[test]
fn fields_by_position() {
    let named = Fields::Named(vec![
        NamedField { name: "a".to_string(), ty: generic("A") },
        NamedField { name: "b".to_string(), ty: generic("B") },
    ]);
    assert_eq!(named.len(), 2);
    assert_eq!(named.field_name(1), "b");
    assert_eq!(named.field_type(1), &generic("B"));
    let tuple = Fields::Unnamed(vec![generic("A"), generic("B"), generic("C")]);
    assert_eq!(tuple.len(), 3);
    assert_eq!(tuple.field_name(2), "_2");
    assert_eq!(tuple.field_type(0), &generic("A"));
    assert_eq!(Fields::Unit.len(), 0);
}

#[test]
fn fields_that_take_part() {
    let params = strings(&["A", "B"]);
    assert!(has_type_param(&params, &generic("A")));
    assert!(!has_type_param(&params, &generic("C")));
    assert!(!has_type_param(&params, &FieldType { text: "A".to_string(), head: None }));
    assert!(!has_type_param(&Vec::new(), &generic("A")));
    let fields = Fields::Named(vec![
        NamedField { name: "x".to_string(), ty: generic("A") },
        NamedField { name: "y".to_string(), ty: generic("C") },
        NamedField { name: "x".to_string(), ty: generic("B") },
        NamedField { name: "x".to_string(), ty: generic("C") },
    ]);
    // Of the fields of one name the last with a generic type counts.
    assert_eq!(participant(&params, &fields, "x"), Some(2));
    assert_eq!(participant(&params, &fields, "y"), None);
    assert_eq!(participant(&params, &fields, "z"), None);
    let tuple = Fields::Unnamed(vec![generic("C"), generic("B")]);
    assert_eq!(participant(&params, &tuple, "_1"), Some(1));
    assert_eq!(participant(&params, &tuple, "_0"), None);
    assert_eq!(participant(&params, &tuple, "_2"), None);
    assert_eq!(participant(&params, &Fields::Unit, "_0"), None);
}

fn bound(ty: &str, behaviors: Vec<Behavior>) -> Bound {
    Bound { ty: ty.to_string(), behaviors }
}

#[test]
fn bounds_from_slots_and_idents() {
    let params = strings(&["T"]);
    let fields = Fields::Named(vec![
        NamedField { name: "a".to_string(), ty: generic("T") },
        NamedField { name: "b".to_string(), ty: generic("u8") },
    ]);
    let slots = vec![
        Slot { position: 1, behavior: Behavior::Debug },
        Slot { position: 0, behavior: Behavior::Debug },
        Slot { position: 2, behavior: Behavior::Octal },
        Slot { position: 3, behavior: Behavior::Pointer },
        Slot { position: 9, behavior: Behavior::Binary },
        Slot { position: 0, behavior: Behavior::Debug },
    ];
    let idents = vec![Some("a".to_string()), Some("b".to_string()), Some("a".to_string()), None];
    assert_eq!(
        bounds_for(&params, &fields, &slots, &idents),
        BoundSet { bounds: vec![bound("T", vec![Behavior::Debug, Behavior::Octal])] }
    );
    assert_eq!(bounds_for(&Vec::new(), &fields, &slots, &idents), BoundSet { bounds: vec![] });
    assert_eq!(bounds_for(&params, &fields, &Vec::new(), &idents), BoundSet { bounds: vec![] });
    assert_eq!(bounds_for(&params, &fields, &slots, &Vec::new()), BoundSet { bounds: vec![] });
    assert_eq!(
        inferred_bounds(&params, &fields, Behavior::UpperHex),
        BoundSet { bounds: vec![bound("T", vec![Behavior::UpperHex])] }
    );
    assert_eq!(
        inferred_bounds(&params, &Fields::Unit, Behavior::UpperHex),
        BoundSet { bounds: vec![] }
    );
}

#[test]
fn idents_of_arguments() {
    let args = vec![
        Argument::Path(MetaPath::from_ident("a")),
        Argument::Path(MetaPath { leading_colon: true, segments: strings(&["a"]) }),
        Argument::Code("b".to_string()),
        Argument::Code("  b\n".to_string()),
        Argument::Code("r#type".to_string()),
        Argument::Code("b.c".to_string()),
        Argument::Code("::b".to_string()),
        Argument::Code("b::c".to_string()),
        Argument::Code("b::<u8>".to_string()),
        Argument::Code("b c".to_string()),
        Argument::Code("(".to_string()),
        Argument::Code("".to_string()),
        Argument::Code("1".to_string()),
        Argument::Code("a<c\"\">".to_string()),
        Argument::Code("a<T>".to_string()),
        Argument::Code("type".to_string()),
        Argument::Code("self".to_string()),
    ];
    assert_eq!(
        argument_idents(&args),
        vec![
            Some("a".to_string()),
            None,
            Some("b".to_string()),
            Some("b".to_string()),
            Some("r#type".to_string()),
            None,
            None,
            None,
            None,
            None,
            None,
            None,
            None,
            None,
            None,
            None,
            Some("self".to_string()),
        ]
    );
}

#[test]
fn bound_sets() {
    let mut set = BoundSet::new();
    assert!(set.is_empty());
    set.insert("T", Behavior::Display);
    set.insert("U", Behavior::Debug);
    set.insert("T", Behavior::Debug);
    set.insert("T", Behavior::Display);
    assert!(!set.is_empty());
    assert_eq!(
        set,
        BoundSet {
            bounds: vec![
                bound("T", vec![Behavior::Display, Behavior::Debug]),
                bound("U", vec![Behavior::Debug]),
            ]
        }
    );
    let mut other = BoundSet::new();
    other.insert("V", Behavior::Octal);
    other.insert("U", Behavior::Octal);
    other.insert("T", Behavior::Debug);
    set.merge(&other);
    assert_eq!(
        set,
        BoundSet {
            bounds: vec![
                bound("T", vec![Behavior::Display, Behavior::Debug]),
                bound("U", vec![Behavior::Debug, Behavior::Octal]),
                bound("V", vec![Behavior::Octal]),
            ]
        }
    );
    let before = set.clone();
    set.merge(&BoundSet::new());
    assert_eq!(set, before);
}

#[test]
fn where_clauses() {
    let mut set = BoundSet::new();
    set.insert("T", Behavior::Display);
    assert_eq!(
        where_clause(&strings(&["T : Copy"]), &set),
        vec![
            Predicate::Declared("T : Copy".to_string()),
            Predicate::Needed(bound("T", vec![Behavior::Display])),
        ]
    );
    assert_eq!(where_clause(&Vec::new(), &BoundSet::new()), Vec::<Predicate>::new());
}
