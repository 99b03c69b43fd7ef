use fmt_derive::behavior::Behavior;
use fmt_derive::parsing::all_placeholders;
use fmt_derive::placeholder::Placeholder;

#[test]
fn parses_placeholders_and_omits_escaped() {
    let fmt_string = "{}, {:?}, {{}}, {{{1:0$}}}";
    let placeholders: Vec<_> = all_placeholders(&fmt_string).into_iter().collect();
    assert_eq!(placeholders, vec!["{}", "{:?}", "{1:0$}"]);
}

#[test]
fn detects_type() {
    for (p, expected) in vec![
        ("{}", ""),
        ("{:?}", "?"),
        ("{:x?}", "x?"),
        ("{:X?}", "X?"),
        ("{:o}", "o"),
        ("{:x}", "x"),
        ("{:X}", "X"),
        ("{:p}", "p"),
        ("{:b}", "b"),
        ("{:e}", "e"),
        ("{:E}", "E"),
        ("{:.*}", ""),
        ("{8}", ""),
        ("{:04}", ""),
        ("{1:0$}", ""),
        ("{:width$}", ""),
        ("{9:>8.*}", ""),
        ("{2:.1$x}", "x"),
    ] {
        let typ = fmt_derive::parsing::format(p).unwrap().1.unwrap_or_default();
        assert_eq!(typ, expected);
    }
}

#[test]
fn detects_arg() {
    for (p, expected) in vec![
        ("{}", ""),
        ("{0:?}", "0"),
        ("{12:x?}", "12"),
        ("{3:X?}", "3"),
        ("{5:o}", "5"),
        ("{6:x}", "6"),
        ("{:X}", ""),
        ("{8}", "8"),
        ("{:04}", ""),
        ("{1:0$}", "1"),
        ("{:width$}", ""),
        ("{9:>8.*}", "9"),
        ("{2:.1$x}", "2"),
    ] {
        let arg = fmt_derive::parsing::format(p)
            .unwrap()
            .0
            .map(|s| s.to_string())
            .unwrap_or_default();
        assert_eq!(arg, String::from(expected));
    }
}

#[test]
fn indicates_position_and_trait_name_for_each_fmt_placeholder() {
    let fmt_string = "{},{:?},{{}},{{{1:0$}}}-{2:.1$x}{0:#?}{:width$}";
    assert_eq!(
        Placeholder::parse_fmt_string(&fmt_string),
        vec![
            Placeholder {
                position: 0,
                trait_name: "Display",
            },
            Placeholder {
                position: 1,
                trait_name: "Debug",
            },
            Placeholder {
                position: 1,
                trait_name: "Display",
            },
            Placeholder {
                position: 2,
                trait_name: "LowerHex",
            },
            Placeholder {
                position: 0,
                trait_name: "Debug",
            },
            Placeholder {
                position: 2,
                trait_name: "Display",
            },
        ],
    )
}

#[test]
fn escaped_braces_yield_no_placeholders() {
    assert!(all_placeholders("{{}}").is_empty());
    assert!(all_placeholders("{{{{}}}} }} {{").is_empty());
    assert!(Placeholder::parse_fmt_string("{{}}").is_empty());
    assert!(fmt_derive::placeholder::resolve("no braces at all").is_empty());
    assert!(all_placeholders("").is_empty());
}

#[test]
fn placeholders_come_in_textual_order() {
    assert_eq!(
        all_placeholders("a{b}c{:?}{{d}}{2}{é:x}"),
        vec!["{b}", "{:?}", "{2}", "{é:x}"]
    );
    // An opening brace that nothing closes opens nothing.
    assert_eq!(all_placeholders("{ {a{b}"), vec!["{b}"]);
    assert_eq!(all_placeholders("}{"), Vec::<&str>::new());
    assert_eq!(all_placeholders("{}}"), vec!["{}"]);
}

#[test]
fn implicit_positions_count_on_their_own() {
    let positions: Vec<usize> = Placeholder::parse_fmt_string("{},{:?},{}")
        .iter()
        .map(|p| p.position)
        .collect();
    assert_eq!(positions, vec![0, 1, 2]);
    let positions: Vec<usize> = Placeholder::parse_fmt_string("{5}{}{5}{}{0}{}")
        .iter()
        .map(|p| p.position)
        .collect();
    assert_eq!(positions, vec![5, 0, 5, 1, 0, 2]);
}

#[test]
fn named_and_malformed_placeholders_take_the_next_position() {
    let found = fmt_derive::placeholder::resolve("{name:?}{}{:.}{}{99999999999999999999999999:x}");
    let positions: Vec<usize> = found.iter().map(|s| s.position).collect();
    assert_eq!(positions, vec![0, 1, 2, 3, 4]);
    let behaviors: Vec<Behavior> = found.iter().map(|s| s.behavior).collect();
    // A number that no `usize` holds names no position; the selector stands.
    assert_eq!(
        behaviors,
        vec![
            Behavior::Debug,
            Behavior::Display,
            Behavior::Display,
            Behavior::Display,
            Behavior::LowerHex
        ]
    );
}

#[test]
fn format_of_well_formed_placeholders() {
    let f = fmt_derive::parsing::format;
    assert_eq!(f("{}"), Some((None, None)));
    assert_eq!(f("{name}"), Some((None, None)));
    assert_eq!(f("{_a1:#?}"), Some((None, Some("?"))));
    assert_eq!(f("{007}"), Some((Some(7), None)));
    assert_eq!(f("{0:<<+#05.3e}"), Some((Some(0), Some("e"))));
    assert_eq!(f("{:}<}"), Some((None, None)));
    assert_eq!(f("{:^}"), Some((None, None)));
    assert_eq!(f("{:0}"), Some((None, None)));
    assert_eq!(f("{:00$}"), Some((None, None)));
    assert_eq!(f("{:0x$X}"), Some((None, Some("X"))));
    assert_eq!(f("{:w$.p$x?}"), Some((None, Some("x?"))));
    assert_eq!(f("{:-}"), Some((None, None)));
    assert_eq!(f("{:5x}"), Some((None, Some("x"))));
    assert_eq!(f("{:.3$b}"), Some((None, Some("b"))));
    assert_eq!(f("{99999999999999999999999999}"), Some((None, None)));
    assert_eq!(f("{99999999999999999999999999:x}"), Some((None, Some("x"))));
    assert_eq!(f("{340282366920938463463374607431768211456}"), Some((None, None)));
    assert_eq!(f("{18446744073709551615}"), if usize::MAX as u128 == 18446744073709551615u128 {
        Some((Some(usize::MAX), None))
    } else {
        Some((None, None))
    });
}

#[test]
fn format_of_malformed_text() {
    let f = fmt_derive::parsing::format;
    for text in vec![
        "", "{", "}", "}{", "x{}", "{}x", "{1abc}", "{a b}", "{:.}", "{:.x}", "{:5x$}", "{:$}",
        "{:??}", "{:xx}", "{:e?}", "{::}", "{:+-}", "{:##}", "{:<^>}", "{:1.2.3}", "{: }",
        "{é}", "{:é$}", "{3:!!}", "{3abc}",
    ] {
        assert_eq!(f(text), None, "{:?}", text);
    }
}

#[test]
fn written_index_stands_whatever_the_spec_holds() {
    let found = fmt_derive::placeholder::resolve("{3:!!}{}");
    let positions: Vec<usize> = found.iter().map(|s| s.position).collect();
    assert_eq!(positions, vec![3, 0]);
    let behaviors: Vec<Behavior> = found.iter().map(|s| s.behavior).collect();
    assert_eq!(behaviors, vec![Behavior::Display, Behavior::Display]);
    let found = fmt_derive::placeholder::resolve("{}{7:.}{}{2:x x}{}{5abc}{}");
    let positions: Vec<usize> = found.iter().map(|s| s.position).collect();
    assert_eq!(positions, vec![0, 7, 1, 2, 2, 3, 4]);
    let parsed = Placeholder::parse_fmt_string("{3:!!}{}");
    assert_eq!(
        parsed,
        vec![
            Placeholder { position: 3, trait_name: "Display" },
            Placeholder { position: 0, trait_name: "Display" },
        ]
    );
}
