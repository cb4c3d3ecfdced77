use arm_gcode::command::{extract, Axis, Command, ParseError};
use arm_gcode::document::{decimal_text, parse_document, ParseDiagnostic};
use arm_gcode::lexer::{is_space_char, tokenize};
use arm_gcode::number::{parse_number, Number};
use arm_gcode::report::{delimiter, InitError};

fn args(a: &[&str]) -> Vec<String> {
    a.iter().map(|s| s.to_string()).collect()
}

fn value(n: &Number) -> f32 {
    n.to_text().parse::<f32>().unwrap()
}

#[test]
fn extract_homing() {
    match extract("HM", &args(&["1.0", "2.0", "3.0"])) {
        Ok(Command::HM(a, b, c)) => {
            assert_eq!(value(&a), 1.0);
            assert_eq!(value(&b), 2.0);
            assert_eq!(value(&c), 3.0);
        }
        other => panic!("unexpected {:?}", other),
    }
}

#[test]
fn extract_target_too_few_arguments() {
    assert_eq!(
        extract("TG", &args(&["1", "2"])),
        Err(ParseError::ArityMismatch { expected: 3, actual: 2 })
    );
}

#[test]
fn extract_manual_paired_axis() {
    match extract("MN", &args(&["B", "1.5", "2.5"])) {
        Ok(Command::MN(Axis::B(a, b))) => {
            assert_eq!(value(&a), 1.5);
            assert_eq!(value(&b), 2.5);
        }
        other => panic!("unexpected {:?}", other),
    }
}

#[test]
fn extract_manual_unknown_axis() {
    assert_eq!(extract("MN", &args(&["Q", "1.0"])), Err(ParseError::UnknownAxis));
}

#[test]
fn extract_unknown_mnemonic() {
    assert_eq!(extract("ZZ", &args(&[])), Err(ParseError::UnknownMnemonic));
}

#[test]
fn extract_claw_invalid_number() {
    assert_eq!(
        extract("CL", &args(&["1", "2", "3", "4", "x"])),
        Err(ParseError::InvalidNumber { position: 4, text: "x".to_string() })
    );
}

#[test]
fn extract_claw_five_values_in_order() {
    match extract("CL", &args(&["1", "-2", "+3.25", ".5", "5."])) {
        Ok(Command::CL(a, b, c, d, e)) => {
            assert_eq!(
                [value(&a), value(&b), value(&c), value(&d), value(&e)],
                [1.0, -2.0, 3.25, 0.5, 5.0]
            );
        }
        other => panic!("unexpected {:?}", other),
    }
}

#[test]
fn extract_commands_without_arguments() {
    assert_eq!(extract("NO", &args(&[])), Ok(Command::NO));
    assert_eq!(extract("RH", &args(&[])), Ok(Command::RH));
    assert_eq!(extract("RS", &args(&[])), Ok(Command::RS));
    assert_eq!(extract("FS", &args(&[])), Ok(Command::FS));
    assert_eq!(
        extract("RS", &args(&["1"])),
        Err(ParseError::ArityMismatch { expected: 0, actual: 1 })
    );
}

#[test]
fn extract_mnemonics_are_case_sensitive() {
    assert_eq!(extract("hm", &args(&["1", "2", "3"])), Err(ParseError::UnknownMnemonic));
    assert_eq!(extract("MN", &args(&["x", "1"])), Err(ParseError::UnknownAxis));
}

#[test]
fn extract_manual_single_axes() {
    for (letter, expected) in [("X", 1.0f32), ("Y", 2.0), ("Z", -3.0), ("A", 4.5), ("C", 0.25)] {
        let text = expected.to_string();
        let parsed = extract("MN", &args(&[letter, &text])).unwrap();
        let n = match (&parsed, letter) {
            (Command::MN(Axis::X(n)), "X")
            | (Command::MN(Axis::Y(n)), "Y")
            | (Command::MN(Axis::Z(n)), "Z")
            | (Command::MN(Axis::A(n)), "A")
            | (Command::MN(Axis::C(n)), "C") => n.clone(),
            _ => panic!("unexpected {:?}", parsed),
        };
        assert_eq!(value(&n), expected);
    }
}

#[test]
fn extract_manual_arity() {
    assert_eq!(
        extract("MN", &args(&[])),
        Err(ParseError::ArityMismatch { expected: 1, actual: 0 })
    );
    assert_eq!(
        extract("MN", &args(&["B", "1"])),
        Err(ParseError::ArityMismatch { expected: 2, actual: 1 })
    );
    assert_eq!(
        extract("MN", &args(&["X", "1", "2"])),
        Err(ParseError::ArityMismatch { expected: 1, actual: 2 })
    );
    assert_eq!(
        extract("MN", &args(&["B", "1", "y"])),
        Err(ParseError::InvalidNumber { position: 2, text: "y".to_string() })
    );
}

#[test]
fn extract_first_invalid_number_is_reported() {
    assert_eq!(
        extract("HM", &args(&["1", "a", "b"])),
        Err(ParseError::InvalidNumber { position: 1, text: "a".to_string() })
    );
}

#[test]
fn numbers_as_written() {
    assert_eq!(
        parse_number("-12.50"),
        Some(Number { negative: true, whole: "12".to_string(), fraction: "50".to_string() })
    );
    assert_eq!(
        parse_number("7"),
        Some(Number { negative: false, whole: "7".to_string(), fraction: String::new() })
    );
    assert_eq!(parse_number("+.5").unwrap().to_text(), "0.5");
    assert_eq!(parse_number("-3.").unwrap().to_text(), "-3.0");
    for bad in ["", "-", ".", "+.", "1.2.3", "1e5", "abc", "--1", "1-", " 1"] {
        assert_eq!(parse_number(bad), None, "{:?}", bad);
    }
}

#[test]
fn whitespace_characters() {
    for c in [' ', '\t', '\n', '\r', '\u{0B}', '\u{0C}', '\u{85}', '\u{A0}', '\u{2003}', '\u{3000}'] {
        assert!(is_space_char(c), "{:?}", c);
        assert!(c.is_whitespace());
    }
    for c in ['a', '0', '.', '-', '\u{200B}'] {
        assert!(!is_space_char(c), "{:?}", c);
        assert!(!c.is_whitespace());
    }
}

#[test]
fn tokenize_trims_and_numbers_lines() {
    let t = tokenize("  HM 1   2\t3  \n\n   \nNO\r\n");
    assert_eq!(t.len(), 2);
    assert_eq!(t[0].line, 1);
    assert_eq!(t[0].text, "  HM 1   2\t3  ");
    assert_eq!(t[0].mnemonic, "HM");
    assert_eq!(t[0].arguments, args(&["1", "2", "3"]));
    assert_eq!(t[1].line, 4);
    assert_eq!(t[1].mnemonic, "NO");
    assert!(t[1].arguments.is_empty());
}

#[test]
fn tokenize_empty_document() {
    assert!(tokenize("").is_empty());
    assert!(tokenize("\n \n\t\n").is_empty());
}

#[test]
fn one_result_per_nonblank_line() {
    let doc = "NO\n\n  \nHM 1 2 3\nZZ\n\t\nRS";
    let nonblank = doc.split('\n').filter(|l| !l.trim().is_empty()).count();
    assert_eq!(parse_document(doc).len(), nonblank);
    assert_eq!(nonblank, 4);
}

#[test]
fn rejoined_tokens_tokenize_the_same() {
    let line = "CL 1 2.5 -3 4 5";
    let t = tokenize(line);
    assert_eq!(t.len(), 1);
    let mut all = vec![t[0].mnemonic.clone()];
    all.extend(t[0].arguments.iter().cloned());
    assert_eq!(all.join(" "), line);

    let messy = "  TG   1\t 2    3 ";
    let once = tokenize(messy);
    let mut words = vec![once[0].mnemonic.clone()];
    words.extend(once[0].arguments.iter().cloned());
    let normal = words.join(" ");
    assert_eq!(normal, "TG 1 2 3");
    let twice = tokenize(&normal);
    assert_eq!(twice[0].mnemonic, once[0].mnemonic);
    assert_eq!(twice[0].arguments, once[0].arguments);
}

#[test]
fn blank_line_between_two_no_ops() {
    let r = parse_document("NO\n\nNO");
    assert_eq!(r, vec![Ok(Command::NO), Ok(Command::NO)]);
}

#[test]
fn results_keep_line_order() {
    let r = parse_document("RH\n\nMN Q 1\n\nTG 1 2");
    assert_eq!(r.len(), 3);
    assert_eq!(r[0], Ok(Command::RH));
    assert_eq!(
        r[1],
        Err(ParseDiagnostic { line: 3, text: "MN Q 1".to_string(), reason: ParseError::UnknownAxis })
    );
    assert_eq!(
        r[2],
        Err(ParseDiagnostic {
            line: 5,
            text: "TG 1 2".to_string(),
            reason: ParseError::ArityMismatch { expected: 3, actual: 2 },
        })
    );
}

#[test]
fn bad_lines_do_not_stop_parsing() {
    let r = parse_document("HM x 2 3\nFS");
    assert_eq!(
        r[0],
        Err(ParseDiagnostic {
            line: 1,
            text: "HM x 2 3".to_string(),
            reason: ParseError::InvalidNumber { position: 0, text: "x".to_string() },
        })
    );
    assert_eq!(r[1], Ok(Command::FS));
}

#[test]
fn delimiter_repeats_first_character() {
    assert_eq!(delimiter("=", 5), "=====");
    assert_eq!(delimiter("-x", 3), "---");
    assert_eq!(delimiter("=", 0), "");
}

#[test]
fn init_error_report() {
    let e = InitError::new("[init/read] no answer.", "timed out");
    assert_eq!(e.message, "[init/read] no answer.");
    assert_eq!(e.error, "timed out");
    assert_eq!(e.report(), "timed out | [init/read] no answer.");
}

#[test]
fn decimal_numbers_written_out() {
    assert_eq!(decimal_text(0), "0");
    assert_eq!(decimal_text(7), "7");
    assert_eq!(decimal_text(10), "10");
    assert_eq!(decimal_text(1234), "1234");
    assert_eq!(decimal_text(usize::MAX), usize::MAX.to_string());
}

#[test]
fn diagnostics_in_words() {
    assert_eq!(ParseError::UnknownMnemonic.describe(), "unknown mnemonic");
    assert_eq!(ParseError::UnknownAxis.describe(), "unknown axis letter");
    assert_eq!(
        ParseError::ArityMismatch { expected: 3, actual: 12 }.describe(),
        "expected 3 arguments, found 12"
    );
    assert_eq!(
        ParseError::InvalidNumber { position: 4, text: "x".to_string() }.describe(),
        "argument 4 is not a number: x"
    );
    let r = parse_document("\n\nZZ 1");
    let d = r[0].clone().unwrap_err();
    assert_eq!(d.describe(), "line 3: unknown mnemonic: ZZ 1");
}
