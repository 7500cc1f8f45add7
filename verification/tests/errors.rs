use diachrony::error::{anchor, Furthest, ParseError, Reason};
use diachrony::parse;
use diachrony::parser::{class_definition, milestone, sound_change};

fn only(result: Result<diachrony::ast::Stmt, Vec<ParseError>>) -> ParseError {
    match result {
        Ok(stmt) => panic!("{:?}", stmt),
        Err(mut errors) => {
            assert_eq!(errors.len(), 1);
            errors.remove(0)
        }
    }
}

fn failure(source: &str) -> ParseError {
    match parse(source) {
        Ok(stmts) => panic!("{:?}", stmts),
        Err(mut errors) => {
            assert_eq!(errors.len(), 1);
            errors.remove(0)
        }
    }
}

#[test]
fn what_is_left_over_is_an_error() {
    let error = failure("lang PA\n???");
    assert_eq!(error.span, 8..9);
    assert_eq!(error.reason, Reason::Unexpected);
    assert_eq!(error.found, Some('?'));
    assert_eq!(
        error.expected,
        vec![
            Some('<'),
            Some(':'),
            Some('\r'),
            Some('\n'),
            Some('$'),
            Some('i'),
            Some('l'),
            Some('-'),
            Some('t'),
            Some('c'),
            Some('s'),
            Some('@'),
            None
        ]
    );
}

#[test]
fn a_statement_must_end_its_line() {
    let error = failure("lang PA lang PB");
    assert_eq!(error.span, 8..9);
    assert_eq!(error.found, Some('l'));
    assert_eq!(error.expected, vec![Some('<'), Some(':')]);
}

#[test]
fn the_furthest_failure_is_reported() {
    let error = failure("series F = { a, b ");
    assert_eq!(error.span, 18..18);
    assert_eq!(error.reason, Reason::Unexpected);
    assert_eq!(error.found, None);
    assert_eq!(error.expected, vec![Some(','), Some('}')]);
}

#[test]
fn a_missing_target_is_reported_where_it_should_stand() {
    let error = only(sound_change::parser("$ [] > / _"));
    assert_eq!(error.span, 7..8);
    assert_eq!(error.found, Some('/'));
    assert_eq!(error.expected, vec![Some('[')]);
}

#[test]
fn an_empty_marker_is_reported_at_the_end() {
    let error = only(milestone::parser("@ "));
    assert_eq!(error.span, 2..2);
    assert_eq!(error.reason, Reason::Unexpected);
    assert_eq!(error.found, None);
    assert_eq!(error.expected, Vec::<Option<char>>::new());
}

#[test]
fn a_number_out_of_range_is_a_custom_error() {
    let error = only(milestone::parser("@ 9223372036854775808"));
    assert_eq!(error.span, 2..21);
    assert_eq!(error.reason, Reason::Custom("number too large to fit in target type".to_string()));
    assert_eq!(error.found, None);
}

#[test]
fn a_digit_outside_ascii_is_a_custom_error() {
    let error = only(milestone::parser("@ ٤٢"));
    assert_eq!(error.span, 2..6);
    assert_eq!(error.reason, Reason::Custom("invalid digit found in string".to_string()));
}

#[test]
fn the_greatest_number_is_read() {
    assert_eq!(
        milestone::parser("@ 9223372036854775807"),
        Ok(diachrony::ast::Stmt::Milestone {
            time: Some((2..21, diachrony::ast::Time::Instant(9223372036854775807))),
            language: None
        })
    );
}

#[test]
fn leading_zeros_do_not_count() {
    assert_eq!(
        milestone::parser("@ 0042 - 007"),
        Ok(diachrony::ast::Stmt::Milestone {
            time: Some((2..12, diachrony::ast::Time::Range(42, 7))),
            language: None
        })
    );
}

#[test]
fn a_class_encodes_at_least_one_trait() {
    let error = only(class_definition::parser("class C encodes () { p = a }"));
    assert_eq!(error.span, 17..18);
    assert_eq!(error.found, Some(')'));
}

#[test]
fn the_record_keeps_the_furthest_failure() {
    let mut far = Furthest::new();
    far.want(3, Some('a'));
    far.want(5, Some('b'));
    far.want(4, Some('c'));
    far.miss(5);
    far.want(5, None);
    far.want(5, Some('b'));
    let chars: Vec<char> = "0123456".chars().collect();
    assert_eq!(
        far.into_error(&chars),
        Some(ParseError { span: 5..6, reason: Reason::Unexpected, expected: vec![Some('b'), None], found: Some('5') })
    );
}

#[test]
fn a_failure_at_the_end_has_an_empty_span() {
    let mut far = Furthest::new();
    far.miss(2);
    let chars: Vec<char> = "ab".chars().collect();
    assert_eq!(
        far.into_error(&chars),
        Some(ParseError { span: 2..2, reason: Reason::Unexpected, expected: vec![], found: None })
    );
}

#[test]
fn a_message_stays_with_its_offset() {
    let mut far = Furthest::new();
    far.fault(1, 4, "first".to_string());
    far.want(4, Some('x'));
    far.fault(2, 4, "second".to_string());
    far.fault(0, 3, "third".to_string());
    let chars: Vec<char> = "abcdef".chars().collect();
    assert_eq!(
        far.into_error(&chars),
        Some(ParseError { span: 1..4, reason: Reason::Custom("first".to_string()), expected: vec![Some('x')], found: None })
    );
}

#[test]
fn a_later_failure_replaces_a_message() {
    let mut far = Furthest::new();
    far.fault(1, 4, "first".to_string());
    far.miss(5);
    let chars: Vec<char> = "abcdef".chars().collect();
    assert_eq!(
        far.into_error(&chars),
        Some(ParseError { span: 5..6, reason: Reason::Unexpected, expected: vec![], found: Some('f') })
    );
}

#[test]
fn the_anchor_is_the_leftmost_start() {
    let at = |start: usize, reason: Reason| ParseError { span: start..start + 1, reason, expected: vec![], found: None };
    let errors = vec![
        at(7, Reason::Unexpected),
        at(3, Reason::Unclosed { span: 1..2, delimiter: '{' }),
        at(5, Reason::Custom("x".to_string())),
    ];
    assert_eq!(anchor(&errors, 10), 3);
    assert_eq!(anchor(&errors, 2), 2);
    assert_eq!(anchor(&Vec::new(), 10), 10);
}

#[test]
fn error_records_can_be_copied() {
    let error = failure("lang");
    assert_eq!(error.clone(), error);
    assert_eq!(error.span, 4..4);
}

#[test]
fn no_failure_gives_no_record() {
    let far = Furthest::new();
    assert_eq!(far.into_error(&[]), None);
}

#[test]
fn an_error_after_a_long_character_is_told_in_bytes() {
    let error = failure("lang ɢ");
    assert_eq!(error.span, 5..7);
    assert_eq!(error.found, Some('ɢ'));
    let error = failure("$ ɢ > ");
    assert_eq!(error.span, 7..7);
    assert_eq!(error.found, None);
}
