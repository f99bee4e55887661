use resrap::builder::{compile, GrammarError};
use resrap::parser::ParseError;

fn parse_failure(text: &str) -> ParseError {
    match compile(text.to_string()) {
        Err(GrammarError::Parse(e)) => e,
        other => panic!("expected a parse error, got {:?}", other.map(|_| ())),
    }
}

#[test]
fn missing_trailing_semicolon_is_reported() {
    assert_eq!(parse_failure("A: 'x'"), ParseError::MissingSemicolon);
}

#[test]
fn second_colon_before_semicolon_is_reported() {
    assert_eq!(parse_failure("A: 'x' : 'y';"), ParseError::MissingSemicolon);
}

#[test]
fn undefined_reference_is_reported_after_parsing() {
    assert_eq!(
        parse_failure("A: B;"),
        ParseError::UndefinedReference("B".to_string())
    );
}

#[test]
fn multiple_definition_is_reported() {
    assert_eq!(
        parse_failure("A: 'x'; A: 'y';"),
        ParseError::MultipleDefinition("A".to_string())
    );
}

#[test]
fn statement_must_start_with_an_identifier() {
    assert_eq!(parse_failure(": 'x';"), ParseError::ExpectedSubject);
}

#[test]
fn identifier_must_be_followed_by_a_colon() {
    assert_eq!(parse_failure("A 'x';"), ParseError::ExpectedColon);
}

#[test]
fn unclosed_group_is_reported() {
    assert_eq!(parse_failure("A: ( 'x';"), ParseError::StrayOpen);
}

#[test]
fn stray_close_is_reported() {
    assert_eq!(parse_failure("A: 'x' );"), ParseError::StrayClose);
}

#[test]
fn negative_probability_is_reported() {
    assert_eq!(parse_failure("A: 'x' ?<-0.5>;"), ParseError::NegativeProbability);
}

#[test]
fn malformed_probability_is_reported() {
    assert_eq!(parse_failure("A: 'x' ?<abc>;"), ParseError::MalformedProbability);
}

#[test]
fn unterminated_literal_is_a_scan_error() {
    match compile("A: 'x".to_string()) {
        Err(GrammarError::Scan(e)) => {
            assert_eq!(e.pos, 4);
            assert_eq!(e.msg, "unterminated '''");
        },
        other => panic!("expected a scan error, got {:?}", other.map(|_| ())),
    }
}

#[test]
fn unterminated_class_is_a_scan_error() {
    match compile("A: [ab".to_string()) {
        Err(GrammarError::Scan(e)) => {
            assert_eq!(e.msg, "unterminated '['");
        },
        other => panic!("expected a scan error, got {:?}", other.map(|_| ())),
    }
}

#[test]
fn valid_grammar_compiles() {
    assert!(compile("A: 'x' | B; B: [a-z] ?;".to_string()).is_ok());
}

#[test]
fn empty_grammar_compiles_to_an_empty_automaton() {
    let g = compile(String::new()).unwrap();
    assert!(resrap::builder::generate_seeded(&g, "A".to_string(), 1, 1).is_err());
}

#[test]
fn generation_errors_do_not_invalidate_the_automaton() {
    let g = compile("A: 'x';".to_string()).unwrap();
    assert!(resrap::builder::generate_seeded(&g, "Nope".to_string(), 1, 1).is_err());
    let out = resrap::builder::generate_seeded(&g, "A".to_string(), 1, 1).unwrap();
    assert_eq!(out, "x");
}
