use resrap::builder::GraphBuilder;
use resrap::parser::{ParseError, Parser};
use resrap::prng::PRNG;
use resrap::scanner::extract_tokens;

#[test]
fn parser_accepts_a_valid_program() {
    let (tokens, errors) = extract_tokens("A: 'x' | B; B: 'y';");
    assert!(errors.is_empty());
    let mut p = Parser::new();
    p.set_tokens(tokens);
    p.parse_grammar();
    assert!(p.get_errors().is_empty());
    assert!(p.validate_graph().is_empty());
}

#[test]
fn parser_reports_undefined_references_only_after_parsing() {
    let (tokens, _) = extract_tokens("A: B C; B: 'y';");
    let mut p = Parser::new();
    p.set_tokens(tokens);
    p.parse_grammar();
    assert!(p.get_errors().is_empty());
    let undefined = p.validate_graph();
    assert_eq!(undefined, vec![ParseError::UndefinedReference("C".to_string())]);
}

#[test]
fn undefined_references_are_reported_even_beside_syntax_errors() {
    // the undefined-reference check is one independent pass over the name
    // table: a syntax error elsewhere does not suppress it
    let (tokens, _) = extract_tokens("A: B 'x' : ;");
    let mut p = Parser::new();
    p.set_tokens(tokens);
    p.parse_grammar();
    assert!(!p.get_errors().is_empty());
    let undefined = p.validate_graph();
    assert_eq!(undefined, vec![ParseError::UndefinedReference("B".to_string())]);
}

#[test]
fn parser_builds_a_graph() {
    let (tokens, _) = extract_tokens("A: 'x';");
    let mut p = Parser::new();
    p.set_tokens(tokens);
    p.parse_grammar();
    // at least start, header, leaf, jump and end nodes
    assert!(p.get_graph().node_count() >= 5);
}

#[test]
fn builder_drives_the_whole_pipeline() {
    let mut gb = GraphBuilder::new();
    assert!(gb.start_generation("A: 'hi';".to_string()).is_ok());
    let g = gb.take_graph();
    let out = g.walk_graph(PRNG::new(1), "A".to_string(), 1).unwrap();
    assert_eq!(out, "hi");
}

#[test]
fn builder_rejects_scan_errors_wholesale() {
    let mut gb = GraphBuilder::new();
    assert!(gb.start_generation("A: 'x".to_string()).is_err());
    // no partial automaton: the builder still holds the empty one
    let g = gb.take_graph();
    assert!(g.walk_graph(PRNG::new(1), "A".to_string(), 1).is_err());
}

#[test]
fn walk_graph_takes_its_own_random_source() {
    let mut gb = GraphBuilder::new();
    gb.start_generation("A: 'a' | 'b';".to_string()).unwrap();
    let g = gb.take_graph();
    let one = g.walk_graph(PRNG::new(42), "A".to_string(), 1).unwrap();
    let two = g.walk_graph(PRNG::new(42), "A".to_string(), 1).unwrap();
    assert_eq!(one, two);
}
