use resrap::scanner::{extract_tokens, Scanner, TokenType};

#[test]
fn operators_scan_to_their_token_types() {
    let (tokens, errors) = extract_tokens("+ * ^ ? | ; ( ) :");
    assert!(errors.is_empty());
    let kinds: Vec<TokenType> = tokens.iter().map(|t| t.typ).collect();
    assert_eq!(
        kinds,
        vec![
            TokenType::OneOrMore,
            TokenType::AnyNo,
            TokenType::Infinite,
            TokenType::Maybe,
            TokenType::Alternative,
            TokenType::Padding,
            TokenType::BracOpen,
            TokenType::BracClose,
            TokenType::Colon,
        ]
    );
}

#[test]
fn a_statement_scans_to_tokens_with_positions() {
    let (tokens, errors) = extract_tokens("Rule: 'ab' <0.5> [a-z];");
    assert!(errors.is_empty());
    assert_eq!(tokens.len(), 6);

    assert_eq!(tokens[0].typ, TokenType::Identifier);
    assert_eq!(tokens[0].text, "Rule");
    assert_eq!(tokens[0].pos, 0);

    assert_eq!(tokens[1].typ, TokenType::Colon);
    assert_eq!(tokens[1].pos, 4);

    assert_eq!(tokens[2].typ, TokenType::Character);
    assert_eq!(tokens[2].text, "ab");
    assert_eq!(tokens[2].pos, 6);

    assert_eq!(tokens[3].typ, TokenType::Probability);
    assert_eq!(tokens[3].text, "0.5");

    assert_eq!(tokens[4].typ, TokenType::Regex);
    assert_eq!(tokens[4].text, "a-z");

    assert_eq!(tokens[5].typ, TokenType::Padding);
}

#[test]
fn whitespace_and_unknown_characters_are_skipped() {
    let (tokens, errors) = extract_tokens("  \t\n  a # € b  ");
    assert!(errors.is_empty());
    assert_eq!(tokens.len(), 2);
    assert_eq!(tokens[0].text, "a");
    assert_eq!(tokens[1].text, "b");
}

#[test]
fn identifiers_allow_underscores_and_digits() {
    let (tokens, errors) = extract_tokens("_my_rule2");
    assert!(errors.is_empty());
    assert_eq!(tokens.len(), 1);
    assert_eq!(tokens[0].typ, TokenType::Identifier);
    assert_eq!(tokens[0].text, "_my_rule2");
}

#[test]
fn an_identifier_cannot_start_with_a_digit() {
    let (tokens, errors) = extract_tokens("2abc");
    assert!(errors.is_empty());
    // the digit is skipped; the identifier starts at the first letter
    assert_eq!(tokens.len(), 1);
    assert_eq!(tokens[0].text, "abc");
    assert_eq!(tokens[0].pos, 1);
}

#[test]
fn unterminated_forms_scan_to_errors() {
    let (tokens, errors) = extract_tokens("a 'oops");
    assert_eq!(tokens.len(), 1);
    assert_eq!(errors.len(), 1);
    assert_eq!(errors[0].pos, 3);
    assert_eq!(errors[0].msg, "unterminated '''");

    let (_, errors) = extract_tokens("<0.5");
    assert_eq!(errors[0].msg, "unterminated '<'");

    let (_, errors) = extract_tokens("[a-z");
    assert_eq!(errors[0].msg, "unterminated '['");
}

#[test]
fn an_unterminated_form_swallows_the_rest_of_the_input() {
    let (tokens, errors) = extract_tokens("'never closed ; | +");
    assert!(tokens.is_empty());
    assert_eq!(errors.len(), 1);
}

#[test]
fn scanner_new_then_scan_matches_extract_tokens() {
    let direct = Scanner::new("A: 'x';".to_string()).scan();
    let through = extract_tokens("A: 'x';");
    assert_eq!(direct.0.len(), through.0.len());
    assert_eq!(direct.1.len(), through.1.len());
}

#[test]
fn literal_content_keeps_raw_escapes() {
    // escapes resolve at emission time, not at scan time
    let (tokens, errors) = extract_tokens("'a\\nb'");
    assert!(errors.is_empty());
    assert_eq!(tokens[0].text, "a\\nb");
}
