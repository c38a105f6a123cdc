use sqlite3_editor::scanner::{SQLite3ParenAwareTokenScanner, SQLite3TokenScannerOutput};
use sqlite3_editor::token::SQLite3Token;
use sqlite3_editor::tokenize::tokenize_with_range_location;

fn unwrap_single_token(output: SQLite3TokenScannerOutput) -> SQLite3Token {
    match output {
        SQLite3TokenScannerOutput::SingleToken(token) => token.value.clone(),
        _ => panic!(),
    }
}

fn unwrap_group(output: SQLite3TokenScannerOutput) -> Vec<SQLite3Token> {
    match output {
        SQLite3TokenScannerOutput::Group(tokens) => tokens.iter().map(|t| t.value.clone()).collect::<Vec<_>>(),
        _ => panic!(),
    }
}

#[test]
fn ltr_empty_input_returns_none() {
    let tokens = tokenize_with_range_location("").unwrap();
    let mut it = SQLite3ParenAwareTokenScanner::new(&tokens);
    assert_eq!(it.next().unwrap(), SQLite3TokenScannerOutput::StartOfInput);
    assert_eq!(it.next().unwrap(), SQLite3TokenScannerOutput::EndOfInput);
    assert_eq!(it.next(), None);
}

#[test]
fn rtl_empty_input_returns_none() {
    let tokens = tokenize_with_range_location("").unwrap();
    let mut it = SQLite3ParenAwareTokenScanner::new(&tokens);
    assert_eq!(it.next_back().unwrap(), SQLite3TokenScannerOutput::EndOfInput);
    assert_eq!(it.next_back().unwrap(), SQLite3TokenScannerOutput::StartOfInput);
    assert_eq!(it.next_back(), None);
}

#[test]
fn ltr_unmatched_right_paren_yields_single_right_paren() {
    let tokens = tokenize_with_range_location(") 1").unwrap();
    let mut it = SQLite3ParenAwareTokenScanner::new(&tokens);
    assert_eq!(it.next().unwrap(), SQLite3TokenScannerOutput::StartOfInput);
    assert_eq!(unwrap_single_token(it.next().unwrap()), SQLite3Token::RParen);
}

#[test]
fn ltr_unmatched_left_paren_yields_single_left_paren() {
    let tokens = tokenize_with_range_location("(1 + 2").unwrap();
    let mut it = SQLite3ParenAwareTokenScanner::new(&tokens);
    assert_eq!(it.next().unwrap(), SQLite3TokenScannerOutput::StartOfInput);
    assert_eq!(unwrap_single_token(it.next().unwrap()), SQLite3Token::LParen);
}

#[test]
fn rtl_unmatched_left_paren_yields_single_left_paren() {
    let tokens = tokenize_with_range_location("(").unwrap();
    let mut it = SQLite3ParenAwareTokenScanner::new(&tokens);
    assert_eq!(it.next_back().unwrap(), SQLite3TokenScannerOutput::EndOfInput);
    assert_eq!(unwrap_single_token(it.next_back().unwrap()), SQLite3Token::LParen);
}

#[test]
fn rtl_unmatched_right_paren_yields_single_right_paren() {
    let tokens = tokenize_with_range_location(")").unwrap();
    let mut it = SQLite3ParenAwareTokenScanner::new(&tokens);
    assert_eq!(it.next_back().unwrap(), SQLite3TokenScannerOutput::EndOfInput);
    assert_eq!(unwrap_single_token(it.next_back().unwrap()), SQLite3Token::RParen);
}

#[test]
fn ltr_simple_group_empty_between_parens() {
    let tokens = tokenize_with_range_location("()").unwrap();
    let mut it = SQLite3ParenAwareTokenScanner::new(&tokens);
    assert_eq!(it.next().unwrap(), SQLite3TokenScannerOutput::StartOfInput);
    assert_eq!(unwrap_group(it.next().unwrap()), []);
}

#[test]
fn rtl_simple_group_empty_between_parens() {
    let tokens = tokenize_with_range_location("()").unwrap();
    let mut it = SQLite3ParenAwareTokenScanner::new(&tokens);
    assert_eq!(it.next_back().unwrap(), SQLite3TokenScannerOutput::EndOfInput);
    assert_eq!(unwrap_group(it.next_back().unwrap()), []);
}

#[test]
fn ltr_nested_parens_group_contains_inner_pair_in_order() {
    let tokens = tokenize_with_range_location("(())").unwrap();
    let mut it = SQLite3ParenAwareTokenScanner::new(&tokens);
    assert_eq!(it.next().unwrap(), SQLite3TokenScannerOutput::StartOfInput);
    assert_eq!(unwrap_group(it.next().unwrap()), [SQLite3Token::LParen, SQLite3Token::RParen]);
}

#[test]
fn rtl_nested_parens_group_contains_inner_pair_in_order() {
    let tokens = tokenize_with_range_location("(())").unwrap();
    let mut it = SQLite3ParenAwareTokenScanner::new(&tokens);
    assert_eq!(it.next_back().unwrap(), SQLite3TokenScannerOutput::EndOfInput);
    assert_eq!(unwrap_group(it.next_back().unwrap()), [SQLite3Token::LParen, SQLite3Token::RParen]);
}

#[test]
fn ltr_consumes_multiple_items_until_exhaustion() {
    let tokens = tokenize_with_range_location("1 () () 2").unwrap();
    let mut it = SQLite3ParenAwareTokenScanner::new(&tokens);
    assert_eq!(it.next().unwrap(), SQLite3TokenScannerOutput::StartOfInput);
    assert_eq!(unwrap_single_token(it.next().unwrap()), SQLite3Token::NumericLiteral("1".to_owned()));
    assert_eq!(unwrap_single_token(it.next().unwrap()), SQLite3Token::Whitespace(false));
    assert_eq!(unwrap_group(it.next().unwrap()), []);
    assert_eq!(unwrap_single_token(it.next().unwrap()), SQLite3Token::Whitespace(false));
    assert_eq!(unwrap_group(it.next().unwrap()), []);
    assert_eq!(unwrap_single_token(it.next().unwrap()), SQLite3Token::Whitespace(false));
    assert_eq!(unwrap_single_token(it.next().unwrap()), SQLite3Token::NumericLiteral("2".to_owned()));
    assert_eq!(it.next().unwrap(), SQLite3TokenScannerOutput::EndOfInput);
    assert_eq!(it.next(), None);
}

#[test]
fn rtl_consumes_multiple_items_until_exhaustion() {
    let tokens = tokenize_with_range_location("1 () () 2").unwrap();
    let mut it = SQLite3ParenAwareTokenScanner::new(&tokens);
    assert_eq!(it.next_back().unwrap(), SQLite3TokenScannerOutput::EndOfInput);
    assert_eq!(unwrap_single_token(it.next_back().unwrap()), SQLite3Token::NumericLiteral("2".to_owned()));
    assert_eq!(unwrap_single_token(it.next_back().unwrap()), SQLite3Token::Whitespace(false));
    assert_eq!(unwrap_group(it.next_back().unwrap()), []);
    assert_eq!(unwrap_single_token(it.next_back().unwrap()), SQLite3Token::Whitespace(false));
    assert_eq!(unwrap_group(it.next_back().unwrap()), []);
    assert_eq!(unwrap_single_token(it.next_back().unwrap()), SQLite3Token::Whitespace(false));
    assert_eq!(unwrap_single_token(it.next_back().unwrap()), SQLite3Token::NumericLiteral("1".to_owned()));
    assert_eq!(it.next_back().unwrap(), SQLite3TokenScannerOutput::StartOfInput);
    assert_eq!(it.next_back(), None);
}

#[test]
fn collect_groups_nested_parentheses() {
    let tokens = tokenize_with_range_location("a (b (c)) d").unwrap();
    let out = SQLite3ParenAwareTokenScanner::new(&tokens).collect();
    assert_eq!(out.len(), 7);
    assert_eq!(out[0], SQLite3TokenScannerOutput::StartOfInput);
    assert_eq!(unwrap_group(out[3].clone()).len(), 5);
    assert_eq!(out[6], SQLite3TokenScannerOutput::EndOfInput);
}
