use sqlite3_editor::semantic_highlight::{semantic_highlight, SemanticTokenKind};

fn kinds(sql: &str) -> Vec<SemanticTokenKind> {
    semantic_highlight(sql).into_iter().map(|t| t.kind).collect::<Vec<_>>()
}

#[test]
fn test_token_kinds() {
    assert_eq!(
        kinds("SELECT 1 = 2 * a; /* b */ -- c"),
        [
            SemanticTokenKind::Keyword,
            SemanticTokenKind::Other,
            SemanticTokenKind::Number,
            SemanticTokenKind::Other,
            SemanticTokenKind::Operator,
            SemanticTokenKind::Other,
            SemanticTokenKind::Number,
            SemanticTokenKind::Other,
            SemanticTokenKind::Operator,
            SemanticTokenKind::Other,
            SemanticTokenKind::Variable,
            SemanticTokenKind::Other,
            SemanticTokenKind::Other,
            SemanticTokenKind::Comment,
            SemanticTokenKind::Other,
            SemanticTokenKind::Comment,
        ]
    );
}

#[test]
fn test_quotes() {
    assert_eq!(
        kinds("SELECT 'a', \"b\", [c], `d`"),
        [
            SemanticTokenKind::Keyword,
            SemanticTokenKind::Other,
            SemanticTokenKind::String,
            SemanticTokenKind::Other,
            SemanticTokenKind::Other,
            SemanticTokenKind::Variable,
            SemanticTokenKind::Other,
            SemanticTokenKind::Other,
            SemanticTokenKind::Variable,
            SemanticTokenKind::Other,
            SemanticTokenKind::Other,
            SemanticTokenKind::Variable,
        ]
    );
}

#[test]
fn test_attach_database() {
    assert_eq!(
        kinds("ATTACH DATABASE 'db' AS db;"),
        [
            SemanticTokenKind::Keyword,
            SemanticTokenKind::Other,
            SemanticTokenKind::Keyword,
            SemanticTokenKind::Other,
            SemanticTokenKind::String,
            SemanticTokenKind::Other,
            SemanticTokenKind::Keyword,
            SemanticTokenKind::Other,
            SemanticTokenKind::Variable,
            SemanticTokenKind::Other,
        ]
    );
}

#[test]
fn test_quoted_identifier() {
    assert_eq!(kinds("\"a\""), [SemanticTokenKind::Variable])
}

#[test]
fn semantic_highlight_test_pragma() {
    assert_eq!(
        kinds("PRAGMA analysis_limit"),
        [SemanticTokenKind::Keyword, SemanticTokenKind::Other, SemanticTokenKind::Variable]
    );
}

#[test]
fn test_blob_literal() {
    assert_eq!(
        kinds("SELECT x'ff'"),
        [SemanticTokenKind::Keyword, SemanticTokenKind::Other, SemanticTokenKind::String]
    );
}

#[test]
fn test_tokenizer_error() {
    assert_eq!(kinds("'aa"), []);
}

fn assert_all_tokens_are_number(expr: &str) {
    let tokens = kinds(expr);
    assert_eq!(tokens, tokens.iter().map(|_| SemanticTokenKind::Number).collect::<Vec<_>>());
}

#[test]
fn test_delimited_numeric_literal_integer_and_float() {
    for part1 in ["00", "00_00_00"] {
        assert_all_tokens_are_number(part1);
        assert_all_tokens_are_number(&format!(".{part1}"));
        for part2 in ["00", "00_00_00"] {
            assert_all_tokens_are_number(&format!("{part1}.{part2}"));
            for e in ["e", "E"] {
                assert_all_tokens_are_number(&format!(".{part1}{e}{part2}"));
                assert_all_tokens_are_number(&format!(".{part1}{e}+{part2}"));
                assert_all_tokens_are_number(&format!(".{part1}{e}-{part2}"));
                for part3 in ["00", "00_00_00"] {
                    assert_all_tokens_are_number(&format!("{part1}.{part2}{e}{part3}"));
                    assert_all_tokens_are_number(&format!("{part1}.{part2}{e}+{part3}"));
                    assert_all_tokens_are_number(&format!("{part1}.{part2}{e}-{part3}"));
                }
            }
        }
    }
}

#[test]
fn test_delimited_numeric_literal_hex() {
    assert_all_tokens_are_number("0x00");
    assert_all_tokens_are_number("0x00_00_00");
    assert_all_tokens_are_number("0X00");
    assert_all_tokens_are_number("0X00_00");
}

#[test]
fn highlights_are_never_empty() {
    for h in semantic_highlight("SELECT 1;\n\n  -- x\n") {
        assert_ne!(h.range.start, h.range.end);
    }
}
