use sqlite3_editor::code_lens::{code_lens, escape_sql_identifier, CodeLensKind};
use sqlite3_editor::completion::{complete, TokenType};
use sqlite3_editor::dot_command::DotCommand;
use sqlite3_editor::cte::parse_cte;
use sqlite3_editor::diagnosis::loose_byte_to_code_point_index;
use sqlite3_editor::location::ZeroIndexedLocation;
use sqlite3_editor::placeholders::list_placeholders;
use sqlite3_editor::range::ZeroIndexedRange;
use sqlite3_editor::scanner::{SQLite3ParenAwareTokenScanner, SQLite3TokenScannerOutput};
use sqlite3_editor::semantic_highlight::semantic_highlight;
use sqlite3_editor::split_statements::split_sqlite_statements;
use sqlite3_editor::tokenize::tokenize_with_range_location;

fn weight(o: &SQLite3TokenScannerOutput) -> usize {
    match o {
        SQLite3TokenScannerOutput::SingleToken(_) => 1,
        SQLite3TokenScannerOutput::Group(g) => g.len() + 2,
        _ => 0,
    }
}

#[test]
fn full_walk_from_the_left_accounts_for_every_token() {
    let tokens = tokenize_with_range_location("SELECT (1 + (2)), f(x) FROM t WHERE (a").unwrap();
    let out = SQLite3ParenAwareTokenScanner::new(&tokens).collect();
    assert_eq!(out.first(), Some(&SQLite3TokenScannerOutput::StartOfInput));
    assert_eq!(out.last(), Some(&SQLite3TokenScannerOutput::EndOfInput));
    assert_eq!(out.iter().filter(|o| **o == SQLite3TokenScannerOutput::StartOfInput).count(), 1);
    assert_eq!(out.iter().filter(|o| **o == SQLite3TokenScannerOutput::EndOfInput).count(), 1);
    assert_eq!(out.iter().map(weight).sum::<usize>(), tokens.len());
}

#[test]
fn full_walk_from_the_right_accounts_for_every_token() {
    let tokens = tokenize_with_range_location("a) (b, (c)) d").unwrap();
    let mut it = SQLite3ParenAwareTokenScanner::new(&tokens);
    let mut out = vec![];
    while let Some(o) = it.next_back() {
        out.push(o);
    }
    assert_eq!(out.first(), Some(&SQLite3TokenScannerOutput::EndOfInput));
    assert_eq!(out.last(), Some(&SQLite3TokenScannerOutput::StartOfInput));
    assert_eq!(out.iter().map(weight).sum::<usize>(), tokens.len());
}

#[test]
fn statements_follow_one_another() {
    let (stmts, _) = split_sqlite_statements("SELECT 1;\n  SELECT 2; -- c\n.tables\nBEGIN; END; SELECT 3").unwrap();
    assert_eq!(stmts[0].all_text.range.start, ZeroIndexedLocation::new(0, 0));
    for w in stmts.windows(2) {
        assert_eq!(w[0].all_text.range.end, w[1].all_text.range.start);
    }
}

#[test]
fn tokens_follow_one_another_to_the_end() {
    let sql = "SELECT 1_000, x'01'\n  FROM \"t\" -- é\n;";
    let tokens = tokenize_with_range_location(sql).unwrap();
    for w in tokens.windows(2) {
        assert_eq!(w[0].range.end, w[1].range.start);
    }
    assert_eq!(tokens.last().unwrap().range.end, ZeroIndexedLocation::new(2, 1));
}

#[test]
fn quoted_identifiers_read_back() {
    for ident in ["a", "a`b", "``", ""] {
        let q = escape_sql_identifier(ident);
        assert!(q.starts_with('`') && q.ends_with('`'));
        assert_eq!(q[1..q.len() - 1].replace("``", "`"), ident);
    }
    assert_ne!(escape_sql_identifier("a`"), escape_sql_identifier("a``"));
}

#[test]
fn highlights_cover_at_least_one_character() {
    for h in semantic_highlight("SELECT 1;\n\n  -- x\n") {
        assert_ne!(h.range.start, h.range.end);
    }
}

#[test]
fn cte_body_runs_to_the_end_of_the_statement() {
    let (stmts, _) = split_sqlite_statements("WITH a AS (SELECT 1) SELECT * FROM a  ;").unwrap();
    let cte = parse_cte(&stmts[0]).unwrap();
    assert_eq!(cte.body_range.end, stmts[0].real_text.range.end);
    let (stmts, _) = split_sqlite_statements("SELECT 1").unwrap();
    assert!(parse_cte(&stmts[0]).is_none());
}

#[test]
fn numbered_placeholders_land_in_their_slot() {
    let (stmts, _) = split_sqlite_statements("SELECT ?3, ?, ?3").unwrap();
    let ps = list_placeholders(&stmts[0]);
    assert!(ps.len() >= 3);
    assert_eq!(ps[2].ranges_relative_to_stmt, vec![ZeroIndexedRange::new4(0, 7, 0, 9), ZeroIndexedRange::new4(0, 14, 0, 16)]);
}

#[test]
fn byte_offsets_of_characters_convert_back() {
    let s = "aé€😀b";
    for (i, (b, _)) in s.char_indices().enumerate() {
        assert_eq!(loose_byte_to_code_point_index(s, b), i);
    }
    assert_eq!(loose_byte_to_code_point_index(s, s.len()), s.chars().count());
}

#[test]
fn last_tokens_are_one_to_seven_kinds() {
    let sqls = ["", "SELECT", "SELECT a, b FROM t WHERE x = 1 AND y = 2 AND", "SELECT (1 + 2) FROM"];
    for sql in sqls {
        let (c, _) = complete(sql, &ZeroIndexedLocation::new(0, sql.len()), &vec![]);
        let n = c.last_tokens.len();
        assert!((1..=7).contains(&n), "{sql}: {n}");
        if n < 7 {
            assert_eq!(c.last_tokens[0], TokenType::StartOfStatement);
        }
    }
    let (c, _) = complete("SELECT a, b FROM t WHERE x = 1 AND", &ZeroIndexedLocation::new(0, 34), &vec![]);
    assert_eq!(c.last_tokens.len(), 7);
}

#[test]
fn cte_needs_a_keyword_outside_parentheses() {
    let (stmts, _) = split_sqlite_statements("WITH a AS (SELECT 1)").unwrap();
    assert!(parse_cte(&stmts[0]).is_none());
    let (stmts, _) = split_sqlite_statements("WITH a AS (SELECT 1), b AS (VALUES(2)) SELECT * FROM a").unwrap();
    let cte = parse_cte(&stmts[0]).unwrap();
    assert_eq!(cte.body_range, ZeroIndexedRange::new4(0, 39, 0, 54));
    assert_eq!(cte.entries.len(), 2);
}

#[test]
fn dot_commands_read_back_as_written() {
    for text in [".open 'a b' \"c\\td\" e  ", ".tables", ".mode  csv x", ".q \"unclosed", ".x  'no end"] {
        let d = DotCommand::new(3, text);
        let mut back = format!(".{}{}", d.name, d.space_after_name);
        for a in &d.args {
            assert!(!a.arg_text.is_empty());
            assert!(a.arg_text.starts_with(['\'', '"']) || a.arg_value.as_deref() == Some(a.arg_text.as_str()));
            back.push_str(&a.arg_text);
            back.push_str(&a.space_after_arg);
        }
        assert_eq!(back, text);
        assert!(!d.name.contains(' '));
        assert_eq!((d.line, d.text.as_str()), (3, text));
    }
}

#[test]
fn code_lenses_stand_for_statements_or_ctes() {
    let sql = "WITH a AS (SELECT 1) SELECT * FROM a;\n  INSERT INTO t VALUES (1) ;";
    let (stmts, _) = split_sqlite_statements(sql).unwrap();
    let lenses = code_lens(sql);
    assert_eq!(lenses.len(), 3);
    for l in &lenses {
        match &l.cte_identifier {
            Some(id) => {
                assert_eq!(l.kind, CodeLensKind::Select);
                assert!(l.table_to_be_shown.is_none());
                assert!(l.stmt_executed.ends_with(&format!("SELECT * FROM {id}")));
            }
            None => {
                assert!(stmts.iter().any(|s| s.real_text.range == l.range && s.real_text.value == l.stmt_executed));
            }
        }
    }
    assert!(code_lens("SELECT 'a").is_empty());
}

#[test]
fn real_text_lies_within_the_statement() {
    let (stmts, _) = split_sqlite_statements("  SELECT 1 ;\n -- c\n SELECT 2  ").unwrap();
    assert_eq!(stmts.len(), 2);
    for s in &stmts {
        let (a, r) = (s.all_text.range, s.real_text.range);
        assert!((a.start.line, a.start.column) <= (r.start.line, r.start.column));
        assert!((r.start.line, r.start.column) <= (r.end.line, r.end.column));
        assert!((r.end.line, r.end.column) <= (a.end.line, a.end.column));
    }
    assert_eq!(stmts[0].real_text.range, ZeroIndexedRange::new4(0, 2, 0, 12));
}

#[test]
fn walk_from_the_left_keeps_the_tokens_in_order() {
    let tokens = tokenize_with_range_location("SELECT (1 + (2)), f(x) FROM t WHERE (a").unwrap();
    let mut kinds = vec![];
    for o in SQLite3ParenAwareTokenScanner::new(&tokens).collect() {
        match o {
            SQLite3TokenScannerOutput::SingleToken(t) => kinds.push(t.value.clone()),
            SQLite3TokenScannerOutput::Group(g) => {
                kinds.push(sqlite3_editor::token::SQLite3Token::LParen);
                kinds.extend(g.iter().map(|t| t.value.clone()));
                kinds.push(sqlite3_editor::token::SQLite3Token::RParen);
            }
            _ => {}
        }
    }
    assert_eq!(kinds, tokens.iter().map(|t| t.value.clone()).collect::<Vec<_>>());
}

#[test]
fn statements_give_back_the_script() {
    for sql in ["SELECT 1;\n  SELECT 2; -- c\nBEGIN; END; SELECT 3", "SELECT 'é';", " ;; x", "CREATE TRIGGER t BEGIN SELECT 1; END"] {
        let (stmts, dots) = split_sqlite_statements(sql).unwrap();
        assert!(dots.is_empty());
        assert_eq!(stmts.iter().map(|s| s.all_text.value.as_str()).collect::<String>(), sql);
    }
}

fn loc_tuple(l: ZeroIndexedLocation) -> (usize, usize) {
    (l.line, l.column)
}

#[test]
fn cte_entries_come_in_text_order() {
    let (stmts, _) = split_sqlite_statements("WITH a AS (SELECT 1), b(x) AS (VALUES(2)) SELECT * FROM a").unwrap();
    let cte = parse_cte(&stmts[0]).unwrap();
    assert_eq!(cte.entries.len(), 2);
    for (k, e) in cte.entries.iter().enumerate() {
        assert!(loc_tuple(e.ident.range.end) <= loc_tuple(e.query_range.start));
        assert!(loc_tuple(e.query_range.start) <= loc_tuple(e.query_range.end));
        assert!(loc_tuple(e.query_range.end) <= loc_tuple(cte.body_range.start));
        if k + 1 < cte.entries.len() {
            assert!(loc_tuple(e.query_range.end) <= loc_tuple(cte.entries[k + 1].query_range.start));
        }
    }
}

#[test]
fn walk_from_the_left_follows_the_text() {
    let tokens = tokenize_with_range_location("SELECT (1 + (2)), f() FROM t WHERE (a").unwrap();
    let mut spans = vec![];
    for o in SQLite3ParenAwareTokenScanner::new(&tokens).collect() {
        match o {
            SQLite3TokenScannerOutput::SingleToken(t) => spans.push((t.range.start, t.range.end)),
            SQLite3TokenScannerOutput::Group(g) if !g.is_empty() => {
                spans.push((g[0].range.start, g[g.len() - 1].range.end))
            }
            _ => {}
        }
    }
    for w in spans.windows(2) {
        assert!(loc_tuple(w[0].1) <= loc_tuple(w[1].0));
    }
}

#[test]
fn tokens_tile_the_text() {
    for sql in ["SELECT 1;\n  SELECT 'é' -- c\n", "x\r\ny", "", "a\n\n", "SELECT \"x\"\t\t, 2"] {
        let tokens = tokenize_with_range_location(sql).unwrap();
        if tokens.is_empty() {
            continue;
        }
        assert_eq!(tokens[0].range.start, ZeroIndexedLocation::new(0, 0));
        for t in &tokens {
            assert!(loc_tuple(t.range.start) <= loc_tuple(t.range.end));
        }
        for w in tokens.windows(2) {
            assert_eq!(w[0].range.end, w[1].range.start);
        }
        let lines: Vec<&str> = sql.lines().collect();
        let end = ZeroIndexedLocation::new(lines.len().saturating_sub(1), lines.last().map_or(0, |l| l.chars().count()));
        assert_eq!(tokens.last().unwrap().range.end, end);
    }
}

#[test]
fn double_quoted_literals_are_read_from_the_start() {
    for (text, lit, val) in [
        ("\"abc\" d", "\"abc\"", Some("abc")),
        ("\"a\\tb\"", "\"a\\tb\"", Some("a\tb")),
        ("\"open", "\"open", None),
        ("\"\"", "\"\"", Some("")),
    ] {
        let (l, v) = DotCommand::scan_double_quote_string_literal(text);
        assert_eq!((l.as_str(), v.as_deref()), (lit, val));
        assert!(text.starts_with(l.as_str()));
    }
}

#[test]
fn highlights_follow_the_tokens_that_cover_text() {
    let sql = "SELECT x -- c\n FROM t";
    let tokens = tokenize_with_range_location(sql).unwrap();
    let ranges: Vec<_> = tokens.iter().filter(|t| t.range.start != t.range.end).map(|t| t.range).collect();
    assert_eq!(semantic_highlight(sql).iter().map(|h| h.range).collect::<Vec<_>>(), ranges);
    assert!(semantic_highlight("'aa").is_empty());
}

#[test]
fn splitting_fails_only_with_the_tokenizer() {
    for sql in ["SELECT 'a", "SELECT \"a", "/* x", "SELECT 1;\r\n.tables\r\nSELECT 2", ".x\n.y", "a.b\r\n.c"] {
        match (split_sqlite_statements(sql), tokenize_with_range_location(sql)) {
            (Err(e1), Err(e2)) => assert_eq!(e1, e2),
            (Ok(_), Ok(_)) => {}
            (a, b) => panic!("{sql:?}: {:?} / {:?}", a.is_ok(), b.is_ok()),
        }
    }
    let err = split_sqlite_statements("SELECT 'a").err().unwrap();
    assert_eq!((err.location, err.message.as_str()), (ZeroIndexedLocation::new(0, 7), "Unterminated string literal"));
}

#[test]
fn every_statement_covers_text() {
    for sql in ["SELECT 1;\r\n", ";;", "SELECT 1; SELECT 2;\n\n", "x\r\ny;z"] {
        let (stmts, _) = split_sqlite_statements(sql).unwrap();
        for s in &stmts {
            assert!(loc_tuple(s.all_text.range.start) < loc_tuple(s.all_text.range.end), "{sql:?}");
        }
    }
    let (stmts, dots) = split_sqlite_statements("").unwrap();
    assert!(stmts.is_empty() && dots.is_empty());
}

#[test]
fn scanner_stays_exhausted() {
    let tokens = tokenize_with_range_location("a (b)").unwrap();
    let mut it = SQLite3ParenAwareTokenScanner::new(&tokens);
    while it.next().is_some() {}
    assert!(it.next().is_none());
    assert!(it.next().is_none());
    let mut it = SQLite3ParenAwareTokenScanner::new(&tokens);
    while it.next_back().is_some() {}
    assert!(it.next_back().is_none());
}
