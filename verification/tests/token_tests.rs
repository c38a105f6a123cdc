use sqlite3_editor::token::{ParseError, SQLite3Keyword, SQLite3KeywordLikeIdentifier};

#[test]
fn test_keyword_like_identifier_from_str() {
    assert_eq!(Ok(SQLite3KeywordLikeIdentifier::NEW), SQLite3KeywordLikeIdentifier::from_str("NEW"));
    assert_eq!(Ok(SQLite3KeywordLikeIdentifier::STRICT), SQLite3KeywordLikeIdentifier::from_str("STRICT"));
}

#[test]
fn test_keyword_from_str() {
    assert_eq!(Ok(SQLite3Keyword::ABORT), SQLite3Keyword::from_str("ABORT"));
    assert_eq!(Ok(SQLite3Keyword::CURRENT_DATE), SQLite3Keyword::from_str("CURRENT_DATE"));
    assert_eq!(Ok(SQLite3Keyword::WITHOUT), SQLite3Keyword::from_str("WITHOUT"));

    assert_eq!(Err(ParseError::VariantNotFound), SQLite3Keyword::from_str("abort"));
    assert_eq!(Err(ParseError::VariantNotFound), SQLite3Keyword::from_str("current_date"));

    assert_eq!(Err(ParseError::VariantNotFound), SQLite3Keyword::from_str(" ABORT"));
    assert_eq!(Err(ParseError::VariantNotFound), SQLite3Keyword::from_str("ABORT "));
}

#[test]
fn test_keyword_iter() {
    let all = SQLite3Keyword::all();
    assert!(all.len() >= 148);
    assert_eq!(*all.first().unwrap(), SQLite3Keyword::ABORT);
    assert_eq!(*all.last().unwrap(), SQLite3Keyword::WITHOUT);
}

#[test]
fn test_keyword_as_ref() {
    assert_eq!(format!("{}", SQLite3Keyword::ABORT.as_ref()), "ABORT");
    assert_eq!(format!("{}", SQLite3Keyword::WITHOUT.as_ref()), "WITHOUT");
}

#[test]
fn keyword_names_round_trip() {
    for k in SQLite3Keyword::all() {
        assert_eq!(SQLite3Keyword::from_str(k.as_ref()), Ok(k));
    }
    for k in SQLite3KeywordLikeIdentifier::all() {
        assert_eq!(SQLite3KeywordLikeIdentifier::from_str(k.as_ref()), Ok(k));
    }
}
