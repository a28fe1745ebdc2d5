use clex::classify::tokenise;
use clex::matcher::check_pattern;
use clex::pattern::Pattern;
use clex::token::Keyword;
use clex::token::Operator;
use clex::token::Seperator;
use clex::token::Token;
use clex::token::TypeSpecifier;

fn pat(entries: Vec<Token>) -> Pattern {
    Pattern::new(entries).expect("pattern must not end in a wildcard")
}

#[test]
fn matches_type_placeholder_both_ways() {
    let any = Token::Type(TypeSpecifier::Any);
    let int = Token::Type(TypeSpecifier::Int);
    let void = Token::Type(TypeSpecifier::Void);
    assert!(any.matches(&int));
    assert!(int.matches(&any));
    assert!(int.matches(&int));
    assert!(!int.matches(&void));
}

#[test]
fn matches_keyword_and_operator_placeholders() {
    assert!(Token::Keyword(Keyword::Any).matches(&Token::Keyword(Keyword::If)));
    assert!(Token::Keyword(Keyword::While).matches(&Token::Keyword(Keyword::Any)));
    assert!(!Token::Keyword(Keyword::If).matches(&Token::Keyword(Keyword::While)));
    assert!(Token::Operator(Operator::Any).matches(&Token::Operator(Operator::Comma)));
    assert!(!Token::Operator(Operator::Add).matches(&Token::Operator(Operator::Minus)));
}

#[test]
fn matches_separators_only_exactly() {
    let ob = Token::Seperator(Seperator::OB);
    let cb = Token::Seperator(Seperator::CB);
    assert!(ob.matches(&ob));
    assert!(!ob.matches(&cb));
}

#[test]
fn matches_empty_payload_is_category_wildcard() {
    let any_ident = Token::Identifier(vec![]);
    let foo = Token::Identifier("foo".as_bytes().to_vec());
    let bar = Token::Identifier("bar".as_bytes().to_vec());
    assert!(any_ident.matches(&foo));
    assert!(foo.matches(&any_ident));
    assert!(foo.matches(&foo));
    assert!(!foo.matches(&bar));
    assert!(Token::Literal(vec![]).matches(&Token::Literal("0".as_bytes().to_vec())));
}

#[test]
fn matches_never_crosses_categories() {
    let int = Token::Type(TypeSpecifier::Int);
    let ident = Token::Identifier("int".as_bytes().to_vec());
    assert!(!int.matches(&ident));
    assert!(!ident.matches(&int));
    assert!(!Token::Wildcard.matches(&int));
    assert!(!int.matches(&Token::Wildcard));
}

#[test]
fn pattern_rejects_trailing_wildcard() {
    let rejected = Pattern::new(vec![Token::Type(TypeSpecifier::Any), Token::Wildcard]);
    assert!(rejected.is_none());
}

#[test]
fn pattern_accepts_inner_wildcard_and_empty() {
    assert!(Pattern::new(vec![]).is_some());
    assert!(Pattern::new(vec![
        Token::Type(TypeSpecifier::Any),
        Token::Wildcard,
        Token::Seperator(Seperator::SemiColon),
    ])
    .is_some());
}

#[test]
fn concrete_entries_match_in_lockstep() {
    let tokens = tokenise(&"int foo".as_bytes().to_vec());
    let p = pat(vec![Token::Type(TypeSpecifier::Any), Token::Identifier(vec![])]);
    let (ok, consumed) = check_pattern(&tokens, 0, &p);
    assert!(ok);
    assert_eq!(consumed, 2);
}

#[test]
fn mismatch_reports_tokens_examined() {
    let tokens = tokenise(&"int foo".as_bytes().to_vec());
    let p = pat(vec![
        Token::Type(TypeSpecifier::Any),
        Token::Seperator(Seperator::SemiColon),
    ]);
    let (ok, consumed) = check_pattern(&tokens, 0, &p);
    assert!(!ok);
    assert_eq!(consumed, 1);
}

#[test]
fn match_at_offset() {
    let tokens = tokenise(&"; int foo".as_bytes().to_vec());
    let p = pat(vec![Token::Type(TypeSpecifier::Any), Token::Identifier(vec![])]);
    let (ok, consumed) = check_pattern(&tokens, 1, &p);
    assert!(ok);
    assert_eq!(consumed, 2);
}

#[test]
fn wildcard_skips_to_anchor_at_same_depth() {
    // the wildcard must absorb the inner parenthesised group and resolve
    // only at the semicolon that sits at its own nesting level
    let tokens = tokenise(&"( ; ) ;".as_bytes().to_vec());
    let p = pat(vec![Token::Wildcard, Token::Seperator(Seperator::SemiColon)]);
    let (ok, consumed) = check_pattern(&tokens, 0, &p);
    assert!(ok);
    assert_eq!(consumed, 4);
}

#[test]
fn wildcard_may_absorb_zero_tokens() {
    let tokens = tokenise(&"int ;".as_bytes().to_vec());
    let p = pat(vec![
        Token::Type(TypeSpecifier::Any),
        Token::Wildcard,
        Token::Seperator(Seperator::SemiColon),
    ]);
    let (ok, consumed) = check_pattern(&tokens, 0, &p);
    assert!(ok);
    assert_eq!(consumed, 2);
}

#[test]
fn wildcard_fails_when_stream_ends_before_anchor() {
    let tokens = tokenise(&"int foo".as_bytes().to_vec());
    let p = pat(vec![
        Token::Type(TypeSpecifier::Any),
        Token::Wildcard,
        Token::Seperator(Seperator::SemiColon),
    ]);
    let (ok, _) = check_pattern(&tokens, 0, &p);
    assert!(!ok);
}

#[test]
fn stream_exhausted_with_entries_left_fails() {
    let tokens = tokenise(&"int".as_bytes().to_vec());
    let p = pat(vec![Token::Type(TypeSpecifier::Any), Token::Identifier(vec![])]);
    let (ok, consumed) = check_pattern(&tokens, 0, &p);
    assert!(!ok);
    assert_eq!(consumed, 1);
}

#[test]
fn empty_pattern_matches_nothing_consumed() {
    let tokens = tokenise(&"int".as_bytes().to_vec());
    let p = pat(vec![]);
    let (ok, consumed) = check_pattern(&tokens, 0, &p);
    assert!(ok);
    assert_eq!(consumed, 0);
}
