use clex::classify::tokenise;
use clex::pattern::Pattern;
use clex::scanner::func_pattern;
use clex::scanner::scan;
use clex::scanner::Span;
use clex::token::Operator;
use clex::token::Seperator;
use clex::token::Token;
use clex::token::TypeSpecifier;

fn toks(s: &str) -> Vec<Token> {
    tokenise(&s.as_bytes().to_vec())
}

fn ident(s: &str) -> Token {
    Token::Identifier(s.as_bytes().to_vec())
}

#[test]
fn whole_function_is_one_span() {
    let tokens = toks("int main(argc,argv){int foo=0;}");
    assert_eq!(tokens.len(), 14);
    // the parameter-list wildcard spans `argc , argv`
    assert_eq!(tokens[3], ident("argc"));
    assert_eq!(tokens[4], Token::Operator(Operator::Comma));
    assert_eq!(tokens[5], ident("argv"));
    // the body wildcard spans `int foo = 0 ;`
    assert_eq!(tokens[8], Token::Type(TypeSpecifier::Int));
    assert_eq!(tokens[12], Token::Seperator(Seperator::SemiColon));
    let spans = scan(&tokens);
    assert_eq!(spans, vec![Span { start: 0, end: 14 }]);
}

#[test]
fn no_function_shape_means_no_spans() {
    let tokens = toks("int foo=0;");
    let spans = scan(&tokens);
    assert_eq!(spans, vec![]);
}

#[test]
fn body_wildcard_skips_nested_braces() {
    let tokens = toks("int f(){ if(1){} }");
    assert_eq!(tokens.len(), 12);
    let spans = scan(&tokens);
    assert_eq!(spans, vec![Span { start: 0, end: 12 }]);
}

#[test]
fn pattern_ending_in_wildcard_is_rejected_at_construction() {
    let rejected = Pattern::new(vec![Token::Type(TypeSpecifier::Any), Token::Wildcard]);
    assert!(rejected.is_none());
}

#[test]
fn two_adjacent_functions_give_two_spans() {
    let tokens = toks("int f(){} void g(){}");
    assert_eq!(tokens.len(), 12);
    let spans = scan(&tokens);
    assert_eq!(
        spans,
        vec![Span { start: 0, end: 6 }, Span { start: 6, end: 12 }]
    );
}

#[test]
fn function_after_leading_statement_is_found() {
    let tokens = toks("int x=1; void g(){}");
    let spans = scan(&tokens);
    assert_eq!(spans, vec![Span { start: 5, end: 11 }]);
}

#[test]
fn empty_stream_gives_no_spans() {
    let tokens = toks("");
    let spans = scan(&tokens);
    assert_eq!(spans, vec![]);
}

#[test]
fn func_pattern_matches_minimal_function() {
    let tokens = toks("void g(){}");
    let p = func_pattern();
    let (ok, consumed) = clex::matcher::check_pattern(&tokens, 0, &p);
    assert!(ok);
    assert_eq!(consumed, 6);
}
