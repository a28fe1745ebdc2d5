use clex::classify::tokenise;
use clex::token::Keyword;
use clex::token::Operator;
use clex::token::Seperator;
use clex::token::Token;
use clex::token::TypeSpecifier;

fn toks(s: &str) -> Vec<Token> {
    tokenise(&s.as_bytes().to_vec())
}

fn ident(s: &str) -> Token {
    Token::Identifier(s.as_bytes().to_vec())
}

fn literal(s: &str) -> Token {
    Token::Literal(s.as_bytes().to_vec())
}

#[test]
fn empty_input_yields_empty_stream() {
    assert_eq!(toks(""), vec![]);
}

#[test]
fn whitespace_only_yields_empty_stream() {
    assert_eq!(toks("  \n \n  "), vec![]);
}

#[test]
fn trailing_run_is_flushed_at_end_of_input() {
    assert_eq!(toks("int"), vec![Token::Type(TypeSpecifier::Int)]);
    assert_eq!(toks("int "), vec![Token::Type(TypeSpecifier::Int)]);
}

#[test]
fn separators_and_keywords_one_token_per_lexeme() {
    let out = toks("if { } ; while ( )");
    assert_eq!(
        out,
        vec![
            Token::Keyword(Keyword::If),
            Token::Seperator(Seperator::Ocb),
            Token::Seperator(Seperator::Ccb),
            Token::Seperator(Seperator::SemiColon),
            Token::Keyword(Keyword::While),
            Token::Seperator(Seperator::OB),
            Token::Seperator(Seperator::CB),
        ]
    );
}

#[test]
fn tokenise_is_idempotent() {
    let input = "int main(argc,argv){int foo=0;}".as_bytes().to_vec();
    let first = tokenise(&input);
    let second = tokenise(&input);
    assert_eq!(first, second);
}

#[test]
fn type_and_keyword_tables_resolve() {
    assert_eq!(toks("int"), vec![Token::Type(TypeSpecifier::Int)]);
    assert_eq!(toks("void"), vec![Token::Type(TypeSpecifier::Void)]);
    assert_eq!(toks("if"), vec![Token::Keyword(Keyword::If)]);
    assert_eq!(toks("while"), vec![Token::Keyword(Keyword::While)]);
}

#[test]
fn operator_run_assembles_comparitor() {
    assert_eq!(toks("=="), vec![Token::Operator(Operator::Comparitor)]);
    assert_eq!(toks("="), vec![Token::Operator(Operator::Equal)]);
    assert_eq!(
        toks("a==b"),
        vec![ident("a"), Token::Operator(Operator::Comparitor), ident("b")]
    );
}

#[test]
fn single_byte_operators_resolve() {
    assert_eq!(toks("+"), vec![Token::Operator(Operator::Add)]);
    assert_eq!(toks("-"), vec![Token::Operator(Operator::Minus)]);
    assert_eq!(toks("*"), vec![Token::Operator(Operator::Multiply)]);
    assert_eq!(toks("/"), vec![Token::Operator(Operator::Divide)]);
    assert_eq!(toks(","), vec![Token::Operator(Operator::Comma)]);
    assert_eq!(toks("["), vec![Token::Operator(Operator::Osb)]);
    assert_eq!(toks("]"), vec![Token::Operator(Operator::Csb)]);
}

#[test]
fn unresolvable_operator_run_falls_back_to_identifier() {
    assert_eq!(toks("=<"), vec![ident("=<")]);
}

#[test]
fn numeric_and_string_and_comment_literals() {
    assert_eq!(toks("0"), vec![literal("0")]);
    assert_eq!(toks("12345"), vec![literal("12345")]);
    assert_eq!(toks("\"abc\""), vec![literal("\"abc\"")]);
    assert_eq!(toks("//note"), vec![Token::Comment("//note".as_bytes().to_vec())]);
    assert_eq!(toks("12a"), vec![ident("12a")]);
}

#[test]
fn unrecognized_bytes_are_dropped_and_do_not_break_runs() {
    assert_eq!(toks("a\tb"), vec![ident("ab")]);
    assert_eq!(toks("\t"), vec![]);
}

#[test]
fn declaration_stream() {
    assert_eq!(
        toks("int foo=0;"),
        vec![
            Token::Type(TypeSpecifier::Int),
            ident("foo"),
            Token::Operator(Operator::Equal),
            literal("0"),
            Token::Seperator(Seperator::SemiColon),
        ]
    );
}

#[test]
fn token_new_resolves_runs_through_tables() {
    let marker = Token::Identifier(vec![]);
    assert_eq!(
        Token::new(marker.clone(), &"int".as_bytes().to_vec()),
        Token::Type(TypeSpecifier::Int)
    );
    assert_eq!(
        Token::new(marker.clone(), &"==".as_bytes().to_vec()),
        Token::Operator(Operator::Comparitor)
    );
    assert_eq!(
        Token::new(marker.clone(), &"{".as_bytes().to_vec()),
        Token::Seperator(Seperator::Ocb)
    );
    assert_eq!(Token::new(marker.clone(), &"foo".as_bytes().to_vec()), ident("foo"));
    assert_eq!(Token::new(marker, &vec![]), Token::Type(TypeSpecifier::Any));
}

#[test]
fn token_new_keeps_whitespace_category() {
    let marker = Token::Whitespace(vec![]);
    assert_eq!(
        Token::new(marker, &" ".as_bytes().to_vec()),
        Token::Whitespace(" ".as_bytes().to_vec())
    );
}
