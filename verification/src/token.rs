//! The token model: categorized lexical units, their sub-variant tables,
//! and the structural compatibility predicate `matches` used by the
//! pattern matcher.

use vstd::prelude::*;

verus! {

/// Sub-variants of the `Type` category.  `Any` is the generic placeholder
/// that matches every type specifier inside a pattern.
#[derive(Clone, Copy, Debug, PartialEq, Eq, Structural)]
pub enum TypeSpecifier {
    Any,
    Int,
    Void,
}

/// Sub-variants of the `Keyword` category.  `Any` is the generic placeholder.
#[derive(Clone, Copy, Debug, PartialEq, Eq, Structural)]
pub enum Keyword {
    Any,
    If,
    While,
}

/// Sub-variants of the `Seperator` category.  Separators carry structural
/// meaning, so there is no generic placeholder: they only match exactly.
#[derive(Clone, Copy, Debug, PartialEq, Eq, Structural)]
pub enum Seperator {
    /// `{`
    Ocb,
    /// `}`
    Ccb,
    /// `(`
    OB,
    /// `)`
    CB,
    /// `;`
    SemiColon,
}

/// Sub-variants of the `Operator` category.  `Any` is the generic placeholder.
#[derive(Clone, Copy, Debug, PartialEq, Eq, Structural)]
pub enum Operator {
    Any,
    Add,
    Minus,
    Divide,
    Multiply,
    Comma,
    Comparitor,
    Equal,
    Osb,
    Csb,
}

/// A classified lexical unit.  Closed categories carry a sub-variant;
/// open categories carry their raw bytes.  `Wildcard` is a pattern-only
/// marker meaning "skip zero or more tokens here"; it never appears in a
/// classified stream.
#[derive(Clone, Debug, PartialEq, Eq)]
pub enum Token {
    Type(TypeSpecifier),
    Identifier(Vec<u8>),
    Keyword(Keyword),
    Seperator(Seperator),
    Operator(Operator),
    Literal(Vec<u8>),
    Comment(Vec<u8>),
    Whitespace(Vec<u8>),
    Wildcard,
}

/// The mathematical model of a `Token`: the same categories with the open
/// payloads abstracted to byte sequences.
pub enum TokenView {
    Type(TypeSpecifier),
    Identifier(Seq<u8>),
    Keyword(Keyword),
    Seperator(Seperator),
    Operator(Operator),
    Literal(Seq<u8>),
    Comment(Seq<u8>),
    Whitespace(Seq<u8>),
    Wildcard,
}

impl View for Token {
    type V = TokenView;

    open spec fn view(&self) -> TokenView {
        match self {
            Token::Type(t) => TokenView::Type(*t),
            Token::Identifier(s) => TokenView::Identifier(s@),
            Token::Keyword(k) => TokenView::Keyword(*k),
            Token::Seperator(s) => TokenView::Seperator(*s),
            Token::Operator(o) => TokenView::Operator(*o),
            Token::Literal(s) => TokenView::Literal(s@),
            Token::Comment(s) => TokenView::Comment(s@),
            Token::Whitespace(s) => TokenView::Whitespace(s@),
            Token::Wildcard => TokenView::Wildcard,
        }
    }
}

/// The view of a whole token sequence.
pub open spec fn token_views(ts: Seq<Token>) -> Seq<TokenView> {
    ts.map_values(|t: Token| t@)
}

/// Structural compatibility of two tokens.  Within `Type`, `Keyword` and
/// `Operator` the `Any` placeholder matches every sub-variant; within the
/// open categories an empty payload matches every payload; separators
/// match only exactly; cross-category pairs never match, and `Wildcard`
/// matches nothing (it is resolved by the matcher, not by this predicate).
pub open spec fn spec_matches(a: TokenView, b: TokenView) -> bool {
    match (a, b) {
        (TokenView::Type(x), TokenView::Type(y)) => x == y || x == TypeSpecifier::Any
            || y == TypeSpecifier::Any,
        (TokenView::Identifier(x), TokenView::Identifier(y)) => x == y || x.len() == 0
            || y.len() == 0,
        (TokenView::Keyword(x), TokenView::Keyword(y)) => x == y || x == Keyword::Any
            || y == Keyword::Any,
        (TokenView::Seperator(x), TokenView::Seperator(y)) => x == y,
        (TokenView::Operator(x), TokenView::Operator(y)) => x == y || x == Operator::Any
            || y == Operator::Any,
        (TokenView::Literal(x), TokenView::Literal(y)) => x == y || x.len() == 0 || y.len() == 0,
        (TokenView::Comment(x), TokenView::Comment(y)) => x == y || x.len() == 0 || y.len() == 0,
        (TokenView::Whitespace(x), TokenView::Whitespace(y)) => x == y || x.len() == 0
            || y.len() == 0,
        _ => false,
    }
}

/// Byte-for-byte equality of two byte vectors.
pub fn bytes_eq(a: &Vec<u8>, b: &Vec<u8>) -> (r: bool)
    ensures
        r == (a@ == b@),
{
    if a.len() != b.len() {
        return false;
    }
    let mut i: usize = 0;
    while i < a.len()
        invariant
            a@.len() == b@.len(),
            i <= a@.len(),
            forall|k: int| 0 <= k < i ==> a@[k] == b@[k],
        decreases a@.len() - i,
    {
        if a[i] != b[i] {
            return false;
        }
        i = i + 1;
    }
    proof {
        assert(a@ =~= b@);
    }
    true
}

/// The literal for `TypeSpecifier::Int`.
pub open spec fn lit_int() -> Seq<u8> {
    seq![105u8, 110u8, 116u8]
}

/// The literal for `TypeSpecifier::Void`.
pub open spec fn lit_void() -> Seq<u8> {
    seq![118u8, 111u8, 105u8, 100u8]
}

/// The literal for `Keyword::If`.
pub open spec fn lit_if() -> Seq<u8> {
    seq![105u8, 102u8]
}

/// The literal for `Keyword::While`.
pub open spec fn lit_while() -> Seq<u8> {
    seq![119u8, 104u8, 105u8, 108u8, 101u8]
}

/// The single-byte operator table.
pub open spec fn op_of_byte(b: u8) -> Option<Operator> {
    if b == 43u8 {  // +
        Some(Operator::Add)
    } else if b == 45u8 {  // -
        Some(Operator::Minus)
    } else if b == 47u8 {  // /
        Some(Operator::Divide)
    } else if b == 42u8 {  // *
        Some(Operator::Multiply)
    } else if b == 44u8 {  // ,
        Some(Operator::Comma)
    } else if b == 61u8 {  // =
        Some(Operator::Equal)
    } else if b == 91u8 {  // [
        Some(Operator::Osb)
    } else if b == 93u8 {  // ]
        Some(Operator::Csb)
    } else {
        None
    }
}

/// The full operator table over runs: the single-byte operators plus `==`.
pub open spec fn op_of_run(s: Seq<u8>) -> Option<Operator> {
    if s.len() == 2 && s[0] == 61u8 && s[1] == 61u8 {  // ==
        Some(Operator::Comparitor)
    } else if s.len() == 1 {
        op_of_byte(s[0])
    } else {
        None
    }
}

/// The separator table.  Every separator is a single byte.
pub open spec fn sep_of_byte(b: u8) -> Option<Seperator> {
    if b == 123u8 {  // {
        Some(Seperator::Ocb)
    } else if b == 125u8 {  // }
        Some(Seperator::Ccb)
    } else if b == 40u8 {  // (
        Some(Seperator::OB)
    } else if b == 41u8 {  // )
        Some(Seperator::CB)
    } else if b == 59u8 {  // ;
        Some(Seperator::SemiColon)
    } else {
        None
    }
}

/// The separator table over runs.
pub open spec fn sep_of_run(s: Seq<u8>) -> Option<Seperator> {
    if s.len() == 1 {
        sep_of_byte(s[0])
    } else {
        None
    }
}

/// Whether `b` is an ASCII decimal digit.
pub open spec fn is_digit_byte(b: u8) -> bool {
    48u8 <= b && b <= 57u8
}

/// Whether a run is numeric.  The policy for numeric literals is: a run is
/// numeric exactly when every byte of it is a decimal digit.
pub open spec fn all_digits(s: Seq<u8>) -> bool {
    forall|n: int| 0 <= n < s.len() ==> is_digit_byte(#[trigger] s[n])
}

/// Resolution of an accumulated run to its most specific category, in
/// priority order: the type table, the keyword table, the operator and
/// separator tables, a leading double quote (string literal), a leading
/// `//` (line comment), an all-digit run (numeric literal), and otherwise
/// an identifier.  The empty run resolves through the type table's
/// placeholder entry to `Type(Any)`.
pub open spec fn resolve_run(s: Seq<u8>) -> TokenView {
    if s.len() == 0 {
        TokenView::Type(TypeSpecifier::Any)
    } else if s == lit_int() {
        TokenView::Type(TypeSpecifier::Int)
    } else if s == lit_void() {
        TokenView::Type(TypeSpecifier::Void)
    } else if s == lit_if() {
        TokenView::Keyword(Keyword::If)
    } else if s == lit_while() {
        TokenView::Keyword(Keyword::While)
    } else {
        match op_of_run(s) {
            Some(op) => TokenView::Operator(op),
            None => match sep_of_run(s) {
                Some(sp) => TokenView::Seperator(sp),
                None => if s[0] == 34u8 {  // leading "
                    TokenView::Literal(s)
                } else if s.len() >= 2 && s[0] == 47u8 && s[1] == 47u8 {  // leading //
                    TokenView::Comment(s)
                } else if all_digits(s) {
                    TokenView::Literal(s)
                } else {
                    TokenView::Identifier(s)
                },
            },
        }
    }
}

/// What `Token::new` returns: a whitespace marker keeps its category and
/// takes the run as payload; every other marker has the run resolved
/// through the tables.
pub open spec fn spec_new_token(input_type: TokenView, s: Seq<u8>) -> TokenView {
    match input_type {
        TokenView::Whitespace(_) => TokenView::Whitespace(s),
        _ => resolve_run(s),
    }
}

/// A fresh copy of a byte vector.
pub fn copy_bytes(s: &Vec<u8>) -> (r: Vec<u8>)
    ensures
        r@ == s@,
{
    let mut r: Vec<u8> = Vec::new();
    let mut i: usize = 0;
    while i < s.len()
        invariant
            i <= s@.len(),
            r@ == s@.take(i as int),
        decreases s@.len() - i,
    {
        r.push(s[i]);
        i = i + 1;
        proof {
            assert(r@ =~= s@.take(i as int));
        }
    }
    proof {
        assert(s@.take(s@.len() as int) =~= s@);
    }
    r
}

fn run_is2(s: &Vec<u8>, b0: u8, b1: u8) -> (r: bool)
    ensures
        r == (s@ == seq![b0, b1]),
        r == (s@.len() == 2 && s@[0] == b0 && s@[1] == b1),
{
    let r = s.len() == 2 && s[0] == b0 && s[1] == b1;
    proof {
        if r {
            assert(s@ =~= seq![b0, b1]);
        }
    }
    r
}

fn run_is3(s: &Vec<u8>, b0: u8, b1: u8, b2: u8) -> (r: bool)
    ensures
        r == (s@ == seq![b0, b1, b2]),
{
    let r = s.len() == 3 && s[0] == b0 && s[1] == b1 && s[2] == b2;
    proof {
        if r {
            assert(s@ =~= seq![b0, b1, b2]);
        }
    }
    r
}

fn run_is4(s: &Vec<u8>, b0: u8, b1: u8, b2: u8, b3: u8) -> (r: bool)
    ensures
        r == (s@ == seq![b0, b1, b2, b3]),
{
    let r = s.len() == 4 && s[0] == b0 && s[1] == b1 && s[2] == b2 && s[3] == b3;
    proof {
        if r {
            assert(s@ =~= seq![b0, b1, b2, b3]);
        }
    }
    r
}

fn run_is5(s: &Vec<u8>, b0: u8, b1: u8, b2: u8, b3: u8, b4: u8) -> (r: bool)
    ensures
        r == (s@ == seq![b0, b1, b2, b3, b4]),
{
    let r = s.len() == 5 && s[0] == b0 && s[1] == b1 && s[2] == b2 && s[3] == b3 && s[4] == b4;
    proof {
        if r {
            assert(s@ =~= seq![b0, b1, b2, b3, b4]);
        }
    }
    r
}

/// The single-byte operator table, executable form.
pub fn op_for_byte(b: u8) -> (r: Option<Operator>)
    ensures
        r == op_of_byte(b),
{
    if b == 43u8 {  // +
        Some(Operator::Add)
    } else if b == 45u8 {  // -
        Some(Operator::Minus)
    } else if b == 47u8 {  // /
        Some(Operator::Divide)
    } else if b == 42u8 {  // *
        Some(Operator::Multiply)
    } else if b == 44u8 {  // ,
        Some(Operator::Comma)
    } else if b == 61u8 {  // =
        Some(Operator::Equal)
    } else if b == 91u8 {  // [
        Some(Operator::Osb)
    } else if b == 93u8 {  // ]
        Some(Operator::Csb)
    } else {
        None
    }
}

/// The separator table, executable form.
pub fn sep_for_byte(b: u8) -> (r: Option<Seperator>)
    ensures
        r == sep_of_byte(b),
{
    if b == 123u8 {  // {
        Some(Seperator::Ocb)
    } else if b == 125u8 {  // }
        Some(Seperator::Ccb)
    } else if b == 40u8 {  // (
        Some(Seperator::OB)
    } else if b == 41u8 {  // )
        Some(Seperator::CB)
    } else if b == 59u8 {  // ;
        Some(Seperator::SemiColon)
    } else {
        None
    }
}

fn all_digits_run(s: &Vec<u8>) -> (r: bool)
    ensures
        r == all_digits(s@),
{
    let mut i: usize = 0;
    while i < s.len()
        invariant
            i <= s@.len(),
            forall|k: int| 0 <= k < i ==> is_digit_byte(#[trigger] s@[k]),
        decreases s@.len() - i,
    {
        let b = s[i];
        if b < 48u8 || b > 57u8 {
            return false;
        }
        i = i + 1;
    }
    true
}

/// Resolution of an accumulated run, executable form; consumes the run so
/// that open categories can keep it as their payload.
pub(crate) fn resolve_token(s: Vec<u8>) -> (t: Token)
    ensures
        t@ == resolve_run(s@),
{
    if s.len() == 0 {
        return Token::Type(TypeSpecifier::Any);
    }
    if run_is3(&s, 105u8, 110u8, 116u8) {
        return Token::Type(TypeSpecifier::Int);
    }
    if run_is4(&s, 118u8, 111u8, 105u8, 100u8) {
        return Token::Type(TypeSpecifier::Void);
    }
    if run_is2(&s, 105u8, 102u8) {
        return Token::Keyword(Keyword::If);
    }
    if run_is5(&s, 119u8, 104u8, 105u8, 108u8, 101u8) {
        return Token::Keyword(Keyword::While);
    }
    if run_is2(&s, 61u8, 61u8) {
        return Token::Operator(Operator::Comparitor);
    }
    if s.len() == 1 {
        if let Some(op) = op_for_byte(s[0]) {
            return Token::Operator(op);
        }
        if let Some(sp) = sep_for_byte(s[0]) {
            return Token::Seperator(sp);
        }
    }
    if s[0] == 34u8 {  // leading "
        return Token::Literal(s);
    }
    if s.len() >= 2 && s[0] == 47u8 && s[1] == 47u8 {  // leading //
        return Token::Comment(s);
    }
    if all_digits_run(&s) {
        return Token::Literal(s);
    }
    Token::Identifier(s)
}

impl Token {
    /// Classifies the bytes of an accumulated run into a new token.  The
    /// first argument is the category marker the scan kept for the run:
    /// a whitespace marker passes the run through as a whitespace token,
    /// every other marker has the run resolved through the literal tables.
    pub fn new(input_type: Token, input_string: &Vec<u8>) -> (t: Token)
        ensures
            t@ == spec_new_token(input_type@, input_string@),
    {
        match input_type {
            Token::Whitespace(_) => Token::Whitespace(copy_bytes(input_string)),
            _ => resolve_token(copy_bytes(input_string)),
        }
    }

    /// Whether this token is the pattern-only `Wildcard` marker.
    pub fn is_wildcard(&self) -> (r: bool)
        ensures
            r == (self@ is Wildcard),
    {
        match self {
            Token::Wildcard => true,
            _ => false,
        }
    }

    /// The structural compatibility predicate, executable form.
    pub fn matches(&self, other: &Token) -> (r: bool)
        ensures
            r == spec_matches(self@, other@),
    {
        match (self, other) {
            (Token::Type(x), Token::Type(y)) => *x == *y || *x == TypeSpecifier::Any || *y
                == TypeSpecifier::Any,
            (Token::Identifier(x), Token::Identifier(y)) => x.len() == 0 || y.len() == 0
                || bytes_eq(x, y),
            (Token::Keyword(x), Token::Keyword(y)) => *x == *y || *x == Keyword::Any || *y
                == Keyword::Any,
            (Token::Seperator(x), Token::Seperator(y)) => *x == *y,
            (Token::Operator(x), Token::Operator(y)) => *x == *y || *x == Operator::Any || *y
                == Operator::Any,
            (Token::Literal(x), Token::Literal(y)) => x.len() == 0 || y.len() == 0 || bytes_eq(
                x,
                y,
            ),
            (Token::Comment(x), Token::Comment(y)) => x.len() == 0 || y.len() == 0 || bytes_eq(
                x,
                y,
            ),
            (Token::Whitespace(x), Token::Whitespace(y)) => x.len() == 0 || y.len() == 0
                || bytes_eq(x, y),
            _ => false,
        }
    }
}

} // verus!
