//! The structure scanner: drives the pattern matcher across a whole token
//! stream to find every occurrence of the function-like shape
//! `Type(any) Identifier(any) ( ... ) { ... }`, where each `...` is a
//! bracket-depth-respecting wildcard.
//!
//! The scan tries the pattern at every offset: on success it records the
//! span and resumes past it, on failure it retries one token further on.
//! This is deliberately unindexed and without memoization — worst case it
//! re-examines overlapping token ranges at every offset — because changing
//! the retry policy would change which overlapping spans are found first.

use vstd::prelude::*;

use crate::matcher::check_pattern;
use crate::matcher::lemma_match_at_covers;
use crate::matcher::lemma_match_from_bounds;
use crate::matcher::lemma_match_success_consumes;
use crate::matcher::pat_covers;
use crate::matcher::spec_match_at;
use crate::pattern::Pattern;
use crate::token::token_views;
use crate::token::Seperator;
use crate::token::Token;
use crate::token::TokenView;
use crate::token::TypeSpecifier;

verus! {

/// A contiguous range of the token stream recognized as one structural
/// construct: the tokens at indices `start..end`.
#[derive(Clone, Copy, Debug, PartialEq, Eq, Structural)]
pub struct Span {
    pub start: usize,
    pub end: usize,
}

/// The function shape: a return type, a name, a parenthesized parameter
/// list skipped by a wildcard, and a brace-delimited body skipped by a
/// wildcard.
pub open spec fn spec_func_pattern() -> Seq<TokenView> {
    seq![
        TokenView::Type(TypeSpecifier::Any),
        TokenView::Identifier(Seq::empty()),
        TokenView::Seperator(Seperator::OB),
        TokenView::Wildcard,
        TokenView::Seperator(Seperator::CB),
        TokenView::Seperator(Seperator::Ocb),
        TokenView::Wildcard,
        TokenView::Seperator(Seperator::Ccb),
    ]
}

/// Builds the function-shape pattern.
pub fn func_pattern() -> (p: Pattern)
    ensures
        p@ == spec_func_pattern(),
{
    let mut v: Vec<Token> = Vec::new();
    v.push(Token::Type(TypeSpecifier::Any));
    v.push(Token::Identifier(Vec::new()));
    v.push(Token::Seperator(Seperator::OB));
    v.push(Token::Wildcard);
    v.push(Token::Seperator(Seperator::CB));
    v.push(Token::Seperator(Seperator::Ocb));
    v.push(Token::Wildcard);
    v.push(Token::Seperator(Seperator::Ccb));
    proof {
        assert(token_views(v@) =~= spec_func_pattern());
    }
    let r = Pattern::new(v);
    r.unwrap()
}

/// The spans the scanner recognizes from offset `i` on: at each offset the
/// function shape is tried; on a match of `n` tokens the span is recorded
/// and the scan resumes `n` tokens further, otherwise one token further.
pub open spec fn spec_scan_from(tokens: Seq<TokenView>, i: int) -> Seq<Span>
    decreases tokens.len() - i,
{
    if i >= tokens.len() {
        Seq::empty()
    } else {
        let m = spec_match_at(tokens, i, spec_func_pattern());
        let adv = if m.0 && 1 <= m.1 && i + m.1 <= tokens.len() {
            m.1
        } else {
            1
        };
        let rest = spec_scan_from(tokens, i + adv);
        if m.0 {
            seq![Span { start: i as usize, end: (i + m.1) as usize }] + rest
        } else {
            rest
        }
    }
}

/// All spans the scanner recognizes in a token stream.
pub open spec fn spec_scan(tokens: Seq<TokenView>) -> Seq<Span> {
    spec_scan_from(tokens, 0)
}

proof fn lemma_scan_from_spans_wf(tokens: Seq<TokenView>, i: int)
    requires
        0 <= i,
        tokens.len() <= usize::MAX,
    ensures
        ({
            let spans = spec_scan_from(tokens, i);
            &&& forall|q: int|
                0 <= q < spans.len() ==> i <= (#[trigger] spans[q]).start && spans[q].start
                    < spans[q].end <= tokens.len()
            &&& forall|q: int|
                0 <= q && q + 1 < spans.len() ==> (#[trigger] spans[q]).end <= spans[q + 1].start
            &&& forall|q: int|
                0 <= q < spans.len() ==> pat_covers(
                    tokens,
                    spec_func_pattern(),
                    0,
                    (#[trigger] spans[q]).start as int,
                    spans[q].end as int,
                )
        }),
    decreases tokens.len() - i,
{
    if i >= tokens.len() {
    } else {
        let m = spec_match_at(tokens, i, spec_func_pattern());
        let adv: int = if m.0 && 1 <= m.1 && i + m.1 <= tokens.len() {
            m.1
        } else {
            1
        };
        lemma_scan_from_spans_wf(tokens, i + adv);
        let rest = spec_scan_from(tokens, i + adv);
        if m.0 {
            lemma_match_from_bounds(tokens, spec_func_pattern(), 0, i, false, 0);
            lemma_match_success_consumes(tokens, spec_func_pattern(), 0, i, false, 0);
            lemma_match_at_covers(tokens, i, spec_func_pattern());
            assert(1 <= m.1 && i + m.1 <= tokens.len());
            let first = Span { start: i as usize, end: (i + m.1) as usize };
            assert(first.start as int == i);
            assert(first.end as int == i + m.1);
            let spans = spec_scan_from(tokens, i);
            assert(spans == seq![first] + rest);
            assert(spans[0] == first);
            assert(forall|q: int| 1 <= q < spans.len() ==> (#[trigger] spans[q]) == rest[q - 1]);
            assert forall|q: int| 0 <= q && q + 1 < spans.len() implies (#[trigger] spans[q]).end
                <= spans[q + 1].start by {
                if q == 0 {
                    assert(spans[1] == rest[0]);
                    assert(i + adv <= rest[0].start);
                } else {
                    assert(spans[q] == rest[q - 1]);
                    assert(spans[q + 1] == rest[q]);
                    assert(rest[q - 1].end <= rest[q].start);
                }
            }
        }
    }
}

/// Law: every recognized span lies within the stream, is nonempty, the
/// spans come in increasing, non-overlapping order, and each one is a
/// genuine match of the function shape (its tokens decompose under the
/// pattern as `pat_covers` states).
pub proof fn lemma_scan_spans_wf(tokens: Seq<TokenView>)
    requires
        tokens.len() <= usize::MAX,
    ensures
        ({
            let spans = spec_scan(tokens);
            &&& forall|q: int|
                0 <= q < spans.len() ==> (#[trigger] spans[q]).start < spans[q].end
                    <= tokens.len()
            &&& forall|q: int|
                0 <= q && q + 1 < spans.len() ==> (#[trigger] spans[q]).end <= spans[q + 1].start
            &&& forall|q: int|
                0 <= q < spans.len() ==> pat_covers(
                    tokens,
                    spec_func_pattern(),
                    0,
                    (#[trigger] spans[q]).start as int,
                    spans[q].end as int,
                )
        }),
{
    lemma_scan_from_spans_wf(tokens, 0);
}

/// Scans a whole token stream for occurrences of the function shape and
/// returns every recognized span, in order of their start offsets.
pub fn scan(tokens: &Vec<Token>) -> (spans: Vec<Span>)
    ensures
        spans@ == spec_scan(token_views(tokens@)),
{
    let ghost tv = token_views(tokens@);
    let pat = func_pattern();
    let mut spans: Vec<Span> = Vec::new();
    let mut i: usize = 0;
    while i < tokens.len()
        invariant
            i <= tv.len(),
            tv == token_views(tokens@),
            pat@ == spec_func_pattern(),
            spec_scan_from(tv, 0) == spans@ + spec_scan_from(tv, i as int),
        decreases tv.len() - i,
    {
        let ghost prev = spans@;
        let ghost i0 = i as int;
        let (ok, consumed) = check_pattern(tokens, i, &pat);
        proof {
            lemma_match_from_bounds(tv, pat@, 0, i0, false, 0);
        }
        if ok {
            proof {
                lemma_match_success_consumes(tv, pat@, 0, i0, false, 0);
            }
            let sp = Span { start: i, end: i + consumed };
            spans.push(sp);
            i = i + consumed;
            proof {
                let m = spec_match_at(tv, i0, spec_func_pattern());
                assert(spec_scan_from(tv, i0) == seq![Span { start: i0 as usize, end: (i0 + m.1) as usize }]
                    + spec_scan_from(tv, i0 + m.1));
                assert(spans@ =~= prev + seq![Span { start: i0 as usize, end: (i0 + m.1) as usize }]);
                assert((prev + seq![Span { start: i0 as usize, end: (i0 + m.1) as usize }])
                    + spec_scan_from(tv, i0 + m.1) =~= prev + (seq![
                    Span { start: i0 as usize, end: (i0 + m.1) as usize },
                ] + spec_scan_from(tv, i0 + m.1)));
            }
        } else {
            i = i + 1;
            proof {
                assert(spec_scan_from(tv, i0) == spec_scan_from(tv, i0 + 1));
            }
        }
    }
    proof {
        assert(spec_scan_from(tv, i as int) =~= Seq::<Span>::empty());
        assert(spans@ + Seq::<Span>::empty() =~= spans@);
    }
    spans
}

} // verus!
