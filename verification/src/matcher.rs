//! The pattern matcher: determines whether, and over how many tokens, a
//! pattern matches a token stream starting at a given offset.
//!
//! Two cursors advance in lockstep over pattern and stream.  A `Wildcard`
//! entry starts a skip: tokens are absorbed one at a time while a signed
//! bracket-depth counter tracks the net balance of parenthesis and brace
//! separators absorbed since the skip began.  The skip ends at the first
//! token that matches the next concrete entry while the counter is zero,
//! so a wildcard standing for a parameter list or a body is never ended by
//! a closing bracket that belongs to a nested scope.  The skip is greedy
//! and never backtracks once it resolves.

use vstd::prelude::*;

use crate::pattern::Pattern;
use crate::token::spec_matches;
use crate::token::token_views;
use crate::token::Seperator;
use crate::token::Token;
use crate::token::TokenView;

verus! {

/// The contribution of one token to the bracket-depth counter: opening
/// parenthesis and brace count +1, closing ones -1, everything else 0.
pub open spec fn bracket_delta(t: TokenView) -> int {
    match t {
        TokenView::Seperator(s) => if s == Seperator::OB || s == Seperator::Ocb {
            1
        } else if s == Seperator::CB || s == Seperator::Ccb {
            -1
        } else {
            0
        },
        _ => 0,
    }
}

/// The net bracket balance of a token span.
pub open spec fn balance(ts: Seq<TokenView>) -> int
    decreases ts.len(),
{
    if ts.len() == 0 {
        0
    } else {
        balance(ts.drop_last()) + bracket_delta(ts.last())
    }
}

/// The matcher's state machine.  `i` is the pattern cursor, `j` the stream
/// cursor (an absolute index), `skipping` whether a wildcard skip is
/// active, and `depth` the skip's bracket-depth counter.  The result is
/// whether the remaining pattern matches and the stream position where the
/// attempt stopped.
pub open spec fn spec_match_from(
    tokens: Seq<TokenView>,
    pattern: Seq<TokenView>,
    i: int,
    j: int,
    skipping: bool,
    depth: int,
) -> (bool, int)
    decreases tokens.len() - j, pattern.len() - i,
{
    if i >= pattern.len() {
        // Pattern exhausted: success, unless a skip is still waiting for
        // a concrete entry that does not exist.
        (!skipping, j)
    } else if j >= tokens.len() {
        // Stream exhausted with pattern entries left: failure.
        (false, j)
    } else if pattern[i] is Wildcard {
        // Start a skip (or continue one: consecutive wildcards collapse).
        spec_match_from(
            tokens,
            pattern,
            i + 1,
            j,
            true,
            if skipping {
                depth
            } else {
                0
            },
        )
    } else if skipping {
        if depth == 0 && spec_matches(tokens[j], pattern[i]) {
            // The skip ends at its own nesting level, and the anchoring
            // concrete entry is matched.
            spec_match_from(tokens, pattern, i + 1, j + 1, false, 0)
        } else {
            // The token is absorbed by the wildcard.
            spec_match_from(tokens, pattern, i, j + 1, true, depth + bracket_delta(tokens[j]))
        }
    } else {
        if spec_matches(tokens[j], pattern[i]) {
            spec_match_from(tokens, pattern, i + 1, j + 1, false, 0)
        } else {
            (false, j)
        }
    }
}

/// Whether `pattern` matches `tokens` starting at `idx`, and how many
/// tokens the attempt spanned: on success, the number of tokens the whole
/// pattern consumed; on failure, the number examined before it diverged.
pub open spec fn spec_match_at(tokens: Seq<TokenView>, idx: int, pattern: Seq<TokenView>) -> (
    bool,
    int,
) {
    let r = spec_match_from(tokens, pattern, 0, idx, false, 0);
    (r.0, r.1 - idx)
}

/// The stream cursor never moves backwards and never passes the end of
/// the stream.
pub proof fn lemma_match_from_bounds(
    tokens: Seq<TokenView>,
    pattern: Seq<TokenView>,
    i: int,
    j: int,
    skipping: bool,
    depth: int,
)
    ensures
        ({
            let r = spec_match_from(tokens, pattern, i, j, skipping, depth);
            j <= r.1 && (j <= tokens.len() ==> r.1 <= tokens.len())
        }),
    decreases tokens.len() - j, pattern.len() - i,
{
    if i >= pattern.len() {
    } else if j >= tokens.len() {
    } else if pattern[i] is Wildcard {
        lemma_match_from_bounds(
            tokens,
            pattern,
            i + 1,
            j,
            true,
            if skipping {
                depth
            } else {
                0
            },
        );
    } else if skipping {
        if depth == 0 && spec_matches(tokens[j], pattern[i]) {
            lemma_match_from_bounds(tokens, pattern, i + 1, j + 1, false, 0);
        } else {
            lemma_match_from_bounds(
                tokens,
                pattern,
                i,
                j + 1,
                true,
                depth + bracket_delta(tokens[j]),
            );
        }
    } else {
        if spec_matches(tokens[j], pattern[i]) {
            lemma_match_from_bounds(tokens, pattern, i + 1, j + 1, false, 0);
        }
    }
}

/// A successful match with pattern entries still pending consumes at least
/// one token.
pub proof fn lemma_match_success_consumes(
    tokens: Seq<TokenView>,
    pattern: Seq<TokenView>,
    i: int,
    j: int,
    skipping: bool,
    depth: int,
)
    requires
        spec_match_from(tokens, pattern, i, j, skipping, depth).0,
        skipping || i < pattern.len(),
    ensures
        spec_match_from(tokens, pattern, i, j, skipping, depth).1 > j,
    decreases tokens.len() - j, pattern.len() - i,
{
    if i >= pattern.len() {
        // skipping must hold here, and then the match fails: contradiction.
    } else if j >= tokens.len() {
        // the match fails: contradiction.
    } else if pattern[i] is Wildcard {
        lemma_match_success_consumes(
            tokens,
            pattern,
            i + 1,
            j,
            true,
            if skipping {
                depth
            } else {
                0
            },
        );
    } else if skipping {
        if depth == 0 && spec_matches(tokens[j], pattern[i]) {
            lemma_match_from_bounds(tokens, pattern, i + 1, j + 1, false, 0);
        } else {
            lemma_match_success_consumes(
                tokens,
                pattern,
                i,
                j + 1,
                true,
                depth + bracket_delta(tokens[j]),
            );
        }
    } else {
        if spec_matches(tokens[j], pattern[i]) {
            lemma_match_from_bounds(tokens, pattern, i + 1, j + 1, false, 0);
        }
    }
}

/// Extending a span by one token adds that token's contribution to its
/// balance.
pub proof fn lemma_balance_snoc(ts: Seq<TokenView>, t: TokenView)
    ensures
        balance(ts.push(t)) == balance(ts) + bracket_delta(t),
{
    assert(ts.push(t).drop_last() =~= ts);
    assert(ts.push(t).last() == t);
}

/// The declarative decomposition of a match: from pattern position `i`,
/// the entries of the pattern cover exactly the tokens at stream positions
/// `j..jend`.  A concrete entry structurally matches the token at the
/// cursor and both advance; a wildcard absorbs some span of tokens whose
/// net bracket balance is zero before the rest of the pattern covers what
/// remains.
pub open spec fn pat_covers(
    tokens: Seq<TokenView>,
    pattern: Seq<TokenView>,
    i: int,
    j: int,
    jend: int,
) -> bool
    decreases pattern.len() - i,
{
    if i >= pattern.len() {
        j == jend
    } else if pattern[i] is Wildcard {
        exists|k: int|
            0 <= j <= k <= tokens.len() && balance(#[trigger] tokens.subrange(j, k)) == 0
                && pat_covers(tokens, pattern, i + 1, k, jend)
    } else {
        &&& 0 <= j < tokens.len()
        &&& spec_matches(tokens[j], pattern[i])
        &&& pat_covers(tokens, pattern, i + 1, j + 1, jend)
    }
}

proof fn lemma_match_from_covers(
    tokens: Seq<TokenView>,
    pattern: Seq<TokenView>,
    i: int,
    j: int,
    skipping: bool,
    depth: int,
    j0: int,
)
    requires
        spec_match_from(tokens, pattern, i, j, skipping, depth).0,
        0 <= j <= tokens.len(),
        skipping ==> 0 <= j0 <= j && depth == balance(tokens.subrange(j0, j)),
    ensures
        ({
            let jend = spec_match_from(tokens, pattern, i, j, skipping, depth).1;
            if skipping {
                exists|k: int|
                    j0 <= k <= tokens.len() && balance(tokens.subrange(j0, k)) == 0
                        && #[trigger] pat_covers(tokens, pattern, i, k, jend)
            } else {
                pat_covers(tokens, pattern, i, j, jend)
            }
        }),
    decreases tokens.len() - j, pattern.len() - i,
{
    let r = spec_match_from(tokens, pattern, i, j, skipping, depth);
    if i >= pattern.len() {
        assert(!skipping);
        assert(pat_covers(tokens, pattern, i, j, r.1));
    } else if j >= tokens.len() {
        assert(false);
    } else if pattern[i] is Wildcard {
        let d2: int = if skipping {
            depth
        } else {
            0
        };
        let jj0: int = if skipping {
            j0
        } else {
            j
        };
        assert(tokens.subrange(j, j) =~= Seq::<TokenView>::empty());
        lemma_match_from_covers(tokens, pattern, i + 1, j, true, d2, jj0);
        let k = choose|k: int|
            jj0 <= k <= tokens.len() && balance(tokens.subrange(jj0, k)) == 0 && #[trigger] pat_covers(
                tokens,
                pattern,
                i + 1,
                k,
                r.1,
            );
        assert(pat_covers(tokens, pattern, i + 1, k, r.1));
        if skipping {
            assert(tokens.subrange(j0, j0) =~= Seq::<TokenView>::empty());
            assert(pat_covers(tokens, pattern, i, j0, r.1));
        } else {
            assert(pat_covers(tokens, pattern, i, j, r.1));
        }
    } else if skipping {
        if depth == 0 && spec_matches(tokens[j], pattern[i]) {
            lemma_match_from_covers(tokens, pattern, i + 1, j + 1, false, 0, 0);
            assert(pat_covers(tokens, pattern, i, j, r.1));
        } else {
            assert(tokens.subrange(j0, j + 1) =~= tokens.subrange(j0, j).push(tokens[j]));
            lemma_balance_snoc(tokens.subrange(j0, j), tokens[j]);
            lemma_match_from_covers(
                tokens,
                pattern,
                i,
                j + 1,
                true,
                depth + bracket_delta(tokens[j]),
                j0,
            );
        }
    } else {
        lemma_match_from_covers(tokens, pattern, i + 1, j + 1, false, 0, 0);
        assert(pat_covers(tokens, pattern, i, j, r.1));
    }
}

/// Law: when a match succeeds, its span decomposes as the pattern
/// dictates — the concrete entries structurally match the non-skipped
/// tokens of the span in pattern order, and the tokens each wildcard
/// absorbed have net bracket balance zero relative to where that skip
/// began.
pub proof fn lemma_match_at_covers(tokens: Seq<TokenView>, idx: int, pattern: Seq<TokenView>)
    requires
        0 <= idx <= tokens.len(),
        spec_match_at(tokens, idx, pattern).0,
    ensures
        pat_covers(tokens, pattern, 0, idx, idx + spec_match_at(tokens, idx, pattern).1),
{
    lemma_match_from_covers(tokens, pattern, 0, idx, false, 0, 0);
}

/// Attempts to match `pattern` against `tokens` starting at offset `idx`.
/// Returns whether the whole pattern matched, and the number of tokens the
/// attempt spanned: on success the length of the matched span, on failure
/// the number of tokens examined before the attempt diverged (so a caller
/// may resume scanning past the point of divergence).
pub fn check_pattern(tokens: &Vec<Token>, idx: usize, pattern: &Pattern) -> (r: (bool, usize))
    ensures
        r.0 == spec_match_at(token_views(tokens@), idx as int, pattern@).0,
        r.1 as int == spec_match_at(token_views(tokens@), idx as int, pattern@).1,
{
    let ghost tv = token_views(tokens@);
    let ghost goal = spec_match_from(tv, pattern@, 0, idx as int, false, 0);
    let mut i: usize = 0;
    let mut j: usize = idx;
    let mut skipping: bool = false;
    let mut depth: i128 = 0;
    loop
        invariant
            idx <= j,
            i <= pattern@.len(),
            !skipping ==> depth == 0,
            -(j as int - idx as int) <= depth as int <= j as int - idx as int,
            spec_match_from(tv, pattern@, i as int, j as int, skipping, depth as int) == goal,
            tv == token_views(tokens@),
            goal == spec_match_from(tv, pattern@, 0, idx as int, false, 0),
        decreases tv.len() - j, pattern@.len() - i,
    {
        if i >= pattern.len() {
            return (!skipping, j - idx);
        }
        if j >= tokens.len() {
            return (false, j - idx);
        }
        let pe = pattern.entry(i);
        if pe.is_wildcard() {
            i = i + 1;
            skipping = true;
        } else if skipping {
            if depth == 0 && tokens[j].matches(pe) {
                i = i + 1;
                j = j + 1;
                skipping = false;
            } else {
                match &tokens[j] {
                    Token::Seperator(s) => {
                        if *s == Seperator::OB || *s == Seperator::Ocb {
                            depth = depth + 1;
                        } else if *s == Seperator::CB || *s == Seperator::Ccb {
                            depth = depth - 1;
                        }
                    },
                    _ => {},
                }
                j = j + 1;
            }
        } else {
            if tokens[j].matches(pe) {
                i = i + 1;
                j = j + 1;
            } else {
                return (false, j - idx);
            }
        }
    }
}

} // verus!
