//! Patterns: ordered sequences of token requirements.  A requirement is a
//! concrete token (whose `Any` placeholder or empty payload matches any
//! value of its category) or the `Wildcard` marker, which consumes zero or
//! more tokens.  A pattern must not end in a `Wildcard`: such a skip would
//! have no following concrete entry to anchor its termination, so it is
//! rejected at construction time and never reaches the matcher.

use vstd::prelude::*;

use crate::token::token_views;
use crate::token::Token;
use crate::token::TokenView;

verus! {

/// Well-formedness of a pattern: it must not end in a `Wildcard`.
pub open spec fn pattern_wf(p: Seq<TokenView>) -> bool {
    p.len() > 0 ==> !(p.last() is Wildcard)
}

/// A validated pattern.  Values exist only through `Pattern::new`, which
/// rejects a trailing `Wildcard`.
pub struct Pattern {
    entries: Vec<Token>,
}

impl View for Pattern {
    type V = Seq<TokenView>;

    closed spec fn view(&self) -> Seq<TokenView> {
        token_views(self.entries@)
    }
}

impl Pattern {
    /// Builds a pattern from its entries.  Construction succeeds exactly
    /// when the entries do not end in a `Wildcard`.
    pub fn new(entries: Vec<Token>) -> (r: Option<Pattern>)
        ensures
            r is Some <==> pattern_wf(token_views(entries@)),
            r matches Some(p) ==> p@ == token_views(entries@),
    {
        if entries.len() > 0 && entries[entries.len() - 1].is_wildcard() {
            None
        } else {
            Some(Pattern { entries })
        }
    }

    /// The number of entries.
    pub fn len(&self) -> (n: usize)
        ensures
            n == self@.len(),
    {
        self.entries.len()
    }

    /// The entry at position `i`.
    pub fn entry(&self, i: usize) -> (t: &Token)
        requires
            i < self@.len(),
        ensures
            t@ == self@[i as int],
    {
        &self.entries[i]
    }
}

} // verus!
