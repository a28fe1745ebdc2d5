//! The classifier: a single left-to-right scan over raw source bytes that
//! accumulates runs of like-classed bytes and flushes each run as one token.
//!
//! Whitespace flushes the pending run and is never emitted.  The structural
//! bytes `{ } ( ) ;` flush the pending run and immediately emit a separator.
//! Contiguous operator-class bytes accumulate as one run, so `==` is
//! assembled whole and resolved through the operator table; likewise
//! contiguous identifier-class bytes form one run whose category the
//! resolution tables decide.  Unrecognized bytes are silently dropped and
//! leave the pending run untouched.  At end of input a pending run is
//! flushed; if no run is pending nothing more is emitted.

use vstd::prelude::*;

use crate::token::lit_if;
use crate::token::lit_while;
use crate::token::resolve_run;
use crate::token::resolve_token;
use crate::token::sep_for_byte;
use crate::token::sep_of_byte;
use crate::token::token_views;
use crate::token::Token;
use crate::token::TokenView;

verus! {

/// The class of run the scan is currently accumulating.
#[derive(Clone, Copy, Debug, PartialEq, Eq, Structural)]
pub enum RunKind {
    /// No run is pending: the last byte was whitespace, a separator, or
    /// the scan has not started.
    Whitespace,
    /// An operator-class run is pending.
    Operator,
    /// An identifier-class run is pending (identifiers, keywords, type
    /// names, literals and comments all accumulate this way and are told
    /// apart by the resolution pass).
    Word,
}

/// Whitespace bytes: space and newline.
pub open spec fn is_ws_byte(b: u8) -> bool {
    b == 32 || b == 10
}

/// Operator-class bytes: `* + , - . < = > [ ]`.
pub open spec fn is_op_byte(b: u8) -> bool {
    (42 <= b && b <= 46) || (60 <= b && b <= 62) || b == 91 || b == 93
}

/// Identifier-class bytes: `/ 0-9 A-Z a-z _ "`.
pub open spec fn is_word_byte(b: u8) -> bool {
    (47 <= b && b <= 57) || (65 <= b && b <= 90) || (97 <= b && b <= 122) || b == 95 || b == 34
}

/// The tokens a flush of the pending run emits: nothing when no run is
/// pending, otherwise the run resolved through the tables.
pub open spec fn flush_run(st: RunKind, buf: Seq<u8>) -> Seq<TokenView> {
    if st == RunKind::Whitespace {
        Seq::empty()
    } else {
        seq![resolve_run(buf)]
    }
}

/// One step of the scan: the tokens the byte `b` causes to be emitted, and
/// the run class and accumulation buffer after it.
pub open spec fn lex_step(st: RunKind, buf: Seq<u8>, b: u8) -> (Seq<TokenView>, RunKind, Seq<u8>) {
    if is_ws_byte(b) {
        (flush_run(st, buf), RunKind::Whitespace, Seq::empty())
    } else {
        match sep_of_byte(b) {
            Some(sp) => (
                flush_run(st, buf).push(TokenView::Seperator(sp)),
                RunKind::Whitespace,
                Seq::empty(),
            ),
            None => if is_op_byte(b) {
                if st == RunKind::Operator {
                    (Seq::empty(), st, buf.push(b))
                } else {
                    (flush_run(st, buf), RunKind::Operator, seq![b])
                }
            } else if is_word_byte(b) {
                if st == RunKind::Word {
                    (Seq::empty(), st, buf.push(b))
                } else {
                    (flush_run(st, buf), RunKind::Word, seq![b])
                }
            } else {
                (Seq::empty(), st, buf)
            },
        }
    }
}

/// The whole scan from a given run class and buffer: the tokens emitted
/// over `input`, and the final run class and buffer.
pub open spec fn lex_run(input: Seq<u8>, st: RunKind, buf: Seq<u8>) -> (
    Seq<TokenView>,
    RunKind,
    Seq<u8>,
)
    decreases input.len(),
{
    if input.len() == 0 {
        (Seq::empty(), st, buf)
    } else {
        let s = lex_step(st, buf, input.first());
        let r = lex_run(input.drop_first(), s.1, s.2);
        (s.0 + r.0, r.1, r.2)
    }
}

/// The token sequence the classifier produces for `input`: the scan from
/// the idle state, with the final pending run (if any) flushed.
pub open spec fn spec_tokenise(input: Seq<u8>) -> Seq<TokenView> {
    let r = lex_run(input, RunKind::Whitespace, Seq::empty());
    r.0 + flush_run(r.1, r.2)
}

/// Extending the scanned input by one byte appends that byte's step to the
/// end of the scan.
pub proof fn lemma_lex_run_snoc(input: Seq<u8>, b: u8, st: RunKind, buf: Seq<u8>)
    ensures
        ({
            let r = lex_run(input, st, buf);
            let s = lex_step(r.1, r.2, b);
            lex_run(input.push(b), st, buf) == (r.0 + s.0, s.1, s.2)
        }),
    decreases input.len(),
{
    if input.len() == 0 {
        let s = lex_step(st, buf, b);
        assert(lex_run(input, st, buf) == (Seq::<TokenView>::empty(), st, buf));
        assert(input.push(b).first() == b);
        assert(input.push(b).drop_first() =~= Seq::<u8>::empty());
        assert(lex_run(input.push(b).drop_first(), s.1, s.2) == (
            Seq::<TokenView>::empty(),
            s.1,
            s.2,
        ));
        assert(lex_run(input.push(b), st, buf) == (s.0 + Seq::<TokenView>::empty(), s.1, s.2));
        assert(s.0 + Seq::<TokenView>::empty() =~= s.0);
        assert(Seq::<TokenView>::empty() + s.0 =~= s.0);
    } else {
        let s1 = lex_step(st, buf, input.first());
        let r1 = lex_run(input.drop_first(), s1.1, s1.2);
        assert(lex_run(input, st, buf) == (s1.0 + r1.0, r1.1, r1.2));
        let s = lex_step(r1.1, r1.2, b);
        lemma_lex_run_snoc(input.drop_first(), b, s1.1, s1.2);
        assert(lex_run(input.drop_first().push(b), s1.1, s1.2) == (r1.0 + s.0, s.1, s.2));
        assert(input.push(b).first() == input.first());
        assert(input.push(b).drop_first() =~= input.drop_first().push(b));
        assert(lex_run(input.push(b), st, buf) == (
            s1.0 + lex_run(input.push(b).drop_first(), s1.1, s1.2).0,
            lex_run(input.push(b).drop_first(), s1.1, s1.2).1,
            lex_run(input.push(b).drop_first(), s1.1, s1.2).2,
        ));
        assert((s1.0 + r1.0) + s.0 =~= s1.0 + (r1.0 + s.0));
    }
}

/// Converts a raw byte sequence into the ordered sequence of its
/// classified tokens.  The result is exactly `spec_tokenise` of the input:
/// one token per accumulated run, separators emitted on their own,
/// whitespace consumed as a delimiter and never emitted, unrecognized
/// bytes dropped, and a final pending run flushed at end of input.
pub fn tokenise(input: &Vec<u8>) -> (out: Vec<Token>)
    ensures
        token_views(out@) == spec_tokenise(input@),
{
    let mut out: Vec<Token> = Vec::new();
    let mut st: RunKind = RunKind::Whitespace;
    let mut buf: Vec<u8> = Vec::new();
    let mut k: usize = 0;
    proof {
        assert(input@.take(0) =~= Seq::<u8>::empty());
        assert(token_views(out@) =~= Seq::<TokenView>::empty());
    }
    while k < input.len()
        invariant
            k <= input@.len(),
            token_views(out@) == lex_run(
                input@.take(k as int),
                RunKind::Whitespace,
                Seq::<u8>::empty(),
            ).0,
            st == lex_run(input@.take(k as int), RunKind::Whitespace, Seq::<u8>::empty()).1,
            buf@ == lex_run(input@.take(k as int), RunKind::Whitespace, Seq::<u8>::empty()).2,
        decreases input@.len() - k,
    {
        let b = input[k];
        let ghost prefix = input@.take(k as int);
        let ghost out0 = out@;
        let ghost st0 = st;
        let ghost buf0 = buf@;
        proof {
            lemma_lex_run_snoc(prefix, b, RunKind::Whitespace, Seq::<u8>::empty());
            assert(prefix.push(b) =~= input@.take((k + 1) as int));
        }
        if b == 32 || b == 10 {  // space, newline
            if st != RunKind::Whitespace {
                let full = buf;
                buf = Vec::new();
                let t = resolve_token(full);
                out.push(t);
                proof {
                    assert(token_views(out@) =~= token_views(out0).push(resolve_run(buf0)));
                }
            } else {
                buf = Vec::new();
            }
            st = RunKind::Whitespace;
        } else {
            let sep = sep_for_byte(b);
            match sep {
                Some(sp) => {
                    if st != RunKind::Whitespace {
                        let full = buf;
                        buf = Vec::new();
                        let t = resolve_token(full);
                        out.push(t);
                        out.push(Token::Seperator(sp));
                        proof {
                            assert(token_views(out@) =~= token_views(out0).push(
                                resolve_run(buf0),
                            ).push(TokenView::Seperator(sp)));
                        }
                    } else {
                        buf = Vec::new();
                        out.push(Token::Seperator(sp));
                        proof {
                            assert(token_views(out@) =~= token_views(out0).push(
                                TokenView::Seperator(sp),
                            ));
                        }
                    }
                    st = RunKind::Whitespace;
                },
                None => {
                    if (42 <= b && b <= 46) || (60 <= b && b <= 62) || b == 91 || b == 93 {
                        if st == RunKind::Operator {
                            buf.push(b);
                        } else {
                            if st != RunKind::Whitespace {
                                let full = buf;
                                buf = Vec::new();
                                let t = resolve_token(full);
                                out.push(t);
                                proof {
                                    assert(token_views(out@) =~= token_views(out0).push(
                                        resolve_run(buf0),
                                    ));
                                }
                            } else {
                                buf = Vec::new();
                            }
                            buf.push(b);
                            proof {
                                assert(buf@ =~= seq![b]);
                            }
                            st = RunKind::Operator;
                        }
                    } else if (47 <= b && b <= 57) || (65 <= b && b <= 90) || (97 <= b && b <= 122)
                        || b == 95 || b == 34 {
                        if st == RunKind::Word {
                            buf.push(b);
                        } else {
                            if st != RunKind::Whitespace {
                                let full = buf;
                                buf = Vec::new();
                                let t = resolve_token(full);
                                out.push(t);
                                proof {
                                    assert(token_views(out@) =~= token_views(out0).push(
                                        resolve_run(buf0),
                                    ));
                                }
                            } else {
                                buf = Vec::new();
                            }
                            buf.push(b);
                            proof {
                                assert(buf@ =~= seq![b]);
                            }
                            st = RunKind::Word;
                        }
                    }
                    // other bytes: dropped, run untouched
                },
            }
        }
        k = k + 1;
        proof {
            let s = lex_step(st0, buf0, b);
            assert(token_views(out@) =~= token_views(out0) + s.0);
        }
    }
    proof {
        assert(input@.take(input@.len() as int) =~= input@);
    }
    let ghost out1 = out@;
    let ghost st1 = st;
    let ghost buf1 = buf@;
    if st != RunKind::Whitespace {
        let full = buf;
        let t = resolve_token(full);
        out.push(t);
        proof {
            assert(token_views(out@) =~= token_views(out1).push(resolve_run(buf1)));
            assert(token_views(out1).push(resolve_run(buf1)) =~= token_views(out1) + flush_run(
                st1,
                buf1,
            ));
        }
    } else {
        proof {
            assert(token_views(out@) =~= token_views(out1) + flush_run(st1, buf1));
        }
    }
    out
}

/// Law (idempotence): the classifier is a pure function of its input.
/// Re-running it on the same byte sequence yields an identical token
/// sequence; there is no hidden state.
pub proof fn lemma_tokenise_deterministic(a: Seq<u8>, b: Seq<u8>)
    requires
        a == b,
    ensures
        spec_tokenise(a) == spec_tokenise(b),
{
}

/// Law (boundary): the scan's final flush emits one trailing token exactly
/// when a run is still pending at end of input; in particular the empty
/// input yields the empty token sequence.
pub proof fn lemma_tokenise_trailing(input: Seq<u8>)
    ensures
        ({
            let r = lex_run(input, RunKind::Whitespace, Seq::empty());
            &&& (r.1 != RunKind::Whitespace ==> spec_tokenise(input) == r.0.push(
                resolve_run(r.2),
            ))
            &&& (r.1 == RunKind::Whitespace ==> spec_tokenise(input) == r.0)
        }),
        spec_tokenise(Seq::empty()) == Seq::<TokenView>::empty(),
{
    let r = lex_run(input, RunKind::Whitespace, Seq::empty());
    if r.1 == RunKind::Whitespace {
        assert(r.0 + flush_run(r.1, r.2) =~= r.0);
    } else {
        assert(r.0 + flush_run(r.1, r.2) =~= r.0.push(resolve_run(r.2)));
    }
    let re = lex_run(Seq::empty(), RunKind::Whitespace, Seq::empty());
    assert(re.0 + flush_run(re.1, re.2) =~= Seq::<TokenView>::empty());
}

/// A token sequence free of the pattern-only `Wildcard` marker and of
/// whitespace tokens.
pub open spec fn clean_tokens(ts: Seq<TokenView>) -> bool {
    forall|n: int|
        0 <= n < ts.len() ==> !((#[trigger] ts[n]) is Wildcard) && !(ts[n] is Whitespace)
}

proof fn lemma_lex_run_clean(input: Seq<u8>, st: RunKind, buf: Seq<u8>)
    ensures
        clean_tokens(lex_run(input, st, buf).0),
    decreases input.len(),
{
    if input.len() == 0 {
    } else {
        let s = lex_step(st, buf, input.first());
        let r = lex_run(input.drop_first(), s.1, s.2);
        lemma_lex_run_clean(input.drop_first(), s.1, s.2);
        assert(clean_tokens(s.0));
        assert forall|n: int| 0 <= n < (s.0 + r.0).len() implies !((#[trigger] (s.0 + r.0)[n])
            is Wildcard) && !((s.0 + r.0)[n] is Whitespace) by {
            if n < s.0.len() {
                assert((s.0 + r.0)[n] == s.0[n]);
            } else {
                assert((s.0 + r.0)[n] == r.0[n - s.0.len()]);
            }
        }
    }
}

/// Law (stream invariant): a classified token stream never contains the
/// `Wildcard` marker, and whitespace tokens are never retained in it.
pub proof fn lemma_tokenise_clean(input: Seq<u8>)
    ensures
        clean_tokens(spec_tokenise(input)),
{
    lemma_lex_run_clean(input, RunKind::Whitespace, Seq::empty());
    let r = lex_run(input, RunKind::Whitespace, Seq::empty());
    let f = flush_run(r.1, r.2);
    assert forall|n: int| 0 <= n < (r.0 + f).len() implies !((#[trigger] (r.0 + f)[n])
        is Wildcard) && !((r.0 + f)[n] is Whitespace) by {
        if n < r.0.len() {
            assert((r.0 + f)[n] == r.0[n]);
        } else {
            assert((r.0 + f)[n] == f[n - r.0.len()]);
        }
    }
}

/// A lexeme of the restricted shape the ordering law speaks of: a single
/// separator byte, or one of the keywords.
pub open spec fn is_plain_lexeme(s: Seq<u8>) -> bool {
    (s.len() == 1 && sep_of_byte(s[0]) is Some) || s == lit_if() || s == lit_while()
}

/// The one token such a lexeme classifies to.
pub open spec fn lexeme_token(s: Seq<u8>) -> TokenView {
    if s.len() == 1 && sep_of_byte(s[0]) is Some {
        TokenView::Seperator(sep_of_byte(s[0]).unwrap())
    } else {
        resolve_run(s)
    }
}

/// The tokens of a lexeme sequence, one per lexeme, in order.
pub open spec fn lexeme_tokens(lexemes: Seq<Seq<u8>>) -> Seq<TokenView> {
    lexemes.map_values(|l: Seq<u8>| lexeme_token(l))
}

/// The input formed by writing each lexeme followed by a single space.
pub open spec fn spaced(lexemes: Seq<Seq<u8>>) -> Seq<u8>
    decreases lexemes.len(),
{
    if lexemes.len() == 0 {
        Seq::empty()
    } else {
        lexemes.first() + seq![32u8] + spaced(lexemes.drop_first())
    }
}

proof fn lemma_lex_run_append(a: Seq<u8>, b: Seq<u8>, st: RunKind, buf: Seq<u8>)
    ensures
        ({
            let ra = lex_run(a, st, buf);
            let rb = lex_run(b, ra.1, ra.2);
            lex_run(a + b, st, buf) == (ra.0 + rb.0, rb.1, rb.2)
        }),
    decreases a.len(),
{
    if a.len() == 0 {
        assert(a + b =~= b);
        let rb = lex_run(b, st, buf);
        assert(Seq::<TokenView>::empty() + rb.0 =~= rb.0);
    } else {
        let s = lex_step(st, buf, a.first());
        let ra1 = lex_run(a.drop_first(), s.1, s.2);
        assert(lex_run(a, st, buf) == (s.0 + ra1.0, ra1.1, ra1.2));
        lemma_lex_run_append(a.drop_first(), b, s.1, s.2);
        let rb = lex_run(b, ra1.1, ra1.2);
        assert(lex_run(a.drop_first() + b, s.1, s.2) == (ra1.0 + rb.0, rb.1, rb.2));
        assert((a + b).first() == a.first());
        assert((a + b).drop_first() =~= a.drop_first() + b);
        assert(lex_run(a + b, st, buf) == (
            s.0 + lex_run((a + b).drop_first(), s.1, s.2).0,
            lex_run((a + b).drop_first(), s.1, s.2).1,
            lex_run((a + b).drop_first(), s.1, s.2).2,
        ));
        assert(s.0 + (ra1.0 + rb.0) =~= (s.0 + ra1.0) + rb.0);
    }
}

proof fn lemma_lex_word_run(w: Seq<u8>, buf: Seq<u8>)
    requires
        forall|n: int| 0 <= n < w.len() ==> is_word_byte(#[trigger] w[n]),
    ensures
        lex_run(w, RunKind::Word, buf) == (Seq::<TokenView>::empty(), RunKind::Word, buf + w),
    decreases w.len(),
{
    if w.len() == 0 {
        assert(buf + w =~= buf);
    } else {
        let b0 = w.first();
        assert(is_word_byte(b0));
        let s = lex_step(RunKind::Word, buf, b0);
        assert(s == (Seq::<TokenView>::empty(), RunKind::Word, buf.push(b0)));
        lemma_lex_word_run(w.drop_first(), buf.push(b0));
        assert(buf.push(b0) + w.drop_first() =~= buf + w);
        assert(Seq::<TokenView>::empty() + Seq::<TokenView>::empty()
            =~= Seq::<TokenView>::empty());
    }
}

proof fn lemma_lex_word_lexeme(l: Seq<u8>)
    requires
        l.len() > 0,
        forall|n: int| 0 <= n < l.len() ==> is_word_byte(#[trigger] l[n]),
    ensures
        lex_run(l + seq![32u8], RunKind::Whitespace, Seq::empty()) == (
            seq![resolve_run(l)],
            RunKind::Whitespace,
            Seq::<u8>::empty(),
        ),
{
    lemma_lex_run_append(l, seq![32u8], RunKind::Whitespace, Seq::empty());
    let b0 = l.first();
    assert(is_word_byte(b0));
    let s0 = lex_step(RunKind::Whitespace, Seq::empty(), b0);
    assert(s0 == (Seq::<TokenView>::empty(), RunKind::Word, seq![b0]));
    lemma_lex_word_run(l.drop_first(), seq![b0]);
    assert(seq![b0] + l.drop_first() =~= l);
    let rl = lex_run(l, RunKind::Whitespace, Seq::empty());
    assert(rl == (
        s0.0 + lex_run(l.drop_first(), s0.1, s0.2).0,
        lex_run(l.drop_first(), s0.1, s0.2).1,
        lex_run(l.drop_first(), s0.1, s0.2).2,
    ));
    assert(Seq::<TokenView>::empty() + Seq::<TokenView>::empty() =~= Seq::<TokenView>::empty());
    assert(rl == (Seq::<TokenView>::empty(), RunKind::Word, l));
    assert(seq![32u8].first() == 32u8);
    assert(seq![32u8].drop_first() =~= Seq::<u8>::empty());
    let s1 = lex_step(RunKind::Word, l, 32u8);
    assert(s1 == (seq![resolve_run(l)], RunKind::Whitespace, Seq::<u8>::empty()));
    let rw = lex_run(seq![32u8], RunKind::Word, l);
    assert(seq![resolve_run(l)] + Seq::<TokenView>::empty() =~= seq![resolve_run(l)]);
    assert(lex_run(Seq::<u8>::empty(), RunKind::Whitespace, Seq::<u8>::empty()) == (
        Seq::<TokenView>::empty(),
        RunKind::Whitespace,
        Seq::<u8>::empty(),
    ));
    assert(rw == (seq![resolve_run(l)], RunKind::Whitespace, Seq::<u8>::empty()));
    assert(Seq::<TokenView>::empty() + seq![resolve_run(l)] =~= seq![resolve_run(l)]);
}

proof fn lemma_lex_sep_lexeme(l: Seq<u8>)
    requires
        l.len() == 1,
        sep_of_byte(l[0]) is Some,
    ensures
        lex_run(l + seq![32u8], RunKind::Whitespace, Seq::empty()) == (
            seq![TokenView::Seperator(sep_of_byte(l[0]).unwrap())],
            RunKind::Whitespace,
            Seq::<u8>::empty(),
        ),
{
    lemma_lex_run_append(l, seq![32u8], RunKind::Whitespace, Seq::empty());
    let sp = sep_of_byte(l[0]).unwrap();
    let s0 = lex_step(RunKind::Whitespace, Seq::empty(), l.first());
    assert(l.first() == l[0]);
    assert(Seq::<TokenView>::empty().push(TokenView::Seperator(sp)) =~= seq![
        TokenView::Seperator(sp),
    ]);
    assert(s0 == (seq![TokenView::Seperator(sp)], RunKind::Whitespace, Seq::<u8>::empty()));
    assert(l.drop_first() =~= Seq::<u8>::empty());
    let rl = lex_run(l, RunKind::Whitespace, Seq::empty());
    assert(seq![TokenView::Seperator(sp)] + Seq::<TokenView>::empty() =~= seq![
        TokenView::Seperator(sp),
    ]);
    assert(lex_run(Seq::<u8>::empty(), RunKind::Whitespace, Seq::<u8>::empty()) == (
        Seq::<TokenView>::empty(),
        RunKind::Whitespace,
        Seq::<u8>::empty(),
    ));
    assert(rl == (seq![TokenView::Seperator(sp)], RunKind::Whitespace, Seq::<u8>::empty()));
    assert(seq![32u8].first() == 32u8);
    assert(seq![32u8].drop_first() =~= Seq::<u8>::empty());
    let rw = lex_run(seq![32u8], RunKind::Whitespace, Seq::<u8>::empty());
    assert(Seq::<TokenView>::empty() + Seq::<TokenView>::empty() =~= Seq::<TokenView>::empty());
    assert(rw == (Seq::<TokenView>::empty(), RunKind::Whitespace, Seq::<u8>::empty()));
    assert(seq![TokenView::Seperator(sp)] + Seq::<TokenView>::empty() =~= seq![
        TokenView::Seperator(sp),
    ]);
}

proof fn lemma_lex_plain_lexemes_aux(lexemes: Seq<Seq<u8>>)
    requires
        forall|n: int| 0 <= n < lexemes.len() ==> is_plain_lexeme(#[trigger] lexemes[n]),
    ensures
        lex_run(spaced(lexemes), RunKind::Whitespace, Seq::empty()) == (
            lexeme_tokens(lexemes),
            RunKind::Whitespace,
            Seq::<u8>::empty(),
        ),
    decreases lexemes.len(),
{
    if lexemes.len() == 0 {
        assert(lexeme_tokens(lexemes) =~= Seq::<TokenView>::empty());
    } else {
        let l = lexemes.first();
        let rest = lexemes.drop_first();
        assert(is_plain_lexeme(l));
        if l.len() == 1 && sep_of_byte(l[0]) is Some {
            lemma_lex_sep_lexeme(l);
            assert(lexeme_token(l) == TokenView::Seperator(sep_of_byte(l[0]).unwrap()));
        } else {
            assert(l == lit_if() || l == lit_while());
            assert(forall|n: int| 0 <= n < l.len() ==> is_word_byte(#[trigger] l[n]));
            lemma_lex_word_lexeme(l);
            assert(lexeme_token(l) == resolve_run(l));
        }
        assert(lex_run(l + seq![32u8], RunKind::Whitespace, Seq::empty()) == (
            seq![lexeme_token(l)],
            RunKind::Whitespace,
            Seq::<u8>::empty(),
        ));
        assert(spaced(lexemes) == l + seq![32u8] + spaced(rest));
        lemma_lex_run_append(l + seq![32u8], spaced(rest), RunKind::Whitespace, Seq::empty());
        lemma_lex_plain_lexemes_aux(rest);
        assert(forall|n: int| 0 <= n < rest.len() ==> is_plain_lexeme(#[trigger] rest[n]));
        assert(seq![lexeme_token(l)] + lexeme_tokens(rest) =~= lexeme_tokens(lexemes));
    }
}

/// Law (ordering): for an input consisting only of whitespace-separated
/// single-character separators and keywords, the classifier produces
/// exactly one token per lexeme, in input order, with no whitespace
/// tokens in the output.
pub proof fn lemma_tokenise_plain_lexemes(lexemes: Seq<Seq<u8>>)
    requires
        forall|n: int| 0 <= n < lexemes.len() ==> is_plain_lexeme(#[trigger] lexemes[n]),
    ensures
        spec_tokenise(spaced(lexemes)) == lexeme_tokens(lexemes),
{
    lemma_lex_plain_lexemes_aux(lexemes);
    let r = lex_run(spaced(lexemes), RunKind::Whitespace, Seq::empty());
    assert(r.0 + flush_run(r.1, r.2) =~= r.0);
}

} // verus!
