//! Library-wide guarantees of the lexer engine, stated over [`spec_lex`]
//! and proved once and for all.

use vstd::prelude::*;

use crate::lexer::LexState;
use crate::lexer::LexerView;
use crate::lexer::at_end;
use crate::lexer::initial_lexer;
use crate::lexer::is_blank;
use crate::lexer::is_digit_char;
use crate::lexer::is_recognized;
use crate::lexer::is_word_char;
use crate::lexer::extended_state;
use crate::lexer::line_of;
use crate::lexer::line_start_of;
use crate::lexer::spec_lex;
use crate::lexer::start_state;
use crate::token::TokenKind;
use crate::token::eof_token;

verus! {

/// Whitespace tokens are used only as flush boundaries between other
/// tokens: the next-token operation never returns one, from any engine
/// state.
pub proof fn lemma_no_whitespace_token(m: LexerView)
    ensures
        spec_lex(m).0.kind != TokenKind::Whitespace,
    decreases m.text.len() - m.cursor,
{
    if !at_end(m) {
        let c = m.text[m.cursor];
        if !is_recognized(c) {
            lemma_no_whitespace_token(LexerView { cursor: m.cursor + 1, ..m });
        } else if m.state is Idle {
            lemma_no_whitespace_token(
                LexerView {
                    cursor: m.cursor + 1,
                    state: start_state(c),
                    run: seq![c],
                    run_start: m.cursor,
                    ..m
                },
            );
        } else if !(extended_state(m.state, c) is Idle) {
            lemma_no_whitespace_token(
                LexerView {
                    cursor: m.cursor + 1,
                    state: extended_state(m.state, c),
                    run: m.run.push(c),
                    ..m
                },
            );
        } else {
            let fresh = LexerView {
                cursor: m.cursor + 1,
                state: start_state(c),
                run: seq![c],
                run_start: m.cursor,
                ..m
            };
            lemma_no_whitespace_token(fresh);
        }
    }
}

/// Consecutive whitespace characters of any mix of space, tab and newline
/// always extend a pending whitespace run: they collapse into a single
/// internal whitespace span.
pub proof fn lemma_whitespace_coalesces(c: char)
    requires
        is_blank(c),
    ensures
        extended_state(LexState::InWhitespace, c) == LexState::InWhitespace,
{
}

/// Once the end-of-input token has been returned, every further call
/// returns it again and leaves the engine unchanged: end of input is
/// idempotent.
pub proof fn lemma_eof_idempotent(m: LexerView)
    requires
        spec_lex(m).0.kind == TokenKind::EOF,
    ensures
        spec_lex(m).0 == eof_token(),
        spec_lex(spec_lex(m).1) == (eof_token(), spec_lex(m).1),
    decreases m.text.len() - m.cursor,
{
    if at_end(m) {
        let done = spec_lex(m).1;
        assert(spec_lex(done).1 =~= done);
    } else {
        let c = m.text[m.cursor];
        if !is_recognized(c) {
            lemma_eof_idempotent(LexerView { cursor: m.cursor + 1, ..m });
        } else if m.state is Idle {
            lemma_eof_idempotent(
                LexerView {
                    cursor: m.cursor + 1,
                    state: start_state(c),
                    run: seq![c],
                    run_start: m.cursor,
                    ..m
                },
            );
        } else if !(extended_state(m.state, c) is Idle) {
            lemma_eof_idempotent(
                LexerView {
                    cursor: m.cursor + 1,
                    state: extended_state(m.state, c),
                    run: m.run.push(c),
                    ..m
                },
            );
        } else {
            let fresh = LexerView {
                cursor: m.cursor + 1,
                state: start_state(c),
                run: seq![c],
                run_start: m.cursor,
                ..m
            };
            lemma_eof_idempotent(fresh);
        }
    }
}

/// A run that stops in a partial keyword state at end of input has no
/// entry in the state-to-kind table: the buffered characters are silently
/// discarded and the end-of-input token is returned in their place, with
/// no spurious token fabricated.
pub proof fn lemma_partial_keyword_dropped(m: LexerView)
    requires
        at_end(m),
        m.state is KwV || m.state is KwVa,
    ensures
        spec_lex(m).0 == eof_token(),
{
}

/// Every token's recorded length is the length of its text, and its line
/// fields are the 1-based line of its first character and the position at
/// which that line starts, from any engine state.
pub proof fn lemma_token_measures(m: LexerView)
    ensures
        spec_lex(m).0.length == spec_lex(m).0.text.len(),
        spec_lex(m).0.kind != TokenKind::EOF ==> {
            &&& spec_lex(m).0.line == line_of(m.text, spec_lex(m).0.offset)
            &&& spec_lex(m).0.line_start == line_start_of(m.text, spec_lex(m).0.offset)
        },
    decreases m.text.len() - m.cursor,
{
    if !at_end(m) {
        let c = m.text[m.cursor];
        if !is_recognized(c) {
            lemma_token_measures(LexerView { cursor: m.cursor + 1, ..m });
        } else if m.state is Idle {
            lemma_token_measures(
                LexerView {
                    cursor: m.cursor + 1,
                    state: start_state(c),
                    run: seq![c],
                    run_start: m.cursor,
                    ..m
                },
            );
        } else if !(extended_state(m.state, c) is Idle) {
            lemma_token_measures(
                LexerView {
                    cursor: m.cursor + 1,
                    state: extended_state(m.state, c),
                    run: m.run.push(c),
                    ..m
                },
            );
        } else {
            let fresh = LexerView {
                cursor: m.cursor + 1,
                state: start_state(c),
                run: seq![c],
                run_start: m.cursor,
                ..m
            };
            lemma_token_measures(fresh);
        }
    }
}

/// The engine's runs stay inside the source: the pending run never reaches
/// past the cursor.  Holds of a fresh engine and is preserved by every
/// call.
pub open spec fn run_bounded(m: LexerView) -> bool {
    &&& 0 <= m.cursor <= m.text.len()
    &&& (m.state is Idle ==> m.run.len() == 0)
    &&& (!(m.state is Idle) ==> 0 <= m.run_start && m.run_start + m.run.len() <= m.cursor)
}

/// Every non-EOF token lies inside the source: its offset plus its length
/// never exceeds the source length.
pub proof fn lemma_token_in_bounds(m: LexerView)
    requires
        run_bounded(m),
    ensures
        run_bounded(spec_lex(m).1),
        spec_lex(m).1.text == m.text,
        spec_lex(m).1.cursor >= m.cursor,
        spec_lex(m).0.kind != TokenKind::EOF ==> {
            &&& 0 <= spec_lex(m).0.offset
            &&& spec_lex(m).0.offset + spec_lex(m).0.length <= m.text.len()
        },
    decreases m.text.len() - m.cursor,
{
    if !at_end(m) {
        let c = m.text[m.cursor];
        if !is_recognized(c) {
            lemma_token_in_bounds(LexerView { cursor: m.cursor + 1, ..m });
        } else if m.state is Idle {
            lemma_token_in_bounds(
                LexerView {
                    cursor: m.cursor + 1,
                    state: start_state(c),
                    run: seq![c],
                    run_start: m.cursor,
                    ..m
                },
            );
        } else if !(extended_state(m.state, c) is Idle) {
            lemma_token_in_bounds(
                LexerView {
                    cursor: m.cursor + 1,
                    state: extended_state(m.state, c),
                    run: m.run.push(c),
                    ..m
                },
            );
        } else {
            let fresh = LexerView {
                cursor: m.cursor + 1,
                state: start_state(c),
                run: seq![c],
                run_start: m.cursor,
                ..m
            };
            lemma_token_in_bounds(fresh);
        }
    }
}

/// The pending run is exactly the stretch of source text from the position
/// where it began up to the cursor.  This holds of a fresh engine and is
/// preserved as long as every character read belongs to a handled class:
/// an unrecognized character is skipped without entering the run and
/// breaks the correspondence.
pub open spec fn run_anchored(m: LexerView) -> bool {
    &&& 0 <= m.cursor <= m.text.len()
    &&& (m.state is Idle ==> m.run.len() == 0)
    &&& (!(m.state is Idle) ==> {
        &&& 0 <= m.run_start
        &&& m.run_start + m.run.len() == m.cursor
        &&& m.run == m.text.subrange(m.run_start, m.cursor)
    })
}

/// Whether every character the cursor has yet to read belongs to a handled
/// class.
pub open spec fn all_recognized(m: LexerView) -> bool {
    forall|i: int| m.cursor <= i < m.text.len() ==> is_recognized(#[trigger] m.text[i])
}

/// On source text made of handled characters only, every non-EOF token is
/// an exact window of the source: its text equals the source slice from
/// its offset over its length.
pub proof fn lemma_token_matches_source(m: LexerView)
    requires
        run_anchored(m),
        all_recognized(m),
    ensures
        run_anchored(spec_lex(m).1),
        all_recognized(spec_lex(m).1),
        spec_lex(m).1.text == m.text,
        spec_lex(m).0.kind != TokenKind::EOF ==> {
            &&& 0 <= spec_lex(m).0.offset
            &&& spec_lex(m).0.offset + spec_lex(m).0.length <= m.text.len()
            &&& spec_lex(m).0.text == m.text.subrange(
                spec_lex(m).0.offset,
                spec_lex(m).0.offset + spec_lex(m).0.length,
            )
        },
    decreases m.text.len() - m.cursor,
{
    if at_end(m) {
        if !(m.state is Idle) {
            assert(m.run == m.text.subrange(m.run_start, m.cursor));
        }
    } else {
        let c = m.text[m.cursor];
        assert(is_recognized(c));
        if m.state is Idle {
            let started = LexerView {
                cursor: m.cursor + 1,
                state: start_state(c),
                run: seq![c],
                run_start: m.cursor,
                ..m
            };
            assert(seq![c] =~= m.text.subrange(m.cursor, m.cursor + 1));
            lemma_token_matches_source(started);
        } else if !(extended_state(m.state, c) is Idle) {
            let grown = LexerView {
                cursor: m.cursor + 1,
                state: extended_state(m.state, c),
                run: m.run.push(c),
                ..m
            };
            assert(m.run.push(c) =~= m.text.subrange(m.run_start, m.cursor + 1));
            lemma_token_matches_source(grown);
        } else {
            let fresh = LexerView {
                cursor: m.cursor + 1,
                state: start_state(c),
                run: seq![c],
                run_start: m.cursor,
                ..m
            };
            assert(seq![c] =~= m.text.subrange(m.cursor, m.cursor + 1));
            lemma_token_matches_source(fresh);
        }
    }
}

/// The state a run of word characters with no leading digit stands in,
/// read off the run's text: the keyword sub-path for the exact prefixes of
/// `var`, the general identifier state otherwise.
pub open spec fn word_run_state(run: Seq<char>) -> LexState {
    if run == seq!['v'] {
        LexState::KwV
    } else if run == seq!['v', 'a'] {
        LexState::KwVa
    } else if run == seq!['v', 'a', 'r'] {
        LexState::KwVar
    } else {
        LexState::InIdentifier
    }
}

/// A pending word run followed by word characters up to end of input is
/// committed there as one token spanning run and remainder: `KVar` when the
/// whole stretch is exactly `var`, an identifier otherwise, and nothing at
/// all when it is a strict prefix of `var`.
pub proof fn lemma_word_run(m: LexerView)
    requires
        0 <= m.cursor <= m.text.len(),
        m.run.len() > 0,
        m.state == word_run_state(m.run),
        forall|i: int| m.cursor <= i < m.text.len() ==> is_word_char(#[trigger] m.text[i]),
    ensures
        ({
            let full = m.run + m.text.subrange(m.cursor, m.text.len() as int);
            let t = spec_lex(m).0;
            &&& (full == seq!['v'] || full == seq!['v', 'a']) ==> t == eof_token()
            &&& !(full == seq!['v'] || full == seq!['v', 'a']) ==> {
                &&& t.kind == if full == seq!['v', 'a', 'r'] {
                    TokenKind::KVar
                } else {
                    TokenKind::Identifier
                }
                &&& t.text == full
                &&& t.offset == m.run_start
                &&& t.length == full.len()
                &&& spec_lex(spec_lex(m).1).0 == eof_token()
            }
        }),
    decreases m.text.len() - m.cursor,
{
    let full = m.run + m.text.subrange(m.cursor, m.text.len() as int);
    if m.cursor == m.text.len() {
        assert(full =~= m.run);
        let done = spec_lex(m).1;
        assert(spec_lex(done).0 == eof_token());
    } else {
        let c = m.text[m.cursor];
        assert(is_word_char(c));
        assert(!at_end(m));
        let ext = extended_state(m.state, c);
        let grown = LexerView {
            cursor: m.cursor + 1,
            state: ext,
            run: m.run.push(c),
            ..m
        };
        // the run's text still determines its state after the extension
        if m.state is KwV {
            assert(m.run.push(c).len() == 2);
            if c == 'a' {
                assert(m.run.push(c) =~= seq!['v', 'a']);
            } else if m.run.push(c) == seq!['v', 'a'] {
                assert(m.run.push(c)[1] == c);
                assert(seq!['v', 'a'][1] == 'a');
                assert(false);
            }
        }
        if m.state is KwVa {
            assert(m.run.push(c).len() == 3);
            if c == 'r' {
                assert(m.run.push(c) =~= seq!['v', 'a', 'r']);
            } else if m.run.push(c) == seq!['v', 'a', 'r'] {
                assert(m.run.push(c)[2] == c);
                assert(seq!['v', 'a', 'r'][2] == 'r');
                assert(false);
            }
        }
        if m.state is KwVar {
            assert(m.run.push(c).len() == 4);
        }
        if m.state is InIdentifier {
            if m.run.push(c) == seq!['v', 'a'] {
                assert(m.run.push(c).len() == 2);
                assert(m.run.push(c)[0] == seq!['v', 'a'][0]);
                assert(m.run[0] == m.run.push(c)[0]);
                assert(m.run =~= seq!['v']);
            }
            if m.run.push(c) == seq!['v', 'a', 'r'] {
                assert(m.run.push(c).len() == 3);
                assert(m.run.push(c)[0] == seq!['v', 'a', 'r'][0]);
                assert(m.run.push(c)[1] == seq!['v', 'a', 'r'][1]);
                assert(m.run[0] == m.run.push(c)[0] && m.run[1] == m.run.push(c)[1]);
                assert(m.run =~= seq!['v', 'a']);
            }
        }
        assert(grown.state == word_run_state(grown.run));
        assert(full =~= grown.run + grown.text.subrange(grown.cursor, grown.text.len() as int));
        lemma_word_run(grown);
    }
}

/// Maximal munch: an input made only of letters, digits and underscores
/// with no leading digit lexes as one single token spanning the whole
/// input — the keyword token when the input is exactly `var`, an
/// identifier otherwise — followed by end of input.  The strict prefixes
/// `v` and `va` of the keyword are the documented exception: their run has
/// no table entry and is dropped.
pub proof fn lemma_maximal_munch(text: Seq<char>)
    requires
        text.len() > 0,
        forall|i: int| 0 <= i < text.len() ==> is_word_char(#[trigger] text[i]),
        !is_digit_char(text[0]),
        text != seq!['v'],
        text != seq!['v', 'a'],
    ensures
        ({
            let t = spec_lex(initial_lexer(text)).0;
            &&& t.kind == if text == seq!['v', 'a', 'r'] {
                TokenKind::KVar
            } else {
                TokenKind::Identifier
            }
            &&& t.text == text
            &&& t.offset == 0
            &&& t.length == text.len()
            &&& spec_lex(spec_lex(initial_lexer(text)).1).0 == eof_token()
        }),
{
    let m = initial_lexer(text);
    let c0 = text[0];
    assert(is_word_char(c0));
    assert(!at_end(m));
    let started = LexerView {
        cursor: 1,
        state: start_state(c0),
        run: seq![c0],
        run_start: 0,
        ..m
    };
    if c0 == 'v' {
        assert(seq![c0] =~= seq!['v']);
    } else {
        if seq![c0] == seq!['v'] {
            assert(seq![c0][0] == seq!['v'][0]);
            assert(false);
        }
    }
    assert(started.state == word_run_state(started.run));
    assert(seq![c0] + text.subrange(1, text.len() as int) =~= text);
    lemma_word_run(started);
}

/// An input containing only unrecognized characters is read and discarded
/// character by character with no transition and no token effect: the
/// engine yields the end-of-input token and nothing else.
pub proof fn lemma_unrecognized_skipped(m: LexerView)
    requires
        m.state is Idle,
        m.run.len() == 0,
        0 <= m.cursor <= m.text.len(),
        forall|i: int| m.cursor <= i < m.text.len() ==> !is_recognized(#[trigger] m.text[i]),
    ensures
        spec_lex(m).0 == eof_token(),
        spec_lex(m).1.state is Idle,
    decreases m.text.len() - m.cursor,
{
    if !at_end(m) {
        lemma_unrecognized_skipped(LexerView { cursor: m.cursor + 1, ..m });
    }
}

} // verus!
