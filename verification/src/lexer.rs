//! The lexer engine: a character-driven state machine over an owned source
//! text, yielding one token per call of [`Lexer::lex`].
//!
//! The engine runs single-pass maximal munch with commit-and-restart: each
//! incoming character either extends the pending run, or flushes the run as a
//! token (classified by the state that was active before the character) and
//! starts a new run.  The whole behaviour is pinned by the specification
//! function [`spec_lex`], which [`Lexer::lex`] implements exactly.

use vstd::prelude::*;

use crate::token::Token;
use crate::token::TokenKind;
use crate::token::TokenView;
use crate::token::eof_token;

verus! {

/// The lexical state of the engine: how much of the current run has been
/// recognized.  `Idle` means no run is pending; the `KwV`/`KwVa`/`KwVar`
/// states are the dedicated sub-path that shadows the general identifier
/// state for the exact character sequence of the keyword `var`.
#[derive(Debug, PartialEq, Eq, Structural, Clone, Copy)]
pub enum LexState {
    Idle,
    InWhitespace,
    InSemi,
    InEqual,
    KwV,
    KwVa,
    KwVar,
    InInteger,
    InIdentifier,
}

/// Whether `c` is a whitespace character: space, tab or newline.
pub open spec fn is_blank(c: char) -> bool {
    c == ' ' || c == '\t' || c == '\n'
}

/// Whether `c` is a decimal digit.
pub open spec fn is_digit_char(c: char) -> bool {
    '0' <= c && c <= '9'
}

/// Whether `c` is a lowercase letter or an underscore: a character that can
/// begin an identifier.  The design operates on single-byte characters;
/// uppercase letters are not part of any handled class.
pub open spec fn is_letter_char(c: char) -> bool {
    ('a' <= c && c <= 'z') || c == '_'
}

/// Whether `c` can stand inside an identifier: letters and digits mix
/// freely after the first letter.
pub open spec fn is_word_char(c: char) -> bool {
    is_letter_char(c) || is_digit_char(c)
}

/// The state a fresh run begins in when `c` arrives with no run pending.
/// `Idle` means `c` belongs to no handled character class: such a character
/// is read and discarded with no transition and no token effect.
pub open spec fn start_state(c: char) -> LexState {
    if is_blank(c) {
        LexState::InWhitespace
    } else if c == ';' {
        LexState::InSemi
    } else if c == '=' {
        LexState::InEqual
    } else if c == 'v' {
        LexState::KwV
    } else if is_letter_char(c) {
        LexState::InIdentifier
    } else if is_digit_char(c) {
        LexState::InInteger
    } else {
        LexState::Idle
    }
}

/// Whether `c` belongs to one of the handled character classes.
pub open spec fn is_recognized(c: char) -> bool {
    !(start_state(c) is Idle)
}

/// The state the pending run moves to when `c` extends it, or `Idle` when
/// `c` cannot extend the run at all (commit-and-restart).  Any deviation
/// from the keyword sub-path by a word character falls back to the general
/// identifier state, so `var` is recognized only when no further identifier
/// character follows it directly.
pub open spec fn extended_state(s: LexState, c: char) -> LexState {
    match s {
        LexState::Idle => LexState::Idle,
        LexState::InWhitespace => if is_blank(c) {
            LexState::InWhitespace
        } else {
            LexState::Idle
        },
        LexState::InSemi => LexState::Idle,
        LexState::InEqual => LexState::Idle,
        LexState::KwV => if c == 'a' {
            LexState::KwVa
        } else if is_word_char(c) {
            LexState::InIdentifier
        } else {
            LexState::Idle
        },
        LexState::KwVa => if c == 'r' {
            LexState::KwVar
        } else if is_word_char(c) {
            LexState::InIdentifier
        } else {
            LexState::Idle
        },
        LexState::KwVar => if is_word_char(c) {
            LexState::InIdentifier
        } else {
            LexState::Idle
        },
        LexState::InInteger => if is_digit_char(c) {
            LexState::InInteger
        } else {
            LexState::Idle
        },
        LexState::InIdentifier => if is_word_char(c) {
            LexState::InIdentifier
        } else {
            LexState::Idle
        },
    }
}

/// The token category a completed run of state `s` is committed as.  `None`
/// for `Idle` and for the partial keyword states `KwV` and `KwVa`: such a
/// run is silently discarded and yields no token.
pub open spec fn state_kind(s: LexState) -> Option<TokenKind> {
    match s {
        LexState::InWhitespace => Some(TokenKind::Whitespace),
        LexState::InSemi => Some(TokenKind::Semi),
        LexState::InEqual => Some(TokenKind::Equal),
        LexState::KwVar => Some(TokenKind::KVar),
        LexState::InInteger => Some(TokenKind::Integer),
        LexState::InIdentifier => Some(TokenKind::Identifier),
        _ => None,
    }
}

/// The 1-based line number of position `n` in `text`: one more than the
/// number of newline characters strictly before `n`.
pub open spec fn line_of(text: Seq<char>, n: int) -> int
    decreases n,
{
    if n <= 0 {
        1
    } else {
        line_of(text, n - 1) + if text[n - 1] == '\n' {
            1int
        } else {
            0int
        }
    }
}

/// The position at which the line holding position `n` of `text` starts:
/// the position right after the last newline strictly before `n`, or 0.
pub open spec fn line_start_of(text: Seq<char>, n: int) -> int
    decreases n,
{
    if n <= 0 {
        0
    } else if text[n - 1] == '\n' {
        n
    } else {
        line_start_of(text, n - 1)
    }
}

pub proof fn lemma_line_of_bounds(text: Seq<char>, n: int)
    requires
        0 <= n,
    ensures
        1 <= line_of(text, n) <= n + 1,
        0 <= line_start_of(text, n) <= n,
    decreases n,
{
    if n > 0 {
        lemma_line_of_bounds(text, n - 1);
    }
}

/// The mathematical state of a [`Lexer`]: the source text, the cursor (next
/// unread position), the lexical state, the pending run and the position at
/// which the pending run began.
#[verifier::ext_equal]
pub ghost struct LexerView {
    pub text: Seq<char>,
    pub cursor: int,
    pub state: LexState,
    pub run: Seq<char>,
    pub run_start: int,
}

/// The token that committing a run of state `m.state` with text `text`
/// yields: its category from the state-to-kind table, its offset the
/// position at which the run began, or `None` when the table has no entry
/// (the run is discarded).
pub open spec fn spec_build(m: LexerView, text: Seq<char>) -> Option<TokenView> {
    match state_kind(m.state) {
        Some(k) => Some(
            TokenView {
                kind: k,
                text: text,
                offset: m.run_start,
                length: text.len() as int,
                line: line_of(m.text, m.run_start),
                line_start: line_start_of(m.text, m.run_start),
            },
        ),
        None => None,
    }
}

/// Whether the cursor stands at end of input: past the last character, or
/// at a null character, the designated end-of-input signal.  The null is
/// never consumed and never buffered into a token.
pub open spec fn at_end(m: LexerView) -> bool {
    m.cursor >= m.text.len() || m.text[m.cursor] == '\0'
}

/// What one call of the next-token operation yields from state `m`: the
/// returned token and the state left behind.
///
/// At end of input the pending run is finalized through the state-to-kind
/// table (so a complete run reaching the end of the source still becomes a
/// token), the state returns to idle, and the cursor stays put, which makes
/// the end-of-input token idempotent.  A pending partial-keyword run has no
/// table entry and is silently discarded, at end of input as anywhere else.
/// Whitespace tokens are used only as flush boundaries and are never
/// surfaced.
pub open spec fn spec_lex(m: LexerView) -> (TokenView, LexerView)
    decreases m.text.len() - m.cursor,
{
    if at_end(m) {
        let done = LexerView { state: LexState::Idle, run: Seq::<char>::empty(), ..m };
        match spec_build(m, m.run) {
            Some(t) => if m.state is Idle || t.kind == TokenKind::Whitespace {
                (eof_token(), done)
            } else {
                (t, done)
            },
            None => (eof_token(), done),
        }
    } else {
        let c = m.text[m.cursor];
        if !is_recognized(c) {
            spec_lex(LexerView { cursor: m.cursor + 1, ..m })
        } else if m.state is Idle {
            spec_lex(
                LexerView {
                    cursor: m.cursor + 1,
                    state: start_state(c),
                    run: seq![c],
                    run_start: m.cursor,
                    ..m
                },
            )
        } else if !(extended_state(m.state, c) is Idle) {
            spec_lex(
                LexerView {
                    cursor: m.cursor + 1,
                    state: extended_state(m.state, c),
                    run: m.run.push(c),
                    ..m
                },
            )
        } else {
            let fresh = LexerView {
                cursor: m.cursor + 1,
                state: start_state(c),
                run: seq![c],
                run_start: m.cursor,
                ..m
            };
            match spec_build(m, m.run) {
                Some(t) => if t.kind == TokenKind::Whitespace {
                    spec_lex(fresh)
                } else {
                    (t, fresh)
                },
                None => spec_lex(fresh),
            }
        }
    }
}

/// The state of a fresh engine over `text`: cursor at the start, no run
/// pending.
pub open spec fn initial_lexer(text: Seq<char>) -> LexerView {
    LexerView {
        text: text,
        cursor: 0,
        state: LexState::Idle,
        run: Seq::<char>::empty(),
        run_start: 0,
    }
}

/// Relies on String::push: appends the given character to the string.
#[verifier::external_body]
fn push_char(s: &mut String, c: char)
    ensures
        final(s)@ == old(s)@.push(c),
{
    s.push(c);
}

/// The exec form of [`start_state`].
fn start_transition(c: char) -> (s: LexState)
    ensures
        s == start_state(c),
{
    if c == ' ' || c == '\t' || c == '\n' {
        LexState::InWhitespace
    } else if c == ';' {
        LexState::InSemi
    } else if c == '=' {
        LexState::InEqual
    } else if c == 'v' {
        LexState::KwV
    } else if ('a' <= c && c <= 'z') || c == '_' {
        LexState::InIdentifier
    } else if '0' <= c && c <= '9' {
        LexState::InInteger
    } else {
        LexState::Idle
    }
}

/// The exec form of [`is_word_char`].
fn word_char(c: char) -> (r: bool)
    ensures
        r == is_word_char(c),
{
    ('a' <= c && c <= 'z') || c == '_' || ('0' <= c && c <= '9')
}

/// The exec form of [`extended_state`].
fn extend_transition(s: LexState, c: char) -> (r: LexState)
    ensures
        r == extended_state(s, c),
{
    match s {
        LexState::Idle => LexState::Idle,
        LexState::InWhitespace => if c == ' ' || c == '\t' || c == '\n' {
            LexState::InWhitespace
        } else {
            LexState::Idle
        },
        LexState::InSemi => LexState::Idle,
        LexState::InEqual => LexState::Idle,
        LexState::KwV => if c == 'a' {
            LexState::KwVa
        } else if word_char(c) {
            LexState::InIdentifier
        } else {
            LexState::Idle
        },
        LexState::KwVa => if c == 'r' {
            LexState::KwVar
        } else if word_char(c) {
            LexState::InIdentifier
        } else {
            LexState::Idle
        },
        LexState::KwVar => if word_char(c) {
            LexState::InIdentifier
        } else {
            LexState::Idle
        },
        LexState::InInteger => if '0' <= c && c <= '9' {
            LexState::InInteger
        } else {
            LexState::Idle
        },
        LexState::InIdentifier => if word_char(c) {
            LexState::InIdentifier
        } else {
            LexState::Idle
        },
    }
}

/// The lexer engine.  It owns the source text and never buffers more than
/// the current pending run.
pub struct Lexer {
    text: String,
    clen: usize,
    offset: usize,
    state: LexState,
    buf: String,
    run_start: usize,
    line: usize,
    line_start: usize,
    run_line: usize,
    run_line_start: usize,
}

impl View for Lexer {
    type V = LexerView;

    closed spec fn view(&self) -> LexerView {
        LexerView {
            text: self.text@,
            cursor: self.offset as int,
            state: self.state,
            run: self.buf@,
            run_start: self.run_start as int,
        }
    }
}

impl Lexer {
    /// The engine's internal consistency: the cached character length and
    /// the line bookkeeping agree with the text and the cursor, and a run
    /// is pending exactly in the non-idle states.  Constructors establish
    /// it and every method preserves it.
    pub closed spec fn wf(&self) -> bool {
        &&& self.clen == self.text@.len()
        &&& self.text@.len() < usize::MAX
        &&& self.offset <= self.clen
        &&& self.line == line_of(self.text@, self.offset as int)
        &&& self.line_start == line_start_of(self.text@, self.offset as int)
        &&& (self.state is Idle <==> self.buf@.len() == 0)
        &&& (!(self.state is Idle) ==> {
            &&& self.run_start + self.buf@.len() <= self.offset
            &&& self.run_line == line_of(self.text@, self.run_start as int)
            &&& self.run_line_start == line_start_of(self.text@, self.run_start as int)
        })
    }

    /// A fresh engine over `text`, with the cursor at the start and no run
    /// pending.  The length bound is a machine limit: the engine counts
    /// lines in a `usize`.
    pub fn new(text: String) -> (r: Lexer)
        requires
            text@.len() < usize::MAX,
        ensures
            r.wf(),
            r@ == initial_lexer(text@),
    {
        let clen = text.as_str().unicode_len();
        Lexer {
            text,
            clen,
            offset: 0,
            state: LexState::Idle,
            buf: String::new(),
            run_start: 0,
            line: 1,
            line_start: 0,
            run_line: 1,
            run_line_start: 0,
        }
    }

    /// Reads the next character and advances the cursor; reading past the
    /// end of the source yields the sentinel null character and leaves the
    /// cursor in place.
    pub fn get_char(&mut self) -> (c: char)
        requires
            old(self).wf(),
        ensures
            final(self).wf(),
            final(self)@.text == old(self)@.text,
            final(self)@.state == old(self)@.state,
            final(self)@.run == old(self)@.run,
            final(self)@.run_start == old(self)@.run_start,
            old(self)@.cursor < old(self)@.text.len() ==> {
                &&& c == old(self)@.text[old(self)@.cursor]
                &&& final(self)@.cursor == old(self)@.cursor + 1
            },
            old(self)@.cursor >= old(self)@.text.len() ==> {
                &&& c == '\0'
                &&& final(self)@.cursor == old(self)@.cursor
            },
    {
        if self.offset >= self.clen {
            return '\0';
        }
        let c = self.text.as_str().get_char(self.offset);
        proof {
            lemma_line_of_bounds(self.text@, self.offset as int);
        }
        self.offset = self.offset + 1;
        if c == '\n' {
            self.line = self.line + 1;
            self.line_start = self.offset;
        }
        c
    }

    /// Produces the next token: runs the state machine until a run is
    /// flushed as a non-whitespace token or end of input is reached.
    /// Exactly one token is returned per call, never a whitespace one, and
    /// after end of input has been observed every further call returns the
    /// end-of-input token again.  The result and the state left behind are
    /// precisely those of [`spec_lex`].
    pub fn lex(&mut self) -> (r: Token)
        requires
            old(self).wf(),
        ensures
            final(self).wf(),
            r@ == spec_lex(old(self)@).0,
            final(self)@ == spec_lex(old(self)@).1,
    {
        loop
            invariant
                self.wf(),
                spec_lex(self@) == spec_lex(old(self)@),
            decreases 2 * (self@.text.len() - self@.cursor) + (if self@.state is Idle {
                0int
            } else {
                1int
            }),
        {
            let ghost m0 = self@;
            let mut c: char = '\0';
            if self.offset < self.clen {
                c = self.text.as_str().get_char(self.offset);
            }
            if c == '\0' {
                // end of input: finalize the pending run, return to idle
                let tok = self.build(self.buf.clone());
                self.state = LexState::Idle;
                self.buf = String::new();
                proof {
                    assert(at_end(m0));
                    assert(self@ =~= (LexerView {
                        state: LexState::Idle,
                        run: Seq::<char>::empty(),
                        ..m0
                    }));
                }
                if let Some(tk) = tok {
                    if !tk.is(TokenKind::Whitespace) {
                        return tk;
                    }
                }
                return Token::eof();
            }
            // consume the character, tracking lines
            let pos = self.offset;
            let pos_line = self.line;
            let pos_line_start = self.line_start;
            proof {
                lemma_line_of_bounds(self.text@, pos as int);
            }
            self.offset = pos + 1;
            if c == '\n' {
                self.line = self.line + 1;
                self.line_start = self.offset;
            }
            let st = start_transition(c);
            if st == LexState::Idle {
                // unrecognized character: no transition, no token effect
                proof {
                    assert(self@ =~= (LexerView { cursor: m0.cursor + 1, ..m0 }));
                }
            } else if self.state == LexState::Idle {
                // start a fresh run with this character
                let mut begun = String::new();
                push_char(&mut begun, c);
                self.state = st;
                self.buf = begun;
                self.run_start = pos;
                self.run_line = pos_line;
                self.run_line_start = pos_line_start;
                proof {
                    assert(self@.run =~= seq![c]);
                    assert(self@ =~= (LexerView {
                        cursor: m0.cursor + 1,
                        state: start_state(c),
                        run: seq![c],
                        run_start: m0.cursor,
                        ..m0
                    }));
                }
            } else {
                let ext = extend_transition(self.state, c);
                if ext != LexState::Idle {
                    // the character extends the pending run
                    self.state = ext;
                    push_char(&mut self.buf, c);
                    proof {
                        assert(self@ =~= (LexerView {
                            cursor: m0.cursor + 1,
                            state: extended_state(m0.state, c),
                            run: m0.run.push(c),
                            ..m0
                        }));
                    }
                } else {
                    // commit-and-restart: flush the run under the state
                    // that was active before this character, then start a
                    // new run with this character alone
                    let tok = self.build(self.buf.clone());
                    let mut begun = String::new();
                    push_char(&mut begun, c);
                    self.state = st;
                    self.buf = begun;
                    self.run_start = pos;
                    self.run_line = pos_line;
                    self.run_line_start = pos_line_start;
                    proof {
                        assert(self@.run =~= seq![c]);
                        assert(self@ =~= (LexerView {
                            cursor: m0.cursor + 1,
                            state: start_state(c),
                            run: seq![c],
                            run_start: m0.cursor,
                            ..m0
                        }));
                    }
                    if let Some(tk) = tok {
                        if !tk.is(TokenKind::Whitespace) {
                            return tk;
                        }
                    }
                }
            }
        }
    }

    /// The state-to-kind table, materialized: commits the current run as a
    /// token holding the given text, classified by the state that is
    /// active, or nothing when the table has no entry for that state.
    pub fn build(&self, text: String) -> (r: Option<Token>)
        requires
            self.wf(),
        ensures
            r.is_some() == spec_build(self@, text@).is_some(),
            r.is_some() ==> r.unwrap()@ == spec_build(self@, text@).unwrap(),
    {
        let kind = match self.state {
            LexState::InWhitespace => TokenKind::Whitespace,
            LexState::InSemi => TokenKind::Semi,
            LexState::InEqual => TokenKind::Equal,
            LexState::KwVar => TokenKind::KVar,
            LexState::InInteger => TokenKind::Integer,
            LexState::InIdentifier => TokenKind::Identifier,
            _ => {
                return None;
            },
        };
        let length = text.as_str().unicode_len();
        Some(
            Token {
                kind,
                text,
                offset: self.run_start,
                length,
                line: self.run_line,
                line_start: self.run_line_start,
            },
        )
    }
}

} // verus!
