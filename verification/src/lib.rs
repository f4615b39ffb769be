//! A verified pull-based tokenizer for a small declaration-style language.
//!
//! The library has two parts: a token model ([`token`]) that defines the
//! closed set of token categories and the immutable record produced for each
//! lexical unit, and a lexer engine ([`lexer`]) that owns a source text and a
//! cursor and yields one token per call of its next-token operation.  The
//! engine is a character-driven state machine using maximal munch with
//! commit-and-restart: a character either extends the pending run or flushes
//! it as a token and starts a new run.  [`laws`] states and proves the
//! library-wide guarantees of the engine.

pub mod laws;
pub mod lexer;
pub mod token;
