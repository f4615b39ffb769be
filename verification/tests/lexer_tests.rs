use declex::lexer::Lexer;
use declex::token::Token;
use declex::token::TokenKind;

/// Lexes `src` to completion and returns every non-EOF token.
fn collect_tokens(src: &str) -> Vec<Token> {
    let mut lexer = Lexer::new(String::from(src));
    let mut out: Vec<Token> = Vec::new();
    loop {
        let token = lexer.lex();
        if token.is(TokenKind::EOF) {
            return out;
        }
        out.push(token);
    }
}

#[test]
fn word_input_is_one_identifier() {
    let toks = collect_tokens("abc_123");
    assert_eq!(toks.len(), 1);
    assert_eq!(toks[0].kind, TokenKind::Identifier);
    assert_eq!(toks[0].text, "abc_123");
    assert_eq!(toks[0].offset, 0);
    assert_eq!(toks[0].length, 7);
}

#[test]
fn exactly_var_is_keyword() {
    let toks = collect_tokens("var");
    assert_eq!(toks.len(), 1);
    assert_eq!(toks[0].kind, TokenKind::KVar);
    assert_eq!(toks[0].text, "var");
    assert_eq!(toks[0].offset, 0);
    assert_eq!(toks[0].length, 3);
}

#[test]
fn bare_r_is_identifier() {
    let toks = collect_tokens("r");
    assert_eq!(toks.len(), 1);
    assert_eq!(toks[0].kind, TokenKind::Identifier);
    assert_eq!(toks[0].text, "r");
}

#[test]
fn variable_never_splits_into_kvar() {
    let toks = collect_tokens("variable");
    assert_eq!(toks.len(), 1);
    assert_eq!(toks[0].kind, TokenKind::Identifier);
    assert_eq!(toks[0].text, "variable");
}

#[test]
fn keyword_prefix_grows_back_to_identifier() {
    let toks = collect_tokens("vax");
    assert_eq!(toks.len(), 1);
    assert_eq!(toks[0].kind, TokenKind::Identifier);
    assert_eq!(toks[0].text, "vax");

    let toks = collect_tokens("varx");
    assert_eq!(toks.len(), 1);
    assert_eq!(toks[0].kind, TokenKind::Identifier);
    assert_eq!(toks[0].text, "varx");
}

#[test]
fn driver_sample_token_sequence() {
    let toks = collect_tokens("var xs = 12;");
    let kinds: Vec<&TokenKind> = toks.iter().map(|t| &t.kind).collect();
    assert_eq!(
        kinds,
        vec![
            &TokenKind::KVar,
            &TokenKind::Identifier,
            &TokenKind::Equal,
            &TokenKind::Integer,
            &TokenKind::Semi,
        ]
    );
    let texts: Vec<&str> = toks.iter().map(|t| t.text.as_str()).collect();
    assert_eq!(texts, vec!["var", "xs", "=", "12", ";"]);
}

#[test]
fn whitespace_mixes_collapse_and_never_surface() {
    let toks = collect_tokens("a \t\n  b");
    assert_eq!(toks.len(), 2);
    for t in &toks {
        assert!(!t.is(TokenKind::Whitespace));
    }
    assert_eq!(toks[0].text, "a");
    assert_eq!(toks[1].text, "b");
    assert_eq!(toks[1].offset, 6);
}

#[test]
fn eof_is_idempotent() {
    let mut lexer = Lexer::new(String::from("x"));
    let first = lexer.lex();
    assert_eq!(first.kind, TokenKind::Identifier);
    for _ in 0..3 {
        let t = lexer.lex();
        assert!(t.is(TokenKind::EOF));
        assert_eq!(t.text, "");
        assert_eq!(t.offset, 0);
        assert_eq!(t.length, 0);
    }
}

#[test]
fn token_text_matches_source_slice() {
    let src = "var xs = 12;";
    let toks = collect_tokens(src);
    assert_eq!(toks.len(), 5);
    for t in &toks {
        assert_eq!(t.text.len(), t.length);
        assert!(t.offset + t.length <= src.len());
        assert_eq!(&src[t.offset..t.offset + t.length], t.text);
    }
    assert_eq!(toks[1].offset, 4);
    assert_eq!(toks[2].offset, 7);
    assert_eq!(toks[3].offset, 9);
    assert_eq!(toks[4].offset, 11);
}

#[test]
fn partial_keyword_dropped_at_end() {
    assert_eq!(collect_tokens("v").len(), 0);
    assert_eq!(collect_tokens("va").len(), 0);

    let toks = collect_tokens("xs v");
    assert_eq!(toks.len(), 1);
    assert_eq!(toks[0].text, "xs");
}

#[test]
fn partial_keyword_dropped_at_delimiter() {
    let toks = collect_tokens("va;");
    assert_eq!(toks.len(), 1);
    assert_eq!(toks[0].kind, TokenKind::Semi);
    assert_eq!(toks[0].text, ";");
    assert_eq!(toks[0].offset, 2);
}

#[test]
fn unrecognized_only_yields_single_eof() {
    let mut lexer = Lexer::new(String::from("+!#ABC?"));
    let t = lexer.lex();
    assert!(t.is(TokenKind::EOF));
    let again = lexer.lex();
    assert!(again.is(TokenKind::EOF));
}

#[test]
fn unrecognized_inside_run_is_skipped() {
    // the unrecognized character causes no transition and no token effect;
    // the run around it keeps growing
    let toks = collect_tokens("a#b");
    assert_eq!(toks.len(), 1);
    assert_eq!(toks[0].kind, TokenKind::Identifier);
    assert_eq!(toks[0].text, "ab");
    assert_eq!(toks[0].offset, 0);
}

#[test]
fn digits_after_letters_stay_identifier() {
    let toks = collect_tokens("a12");
    assert_eq!(toks.len(), 1);
    assert_eq!(toks[0].kind, TokenKind::Identifier);
    assert_eq!(toks[0].text, "a12");
}

#[test]
fn letter_after_digits_commits_integer() {
    let toks = collect_tokens("12a");
    assert_eq!(toks.len(), 2);
    assert_eq!(toks[0].kind, TokenKind::Integer);
    assert_eq!(toks[0].text, "12");
    assert_eq!(toks[1].kind, TokenKind::Identifier);
    assert_eq!(toks[1].text, "a");
}

#[test]
fn single_char_tokens_do_not_merge() {
    let toks = collect_tokens(";;==");
    let kinds: Vec<&TokenKind> = toks.iter().map(|t| &t.kind).collect();
    assert_eq!(
        kinds,
        vec![&TokenKind::Semi, &TokenKind::Semi, &TokenKind::Equal, &TokenKind::Equal]
    );
    let offsets: Vec<usize> = toks.iter().map(|t| t.offset).collect();
    assert_eq!(offsets, vec![0, 1, 2, 3]);
}

#[test]
fn trailing_whitespace_is_not_a_token() {
    let toks = collect_tokens("a  ");
    assert_eq!(toks.len(), 1);
    assert_eq!(toks[0].text, "a");
}

#[test]
fn null_character_acts_as_end_of_input() {
    let toks = collect_tokens("ab\0cd");
    assert_eq!(toks.len(), 1);
    assert_eq!(toks[0].text, "ab");
}

#[test]
fn lines_are_tracked_across_newlines() {
    let toks = collect_tokens("var xs = \n12;");
    assert_eq!(toks.len(), 5);
    assert_eq!(toks[0].text, "var");
    assert_eq!(toks[0].line, 1);
    assert_eq!(toks[0].line_start, 0);
    assert_eq!(toks[3].text, "12");
    assert_eq!(toks[3].offset, 10);
    assert_eq!(toks[3].line, 2);
    assert_eq!(toks[3].line_start, 10);
    assert_eq!(toks[4].text, ";");
    assert_eq!(toks[4].line, 2);
}

#[test]
fn eof_token_is_the_base_record() {
    let t = Token::eof();
    assert!(t.is(TokenKind::EOF));
    assert!(!t.is(TokenKind::Semi));
    assert_eq!(t.text, "");
    assert_eq!(t.offset, 0);
    assert_eq!(t.length, 0);
    assert_eq!(t.line, 0);
    assert_eq!(t.line_start, 0);
}

#[test]
fn get_char_reads_and_then_yields_null() {
    let mut lexer = Lexer::new(String::from("ab"));
    assert_eq!(lexer.get_char(), 'a');
    assert_eq!(lexer.get_char(), 'b');
    assert_eq!(lexer.get_char(), '\0');
    assert_eq!(lexer.get_char(), '\0');
}

#[test]
fn build_yields_nothing_while_idle() {
    let lexer = Lexer::new(String::from("anything"));
    let built = lexer.build(String::from("x"));
    assert!(built.is_none());
}

#[test]
fn empty_input_yields_only_eof() {
    let mut lexer = Lexer::new(String::new());
    assert!(lexer.lex().is(TokenKind::EOF));
    assert!(lexer.lex().is(TokenKind::EOF));
}
