//! The lexer: a single left-to-right pass from a formula string to a
//! sequence of tokens.
//!
//! Both the ASCII and the symbol spelling of each operator are accepted
//! (`&` and U+2227 for AND, `|` and U+2228 for OR, `->` and U+2192 for
//! IMPLY, `!` and U+00AC for NOT). Whitespace is skipped silently. Any
//! other character becomes an `Error` token; the lexer itself never fails,
//! rejection is left to the parser, which cannot consume an `Error` token.

use vstd::prelude::*;

verus! {

/// One lexical token of the formula grammar.
#[derive(Debug, Clone, Copy, PartialEq, Eq)]
pub enum Token {
    OpenParen,
    CloseParen,
    Proposition(char),
    And,
    Or,
    Imply,
    Not,
    Error,
}

/// Whitespace, skipped between tokens.
pub open spec fn is_space(c: char) -> bool {
    c == ' ' || c == '\t' || c == '\n' || c == '\r' || c == '\u{b}' || c == '\u{c}'
}

/// A single-letter proposition name: a case-sensitive ASCII letter.
pub open spec fn is_letter(c: char) -> bool {
    ('a' <= c && c <= 'z') || ('A' <= c && c <= 'Z')
}

/// The token for a character that is lexed on its own, everything but the
/// two-character arrow `->`.
pub open spec fn single_token(c: char) -> Token {
    if c == '(' {
        Token::OpenParen
    } else if c == ')' {
        Token::CloseParen
    } else if is_letter(c) {
        Token::Proposition(c)
    } else if c == '&' || c == '\u{2227}' {
        Token::And
    } else if c == '|' || c == '\u{2228}' {
        Token::Or
    } else if c == '\u{2192}' {
        Token::Imply
    } else if c == '!' || c == '\u{ac}' {
        Token::Not
    } else {
        Token::Error
    }
}

/// The token sequence of a formula string: one left-to-right pass with no
/// lookahead beyond the two-character arrow.
pub open spec fn lex_spec(s: Seq<char>) -> Seq<Token>
    decreases s.len(),
{
    if s.len() == 0 {
        Seq::empty()
    } else {
        let c = s[0];
        if is_space(c) {
            lex_spec(s.skip(1))
        } else if c == '-' {
            if s.len() >= 2 && s[1] == '>' {
                seq![Token::Imply] + lex_spec(s.skip(2))
            } else {
                seq![Token::Error] + lex_spec(s.skip(1))
            }
        } else {
            seq![single_token(c)] + lex_spec(s.skip(1))
        }
    }
}

/// Exec test of `is_space`.
fn is_space_exec(c: char) -> (r: bool)
    ensures
        r == is_space(c),
{
    c == ' ' || c == '\t' || c == '\n' || c == '\r' || c == '\u{b}' || c == '\u{c}'
}

/// Exec test of `is_letter`.
fn is_letter_exec(c: char) -> (r: bool)
    ensures
        r == is_letter(c),
{
    ('a' <= c && c <= 'z') || ('A' <= c && c <= 'Z')
}

/// Exec form of `single_token`.
fn single_token_exec(c: char) -> (r: Token)
    ensures
        r == single_token(c),
{
    if c == '(' {
        Token::OpenParen
    } else if c == ')' {
        Token::CloseParen
    } else if is_letter_exec(c) {
        Token::Proposition(c)
    } else if c == '&' || c == '\u{2227}' {
        Token::And
    } else if c == '|' || c == '\u{2228}' {
        Token::Or
    } else if c == '\u{2192}' {
        Token::Imply
    } else if c == '!' || c == '\u{ac}' {
        Token::Not
    } else {
        Token::Error
    }
}

/// Tokenizes a formula string.
pub fn lex(input: &str) -> (r: Vec<Token>)
    ensures
        r@ == lex_spec(input@),
{
    let n = input.unicode_len();
    let mut toks: Vec<Token> = Vec::new();
    let mut i: usize = 0;
    proof {
        assert(input@.skip(0) =~= input@);
        assert(toks@ + lex_spec(input@) =~= lex_spec(input@));
    }
    while i < n
        invariant
            n == input@.len(),
            i <= n,
            lex_spec(input@) == toks@ + lex_spec(input@.skip(i as int)),
        decreases n - i,
    {
        let ghost tail = input@.skip(i as int);
        let c = input.get_char(i);
        if is_space_exec(c) {
            proof {
                assert(tail.skip(1) =~= input@.skip(i + 1));
            }
            i = i + 1;
        } else if c == '-' {
            if i + 1 < n && input.get_char(i + 1) == '>' {
                proof {
                    assert(tail.len() >= 2 && tail[1] == '>');
                    assert(tail.skip(2) =~= input@.skip(i + 2));
                    assert(lex_spec(tail) == seq![Token::Imply] + lex_spec(input@.skip(i + 2)));
                    assert(toks@.push(Token::Imply) + lex_spec(input@.skip(i + 2)) =~= toks@
                        + lex_spec(tail));
                }
                toks.push(Token::Imply);
                i = i + 2;
            } else {
                proof {
                    assert(!(tail.len() >= 2 && tail[1] == '>'));
                    assert(tail.skip(1) =~= input@.skip(i + 1));
                    assert(lex_spec(tail) == seq![Token::Error] + lex_spec(input@.skip(i + 1)));
                    assert(toks@.push(Token::Error) + lex_spec(input@.skip(i + 1)) =~= toks@
                        + lex_spec(tail));
                }
                toks.push(Token::Error);
                i = i + 1;
            }
        } else {
            let t = single_token_exec(c);
            proof {
                assert(tail.skip(1) =~= input@.skip(i + 1));
                assert(lex_spec(tail) == seq![t] + lex_spec(input@.skip(i + 1)));
                assert(toks@.push(t) + lex_spec(input@.skip(i + 1)) =~= toks@ + lex_spec(tail));
            }
            toks.push(t);
            i = i + 1;
        }
    }
    proof {
        assert(input@.skip(n as int).len() == 0);
        assert(toks@ + lex_spec(input@.skip(n as int)) =~= toks@);
    }
    toks
}

} // verus!
