//! Lexical analysis: from the characters of a formula to its tokens.
//!
//! The lexical grammar is given by [`token_at`]: which token, if any, begins at
//! a position of the text, and how many characters it spans. [`lex`] applies it
//! from left to right, skipping spaces and stopping at the first position where
//! no token begins. [`tokenize`] computes exactly [`lex`].

use vstd::prelude::*;
use crate::token::{Token, is_variable_char, is_variable};

verus! {

/// Why a text could not be split into tokens.
#[derive(Debug, Clone, Copy, PartialEq, Eq, Structural)]
pub enum LexErrorKind {
    /// The character begins no token.
    InvalidCharacter,
    /// A `-` that is not followed by `>`.
    ExpectedImplies,
    /// A `<` that is not followed by `->`.
    ExpectedIff,
}

/// The first place of a text at which no token begins.
#[derive(Debug, Clone, Copy, PartialEq, Eq, Structural)]
pub struct LexError {
    /// What is wrong there.
    pub kind: LexErrorKind,
    /// The index of the offending character, counted in characters from 0.
    pub position: usize,
    /// The offending character: for a malformed operator, its first character.
    pub character: char,
}

/// The token that begins at `pos`, with the number of characters it spans, or
/// `None` where no token begins. `pos` is an index into `text`.
pub open spec fn token_at(text: Seq<char>, pos: int) -> Option<(Token, int)> {
    let c = text[pos];
    if c == '!' {
        Some((Token::Not, 1))
    } else if c == '&' {
        Some((Token::And, 1))
    } else if c == '|' {
        Some((Token::Or, 1))
    } else if c == '^' {
        Some((Token::Xor, 1))
    } else if c == '(' {
        Some((Token::LParen, 1))
    } else if c == ')' {
        Some((Token::RParen, 1))
    } else if c == '-' && pos + 1 < text.len() && text[pos + 1] == '>' {
        Some((Token::Implies, 2))
    } else if c == '<' && pos + 2 < text.len() && text[pos + 1] == '-' && text[pos + 2] == '>' {
        Some((Token::Iff, 3))
    } else if is_variable_char(c) {
        Some((Token::Var(c), 1))
    } else {
        None
    }
}

/// The error reported for a position `pos` of `text` at which no token begins.
pub open spec fn error_at(text: Seq<char>, pos: int) -> LexError {
    let c = text[pos];
    LexError {
        kind: if c == '-' {
            LexErrorKind::ExpectedImplies
        } else if c == '<' {
            LexErrorKind::ExpectedIff
        } else {
            LexErrorKind::InvalidCharacter
        },
        position: pos as usize,
        character: c,
    }
}

/// `token` in front of the tokens of `rest`; an error stays as it is.
pub open spec fn prepend(token: Token, rest: Result<Seq<Token>, LexError>) -> Result<
    Seq<Token>,
    LexError,
> {
    match rest {
        Ok(tokens) => Ok(seq![token] + tokens),
        Err(e) => Err(e),
    }
}

/// The tokens of `text` from position `pos` on, or the first lexical error there.
pub open spec fn lex_from(text: Seq<char>, pos: int) -> Result<Seq<Token>, LexError>
    decreases text.len() - pos,
{
    if pos < 0 || pos >= text.len() {
        Ok(Seq::empty())
    } else if text[pos] == ' ' {
        lex_from(text, pos + 1)
    } else {
        match token_at(text, pos) {
            Some((token, width)) => prepend(token, lex_from(text, pos + width)),
            None => Err(error_at(text, pos)),
        }
    }
}

/// The tokens of `text`, or its first lexical error.
pub open spec fn lex(text: Seq<char>) -> Result<Seq<Token>, LexError> {
    lex_from(text, 0)
}

/// The tokens `done` followed by those of `rest`; an error stays as it is.
spec fn extend(done: Seq<Token>, rest: Result<Seq<Token>, LexError>) -> Result<
    Seq<Token>,
    LexError,
> {
    match rest {
        Ok(tokens) => Ok(done + tokens),
        Err(e) => Err(e),
    }
}

/// `result` is what splitting `text` into tokens gives: its tokens, or its first
/// lexical error.
pub open spec fn is_tokenization(text: Seq<char>, result: Result<Vec<Token>, LexError>) -> bool {
    match result {
        Ok(tokens) => lex(text) == Ok::<Seq<Token>, LexError>(tokens@),
        Err(e) => lex(text) == Err::<Seq<Token>, LexError>(e),
    }
}

/// The characters of `text`, in order.
pub fn characters(text: &str) -> (chars: Vec<char>)
    ensures
        chars@ == text@,
{
    let mut chars: Vec<char> = Vec::new();
    for c in it: text.chars()
        invariant
            chars@ == it.seq().take(it.index()),
    {
        chars.push(c);
    }
    chars
}

/// Splits `expr` into tokens.
///
/// Spaces separate tokens and are skipped. The first character at which no
/// token begins ends the call with an error that names it; no token is
/// returned then.
pub fn tokenize(expr: &str) -> (result: Result<Vec<Token>, LexError>)
    ensures
        is_tokenization(expr@, result),
{
    let chars = characters(expr);
    let n = chars.len();
    let mut tokens: Vec<Token> = Vec::new();
    let mut i: usize = 0;
    while i < n
        invariant
            n == chars.len(),
            chars@ == expr@,
            i <= n,
            lex(expr@) == extend(tokens@, lex_from(expr@, i as int)),
        decreases n - i,
    {
        let ch = chars[i];
        let ghost before = tokens@;
        proof {
            assert(forall|t: Token, rest: Seq<Token>|
                before + (seq![t] + rest) =~= before.push(t) + rest);
        }
        match ch {
            ' ' => {
                i += 1;
            },
            '!' => {
                tokens.push(Token::Not);
                i += 1;
            },
            '&' => {
                tokens.push(Token::And);
                i += 1;
            },
            '|' => {
                tokens.push(Token::Or);
                i += 1;
            },
            '^' => {
                tokens.push(Token::Xor);
                i += 1;
            },
            '(' => {
                tokens.push(Token::LParen);
                i += 1;
            },
            ')' => {
                tokens.push(Token::RParen);
                i += 1;
            },
            '-' => {
                if n - i > 1 && chars[i + 1] == '>' {
                    tokens.push(Token::Implies);
                    i += 2;
                } else {
                    return Err(
                        LexError { kind: LexErrorKind::ExpectedImplies, position: i, character: ch },
                    );
                }
            },
            '<' => {
                if n - i > 2 && chars[i + 1] == '-' && chars[i + 2] == '>' {
                    tokens.push(Token::Iff);
                    i += 3;
                } else {
                    return Err(
                        LexError { kind: LexErrorKind::ExpectedIff, position: i, character: ch },
                    );
                }
            },
            _ => {
                if is_variable(ch) {
                    tokens.push(Token::Var(ch));
                    i += 1;
                } else {
                    return Err(
                        LexError { kind: LexErrorKind::InvalidCharacter, position: i, character: ch },
                    );
                }
            },
        }
    }
    proof {
        assert(tokens@ + Seq::<Token>::empty() =~= tokens@);
    }
    Ok(tokens)
}

} // verus!
