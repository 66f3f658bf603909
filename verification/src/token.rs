//! The lexical units of a formula.

use vstd::prelude::*;

verus! {

/// An atomic lexical unit: a single-letter variable, an operator or a parenthesis.
#[derive(Debug, Clone, Copy, PartialEq, Eq, Structural)]
pub enum Token {
    /// A variable, named by one ASCII letter.
    Var(char),
    /// `!`
    Not,
    /// `&`
    And,
    /// `|`
    Or,
    /// `^`
    Xor,
    /// `->`
    Implies,
    /// `<->`
    Iff,
    /// `(`
    LParen,
    /// `)`
    RParen,
}

impl Token {
    /// The characters that write the token.
    pub open spec fn spelling(self) -> Seq<char> {
        match self {
            Token::Var(c) => seq![c],
            Token::Not => seq!['!'],
            Token::And => seq!['&'],
            Token::Or => seq!['|'],
            Token::Xor => seq!['^'],
            Token::Implies => seq!['-', '>'],
            Token::Iff => seq!['<', '-', '>'],
            Token::LParen => seq!['('],
            Token::RParen => seq![')'],
        }
    }
}

/// The characters that write `tokens`, one token after the other.
pub open spec fn spelled(tokens: Seq<Token>) -> Seq<char>
    decreases tokens.len(),
{
    if tokens.len() == 0 {
        Seq::empty()
    } else {
        tokens[0].spelling() + spelled(tokens.drop_first())
    }
}

/// The characters that name a variable: the ASCII letters, upper and lower case.
pub open spec fn is_variable_char(c: char) -> bool {
    ('a' <= c && c <= 'z') || ('A' <= c && c <= 'Z')
}

/// Tells whether `c` names a variable.
pub fn is_variable(c: char) -> (b: bool)
    ensures
        b == is_variable_char(c),
{
    ('a' <= c && c <= 'z') || ('A' <= c && c <= 'Z')
}

} // verus!
