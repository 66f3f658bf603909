//! The grammar of formulas, as a function from tokens to a tree.
//!
//! One level per connective, the loosest first; each level is a chain of
//! operands of the next tighter level, folded from left to right. Below the
//! connectives stand the prefix `!` and the atoms: a variable, or a formula in
//! parentheses.
//!
//! ```text
//! formula := chain(<->)
//! chain(op) := operand(op) { op operand(op) }
//! operand(op) := chain(next tighter op)  |  prefix, for &
//! prefix := ! prefix  |  atom
//! atom := variable  |  ( formula )
//! ```
//!
//! Every function takes the tokens and a position, and gives the tree that
//! begins there with the position behind it, or the first error.

use vstd::prelude::*;
use crate::token::Token;
use crate::formula::{Connective, Formula};

verus! {

/// What was expected where an unexpected token stands.
#[derive(Debug, Clone, Copy, PartialEq, Eq, Structural)]
pub enum Expected {
    /// A variable, `!` or `(`: the beginning of an operand.
    Operand,
    /// Nothing more: the formula is complete.
    EndOfInput,
}

/// Why a sequence of tokens is not a formula.
#[derive(Debug, Clone, Copy, PartialEq, Eq, Structural)]
#[allow(inconsistent_fields)]
pub enum ParseError {
    /// A token stands where it cannot.
    UnexpectedToken {
        /// The index of the token.
        position: usize,
        /// The token.
        found: Token,
        /// What could have stood there.
        expected: Expected,
    },
    /// The tokens end where an operand is expected.
    UnexpectedEnd {
        /// The number of tokens.
        position: usize,
    },
    /// A formula after `(` is not followed by `)`.
    MissingCloseParen {
        /// The index at which `)` should stand.
        position: usize,
        /// The token that stands there, if any.
        found: Option<Token>,
    },
}

impl ParseError {
    /// The index, in tokens, at which the error was found.
    pub open spec fn spec_position(self) -> usize {
        match self {
            ParseError::UnexpectedToken { position, .. } => position,
            ParseError::UnexpectedEnd { position } => position,
            ParseError::MissingCloseParen { position, .. } => position,
        }
    }

    /// The index, in tokens, at which the error was found.
    #[verifier::when_used_as_spec(spec_position)]
    pub fn position(self) -> (p: usize)
        ensures
            p == self.spec_position(),
    {
        match self {
            ParseError::UnexpectedToken { position, .. } => position,
            ParseError::UnexpectedEnd { position } => position,
            ParseError::MissingCloseParen { position, .. } => position,
        }
    }
}

/// The token at `pos`, if there is one.
pub open spec fn peek(tokens: Seq<Token>, pos: int) -> Option<Token> {
    if 0 <= pos < tokens.len() {
        Some(tokens[pos])
    } else {
        None
    }
}

/// An atom at `pos`: a variable, or a formula between parentheses.
pub open spec fn parse_atom(tokens: Seq<Token>, pos: int) -> Result<(Formula, int), ParseError>
    decreases tokens.len() - pos, 0nat, 0nat,
{
    match peek(tokens, pos) {
        Some(Token::Var(c)) => Ok((Formula::Var(c), pos + 1)),
        Some(Token::LParen) => match parse_formula(tokens, pos + 1) {
            Ok((inner, next)) => if peek(tokens, next) == Some(Token::RParen) {
                Ok((inner, next + 1))
            } else {
                Err(
                    ParseError::MissingCloseParen {
                        position: next as usize,
                        found: peek(tokens, next),
                    },
                )
            },
            Err(e) => Err(e),
        },
        Some(other) => Err(
            ParseError::UnexpectedToken {
                position: pos as usize,
                found: other,
                expected: Expected::Operand,
            },
        ),
        None => Err(ParseError::UnexpectedEnd { position: pos as usize }),
    }
}

/// Any number of `!`, then an atom.
pub open spec fn parse_prefix(tokens: Seq<Token>, pos: int) -> Result<(Formula, int), ParseError>
    decreases tokens.len() - pos, 0nat, 1nat,
{
    if peek(tokens, pos) == Some(Token::Not) {
        match parse_prefix(tokens, pos + 1) {
            Ok((inner, next)) => Ok((Formula::not(inner), next)),
            Err(e) => Err(e),
        }
    } else {
        parse_atom(tokens, pos)
    }
}

/// An operand of `op`: a chain of the next tighter connective, or for `&` a
/// prefix expression.
pub open spec fn parse_operand(op: Connective, tokens: Seq<Token>, pos: int) -> Result<
    (Formula, int),
    ParseError,
>
    decreases tokens.len() - pos, op.looseness(), 0nat,
{
    match op.tighter() {
        Some(inner) => parse_chain(inner, tokens, pos),
        None => parse_prefix(tokens, pos),
    }
}

/// What follows an operand of `op` that ended at `pos` with the tree `lhs`:
/// as long as `op` comes next, one more operand is read and joined to the tree
/// so far, which becomes its left side.
///
/// An operand ends behind its beginning and within the tokens
/// ([`lemma_parse_operand_advances`]), so the test on `next` never fails; it is written
/// out because the definition has to terminate by itself.
pub open spec fn parse_chain_rest(op: Connective, tokens: Seq<Token>, pos: int, lhs: Formula) -> Result<
    (Formula, int),
    ParseError,
>
    decreases tokens.len() - pos, op.looseness(), 1nat,
{
    if peek(tokens, pos) == Some(op.token()) {
        match parse_operand(op, tokens, pos + 1) {
            Ok((rhs, next)) => if pos < next <= tokens.len() {
                parse_chain_rest(op, tokens, next, Formula::binary(op, lhs, rhs))
            } else {
                Ok((Formula::binary(op, lhs, rhs), next))
            },
            Err(e) => Err(e),
        }
    } else {
        Ok((lhs, pos))
    }
}

/// A chain of operands joined by `op`, grouped from the left.
pub open spec fn parse_chain(op: Connective, tokens: Seq<Token>, pos: int) -> Result<
    (Formula, int),
    ParseError,
>
    decreases tokens.len() - pos, op.looseness(), 2nat,
{
    match parse_operand(op, tokens, pos) {
        Ok((lhs, next)) => if pos < next <= tokens.len() {
            parse_chain_rest(op, tokens, next, lhs)
        } else {
            Ok((lhs, next))
        },
        Err(e) => Err(e),
    }
}

/// A formula at `pos`: a chain of the loosest connective.
pub open spec fn parse_formula(tokens: Seq<Token>, pos: int) -> Result<(Formula, int), ParseError>
    decreases tokens.len() - pos, 6nat, 0nat,
{
    parse_chain(Connective::Iff, tokens, pos)
}

/// What to make of tokens that follow a complete formula.
#[derive(Debug, Clone, Copy, PartialEq, Eq, Structural)]
pub enum Trailing {
    /// They are an error: the tokens have to be one formula, all of them.
    Reject,
    /// They are left unread: the tokens have to begin with a formula.
    Ignore,
}

/// The formula that `tokens` begin with. Where a token follows it, `trailing`
/// decides: the token is reported as unexpected, or it is ignored with all
/// that follows.
pub open spec fn parse_with(tokens: Seq<Token>, trailing: Trailing) -> Result<Formula, ParseError> {
    match parse_formula(tokens, 0) {
        Ok((formula, next)) => if trailing == Trailing::Reject && next < tokens.len() {
            Err(
                ParseError::UnexpectedToken {
                    position: next as usize,
                    found: tokens[next],
                    expected: Expected::EndOfInput,
                },
            )
        } else {
            Ok(formula)
        },
        Err(e) => Err(e),
    }
}

/// The formula that `tokens` spell, all of them.
pub open spec fn parse(tokens: Seq<Token>) -> Result<Formula, ParseError> {
    parse_with(tokens, Trailing::Reject)
}

/// The value of a parsed formula under `env`; an error stays as it is.
pub open spec fn value_of(parsed: Result<Formula, ParseError>, env: Map<char, bool>) -> Result<
    bool,
    ParseError,
> {
    match parsed {
        Ok(formula) => Ok(formula.eval(env)),
        Err(e) => Err(e),
    }
}

/// `result`, read at `pos`, ends within the tokens: a tree ends behind `pos`,
/// or at `pos` or behind it where `may_be_empty`; an error lies at `pos` or
/// behind it (its position is an index only while the tokens can be indexed
/// by `usize`).
pub open spec fn ends_within(
    tokens: Seq<Token>,
    pos: int,
    result: Result<(Formula, int), ParseError>,
    may_be_empty: bool,
) -> bool {
    match result {
        Ok((_, next)) => (pos < next || (may_be_empty && pos == next)) && next <= tokens.len(),
        Err(e) => tokens.len() <= usize::MAX ==> pos <= e.spec_position() <= tokens.len(),
    }
}

/// An atom spans at least one token and ends within the tokens; an error names
/// a position from `pos` on.
pub proof fn lemma_parse_atom_advances(tokens: Seq<Token>, pos: int)
    requires
        0 <= pos <= tokens.len(),
    ensures
        ends_within(tokens, pos, parse_atom(tokens, pos), false),
    decreases tokens.len() - pos, 0nat, 0nat,
{
    if peek(tokens, pos) == Some(Token::LParen) {
        lemma_parse_formula_advances(tokens, pos + 1);
    }
}

/// A prefix expression spans at least one token and ends within the tokens; an
/// error names a position from `pos` on.
pub proof fn lemma_parse_prefix_advances(tokens: Seq<Token>, pos: int)
    requires
        0 <= pos <= tokens.len(),
    ensures
        ends_within(tokens, pos, parse_prefix(tokens, pos), false),
    decreases tokens.len() - pos, 0nat, 1nat,
{
    if peek(tokens, pos) == Some(Token::Not) {
        lemma_parse_prefix_advances(tokens, pos + 1);
    } else {
        lemma_parse_atom_advances(tokens, pos);
    }
}

/// An operand spans at least one token and ends within the tokens; an error
/// names a position from `pos` on.
pub proof fn lemma_parse_operand_advances(op: Connective, tokens: Seq<Token>, pos: int)
    requires
        0 <= pos <= tokens.len(),
    ensures
        ends_within(tokens, pos, parse_operand(op, tokens, pos), false),
    decreases tokens.len() - pos, op.looseness(), 0nat,
{
    match op.tighter() {
        Some(inner) => lemma_parse_chain_advances(inner, tokens, pos),
        None => lemma_parse_prefix_advances(tokens, pos),
    }
}

/// The rest of a chain ends at `pos` or behind it, within the tokens; an error
/// names a position from `pos` on.
pub proof fn lemma_parse_chain_rest_advances(
    op: Connective,
    tokens: Seq<Token>,
    pos: int,
    lhs: Formula,
)
    requires
        0 <= pos <= tokens.len(),
    ensures
        ends_within(tokens, pos, parse_chain_rest(op, tokens, pos, lhs), true),
    decreases tokens.len() - pos, op.looseness(), 1nat,
{
    if peek(tokens, pos) == Some(op.token()) {
        lemma_parse_operand_advances(op, tokens, pos + 1);
        match parse_operand(op, tokens, pos + 1) {
            Ok((rhs, next)) => {
                lemma_parse_chain_rest_advances(op, tokens, next, Formula::binary(op, lhs, rhs));
            },
            Err(_) => {},
        }
    }
}

/// A chain spans at least one token and ends within the tokens; an error names
/// a position from `pos` on.
pub proof fn lemma_parse_chain_advances(op: Connective, tokens: Seq<Token>, pos: int)
    requires
        0 <= pos <= tokens.len(),
    ensures
        ends_within(tokens, pos, parse_chain(op, tokens, pos), false),
    decreases tokens.len() - pos, op.looseness(), 2nat,
{
    lemma_parse_operand_advances(op, tokens, pos);
    match parse_operand(op, tokens, pos) {
        Ok((lhs, next)) => {
            lemma_parse_chain_rest_advances(op, tokens, next, lhs);
        },
        Err(_) => {},
    }
}

/// A formula spans at least one token and ends within the tokens; an error
/// names a position from `pos` on.
pub proof fn lemma_parse_formula_advances(tokens: Seq<Token>, pos: int)
    requires
        0 <= pos <= tokens.len(),
    ensures
        ends_within(tokens, pos, parse_formula(tokens, pos), false),
    decreases tokens.len() - pos, 6nat, 0nat,
{
    lemma_parse_chain_advances(Connective::Iff, tokens, pos);
}

} // verus!
