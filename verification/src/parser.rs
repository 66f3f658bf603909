//! The evaluator: one pass over the tokens that computes the value of the
//! formula under an assignment, level by level as the grammar has it.

use vstd::prelude::*;
use crate::token::Token;
use crate::assignment::Assignment;
use crate::formula::{Connective, Formula};
use crate::grammar::{
    Expected, ParseError, Trailing, parse, parse_atom, parse_chain, parse_chain_rest,
    parse_formula, parse_operand, parse_prefix, parse_with, peek, value_of,
    lemma_parse_operand_advances,
};

verus! {

/// A cursor into a sequence of tokens, with the assignment under which the
/// formulas read from it are evaluated.
pub struct Parser<'a> {
    tokens: &'a [Token],
    pos: usize,
    vars: &'a Assignment,
}

impl<'a> Parser<'a> {
    #[verifier::type_invariant]
    spec fn within_tokens(self) -> bool {
        self.pos <= self.tokens.len()
    }

    /// The tokens that are read.
    pub closed spec fn tokens(self) -> Seq<Token> {
        self.tokens@
    }

    /// The index of the next token to read.
    pub closed spec fn cursor(self) -> int {
        self.pos as int
    }

    /// The assignment under which variables are evaluated.
    pub closed spec fn env(self) -> Map<char, bool> {
        self.vars@
    }

    /// What a call that reads `parsed` at the cursor of `self` leaves behind: the
    /// value of the tree with the cursor behind it, or the error with the cursor
    /// at its position. Tokens and assignment stay as they are.
    pub open spec fn reads(
        self,
        after: Self,
        result: Result<bool, ParseError>,
        parsed: Result<(Formula, int), ParseError>,
    ) -> bool {
        &&& after.tokens() == self.tokens()
        &&& after.env() == self.env()
        &&& match parsed {
            Ok((formula, next)) => {
                &&& result == Ok::<bool, ParseError>(formula.eval(self.env()))
                &&& after.cursor() == next
            },
            Err(e) => {
                &&& result == Err::<bool, ParseError>(e)
                &&& after.cursor() == e.spec_position()
            },
        }
    }

    /// A parser at the beginning of `tokens`.
    pub fn new(tokens: &'a [Token], vars: &'a Assignment) -> (parser: Self)
        ensures
            parser.tokens() == tokens@,
            parser.cursor() == 0,
            parser.env() == vars@,
    {
        Self { tokens, pos: 0, vars }
    }

    /// The number of tokens that have been read.
    pub fn position(&self) -> (pos: usize)
        ensures
            pos == self.cursor(),
    {
        self.pos
    }

    /// The next token, which stays unread.
    pub fn peek(&self) -> (token: Option<Token>)
        ensures
            token == peek(self.tokens(), self.cursor()),
    {
        proof {
            use_type_invariant(self);
        }
        if self.pos < self.tokens.len() {
            Some(self.tokens[self.pos])
        } else {
            None
        }
    }

    /// Evaluates the formula at the cursor.
    pub fn parse_expr(&mut self) -> (result: Result<bool, ParseError>)
        ensures
            old(self).reads(
                *final(self),
                result,
                parse_formula(old(self).tokens(), old(self).cursor()),
            ),
        decreases old(self).tokens().len() - old(self).cursor(), 6nat, 0nat,
    {
        self.parse_iff()
    }

    /// Evaluates a chain of `<->` at the cursor.
    pub fn parse_iff(&mut self) -> (result: Result<bool, ParseError>)
        ensures
            old(self).reads(
                *final(self),
                result,
                parse_chain(Connective::Iff, old(self).tokens(), old(self).cursor()),
            ),
        decreases old(self).tokens().len() - old(self).cursor(), 5nat, 3nat,
    {
        self.parse_chain(Connective::Iff)
    }

    /// Evaluates a chain of `->` at the cursor.
    pub fn parse_implies(&mut self) -> (result: Result<bool, ParseError>)
        ensures
            old(self).reads(
                *final(self),
                result,
                parse_chain(Connective::Implies, old(self).tokens(), old(self).cursor()),
            ),
        decreases old(self).tokens().len() - old(self).cursor(), 4nat, 3nat,
    {
        self.parse_chain(Connective::Implies)
    }

    /// Evaluates a chain of `|` at the cursor.
    pub fn parse_or(&mut self) -> (result: Result<bool, ParseError>)
        ensures
            old(self).reads(
                *final(self),
                result,
                parse_chain(Connective::Or, old(self).tokens(), old(self).cursor()),
            ),
        decreases old(self).tokens().len() - old(self).cursor(), 3nat, 3nat,
    {
        self.parse_chain(Connective::Or)
    }

    /// Evaluates a chain of `^` at the cursor.
    pub fn parse_xor(&mut self) -> (result: Result<bool, ParseError>)
        ensures
            old(self).reads(
                *final(self),
                result,
                parse_chain(Connective::Xor, old(self).tokens(), old(self).cursor()),
            ),
        decreases old(self).tokens().len() - old(self).cursor(), 2nat, 3nat,
    {
        self.parse_chain(Connective::Xor)
    }

    /// Evaluates a chain of `&` at the cursor.
    pub fn parse_and(&mut self) -> (result: Result<bool, ParseError>)
        ensures
            old(self).reads(
                *final(self),
                result,
                parse_chain(Connective::And, old(self).tokens(), old(self).cursor()),
            ),
        decreases old(self).tokens().len() - old(self).cursor(), 1nat, 3nat,
    {
        self.parse_chain(Connective::And)
    }

    /// Evaluates one operand of `op` at the cursor.
    fn parse_operand(&mut self, op: Connective) -> (result: Result<bool, ParseError>)
        ensures
            old(self).reads(
                *final(self),
                result,
                parse_operand(op, old(self).tokens(), old(self).cursor()),
            ),
        decreases old(self).tokens().len() - old(self).cursor(), op.looseness(), 0nat,
    {
        match op {
            Connective::Iff => self.parse_implies(),
            Connective::Implies => self.parse_or(),
            Connective::Or => self.parse_xor(),
            Connective::Xor => self.parse_and(),
            Connective::And => self.parse_not(),
        }
    }

    /// Evaluates a chain of operands joined by `op` at the cursor, folding the
    /// values from left to right. Every operand is evaluated.
    fn parse_chain(&mut self, op: Connective) -> (result: Result<bool, ParseError>)
        ensures
            old(self).reads(
                *final(self),
                result,
                parse_chain(op, old(self).tokens(), old(self).cursor()),
            ),
        decreases old(self).tokens().len() - old(self).cursor(), op.looseness(), 2nat,
    {
        let ghost tokens = self.tokens();
        let ghost start = self.cursor();
        let ghost env = self.env();
        proof {
            use_type_invariant(&*self);
            lemma_parse_operand_advances(op, tokens, start);
        }
        let mut value = match self.parse_operand(op) {
            Ok(value) => value,
            Err(e) => {
                return Err(e);
            },
        };
        let ghost mut lhs: Formula = parse_operand(op, tokens, start)->Ok_0.0;
        loop
            invariant
                self.tokens() == tokens,
                self.env() == env,
                tokens == old(self).tokens(),
                env == old(self).env(),
                start == old(self).cursor(),
                start < self.cursor() <= tokens.len(),
                value == lhs.eval(env),
                parse_chain(op, tokens, start) == parse_chain_rest(op, tokens, self.cursor(), lhs),
            decreases tokens.len() - self.cursor(),
        {
            let ghost here = self.cursor();
            if !self.at(op.token()) {
                return Ok(value);
            }
            proof {
                use_type_invariant(&*self);
                lemma_parse_operand_advances(op, tokens, here + 1);
            }
            self.pos += 1;
            let rhs = match self.parse_operand(op) {
                Ok(rhs) => rhs,
                Err(e) => {
                    return Err(e);
                },
            };
            proof {
                lhs = Formula::binary(op, lhs, parse_operand(op, tokens, here + 1)->Ok_0.0);
            }
            value = op.apply(value, rhs);
        }
    }

    /// Tells whether `token` is the next token.
    fn at(&self, token: Token) -> (b: bool)
        ensures
            b == (peek(self.tokens(), self.cursor()) == Some(token)),
    {
        match self.peek() {
            Some(next) => next == token,
            None => false,
        }
    }

    /// Evaluates a prefix expression at the cursor: any number of `!`, then an
    /// atom.
    pub fn parse_not(&mut self) -> (result: Result<bool, ParseError>)
        ensures
            old(self).reads(
                *final(self),
                result,
                parse_prefix(old(self).tokens(), old(self).cursor()),
            ),
        decreases old(self).tokens().len() - old(self).cursor(), 0nat, 1nat,
    {
        if self.at(Token::Not) {
            proof {
                use_type_invariant(&*self);
            }
            self.pos += 1;
            match self.parse_not() {
                Ok(value) => Ok(!value),
                Err(e) => Err(e),
            }
        } else {
            self.parse_atom()
        }
    }

    /// Evaluates an atom at the cursor: a variable, which has the value that
    /// the assignment gives it, or false where it gives none; or a formula
    /// between parentheses.
    pub fn parse_atom(&mut self) -> (result: Result<bool, ParseError>)
        ensures
            old(self).reads(
                *final(self),
                result,
                parse_atom(old(self).tokens(), old(self).cursor()),
            ),
        decreases old(self).tokens().len() - old(self).cursor(), 0nat, 0nat,
    {
        proof {
            use_type_invariant(&*self);
        }
        match self.peek() {
            Some(Token::Var(c)) => {
                self.pos += 1;
                Ok(self.vars.value_of(c))
            },
            Some(Token::LParen) => {
                self.pos += 1;
                let value = match self.parse_expr() {
                    Ok(value) => value,
                    Err(e) => {
                        return Err(e);
                    },
                };
                match self.peek() {
                    Some(Token::RParen) => {
                        proof {
                            use_type_invariant(&*self);
                        }
                        self.pos += 1;
                        Ok(value)
                    },
                    found => Err(ParseError::MissingCloseParen { position: self.pos, found }),
                }
            },
            Some(found) => Err(
                ParseError::UnexpectedToken {
                    position: self.pos,
                    found,
                    expected: Expected::Operand,
                },
            ),
            None => Err(ParseError::UnexpectedEnd { position: self.pos }),
        }
    }
}

/// Evaluates the formula that `tokens` begin with under `assignment`. A
/// variable that `assignment` does not bind counts as false. Where a token
/// follows the formula, `trailing` decides whether that is an error.
pub fn evaluate_with(tokens: &[Token], assignment: &Assignment, trailing: Trailing) -> (result:
    Result<bool, ParseError>)
    ensures
        result == value_of(parse_with(tokens@, trailing), assignment@),
{
    let mut parser = Parser::new(tokens, assignment);
    let value = match parser.parse_expr() {
        Ok(value) => value,
        Err(e) => {
            return Err(e);
        },
    };
    match parser.peek() {
        Some(found) => match trailing {
            Trailing::Reject => Err(
                ParseError::UnexpectedToken {
                    position: parser.position(),
                    found,
                    expected: Expected::EndOfInput,
                },
            ),
            Trailing::Ignore => Ok(value),
        },
        None => Ok(value),
    }
}

/// Evaluates the formula that `tokens` spell under `assignment`. A variable
/// that `assignment` does not bind counts as false. The tokens have to be one
/// formula, all of them: a token behind it is an error.
pub fn evaluate(tokens: &[Token], assignment: &Assignment) -> (result: Result<bool, ParseError>)
    ensures
        result == value_of(parse(tokens@), assignment@),
{
    evaluate_with(tokens, assignment, Trailing::Reject)
}

} // verus!
