//! Formulas as trees, and their truth value under an assignment.
//!
//! This is the mathematical model that the grammar and the evaluator are
//! stated over: the text of a formula denotes a tree, and the tree has a value.

use vstd::prelude::*;
use crate::token::Token;

verus! {

/// The binary connectives, from the loosest binding to the tightest.
#[derive(Debug, Clone, Copy, PartialEq, Eq, Structural)]
pub enum Connective {
    /// `<->`
    Iff,
    /// `->`
    Implies,
    /// `|`
    Or,
    /// `^`
    Xor,
    /// `&`
    And,
}

impl Connective {
    /// The token that writes this connective.
    pub open spec fn spec_token(self) -> Token {
        match self {
            Connective::Iff => Token::Iff,
            Connective::Implies => Token::Implies,
            Connective::Or => Token::Or,
            Connective::Xor => Token::Xor,
            Connective::And => Token::And,
        }
    }

    /// The token that writes this connective.
    #[verifier::when_used_as_spec(spec_token)]
    pub fn token(self) -> (token: Token)
        ensures
            token == self.spec_token(),
    {
        match self {
            Connective::Iff => Token::Iff,
            Connective::Implies => Token::Implies,
            Connective::Or => Token::Or,
            Connective::Xor => Token::Xor,
            Connective::And => Token::And,
        }
    }

    /// The truth table of this connective: `a <-> b` holds where both sides
    /// have the same value, `a -> b` where `a` fails or `b` holds, `a ^ b` where
    /// the sides differ.
    pub open spec fn spec_apply(self, a: bool, b: bool) -> bool {
        match self {
            Connective::Iff => a == b,
            Connective::Implies => !a || b,
            Connective::Or => a || b,
            Connective::Xor => a != b,
            Connective::And => a && b,
        }
    }

    /// The value of `a op b`, both sides given.
    #[verifier::when_used_as_spec(spec_apply)]
    pub fn apply(self, a: bool, b: bool) -> (value: bool)
        ensures
            value == self.spec_apply(a, b),
    {
        match self {
            Connective::Iff => a == b,
            Connective::Implies => !a || b,
            Connective::Or => a || b,
            Connective::Xor => a != b,
            Connective::And => a && b,
        }
    }

    /// The connective that binds next tighter than this one; `None` for `&`,
    /// than which only `!` and the atoms bind tighter.
    pub open spec fn tighter(self) -> Option<Connective> {
        match self {
            Connective::Iff => Some(Connective::Implies),
            Connective::Implies => Some(Connective::Or),
            Connective::Or => Some(Connective::Xor),
            Connective::Xor => Some(Connective::And),
            Connective::And => None,
        }
    }

    /// How loosely this connective binds: 1 for `&` up to 5 for `<->`.
    pub open spec fn looseness(self) -> nat {
        match self {
            Connective::Iff => 5,
            Connective::Implies => 4,
            Connective::Or => 3,
            Connective::Xor => 2,
            Connective::And => 1,
        }
    }
}

/// The truth value that `env` gives to `variable`: false where it binds none.
pub open spec fn truth(env: Map<char, bool>, variable: char) -> bool {
    env.contains_key(variable) && env[variable]
}

/// A propositional formula.
pub enum Formula {
    /// A variable.
    Var(char),
    /// The negation of a formula.
    Not(Box<Formula>),
    /// Two formulas joined by a connective.
    Binary(Connective, Box<Formula>, Box<Formula>),
}

impl Formula {
    /// The truth value of the formula under `env`. A variable that `env` does
    /// not bind counts as false.
    pub open spec fn eval(self, env: Map<char, bool>) -> bool
        decreases self,
    {
        match self {
            Formula::Var(c) => truth(env, c),
            Formula::Not(f) => !f.eval(env),
            Formula::Binary(op, lhs, rhs) => op.apply(lhs.eval(env), rhs.eval(env)),
        }
    }

    /// `!f`
    pub open spec fn not(f: Formula) -> Formula {
        Formula::Not(Box::new(f))
    }

    /// `lhs op rhs`
    pub open spec fn binary(op: Connective, lhs: Formula, rhs: Formula) -> Formula {
        Formula::Binary(op, Box::new(lhs), Box::new(rhs))
    }
}

} // verus!
