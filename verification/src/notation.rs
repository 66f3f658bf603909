//! From a formula back to its tokens, and the proof that the grammar reads
//! them as the formula they were written from.
//!
//! [`Formula::written`] writes a formula with as few parentheses as the
//! grammar allows: an operand is put in parentheses only where its own
//! connective binds more loosely than its place admits. The left side of a
//! connective admits the same connective, the right side only tighter ones, so
//! chains are written, and read, from the left.

use vstd::prelude::*;
use crate::token::Token;
use crate::formula::{Connective, Formula};
use crate::grammar::{
    ParseError, parse, parse_atom, parse_chain, parse_chain_rest, parse_formula, parse_operand,
    parse_prefix, peek,
};

verus! {

/// How loosely a place binds: the looseness of the connective whose chain
/// stands there, or 0 for the operand of `!`, where only `!`, a variable or
/// parentheses can stand.
pub open spec fn looseness_of(level: Option<Connective>) -> nat {
    match level {
        Some(op) => op.looseness(),
        None => 0,
    }
}

impl Formula {
    /// The outermost connective of the formula, if it has one.
    pub open spec fn level(self) -> Option<Connective> {
        match self {
            Formula::Var(_) => None,
            Formula::Not(_) => None,
            Formula::Binary(op, _, _) => Some(op),
        }
    }

    /// The tokens of the formula at a place that admits connectives up to
    /// `level`: in parentheses where its own connective binds more loosely.
    pub open spec fn written_at(self, level: Option<Connective>) -> Seq<Token>
        decreases self, 1nat,
    {
        if looseness_of(self.level()) <= looseness_of(level) {
            self.written()
        } else {
            seq![Token::LParen] + self.written() + seq![Token::RParen]
        }
    }

    /// The tokens of the formula.
    pub open spec fn written(self) -> Seq<Token>
        decreases self, 0nat,
    {
        match self {
            Formula::Var(c) => seq![Token::Var(c)],
            Formula::Not(inner) => seq![Token::Not] + inner.written_at(None),
            Formula::Binary(op, lhs, rhs) => lhs.written_at(Some(op)) + seq![op.token()]
                + rhs.written_at(op.tighter()),
        }
    }
}

/// The connective that `token` writes, if it writes one.
pub open spec fn connective_of(token: Token) -> Option<Connective> {
    match token {
        Token::Iff => Some(Connective::Iff),
        Token::Implies => Some(Connective::Implies),
        Token::Or => Some(Connective::Or),
        Token::Xor => Some(Connective::Xor),
        Token::And => Some(Connective::And),
        _ => None,
    }
}

/// No connective of a looseness from `from` up to, not including, `to`
/// stands at `pos`.
pub open spec fn no_connective_between(tokens: Seq<Token>, pos: int, from: nat, to: nat) -> bool {
    match peek(tokens, pos) {
        Some(token) => match connective_of(token) {
            Some(op) => !(from <= op.looseness() < to),
            None => true,
        },
        None => true,
    }
}

/// What the grammar reads at `pos` for a place of `level`.
pub open spec fn parse_at(level: Option<Connective>, tokens: Seq<Token>, pos: int) -> Result<
    (Formula, int),
    ParseError,
> {
    match level {
        Some(op) => parse_chain(op, tokens, pos),
        None => parse_prefix(tokens, pos),
    }
}

/// How a place of `level` goes on behind the tree `lhs` that ended at `pos`.
pub open spec fn continue_at(
    level: Option<Connective>,
    tokens: Seq<Token>,
    pos: int,
    lhs: Formula,
) -> Result<(Formula, int), ParseError> {
    match level {
        Some(op) => parse_chain_rest(op, tokens, pos, lhs),
        None => Ok((lhs, pos)),
    }
}

/// `text` stands in `tokens` from `pos` on.
pub open spec fn stands_at(tokens: Seq<Token>, pos: int, text: Seq<Token>) -> bool {
    &&& 0 <= pos
    &&& pos + text.len() <= tokens.len()
    &&& tokens.subrange(pos, pos + text.len()) == text
}

/// What was read at a tight place up to `end` is read at a looser place too,
/// as long as none of the connectives in between follows.
pub proof fn lemma_read_at_looser_place(
    from: Option<Connective>,
    to: Option<Connective>,
    tokens: Seq<Token>,
    pos: int,
    end: int,
    formula: Formula,
)
    requires
        0 <= pos < end <= tokens.len(),
        looseness_of(from) <= looseness_of(to),
        parse_at(from, tokens, pos) == continue_at(from, tokens, end, formula),
        no_connective_between(tokens, end, looseness_of(from), looseness_of(to)),
    ensures
        parse_at(to, tokens, pos) == continue_at(to, tokens, end, formula),
    decreases looseness_of(to),
{
    if looseness_of(from) == looseness_of(to) {
        assert(from == to);
    } else {
        let op = to->Some_0;
        let inner = op.tighter();
        lemma_read_at_looser_place(from, inner, tokens, pos, end, formula);
        assert(parse_operand(op, tokens, pos) == parse_at(inner, tokens, pos));
        assert(continue_at(inner, tokens, end, formula) == Ok::<(Formula, int), ParseError>(
            (formula, end),
        ));
    }
}

/// The tokens of a formula are read as that formula, at the place of its own
/// connective, wherever they stand; what follows them is read as the rest of
/// the chain.
pub proof fn lemma_read_written(formula: Formula, tokens: Seq<Token>, pos: int)
    requires
        stands_at(tokens, pos, formula.written()),
        no_connective_between(
            tokens,
            pos + formula.written().len(),
            0,
            looseness_of(formula.level()),
        ),
    ensures
        parse_at(formula.level(), tokens, pos) == continue_at(
            formula.level(),
            tokens,
            pos + formula.written().len(),
            formula,
        ),
    decreases formula, 0nat,
{
    let text = formula.written();
    let end = pos + text.len();
    match formula {
        Formula::Var(c) => {
            assert(tokens[pos] == text[0]);
            assert(parse_atom(tokens, pos) == Ok::<(Formula, int), ParseError>((formula, end)));
        },
        Formula::Not(inner) => {
            assert(tokens[pos] == text[0]);
            let operand = inner.written_at(None);
            assert(tokens.subrange(pos + 1, end) =~= operand) by {
                assert(text.subrange(1, text.len() as int) =~= operand);
            }
            lemma_read_written_at(*inner, None, tokens, pos + 1);
        },
        Formula::Binary(op, lhs, rhs) => {
            let left = lhs.written_at(Some(op));
            let right = rhs.written_at(op.tighter());
            let mid = pos + left.len();
            assert(tokens.subrange(pos, mid) =~= left) by {
                assert(text.subrange(0, left.len() as int) =~= left);
            }
            assert(tokens[mid] == op.token()) by {
                assert(text[left.len() as int] == op.token());
            }
            assert(tokens.subrange(mid + 1, end) =~= right) by {
                assert(text.subrange(left.len() as int + 1, text.len() as int) =~= right);
            }
            assert(connective_of(op.token()) == Some(op));
            lemma_read_written_at(*lhs, Some(op), tokens, pos);
            lemma_read_written_at(*rhs, op.tighter(), tokens, mid + 1);
            assert(parse_operand(op, tokens, mid + 1) == parse_at(op.tighter(), tokens, mid + 1));
            assert(continue_at(op.tighter(), tokens, end, *rhs) == Ok::<(Formula, int), ParseError>(
                (*rhs, end),
            ));
            assert(Formula::binary(op, *lhs, *rhs) == formula);
        },
    }
}

/// The tokens of a formula between parentheses are read as that formula at
/// every place, wherever they stand; what follows them is read as the rest of
/// the chain.
pub proof fn lemma_read_parenthesised(
    formula: Formula,
    level: Option<Connective>,
    tokens: Seq<Token>,
    pos: int,
)
    requires
        stands_at(tokens, pos, seq![Token::LParen] + formula.written() + seq![Token::RParen]),
        no_connective_between(
            tokens,
            pos + formula.written().len() + 2,
            0,
            looseness_of(level),
        ),
    ensures
        parse_at(level, tokens, pos) == continue_at(
            level,
            tokens,
            pos + formula.written().len() + 2,
            formula,
        ),
    decreases formula, 1nat,
{
    let inner = formula.written();
    let text = seq![Token::LParen] + inner + seq![Token::RParen];
    let end = pos + text.len();
    assert(tokens[pos] == Token::LParen) by {
        assert(text[0] == Token::LParen);
    }
    assert(tokens.subrange(pos + 1, end - 1) =~= inner) by {
        assert(text.subrange(1, text.len() - 1) =~= inner);
    }
    assert(tokens[end - 1] == Token::RParen) by {
        assert(text[text.len() - 1] == Token::RParen);
    }
    lemma_read_written(formula, tokens, pos + 1);
    lemma_read_at_looser_place(
        formula.level(),
        Some(Connective::Iff),
        tokens,
        pos + 1,
        end - 1,
        formula,
    );
    assert(parse_formula(tokens, pos + 1) == Ok::<(Formula, int), ParseError>((formula, end - 1)));
    assert(parse_atom(tokens, pos) == Ok::<(Formula, int), ParseError>((formula, end)));
    assert(parse_prefix(tokens, pos) == Ok::<(Formula, int), ParseError>((formula, end)));
    lemma_read_at_looser_place(None, level, tokens, pos, end, formula);
}

/// The tokens of a formula, in parentheses where the place asks for them, are
/// read as that formula at a place of `level`, wherever they stand; what
/// follows them is read as the rest of the chain.
pub proof fn lemma_read_written_at(
    formula: Formula,
    level: Option<Connective>,
    tokens: Seq<Token>,
    pos: int,
)
    requires
        stands_at(tokens, pos, formula.written_at(level)),
        no_connective_between(
            tokens,
            pos + formula.written_at(level).len(),
            0,
            looseness_of(level),
        ),
    ensures
        parse_at(level, tokens, pos) == continue_at(
            level,
            tokens,
            pos + formula.written_at(level).len(),
            formula,
        ),
    decreases formula, 2nat,
{
    if looseness_of(formula.level()) <= looseness_of(level) {
        lemma_read_written(formula, tokens, pos);
        lemma_read_at_looser_place(
            formula.level(),
            level,
            tokens,
            pos,
            pos + formula.written().len(),
            formula,
        );
    } else {
        lemma_read_parenthesised(formula, level, tokens, pos);
    }
}

/// Reading is the inverse of writing: the tokens of a formula are read as
/// that formula, and as nothing else.
pub proof fn theorem_read_written(formula: Formula)
    ensures
        parse(formula.written()) == Ok::<Formula, ParseError>(formula),
{
    let tokens = formula.written();
    assert(tokens.subrange(0, tokens.len() as int) =~= tokens);
    lemma_read_written(formula, tokens, 0);
    lemma_read_at_looser_place(
        formula.level(),
        Some(Connective::Iff),
        tokens,
        0,
        tokens.len() as int,
        formula,
    );
}

} // verus!
