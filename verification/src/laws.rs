//! What holds of every formula and every assignment.
//!
//! The laws speak of formulas as they are written: [`Formula::written`] gives
//! the tokens, [`parse`] reads them, [`value_of`] evaluates what was read. That
//! is what [`evaluate`](crate::parser::evaluate) returns on these tokens.

use vstd::prelude::*;
use vstd::arithmetic::power2::{pow2, lemma2_to64, lemma_pow2_strictly_increases};
use crate::token::{Token, is_variable_char, spelled};
use crate::formula::{Connective, Formula, truth};
use crate::lexer::{LexError, is_tokenization, lex, lex_from, token_at};
use crate::variables::{is_variable_list, lemma_variable_list_len};
use crate::table::{
    TruthTable, bindings, is_row, is_truth_table, lemma_bindings, lemma_bit_is_binary_digit,
};
use crate::grammar::{ParseError, parse, parse_chain_rest, parse_operand, value_of};
use crate::notation::{
    lemma_read_at_looser_place, lemma_read_parenthesised, lemma_read_written,
    theorem_read_written,
};

verus! {

/// Splitting a text into tokens is a function of the text: two results for
/// the same text are the same tokens, or the same error.
pub proof fn law_tokenize_is_deterministic(
    text: Seq<char>,
    first: Result<Vec<Token>, LexError>,
    second: Result<Vec<Token>, LexError>,
)
    requires
        is_tokenization(text, first),
        is_tokenization(text, second),
    ensures
        match (first, second) {
            (Ok(a), Ok(b)) => a@ == b@,
            (Err(e), Err(f)) => e == f,
            _ => false,
        },
{
}

/// From `pos` on, the tokens of a text spell its characters without the spaces.
proof fn lemma_lex_from_keeps_every_character(text: Seq<char>, pos: int)
    requires
        0 <= pos <= text.len(),
        lex_from(text, pos) is Ok,
    ensures
        spelled(lex_from(text, pos)->Ok_0) == text.subrange(pos, text.len() as int).filter(
            |c: char| c != ' ',
        ),
    decreases text.len() - pos,
{
    let visible = |c: char| c != ' ';
    let here = text.subrange(pos, text.len() as int);
    reveal_with_fuel(Seq::filter, 4);
    if pos < text.len() {
        let width = if text[pos] == ' ' {
            1
        } else {
            token_at(text, pos)->Some_0.1
        };
        let first = text.subrange(pos, pos + width);
        let rest = text.subrange(pos + width, text.len() as int);
        assert(here =~= first + rest);
        Seq::filter_distributes_over_add(first, rest, visible);
        lemma_lex_from_keeps_every_character(text, pos + width);
        if text[pos] == ' ' {
            assert(first.drop_last() =~= Seq::<char>::empty());
            assert(first.filter(visible) =~= Seq::<char>::empty());
        } else {
            let token = token_at(text, pos)->Some_0.0;
            let tokens = lex_from(text, pos)->Ok_0;
            assert(first =~= token.spelling());
            assert(first.filter(visible) =~= first) by {
                if width == 1 {
                    assert(first.drop_last() =~= Seq::<char>::empty());
                } else if width == 2 {
                    assert(first.drop_last() =~= seq![text[pos]]);
                    assert(first.drop_last().drop_last() =~= Seq::<char>::empty());
                } else {
                    assert(first.drop_last() =~= seq![text[pos], text[pos + 1]]);
                    assert(first.drop_last().drop_last() =~= seq![text[pos]]);
                    assert(first.drop_last().drop_last().drop_last() =~= Seq::<char>::empty());
                }
            }
            assert(tokens.drop_first() =~= lex_from(text, pos + width)->Ok_0);
        }
    }
}

/// No character is dropped: the tokens of a text spell the text without its
/// spaces.
pub proof fn law_tokens_spell_the_text(text: Seq<char>)
    requires
        lex(text) is Ok,
    ensures
        spelled(lex(text)->Ok_0) == text.filter(|c: char| c != ' '),
{
    lemma_lex_from_keeps_every_character(text, 0);
    assert(text.subrange(0, text.len() as int) =~= text);
}

/// `c` stands in `text` at `pos` or behind it.
pub open spec fn occurs_from(text: Seq<char>, pos: int, c: char) -> bool {
    exists|i: int| pos <= i < text.len() && text[i] == c
}

/// From `pos` on, the variables among the tokens of a text are the letters of
/// the text.
proof fn lemma_lex_from_finds_the_variables(text: Seq<char>, pos: int, c: char)
    requires
        0 <= pos <= text.len(),
        lex_from(text, pos) is Ok,
    ensures
        lex_from(text, pos)->Ok_0.contains(Token::Var(c)) <==> occurs_from(text, pos, c)
            && is_variable_char(c),
    decreases text.len() - pos,
{
    let tokens = lex_from(text, pos)->Ok_0;
    if pos < text.len() {
        let width = if text[pos] == ' ' {
            1
        } else {
            token_at(text, pos)->Some_0.1
        };
        let rest = lex_from(text, pos + width)->Ok_0;
        lemma_lex_from_finds_the_variables(text, pos + width, c);
        if tokens.contains(Token::Var(c)) {
            let k = choose|k: int| 0 <= k < tokens.len() && tokens[k] == Token::Var(c);
            if text[pos] != ' ' && k == 0 {
                assert(text[pos] == c);
            } else if text[pos] != ' ' {
                assert(rest[k - 1] == Token::Var(c));
            }
            if rest.contains(Token::Var(c)) {
                let i = choose|i: int| pos + width <= i < text.len() && text[i] == c;
                assert(pos <= i < text.len() && text[i] == c);
            }
        }
        if occurs_from(text, pos, c) && is_variable_char(c) {
            let i = choose|i: int| pos <= i < text.len() && text[i] == c;
            if i >= pos + width {
                assert(occurs_from(text, pos + width, c));
                let k = choose|k: int| 0 <= k < rest.len() && rest[k] == Token::Var(c);
                if text[pos] != ' ' {
                    assert(tokens[k + 1] == Token::Var(c));
                }
            } else {
                assert(i == pos);
                assert(tokens[0] == Token::Var(c));
            }
        }
    }
}

/// The variable list of a text names the variables among its tokens, and no
/// others.
pub proof fn law_variable_list_agrees_with_tokens(text: Seq<char>, variables: Seq<char>, c: char)
    requires
        lex(text) is Ok,
        is_variable_list(variables, text),
    ensures
        variables.contains(c) <==> lex(text)->Ok_0.contains(Token::Var(c)),
{
    lemma_lex_from_finds_the_variables(text, 0, c);
    if text.contains(c) {
        let i = choose|i: int| 0 <= i < text.len() && text[i] == c;
        assert(occurs_from(text, 0, c));
    }
}

/// The rows of a truth table count upwards in binary, the first variable
/// being the highest digit: in row `i` of a table of `n` variables, the
/// variable at place `j` is bound to the digit of `i` that counts
/// `2^(n - 1 - j)`, and the row holds the value of the formula under these
/// bindings.
pub proof fn law_rows_count_in_binary(table: TruthTable, text: Seq<char>, i: int, j: int)
    requires
        is_truth_table(table, text),
        0 <= i < table.rows@.len(),
        0 <= j < table.variables@.len(),
    ensures
        table.rows@.len() == pow2(table.variables@.len()),
        bindings(table.variables@, table.rows@[i].values@).contains_key(table.variables@[j]),
        bindings(table.variables@, table.rows@[i].values@)[table.variables@[j]] == ((i / (pow2(
            (table.variables@.len() - 1 - j) as nat,
        ) as int)) % 2 == 1),
        value_of(parse(lex(text)->Ok_0), bindings(table.variables@, table.rows@[i].values@))
            == Ok::<bool, ParseError>(table.rows@[i].result),
{
    let variables = table.variables@;
    let row = table.rows@[i];
    assert(is_row(row, i, variables, lex(text)->Ok_0));
    lemma_variable_list_len(variables, text);
    lemma_bindings(variables, row.values@);
    assert(variables.contains(variables[j]));
    lemma2_to64();
    assert(pow2(variables.len()) <= 32) by {
        if variables.len() < 5 {
            lemma_pow2_strictly_increases(variables.len(), 5);
        }
    }
    lemma_bit_is_binary_digit(i as usize, (variables.len() - 1 - j) as usize);
}

/// A variable is written as one token, at every place.
pub proof fn lemma_variable_written(variable: char, level: Option<Connective>)
    ensures
        Formula::Var(variable).written() == seq![Token::Var(variable)],
        Formula::Var(variable).written_at(level) == seq![Token::Var(variable)],
{
}

/// A formula as it is written has the value of the formula.
pub proof fn law_written_formula_has_its_value(formula: Formula, env: Map<char, bool>)
    ensures
        value_of(parse(formula.written()), env) == Ok::<bool, ParseError>(formula.eval(env)),
{
    theorem_read_written(formula);
}

/// Double negation: `!!X` has the value of `X`, whatever formula `X` is and
/// whatever the assignment.
pub proof fn law_double_negation(x: Formula, env: Map<char, bool>)
    ensures
        Formula::not(Formula::not(x)).written() == seq![Token::Not, Token::Not] + x.written_at(
            None,
        ),
        value_of(parse(Formula::not(Formula::not(x)).written()), env) == value_of(
            parse(x.written()),
            env,
        ),
{
    let inner = Formula::not(x);
    let outer = Formula::not(inner);
    assert(inner.written() == seq![Token::Not] + x.written_at(None));
    assert(inner.written_at(None) == inner.written());
    assert(outer.written() =~= seq![Token::Not, Token::Not] + x.written_at(None));
    assert(inner.eval(env) == !x.eval(env));
    assert(outer.eval(env) == x.eval(env));
    law_written_formula_has_its_value(outer, env);
    law_written_formula_has_its_value(x, env);
}

/// Implication: `A -> B` has the value of `!A | B`, whatever formulas `A` and
/// `B` are and whatever the assignment.
pub proof fn law_implication(a: Formula, b: Formula, env: Map<char, bool>)
    ensures
        Formula::binary(Connective::Implies, a, b).written() == a.written_at(
            Some(Connective::Implies),
        ) + seq![Token::Implies] + b.written_at(Some(Connective::Or)),
        Formula::binary(Connective::Or, Formula::not(a), b).written() == seq![Token::Not]
            + a.written_at(None) + seq![Token::Or] + b.written_at(Some(Connective::Xor)),
        value_of(parse(Formula::binary(Connective::Implies, a, b).written()), env) == value_of(
            parse(Formula::binary(Connective::Or, Formula::not(a), b).written()),
            env,
        ),
{
    let implication = Formula::binary(Connective::Implies, a, b);
    let negation = Formula::not(a);
    let disjunction = Formula::binary(Connective::Or, negation, b);
    assert(negation.written() == seq![Token::Not] + a.written_at(None));
    assert(negation.written_at(Some(Connective::Or)) == negation.written());
    assert(disjunction.written() =~= seq![Token::Not] + a.written_at(None) + seq![Token::Or]
        + b.written_at(Some(Connective::Xor)));
    assert(negation.eval(env) == !a.eval(env));
    assert(implication.eval(env) == (!a.eval(env) || b.eval(env)));
    assert(disjunction.eval(env) == (!a.eval(env) || b.eval(env)));
    law_written_formula_has_its_value(implication, env);
    law_written_formula_has_its_value(disjunction, env);
}

/// Biconditional: `A <-> B` has the value of `(A -> B) & (B -> A)`, whatever
/// formulas `A` and `B` are and whatever the assignment.
pub proof fn law_biconditional(a: Formula, b: Formula, env: Map<char, bool>)
    ensures
        Formula::binary(Connective::Iff, a, b).written() == a.written_at(Some(Connective::Iff))
            + seq![Token::Iff] + b.written_at(Some(Connective::Implies)),
        Formula::binary(
            Connective::And,
            Formula::binary(Connective::Implies, a, b),
            Formula::binary(Connective::Implies, b, a),
        ).written() == seq![Token::LParen] + Formula::binary(Connective::Implies, a, b).written()
            + seq![Token::RParen, Token::And, Token::LParen] + Formula::binary(
            Connective::Implies,
            b,
            a,
        ).written() + seq![Token::RParen],
        value_of(parse(Formula::binary(Connective::Iff, a, b).written()), env) == value_of(
            parse(
                Formula::binary(
                    Connective::And,
                    Formula::binary(Connective::Implies, a, b),
                    Formula::binary(Connective::Implies, b, a),
                ).written(),
            ),
            env,
        ),
{
    let biconditional = Formula::binary(Connective::Iff, a, b);
    let forth = Formula::binary(Connective::Implies, a, b);
    let back = Formula::binary(Connective::Implies, b, a);
    let both = Formula::binary(Connective::And, forth, back);
    assert(forth.written_at(Some(Connective::And)) == seq![Token::LParen] + forth.written()
        + seq![Token::RParen]);
    assert(back.written_at(None) == seq![Token::LParen] + back.written() + seq![Token::RParen]);
    assert(both.written() =~= seq![Token::LParen] + forth.written() + seq![
        Token::RParen,
        Token::And,
        Token::LParen,
    ] + back.written() + seq![Token::RParen]);
    assert(forth.eval(env) == (!a.eval(env) || b.eval(env)));
    assert(back.eval(env) == (!b.eval(env) || a.eval(env)));
    assert(both.eval(env) == (forth.eval(env) && back.eval(env)));
    assert(biconditional.eval(env) == (a.eval(env) == b.eval(env)));
    law_written_formula_has_its_value(biconditional, env);
    law_written_formula_has_its_value(both, env);
}

/// Precedence: of two connectives that follow each other, the one that binds
/// tighter takes the operand between them, on whichever side it stands.
pub proof fn law_tighter_connective_binds_first(
    loose: Connective,
    tight: Connective,
    a: char,
    b: char,
    c: char,
)
    requires
        tight.looseness() < loose.looseness(),
    ensures
        parse(seq![Token::Var(a), loose.token(), Token::Var(b), tight.token(), Token::Var(c)])
            == Ok::<Formula, ParseError>(
            Formula::binary(
                loose,
                Formula::Var(a),
                Formula::binary(tight, Formula::Var(b), Formula::Var(c)),
            ),
        ),
        parse(seq![Token::Var(a), tight.token(), Token::Var(b), loose.token(), Token::Var(c)])
            == Ok::<Formula, ParseError>(
            Formula::binary(
                loose,
                Formula::binary(tight, Formula::Var(a), Formula::Var(b)),
                Formula::Var(c),
            ),
        ),
{
    let (va, vb, vc) = (Formula::Var(a), Formula::Var(b), Formula::Var(c));
    lemma_variable_written(a, Some(loose));
    lemma_variable_written(a, Some(tight));
    lemma_variable_written(b, tight.tighter());
    lemma_variable_written(b, Some(tight));
    lemma_variable_written(c, tight.tighter());
    lemma_variable_written(c, loose.tighter());
    let right = Formula::binary(tight, vb, vc);
    let first = Formula::binary(loose, va, right);
    assert(right.written() =~= seq![Token::Var(b), tight.token(), Token::Var(c)]);
    assert(right.written_at(loose.tighter()) == right.written());
    assert(first.written() =~= seq![
        Token::Var(a),
        loose.token(),
        Token::Var(b),
        tight.token(),
        Token::Var(c),
    ]);
    theorem_read_written(first);
    let left = Formula::binary(tight, va, vb);
    let second = Formula::binary(loose, left, vc);
    assert(left.written() =~= seq![Token::Var(a), tight.token(), Token::Var(b)]);
    assert(left.written_at(Some(loose)) == left.written());
    assert(second.written() =~= seq![
        Token::Var(a),
        tight.token(),
        Token::Var(b),
        loose.token(),
        Token::Var(c),
    ]);
    theorem_read_written(second);
}

/// `A | B & C` has the value of `A | (B & C)`, not that of `(A | B) & C`:
/// `&` binds tighter than `|`.
pub proof fn law_and_binds_tighter_than_or(a: char, b: char, c: char, env: Map<char, bool>)
    ensures
        value_of(
            parse(seq![Token::Var(a), Token::Or, Token::Var(b), Token::And, Token::Var(c)]),
            env,
        ) == value_of(
            parse(
                seq![
                    Token::Var(a),
                    Token::Or,
                    Token::LParen,
                    Token::Var(b),
                    Token::And,
                    Token::Var(c),
                    Token::RParen,
                ],
            ),
            env,
        ),
        value_of(
            parse(seq![Token::Var(a), Token::Or, Token::Var(b), Token::And, Token::Var(c)]),
            env,
        ) == Ok::<bool, ParseError>(truth(env, a) || (truth(env, b) && truth(env, c))),
        value_of(
            parse(
                seq![
                    Token::LParen,
                    Token::Var(a),
                    Token::Or,
                    Token::Var(b),
                    Token::RParen,
                    Token::And,
                    Token::Var(c),
                ],
            ),
            env,
        ) == Ok::<bool, ParseError>((truth(env, a) || truth(env, b)) && truth(env, c)),
{
    let (va, vb, vc) = (Formula::Var(a), Formula::Var(b), Formula::Var(c));
    let conjunction = Formula::binary(Connective::And, vb, vc);
    let formula = Formula::binary(Connective::Or, va, conjunction);
    assert(conjunction.eval(env) == (vb.eval(env) && vc.eval(env)));
    assert(formula.eval(env) == (va.eval(env) || conjunction.eval(env)));
    law_tighter_connective_binds_first(Connective::Or, Connective::And, a, b, c);

    // With the parentheses written out.
    let tokens = seq![
        Token::Var(a),
        Token::Or,
        Token::LParen,
        Token::Var(b),
        Token::And,
        Token::Var(c),
        Token::RParen,
    ];
    lemma_variable_written(a, Some(Connective::Or));
    lemma_variable_written(b, Some(Connective::And));
    lemma_variable_written(b, Some(Connective::Xor));
    lemma_variable_written(c, None);
    assert(conjunction.written() =~= seq![Token::Var(b), Token::And, Token::Var(c)]);
    assert(tokens.subrange(0, 1) =~= va.written());
    assert(tokens.subrange(2, 7) =~= seq![Token::LParen] + conjunction.written() + seq![
        Token::RParen,
    ]);
    lemma_read_written(va, tokens, 0);
    lemma_read_at_looser_place(None, Some(Connective::Or), tokens, 0, 1, va);
    lemma_read_parenthesised(conjunction, Some(Connective::Xor), tokens, 2);
    assert(parse_operand(Connective::Or, tokens, 2) == Ok::<(Formula, int), ParseError>(
        (conjunction, 7),
    ));
    assert(parse_chain_rest(Connective::Or, tokens, 7, formula) == Ok::<
        (Formula, int),
        ParseError,
    >((formula, 7)));
    assert(parse_chain_rest(Connective::Or, tokens, 1, va) == Ok::<(Formula, int), ParseError>(
        (formula, 7),
    ));
    lemma_read_at_looser_place(Some(Connective::Or), Some(Connective::Iff), tokens, 0, 7, formula);

    // The other grouping needs its parentheses.
    let disjunction = Formula::binary(Connective::Or, va, vb);
    let other = Formula::binary(Connective::And, disjunction, vc);
    assert(disjunction.written() =~= seq![Token::Var(a), Token::Or, Token::Var(b)]);
    assert(disjunction.written_at(Some(Connective::And)) =~= seq![
        Token::LParen,
        Token::Var(a),
        Token::Or,
        Token::Var(b),
        Token::RParen,
    ]);
    assert(other.written() =~= seq![
        Token::LParen,
        Token::Var(a),
        Token::Or,
        Token::Var(b),
        Token::RParen,
        Token::And,
        Token::Var(c),
    ]);
    assert(disjunction.eval(env) == (va.eval(env) || vb.eval(env)));
    assert(other.eval(env) == (disjunction.eval(env) && vc.eval(env)));
    law_written_formula_has_its_value(other, env);
}

/// Chains group from the left: `A op B op C` is read as `(A op B) op C`.
pub proof fn law_chains_group_from_the_left(op: Connective, a: char, b: char, c: char)
    ensures
        parse(seq![Token::Var(a), op.token(), Token::Var(b), op.token(), Token::Var(c)]) == Ok::<
            Formula,
            ParseError,
        >(
            Formula::binary(
                op,
                Formula::binary(op, Formula::Var(a), Formula::Var(b)),
                Formula::Var(c),
            ),
        ),
{
    let (va, vb, vc) = (Formula::Var(a), Formula::Var(b), Formula::Var(c));
    lemma_variable_written(a, Some(op));
    lemma_variable_written(b, op.tighter());
    lemma_variable_written(c, op.tighter());
    let left = Formula::binary(op, va, vb);
    let chain = Formula::binary(op, left, vc);
    assert(left.written() =~= seq![Token::Var(a), op.token(), Token::Var(b)]);
    assert(left.written_at(Some(op)) == left.written());
    assert(chain.written() =~= seq![
        Token::Var(a),
        op.token(),
        Token::Var(b),
        op.token(),
        Token::Var(c),
    ]);
    theorem_read_written(chain);
}

/// `A ^ B ^ C` has the value of `(A ^ B) ^ C`, which for `^` is that of
/// `A ^ (B ^ C)` too.
pub proof fn law_xor_chain(a: char, b: char, c: char, env: Map<char, bool>)
    ensures
        value_of(
            parse(seq![Token::Var(a), Token::Xor, Token::Var(b), Token::Xor, Token::Var(c)]),
            env,
        ) == Ok::<bool, ParseError>((truth(env, a) != truth(env, b)) != truth(env, c)),
        ((truth(env, a) != truth(env, b)) != truth(env, c)) == (truth(env, a) != (truth(env, b)
            != truth(env, c))),
{
    law_chains_group_from_the_left(Connective::Xor, a, b, c);
    let (va, vb, vc) = (Formula::Var(a), Formula::Var(b), Formula::Var(c));
    let left = Formula::binary(Connective::Xor, va, vb);
    let chain = Formula::binary(Connective::Xor, left, vc);
    assert(left.eval(env) == (va.eval(env) != vb.eval(env)));
    assert(chain.eval(env) == (left.eval(env) != vc.eval(env)));
}

/// Binding a variable that is not bound to false changes the value of no
/// formula.
pub proof fn lemma_unbound_as_false(formula: Formula, env: Map<char, bool>, variable: char)
    requires
        !env.contains_key(variable),
    ensures
        formula.eval(env) == formula.eval(env.insert(variable, false)),
    decreases formula,
{
    match formula {
        Formula::Var(_) => {},
        Formula::Not(inner) => {
            lemma_unbound_as_false(*inner, env, variable);
        },
        Formula::Binary(_, lhs, rhs) => {
            lemma_unbound_as_false(*lhs, env, variable);
            lemma_unbound_as_false(*rhs, env, variable);
        },
    }
}

/// A variable that the assignment does not bind counts as false and is no
/// error: whatever the tokens, they evaluate as they do with the variable
/// bound to false, and the variable alone evaluates to false.
pub proof fn law_unbound_variable_is_false(
    tokens: Seq<Token>,
    env: Map<char, bool>,
    variable: char,
)
    requires
        !env.contains_key(variable),
    ensures
        value_of(parse(tokens), env) == value_of(parse(tokens), env.insert(variable, false)),
        value_of(parse(seq![Token::Var(variable)]), env) == Ok::<bool, ParseError>(false),
{
    if let Ok(formula) = parse(tokens) {
        lemma_unbound_as_false(formula, env, variable);
    }
    lemma_variable_written(variable, None);
    law_written_formula_has_its_value(Formula::Var(variable), env);
}

} // verus!
