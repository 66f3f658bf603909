use truth_table::{
    evaluate, evaluate_with, tokenize, Assignment, Expected, ParseError, Parser, Token, Trailing,
};

fn assignment(pairs: &[(char, bool)]) -> Assignment {
    let mut a = Assignment::new();
    for (variable, value) in pairs {
        a.insert(*variable, *value);
    }
    a
}

fn value(text: &str, pairs: &[(char, bool)]) -> bool {
    let tokens = tokenize(text).unwrap();
    evaluate(&tokens, &assignment(pairs)).unwrap()
}

fn failure(text: &str) -> ParseError {
    let tokens = tokenize(text).unwrap();
    evaluate(&tokens, &Assignment::new()).unwrap_err()
}

/// The values of `text` for A, B = 00, 01, 10, 11.
fn column(text: &str) -> [bool; 4] {
    let mut out = [false; 4];
    for i in 0..4 {
        out[i] = value(text, &[('A', i & 2 != 0), ('B', i & 1 != 0)]);
    }
    out
}

#[test]
fn a_variable_has_its_value() {
    assert_eq!(value("A", &[('A', true)]), true);
    assert_eq!(value("A", &[('A', false)]), false);
    assert_eq!(value("a", &[('A', true), ('a', false)]), false);
}

#[test]
fn truth_table_of_not() {
    assert_eq!(value("!A", &[('A', true)]), false);
    assert_eq!(value("!A", &[('A', false)]), true);
}

#[test]
fn truth_table_of_and() {
    assert_eq!(column("A & B"), [false, false, false, true]);
}

#[test]
fn truth_table_of_or() {
    assert_eq!(column("A | B"), [false, true, true, true]);
}

#[test]
fn truth_table_of_xor() {
    assert_eq!(column("A ^ B"), [false, true, true, false]);
}

#[test]
fn truth_table_of_implies() {
    assert_eq!(column("A -> B"), [true, true, false, true]);
}

#[test]
fn truth_table_of_iff() {
    assert_eq!(column("A <-> B"), [true, false, false, true]);
}

#[test]
fn double_negation_is_the_variable() {
    for x in [false, true] {
        assert_eq!(value("!!X", &[('X', x)]), value("X", &[('X', x)]));
        assert_eq!(value("!!!X", &[('X', x)]), !x);
        assert_eq!(value("! ! ! !X", &[('X', x)]), x);
    }
}

#[test]
fn double_negation_of_a_formula_in_parentheses() {
    assert_eq!(column("!!(A ^ B)"), column("A ^ B"));
    assert_eq!(column("!!(A -> B)"), column("A -> B"));
}

#[test]
fn implication_is_not_a_or_b() {
    assert_eq!(column("A -> B"), column("!A | B"));
    assert_eq!(column("(A ^ B) -> (A & B)"), column("!(A ^ B) | (A & B)"));
}

#[test]
fn biconditional_is_implication_both_ways() {
    assert_eq!(column("A <-> B"), column("(A -> B) & (B -> A)"));
    assert_eq!(column("(A | B) <-> !A"), column("((A | B) -> !A) & (!A -> (A | B))"));
}

#[test]
fn and_binds_tighter_than_or() {
    for i in 0..8 {
        let env = [('A', i & 4 != 0), ('B', i & 2 != 0), ('C', i & 1 != 0)];
        let (a, b, c) = (env[0].1, env[1].1, env[2].1);
        assert_eq!(value("A | B & C", &env), a || (b && c));
        assert_eq!(value("A | B & C", &env), value("A | (B & C)", &env));
        assert_eq!(value("(A | B) & C", &env), (a || b) && c);
        assert_eq!(value("A & B | C", &env), (a && b) || c);
    }
    // The two groupings differ where A holds and C fails.
    let env = [('A', true), ('B', false), ('C', false)];
    assert_eq!(value("A | B & C", &env), true);
    assert_eq!(value("(A | B) & C", &env), false);
}

#[test]
fn each_level_binds_tighter_than_the_one_before() {
    for i in 0..8 {
        let env = [('A', i & 4 != 0), ('B', i & 2 != 0), ('C', i & 1 != 0)];
        let (a, b, c) = (env[0].1, env[1].1, env[2].1);
        assert_eq!(value("A <-> B -> C", &env), a == (!b || c));
        assert_eq!(value("A -> B <-> C", &env), (!a || b) == c);
        assert_eq!(value("A -> B | C", &env), !a || (b || c));
        assert_eq!(value("A | B -> C", &env), !(a || b) || c);
        assert_eq!(value("A | B ^ C", &env), a || (b != c));
        assert_eq!(value("A ^ B | C", &env), (a != b) || c);
        assert_eq!(value("A ^ B & C", &env), a != (b && c));
        assert_eq!(value("A & B ^ C", &env), (a && b) != c);
        assert_eq!(value("!A & B", &env), !a && b);
        assert_eq!(value("!A ^ B", &env), !a != b);
        assert_eq!(value("!A -> B", &env), a || b);
        assert_eq!(value("!A <-> B", &env), !a == b);
        assert_eq!(value("A & !B", &env), a && !b);
    }
}

#[test]
fn all_levels_in_one_formula() {
    for i in 0..64 {
        let env = [
            ('A', i & 32 != 0),
            ('B', i & 16 != 0),
            ('C', i & 8 != 0),
            ('D', i & 4 != 0),
            ('E', i & 2 != 0),
            ('F', i & 1 != 0),
        ];
        let (a, b, c, d, e, f) = (env[0].1, env[1].1, env[2].1, env[3].1, env[4].1, env[5].1);
        assert_eq!(
            value("A <-> B -> C | D ^ E & !F", &env),
            a == (!b || (c || (d != (e && !f))))
        );
        assert_eq!(
            value("!A & B ^ C | D -> E <-> F", &env),
            (!((((!a && b) != c) || d)) || e) == f
        );
    }
}

#[test]
fn xor_chain_of_three_true_variables_is_true() {
    assert_eq!(value("A ^ B ^ C", &[('A', true), ('B', true), ('C', true)]), true);
}

#[test]
fn xor_chain_does_not_depend_on_grouping() {
    for i in 0..8 {
        let env = [('A', i & 4 != 0), ('B', i & 2 != 0), ('C', i & 1 != 0)];
        assert_eq!(value("A ^ B ^ C", &env), value("(A ^ B) ^ C", &env));
        assert_eq!(value("A ^ B ^ C", &env), value("A ^ (B ^ C)", &env));
    }
}

#[test]
fn chains_fold_from_the_left() {
    // (A -> B) -> C, not A -> (B -> C): they differ where all three fail.
    let env = [('A', false), ('B', false), ('C', false)];
    assert_eq!(value("A -> B -> C", &env), false);
    assert_eq!(value("(A -> B) -> C", &env), false);
    assert_eq!(value("A -> (B -> C)", &env), true);
    for i in 0..8 {
        let env = [('A', i & 4 != 0), ('B', i & 2 != 0), ('C', i & 1 != 0)];
        let (a, b, c) = (env[0].1, env[1].1, env[2].1);
        assert_eq!(value("A -> B -> C", &env), !(!a || b) || c);
        assert_eq!(value("A <-> B <-> C", &env), (a == b) == c);
        assert_eq!(value("A & B & C", &env), a && b && c);
        assert_eq!(value("A | B | C", &env), a || b || c);
    }
}

#[test]
fn parentheses_nest() {
    assert_eq!(value("((((A))))", &[('A', true)]), true);
    assert_eq!(value("!(!(!(A)))", &[('A', true)]), false);
    assert_eq!(value("(A & (B | (C ^ (D))))", &[('A', true), ('D', true)]), true);
}

#[test]
fn a_longer_formula() {
    let text = "((A & B) -> (!C | D)) <-> (!A | (C & (D -> B)))";
    for i in 0..16 {
        let env = [('A', i & 8 != 0), ('B', i & 4 != 0), ('C', i & 2 != 0), ('D', i & 1 != 0)];
        let (a, b, c, d) = (env[0].1, env[1].1, env[2].1, env[3].1);
        let expected = (!(a && b) || (!c || d)) == (!a || (c && (!d || b)));
        assert_eq!(value(text, &env), expected);
    }
}

#[test]
fn an_unbound_variable_counts_as_false() {
    assert_eq!(value("Z", &[]), false);
    assert_eq!(value("!Z", &[]), true);
    assert_eq!(value("A | Z", &[('A', true)]), true);
    assert_eq!(value("A & Z", &[('A', true)]), false);
    assert_eq!(value("A -> Z", &[('A', true)]), false);
    assert_eq!(value("A & Z", &[('A', true)]), value("A & Z", &[('A', true), ('Z', false)]));
    // Case matters: `z` is bound, `Z` is not.
    assert_eq!(value("Z", &[('z', true)]), false);
}

#[test]
fn an_operator_where_an_operand_is_expected() {
    assert_eq!(
        failure("& A"),
        ParseError::UnexpectedToken { position: 0, found: Token::And, expected: Expected::Operand }
    );
    assert_eq!(
        failure("A | | B"),
        ParseError::UnexpectedToken { position: 2, found: Token::Or, expected: Expected::Operand }
    );
    assert_eq!(
        failure("A -> <-> B"),
        ParseError::UnexpectedToken { position: 2, found: Token::Iff, expected: Expected::Operand }
    );
    assert_eq!(
        failure("!^"),
        ParseError::UnexpectedToken { position: 1, found: Token::Xor, expected: Expected::Operand }
    );
    assert_eq!(
        failure("(->"),
        ParseError::UnexpectedToken {
            position: 1,
            found: Token::Implies,
            expected: Expected::Operand,
        }
    );
}

#[test]
fn a_closing_parenthesis_where_an_operand_is_expected() {
    assert_eq!(
        failure(")"),
        ParseError::UnexpectedToken {
            position: 0,
            found: Token::RParen,
            expected: Expected::Operand,
        }
    );
    assert_eq!(
        failure("()"),
        ParseError::UnexpectedToken {
            position: 1,
            found: Token::RParen,
            expected: Expected::Operand,
        }
    );
    assert_eq!(
        failure("(A &)"),
        ParseError::UnexpectedToken {
            position: 3,
            found: Token::RParen,
            expected: Expected::Operand,
        }
    );
}

#[test]
fn the_tokens_end_where_an_operand_is_expected() {
    assert_eq!(failure(""), ParseError::UnexpectedEnd { position: 0 });
    assert_eq!(failure("A &"), ParseError::UnexpectedEnd { position: 2 });
    assert_eq!(failure("!"), ParseError::UnexpectedEnd { position: 1 });
    assert_eq!(failure("("), ParseError::UnexpectedEnd { position: 1 });
    assert_eq!(failure("A <-> (B ->"), ParseError::UnexpectedEnd { position: 5 });
}

#[test]
fn an_opening_parenthesis_is_not_closed() {
    assert_eq!(failure("(A"), ParseError::MissingCloseParen { position: 2, found: None });
    assert_eq!(failure("((A)"), ParseError::MissingCloseParen { position: 4, found: None });
    assert_eq!(
        failure("(A B)"),
        ParseError::MissingCloseParen { position: 2, found: Some(Token::Var('B')) }
    );
    assert_eq!(
        failure("(A (B))"),
        ParseError::MissingCloseParen { position: 2, found: Some(Token::LParen) }
    );
    assert_eq!(
        failure("(A ! B)"),
        ParseError::MissingCloseParen { position: 2, found: Some(Token::Not) }
    );
}

#[test]
fn tokens_behind_the_formula_are_rejected() {
    assert_eq!(
        failure("A B"),
        ParseError::UnexpectedToken {
            position: 1,
            found: Token::Var('B'),
            expected: Expected::EndOfInput,
        }
    );
    assert_eq!(
        failure("A & B)"),
        ParseError::UnexpectedToken {
            position: 3,
            found: Token::RParen,
            expected: Expected::EndOfInput,
        }
    );
    assert_eq!(
        failure("(A) (B)"),
        ParseError::UnexpectedToken {
            position: 3,
            found: Token::LParen,
            expected: Expected::EndOfInput,
        }
    );
    assert_eq!(
        failure("A !B"),
        ParseError::UnexpectedToken {
            position: 1,
            found: Token::Not,
            expected: Expected::EndOfInput,
        }
    );
    assert_eq!(
        failure("ab"),
        ParseError::UnexpectedToken {
            position: 1,
            found: Token::Var('b'),
            expected: Expected::EndOfInput,
        }
    );
}

#[test]
fn tokens_behind_the_formula_are_ignored_on_request() {
    let env = assignment(&[('A', true), ('B', false)]);
    let tokens = tokenize("A B").unwrap();
    assert_eq!(evaluate_with(&tokens, &env, Trailing::Ignore), Ok(true));
    assert_eq!(
        evaluate_with(&tokens, &env, Trailing::Reject),
        Err(ParseError::UnexpectedToken {
            position: 1,
            found: Token::Var('B'),
            expected: Expected::EndOfInput,
        })
    );
    let tokens = tokenize("B | A) & B").unwrap();
    assert_eq!(evaluate_with(&tokens, &env, Trailing::Ignore), Ok(true));
    let tokens = tokenize("B A").unwrap();
    assert_eq!(evaluate_with(&tokens, &env, Trailing::Ignore), Ok(false));
}

#[test]
fn both_ways_agree_on_a_whole_formula() {
    let env = assignment(&[('A', true), ('B', false)]);
    for text in ["A", "A & B", "!(A -> B)", "A <-> B ^ A"] {
        let tokens = tokenize(text).unwrap();
        assert_eq!(
            evaluate_with(&tokens, &env, Trailing::Ignore),
            evaluate_with(&tokens, &env, Trailing::Reject)
        );
        assert_eq!(evaluate(&tokens, &env), evaluate_with(&tokens, &env, Trailing::Reject));
    }
}

#[test]
fn errors_come_before_trailing_tokens_either_way() {
    let env = Assignment::new();
    let tokens = tokenize("(A B").unwrap();
    let expected = Err(ParseError::MissingCloseParen { position: 2, found: Some(Token::Var('B')) });
    assert_eq!(evaluate_with(&tokens, &env, Trailing::Ignore), expected);
    assert_eq!(evaluate_with(&tokens, &env, Trailing::Reject), expected);
}

#[test]
fn an_error_does_not_depend_on_the_assignment() {
    let tokens = tokenize("A & (B |").unwrap();
    let expected = Err(ParseError::UnexpectedEnd { position: 5 });
    assert_eq!(evaluate(&tokens, &Assignment::new()), expected);
    assert_eq!(evaluate(&tokens, &assignment(&[('A', true), ('B', true)])), expected);
    assert_eq!(evaluate(&tokens, &assignment(&[('A', false)])), expected);
}

#[test]
fn every_operand_is_read_whatever_the_value_so_far() {
    // The left side decides the value; the right side is read all the same.
    assert_eq!(failure("A & )"), ParseError::UnexpectedToken {
        position: 2,
        found: Token::RParen,
        expected: Expected::Operand,
    });
    let tokens = tokenize("A | (B").unwrap();
    assert_eq!(
        evaluate(&tokens, &assignment(&[('A', true)])),
        Err(ParseError::MissingCloseParen { position: 4, found: None })
    );
}

#[test]
fn the_parser_reads_one_formula_and_stops_behind_it() {
    let env = assignment(&[('A', true), ('B', false)]);
    let tokens = tokenize("A & B) | A").unwrap();
    let mut parser = Parser::new(&tokens, &env);
    assert_eq!(parser.position(), 0);
    assert_eq!(parser.peek(), Some(Token::Var('A')));
    assert_eq!(parser.parse_expr(), Ok(false));
    assert_eq!(parser.position(), 3);
    assert_eq!(parser.peek(), Some(Token::RParen));
}

#[test]
fn the_parser_stops_at_the_error() {
    let env = Assignment::new();
    let tokens = tokenize("A & (B | ^ C)").unwrap();
    let mut parser = Parser::new(&tokens, &env);
    let e = parser.parse_expr().unwrap_err();
    assert_eq!(
        e,
        ParseError::UnexpectedToken { position: 5, found: Token::Xor, expected: Expected::Operand }
    );
    assert_eq!(e.position(), 5);
    assert_eq!(parser.position(), 5);
    assert_eq!(parser.peek(), Some(Token::Xor));
}

#[test]
fn each_level_of_the_parser_reads_its_own_chain() {
    let env = assignment(&[('A', true), ('B', false), ('C', true)]);
    let tokens = tokenize("A & B | C -> B <-> A").unwrap();

    let mut parser = Parser::new(&tokens, &env);
    assert_eq!(parser.parse_atom(), Ok(true));
    assert_eq!(parser.position(), 1);

    let mut parser = Parser::new(&tokens, &env);
    assert_eq!(parser.parse_not(), Ok(true));
    assert_eq!(parser.position(), 1);

    let mut parser = Parser::new(&tokens, &env);
    assert_eq!(parser.parse_and(), Ok(false));
    assert_eq!(parser.position(), 3);

    let mut parser = Parser::new(&tokens, &env);
    assert_eq!(parser.parse_xor(), Ok(false));
    assert_eq!(parser.position(), 3);

    let mut parser = Parser::new(&tokens, &env);
    assert_eq!(parser.parse_or(), Ok(true));
    assert_eq!(parser.position(), 5);

    let mut parser = Parser::new(&tokens, &env);
    assert_eq!(parser.parse_implies(), Ok(false));
    assert_eq!(parser.position(), 7);

    let mut parser = Parser::new(&tokens, &env);
    assert_eq!(parser.parse_iff(), Ok(false));
    assert_eq!(parser.position(), 9);

    let mut parser = Parser::new(&tokens, &env);
    assert_eq!(parser.parse_expr(), Ok(false));
    assert_eq!(parser.position(), 9);
    assert_eq!(parser.peek(), None);
}

#[test]
fn the_parser_goes_on_where_it_stopped() {
    let env = assignment(&[('A', true), ('B', false)]);
    let tokens = tokenize("!A B (A | B)").unwrap();
    let mut parser = Parser::new(&tokens, &env);
    assert_eq!(parser.parse_expr(), Ok(false));
    assert_eq!(parser.position(), 2);
    assert_eq!(parser.parse_expr(), Ok(false));
    assert_eq!(parser.position(), 3);
    assert_eq!(parser.parse_atom(), Ok(true));
    assert_eq!(parser.position(), 8);
    assert_eq!(parser.parse_atom(), Err(ParseError::UnexpectedEnd { position: 8 }));
    assert_eq!(parser.position(), 8);
}

#[test]
fn tokens_need_not_come_from_a_text() {
    let env = assignment(&[('1', true)]);
    let tokens = vec![Token::Not, Token::Var('1')];
    assert_eq!(evaluate(&tokens, &env), Ok(false));
}

#[test]
fn an_assignment_keeps_the_last_value_of_a_variable() {
    let mut a = Assignment::new();
    assert_eq!(a.get('A'), None);
    assert_eq!(a.value_of('A'), false);
    assert_eq!(a.insert('A', true), None);
    assert_eq!(a.get('A'), Some(true));
    assert_eq!(a.value_of('A'), true);
    assert_eq!(a.insert('A', false), Some(true));
    assert_eq!(a.get('A'), Some(false));
    assert_eq!(a.value_of('A'), false);
    assert_eq!(a.get('a'), None);
    assert_eq!(a.insert('\u{e9}', true), None);
    assert_eq!(a.get('\u{e9}'), Some(true));
}
