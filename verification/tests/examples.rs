use truth_table::{evaluate, tokenize, truth_table, Assignment, LexErrorKind, ParseError, Token};

fn assignment(pairs: &[(char, bool)]) -> Assignment {
    let mut a = Assignment::new();
    for (variable, value) in pairs {
        a.insert(*variable, *value);
    }
    a
}

fn value(text: &str, pairs: &[(char, bool)]) -> bool {
    let tokens = tokenize(text).unwrap();
    evaluate(&tokens, &assignment(pairs)).unwrap()
}

#[test]
fn conjunction_of_two_variables() {
    assert_eq!(value("A & B", &[('A', true), ('B', true)]), true);
    assert_eq!(value("A & B", &[('A', true), ('B', false)]), false);
}

#[test]
fn negation_binds_tighter_than_disjunction() {
    assert_eq!(value("!A | B", &[('A', false), ('B', false)]), true);
}

#[test]
fn implication_between_parenthesised_formulas_fails_in_one_row() {
    let table = truth_table("(A & B) -> (C | D)").unwrap();
    assert_eq!(table.variables, vec!['A', 'B', 'C', 'D']);
    assert_eq!(table.rows.len(), 16);
    for (i, row) in table.rows.iter().enumerate() {
        let expected = row.values != vec![true, true, false, false];
        assert_eq!(row.result, expected, "row {}", i);
    }
    assert_eq!(table.rows[12].values, vec![true, true, false, false]);
    assert_eq!(table.rows[12].result, false);
    assert_eq!(table.rows.iter().filter(|row| !row.result).count(), 1);
}

#[test]
fn stray_greater_than_is_a_lexical_error() {
    let e = tokenize("A -> > B").unwrap_err();
    assert_eq!(e.kind, LexErrorKind::InvalidCharacter);
    assert_eq!(e.character, '>');
    assert_eq!(e.position, 5);
}

#[test]
fn lone_minus_is_a_lexical_error() {
    let e = tokenize("A - B").unwrap_err();
    assert_eq!(e.kind, LexErrorKind::ExpectedImplies);
    assert_eq!(e.character, '-');
    assert_eq!(e.position, 2);
}

#[test]
fn unbalanced_parenthesis_is_a_parse_error() {
    let tokens = tokenize("(A").unwrap();
    assert_eq!(tokens, vec![Token::LParen, Token::Var('A')]);
    let e = evaluate(&tokens, &assignment(&[('A', true)])).unwrap_err();
    assert_eq!(e, ParseError::MissingCloseParen { position: 2, found: None });
}
