use truth_table::table::{bind, row_values};
use truth_table::{
    extract_variables, truth_table, Expected, LexError, LexErrorKind, ParseError, Row, TableError,
    Token, MAX_VARIABLES,
};

#[test]
fn variables_are_sorted_and_listed_once() {
    assert_eq!(extract_variables("b & a | b & c"), vec!['a', 'b', 'c']);
    assert_eq!(extract_variables("C -> (B <-> A) ^ C"), vec!['A', 'B', 'C']);
    assert_eq!(extract_variables("zyxzyx"), vec!['x', 'y', 'z']);
}

#[test]
fn upper_case_variables_come_before_lower_case() {
    assert_eq!(extract_variables("a & B | A & b"), vec!['A', 'B', 'a', 'b']);
    assert_eq!(extract_variables("a Z"), vec!['Z', 'a']);
}

#[test]
fn only_ascii_letters_are_variables() {
    assert_eq!(extract_variables(""), vec![]);
    assert_eq!(extract_variables("!&|^->()<-> 0123 @[`{ \t"), vec![]);
    assert_eq!(extract_variables("A1 + \u{e9} * b_2"), vec!['A', 'b']);
    assert_eq!(extract_variables("@AZ[`az{"), vec!['A', 'Z', 'a', 'z']);
}

#[test]
fn variables_are_found_where_the_text_has_no_tokens() {
    assert_eq!(extract_variables("q - p $"), vec!['p', 'q']);
}

#[test]
fn the_variables_are_those_among_the_tokens() {
    let text = "(q -> p) & !r | q ^ P";
    let mut named: Vec<char> = Vec::new();
    for token in truth_table::tokenize(text).unwrap() {
        if let Token::Var(c) = token {
            if !named.contains(&c) {
                named.push(c);
            }
        }
    }
    named.sort();
    assert_eq!(extract_variables(text), named);
}

#[test]
fn rows_count_upwards_with_the_first_variable_as_the_highest_bit() {
    let table = truth_table("A & B").unwrap();
    assert_eq!(table.variables, vec!['A', 'B']);
    assert_eq!(
        table.rows,
        vec![
            Row { values: vec![false, false], result: false },
            Row { values: vec![false, true], result: false },
            Row { values: vec![true, false], result: false },
            Row { values: vec![true, true], result: true },
        ]
    );
}

#[test]
fn the_columns_follow_the_sorted_variables_not_the_text() {
    let table = truth_table("b -> a").unwrap();
    assert_eq!(table.variables, vec!['a', 'b']);
    assert_eq!(
        table.rows,
        vec![
            Row { values: vec![false, false], result: true },
            Row { values: vec![false, true], result: false },
            Row { values: vec![true, false], result: true },
            Row { values: vec![true, true], result: true },
        ]
    );
}

#[test]
fn table_of_one_variable() {
    let table = truth_table("!p").unwrap();
    assert_eq!(table.variables, vec!['p']);
    assert_eq!(
        table.rows,
        vec![
            Row { values: vec![false], result: true },
            Row { values: vec![true], result: false },
        ]
    );
}

#[test]
fn table_of_three_variables() {
    let table = truth_table("A | B & C").unwrap();
    let results: Vec<bool> = table.rows.iter().map(|row| row.result).collect();
    assert_eq!(results, vec![false, false, false, true, true, true, true, true]);
    assert_eq!(table.rows[3].values, vec![false, true, true]);
    assert_eq!(table.rows[4].values, vec![true, false, false]);
    assert_eq!(table.rows[6].values, vec![true, true, false]);
}

#[test]
fn table_of_five_variables_has_thirty_two_rows() {
    assert_eq!(MAX_VARIABLES, 5);
    let table = truth_table("a ^ b ^ c ^ d ^ e").unwrap();
    assert_eq!(table.variables, vec!['a', 'b', 'c', 'd', 'e']);
    assert_eq!(table.rows.len(), 32);
    for (i, row) in table.rows.iter().enumerate() {
        let bits: Vec<bool> = (0..5).map(|j| (i >> (4 - j)) & 1 == 1).collect();
        assert_eq!(row.values, bits);
        assert_eq!(row.result, i.count_ones() % 2 == 1);
    }
}

#[test]
fn table_of_the_four_variable_implication() {
    let table = truth_table("(A & B) -> (C | D)").unwrap();
    assert_eq!(table.rows.len(), 16);
    for (i, row) in table.rows.iter().enumerate() {
        assert_eq!(row.result, i != 12);
    }
}

#[test]
fn a_repeated_variable_has_one_column() {
    let table = truth_table("A & !A").unwrap();
    assert_eq!(table.variables, vec!['A']);
    assert_eq!(table.rows.len(), 2);
    assert!(table.rows.iter().all(|row| !row.result));
}

#[test]
fn more_than_five_variables_are_rejected() {
    assert_eq!(
        truth_table("a & b & c & d & e & f").unwrap_err(),
        TableError::TooManyVariables { count: 6 }
    );
    assert_eq!(
        truth_table("A | a | B | b | C | c | D | d").unwrap_err(),
        TableError::TooManyVariables { count: 8 }
    );
    // Five variables, one of them twice.
    assert!(truth_table("a & b & c & d & e & a").is_ok());
}

#[test]
fn a_lexical_error_gives_no_table() {
    assert_eq!(
        truth_table("A - B").unwrap_err(),
        TableError::Lex(LexError { kind: LexErrorKind::ExpectedImplies, position: 2, character: '-' })
    );
}

#[test]
fn a_parse_error_gives_no_table() {
    assert_eq!(
        truth_table("(A").unwrap_err(),
        TableError::Parse(ParseError::MissingCloseParen { position: 2, found: None })
    );
    assert_eq!(
        truth_table("A B").unwrap_err(),
        TableError::Parse(ParseError::UnexpectedToken {
            position: 1,
            found: Token::Var('B'),
            expected: Expected::EndOfInput,
        })
    );
}

#[test]
fn a_text_without_tokens_has_no_table() {
    assert_eq!(
        truth_table("").unwrap_err(),
        TableError::Parse(ParseError::UnexpectedEnd { position: 0 })
    );
    assert_eq!(
        truth_table("   ").unwrap_err(),
        TableError::Parse(ParseError::UnexpectedEnd { position: 0 })
    );
}

#[test]
fn the_lexical_error_comes_first_then_the_count_then_the_grammar() {
    assert_eq!(
        truth_table("a b c d e f $").unwrap_err(),
        TableError::Lex(LexError {
            kind: LexErrorKind::InvalidCharacter,
            position: 12,
            character: '$',
        })
    );
    assert_eq!(
        truth_table("a b c d e f").unwrap_err(),
        TableError::TooManyVariables { count: 6 }
    );
    assert_eq!(
        truth_table("a b c d e").unwrap_err(),
        TableError::Parse(ParseError::UnexpectedToken {
            position: 1,
            found: Token::Var('b'),
            expected: Expected::EndOfInput,
        })
    );
}

#[test]
fn row_values_are_the_bits_of_the_index() {
    assert_eq!(row_values(0, 0), vec![]);
    assert_eq!(row_values(0, 7), vec![]);
    assert_eq!(row_values(1, 0), vec![false]);
    assert_eq!(row_values(1, 1), vec![true]);
    assert_eq!(row_values(3, 6), vec![true, true, false]);
    assert_eq!(row_values(3, 1), vec![false, false, true]);
    assert_eq!(row_values(5, 21), vec![true, false, true, false, true]);
    // Bits above the first `n` are left out.
    assert_eq!(row_values(2, 6), vec![true, false]);
    assert_eq!(row_values(4, 5), vec![false, true, false, true]);
}

#[test]
fn bind_pairs_variables_with_values() {
    let a = bind(&['p', 'q'], &[true, false]);
    assert_eq!(a.get('p'), Some(true));
    assert_eq!(a.get('q'), Some(false));
    assert_eq!(a.get('r'), None);
}

#[test]
fn bind_stops_where_either_list_ends() {
    let a = bind(&['p', 'q', 'r'], &[true]);
    assert_eq!(a.get('p'), Some(true));
    assert_eq!(a.get('q'), None);
    let a = bind(&['p'], &[false, true, true]);
    assert_eq!(a.get('p'), Some(false));
    let a = bind(&[], &[]);
    assert_eq!(a.get('p'), None);
}

#[test]
fn bind_keeps_the_last_value_of_a_variable_listed_twice() {
    let a = bind(&['p', 'q', 'p'], &[true, true, false]);
    assert_eq!(a.get('p'), Some(false));
    assert_eq!(a.get('q'), Some(true));
}
