//! The truth table of a formula: one row for each assignment of its variables.

use vstd::prelude::*;
use vstd::arithmetic::power2::{pow2, lemma2_to64, lemma_pow2_strictly_increases};
use vstd::bits::{lemma_usize_shl_is_mul, lemma_usize_shr_is_div};
use crate::token::Token;
use crate::assignment::Assignment;
use crate::formula::Formula;
use crate::lexer::{LexError, lex, tokenize};
use crate::grammar::{ParseError, parse, value_of};
use crate::parser::evaluate;
use crate::variables::{
    extract_variables, is_variable_list, variable_set, lemma_variable_list_len,
};

verus! {

/// The largest number of variables that a table is made for.
pub const MAX_VARIABLES: usize = 5;

/// One row of a truth table.
#[derive(Debug, PartialEq, Eq)]
pub struct Row {
    /// The value of each variable, in the order of the table's variables.
    pub values: Vec<bool>,
    /// The value of the formula under these values.
    pub result: bool,
}

/// The truth table of a formula.
#[derive(Debug, PartialEq, Eq)]
pub struct TruthTable {
    /// The variables of the formula, in ascending order.
    pub variables: Vec<char>,
    /// One row for each assignment of the variables, counting upwards in
    /// binary with the first variable as the highest bit.
    pub rows: Vec<Row>,
}

/// Why a text has no truth table.
#[derive(Debug, Clone, Copy, PartialEq, Eq, Structural)]
pub enum TableError {
    /// The text is not made of tokens.
    Lex(LexError),
    /// The text has more than [`MAX_VARIABLES`] variables.
    TooManyVariables {
        /// The number of distinct variables in the text.
        count: usize,
    },
    /// The tokens are not a formula.
    Parse(ParseError),
}

/// Bit `k` of `index`; bit 0 is the lowest.
pub open spec fn bit(index: usize, k: usize) -> bool {
    (index >> k) & 1 == 1
}

/// Bit `k` of `index` is the binary digit of `index` that counts `2^k`.
pub proof fn lemma_bit_is_binary_digit(index: usize, k: usize)
    requires
        k < usize::BITS,
    ensures
        bit(index, k) == ((index as nat / pow2(k as nat)) % 2 == 1),
{
    let shifted = index >> k;
    lemma_usize_shr_is_div(index, k);
    assert(shifted & 1 == shifted % 2) by (bit_vector);
}

/// The map that binds `variables[j]` to `values[j]` for each `j` below `n`. A
/// variable that is listed twice has the value of its last place.
pub open spec fn bindings_upto(variables: Seq<char>, values: Seq<bool>, n: nat) -> Map<char, bool>
    decreases n,
{
    if n == 0 {
        Map::empty()
    } else {
        bindings_upto(variables, values, (n - 1) as nat).insert(
            variables[n - 1],
            values[n - 1],
        )
    }
}

/// The map that binds each of `variables` to the value at the same place of
/// `values`, as far as both reach.
pub open spec fn bindings(variables: Seq<char>, values: Seq<bool>) -> Map<char, bool> {
    bindings_upto(
        variables,
        values,
        if variables.len() <= values.len() {
            variables.len()
        } else {
            values.len()
        },
    )
}

/// The first `n` bindings bind the first `n` variables and no others, and
/// among variables that are listed once each has the value at its own place.
pub proof fn lemma_bindings_upto(variables: Seq<char>, values: Seq<bool>, n: nat)
    requires
        n <= variables.len(),
        n <= values.len(),
    ensures
        forall|c: char|
            #![trigger bindings_upto(variables, values, n).contains_key(c)]
            bindings_upto(variables, values, n).contains_key(c) <==> variables.take(
                n as int,
            ).contains(c),
        variables.no_duplicates() ==> forall|j: int|
            0 <= j < n ==> bindings_upto(variables, values, n)[#[trigger] variables[j]]
                == values[j],
    decreases n,
{
    if n > 0 {
        let before = (n - 1) as nat;
        lemma_bindings_upto(variables, values, before);
        assert forall|c: char|
            #![trigger bindings_upto(variables, values, n).contains_key(c)]
            bindings_upto(variables, values, n).contains_key(c) <==> variables.take(
                n as int,
            ).contains(c) by {
            let (now, then) = (variables.take(n as int), variables.take(before as int));
            if now.contains(c) {
                let k = choose|k: int| 0 <= k < now.len() && now[k] == c;
                if k < before {
                    assert(then[k] == c);
                }
            }
            if then.contains(c) {
                let k = choose|k: int| 0 <= k < then.len() && then[k] == c;
                assert(now[k] == c);
            }
            if c == variables[n - 1] {
                assert(now[n - 1] == c);
            }
            assert(bindings_upto(variables, values, before).contains_key(c) <==> then.contains(c));
        }
    } else {
        assert forall|c: char| !variables.take(0).contains(c) by {
            if variables.take(0).contains(c) {
                let k = choose|k: int| 0 <= k < variables.take(0).len() && variables.take(0)[k] == c;
            }
        }
    }
}

/// Where every variable is listed once and has a value, the bindings bind the
/// listed variables and no others, each to the value at its own place.
pub proof fn lemma_bindings(variables: Seq<char>, values: Seq<bool>)
    requires
        variables.no_duplicates(),
        variables.len() == values.len(),
    ensures
        forall|c: char|
            #![trigger bindings(variables, values).contains_key(c)]
            bindings(variables, values).contains_key(c) <==> variables.contains(c),
        forall|j: int|
            0 <= j < variables.len() ==> bindings(variables, values)[#[trigger] variables[j]]
                == values[j],
{
    lemma_bindings_upto(variables, values, variables.len());
    assert(variables.take(variables.len() as int) =~= variables);
}

/// `values` are the bits of `index`, the highest of them first.
pub open spec fn is_row_values(values: Seq<bool>, index: usize) -> bool {
    forall|j: int|
        0 <= j < values.len() ==> #[trigger] values[j] == bit(
            index,
            (values.len() - 1 - j) as usize,
        )
}

/// `row` is row number `index` of the table of `tokens` over `variables`.
pub open spec fn is_row(row: Row, index: int, variables: Seq<char>, tokens: Seq<Token>) -> bool {
    &&& row.values@.len() == variables.len()
    &&& is_row_values(row.values@, index as usize)
    &&& value_of(parse(tokens), bindings(variables, row.values@)) == Ok::<bool, ParseError>(
        row.result,
    )
}

/// `table` is the truth table of the formula that `text` spells.
pub open spec fn is_truth_table(table: TruthTable, text: Seq<char>) -> bool {
    &&& lex(text) is Ok
    &&& is_variable_list(table.variables@, text)
    &&& table.variables@.len() <= MAX_VARIABLES
    &&& table.rows@.len() == pow2(table.variables@.len())
    &&& forall|i: int|
        0 <= i < table.rows@.len() ==> is_row(
            #[trigger] table.rows@[i],
            i,
            table.variables@,
            lex(text)->Ok_0,
        )
}

/// The first `n` bits of `index` as truth values, the highest of them first.
pub fn row_values(n: usize, index: usize) -> (values: Vec<bool>)
    requires
        n <= usize::BITS,
    ensures
        values@.len() == n,
        is_row_values(values@, index),
{
    let mut values: Vec<bool> = Vec::new();
    let mut j: usize = 0;
    while j < n
        invariant
            j <= n <= usize::BITS,
            values@.len() == j,
            forall|k: int| 0 <= k < j ==> #[trigger] values@[k] == bit(index, (n - 1 - k) as usize),
        decreases n - j,
    {
        values.push((index >> (n - j - 1)) & 1 == 1);
        j += 1;
    }
    values
}

/// The assignment that binds each of `variables` to the value at the same
/// place of `values`, as far as both reach.
pub fn bind(variables: &[char], values: &[bool]) -> (assignment: Assignment)
    ensures
        assignment@ == bindings(variables@, values@),
{
    let n = if variables.len() <= values.len() {
        variables.len()
    } else {
        values.len()
    };
    let mut assignment = Assignment::new();
    let mut j: usize = 0;
    while j < n
        invariant
            j <= n,
            n <= variables@.len(),
            n <= values@.len(),
            assignment@ == bindings_upto(variables@, values@, j as nat),
        decreases n - j,
    {
        assignment.insert(variables[j], values[j]);
        j += 1;
    }
    assignment
}

/// The truth table of the formula that `expr` spells.
///
/// The variables are the letters of `expr` in ascending order. Row `i` gives
/// the variable at place `j` of `n` bit `n - 1 - j` of `i`, so the rows count
/// upwards in binary with the first variable as the highest bit, and holds the
/// value of the formula under these values.
///
/// The text is split into tokens first, then its variables are counted, then
/// the tokens are read as a formula: the first of these steps that fails gives
/// the error.
pub fn truth_table(expr: &str) -> (result: Result<TruthTable, TableError>)
    ensures
        match result {
            Ok(table) => is_truth_table(table, expr@),
            Err(TableError::Lex(e)) => lex(expr@) == Err::<Seq<Token>, LexError>(e),
            Err(TableError::TooManyVariables { count }) => {
                &&& lex(expr@) is Ok
                &&& count == variable_set(expr@).len()
                &&& count > MAX_VARIABLES
            },
            Err(TableError::Parse(e)) => {
                &&& lex(expr@) is Ok
                &&& variable_set(expr@).len() <= MAX_VARIABLES
                &&& parse(lex(expr@)->Ok_0) == Err::<Formula, ParseError>(e)
            },
        },
{
    let tokens = match tokenize(expr) {
        Ok(tokens) => tokens,
        Err(e) => {
            return Err(TableError::Lex(e));
        },
    };
    let variables = extract_variables(expr);
    let n = variables.len();
    proof {
        lemma_variable_list_len(variables@, expr@);
    }
    if n > MAX_VARIABLES {
        return Err(TableError::TooManyVariables { count: n });
    }
    proof {
        lemma2_to64();
        if n < MAX_VARIABLES {
            lemma_pow2_strictly_increases(n as nat, MAX_VARIABLES as nat);
        }
        lemma_usize_shl_is_mul(1, n);
    }
    let total: usize = 1usize << n;
    let mut rows: Vec<Row> = Vec::new();
    let mut i: usize = 0;
    while i < total
        invariant
            i <= total,
            n == variables@.len(),
            n <= MAX_VARIABLES,
            lex(expr@) == Ok::<Seq<Token>, LexError>(tokens@),
            variable_set(expr@).len() == n,
            rows@.len() == i,
            forall|r: int| 0 <= r < i ==> is_row(#[trigger] rows@[r], r, variables@, tokens@),
        decreases total - i,
    {
        let values = row_values(n, i);
        let assignment = bind(variables.as_slice(), values.as_slice());
        let result = match evaluate(tokens.as_slice(), &assignment) {
            Ok(value) => value,
            Err(e) => {
                return Err(TableError::Parse(e));
            },
        };
        rows.push(Row { values, result });
        i += 1;
    }
    Ok(TruthTable { variables, rows })
}

} // verus!
