//! The variables of a formula, read off its text.

use vstd::prelude::*;
use crate::token::{is_variable_char, is_variable};
use crate::lexer::characters;

verus! {

/// Every element is smaller than those behind it, by code point.
pub open spec fn strictly_ascending(s: Seq<char>) -> bool {
    forall|i: int, j: int| 0 <= i < j < s.len() ==> #[trigger] s[i] < #[trigger] s[j]
}

/// `variables` lists the variable characters that occur in `text`: each of
/// them once, in ascending order, and nothing else.
pub open spec fn is_variable_list(variables: Seq<char>, text: Seq<char>) -> bool {
    &&& strictly_ascending(variables)
    &&& forall|c: char|
        #![trigger variables.contains(c)]
        #![trigger text.contains(c)]
        variables.contains(c) <==> text.contains(c) && is_variable_char(c)
}

/// The variable characters that occur in `text`.
pub open spec fn variable_set(text: Seq<char>) -> Set<char> {
    Set::new(|c: char| text.contains(c) && is_variable_char(c))
}

/// A variable list has as many places as the text has distinct variables.
pub proof fn lemma_variable_list_len(variables: Seq<char>, text: Seq<char>)
    requires
        is_variable_list(variables, text),
    ensures
        variable_set(text).finite(),
        variables.len() == variable_set(text).len(),
        variables.no_duplicates(),
{
    assert(variables.to_set() =~= variable_set(text));
    variables.unique_seq_to_set();
}

/// Two ascending lists with the same members are the same list.
pub proof fn lemma_ascending_unique(a: Seq<char>, b: Seq<char>)
    requires
        strictly_ascending(a),
        strictly_ascending(b),
        forall|c: char|
            #![trigger a.contains(c)]
            #![trigger b.contains(c)]
            a.contains(c) <==> b.contains(c),
    ensures
        a == b,
    decreases a.len(),
{
    if a.len() == 0 {
        if b.len() > 0 {
            assert(b.contains(b[0]));
        }
        assert(a =~= b);
    } else {
        // The largest member stands last in both lists.
        let last = a.len() - 1;
        assert(a.contains(a[last]));
        let i = choose|i: int| 0 <= i < b.len() && b[i] == a[last];
        assert(b.contains(b[b.len() - 1]));
        let j = choose|j: int| 0 <= j < a.len() && a[j] == b[b.len() - 1];
        assert(i == b.len() - 1);
        let (front_a, front_b) = (a.drop_last(), b.drop_last());
        assert forall|c: char|
            #![trigger front_a.contains(c)]
            #![trigger front_b.contains(c)]
            front_a.contains(c) <==> front_b.contains(c) by {
            if front_a.contains(c) {
                let k = choose|k: int| 0 <= k < front_a.len() && front_a[k] == c;
                assert(a[k] == c);
                assert(a.contains(c));
                let m = choose|m: int| 0 <= m < b.len() && b[m] == c;
                assert(front_b[m] == c);
            }
            if front_b.contains(c) {
                let k = choose|k: int| 0 <= k < front_b.len() && front_b[k] == c;
                assert(b[k] == c);
                assert(b.contains(c));
                let m = choose|m: int| 0 <= m < a.len() && a[m] == c;
                assert(front_a[m] == c);
            }
        }
        lemma_ascending_unique(front_a, front_b);
        assert(a =~= front_a.push(a[last]));
        assert(b =~= front_b.push(b[i]));
    }
}

/// A text has one variable list only.
pub proof fn law_variable_list_is_unique(a: Seq<char>, b: Seq<char>, text: Seq<char>)
    requires
        is_variable_list(a, text),
        is_variable_list(b, text),
    ensures
        a == b,
{
    assert forall|c: char|
        #![trigger a.contains(c)]
        #![trigger b.contains(c)]
        a.contains(c) <==> b.contains(c) by {
        assert(a.contains(c) <==> text.contains(c) && is_variable_char(c));
    }
    lemma_ascending_unique(a, b);
}

/// Adds `c` to the ascending list `variables`, unless it is there.
fn insert_ascending(variables: &mut Vec<char>, c: char)
    requires
        strictly_ascending(old(variables)@),
    ensures
        strictly_ascending(final(variables)@),
        forall|x: char|
            #![trigger final(variables)@.contains(x)]
            #![trigger old(variables)@.contains(x)]
            final(variables)@.contains(x) <==> old(variables)@.contains(x) || x == c,
{
    let n = variables.len();
    let mut i: usize = 0;
    while i < n && variables[i] < c
        invariant
            n == variables.len(),
            variables@ == old(variables)@,
            i <= n,
            forall|k: int| 0 <= k < i ==> variables@[k] < c,
        decreases n - i,
    {
        i += 1;
    }
    if i < n && variables[i] == c {
        assert(variables@.contains(c));
    } else {
        let ghost before = variables@;
        variables.insert(i, c);
        assert(variables@ == before.insert(i as int, c));
        assert forall|x: char|
            #![trigger variables@.contains(x)]
            #![trigger before.contains(x)]
            variables@.contains(x) <==> before.contains(x) || x == c by {
            if variables@.contains(x) {
                let k = choose|k: int| 0 <= k < variables@.len() && variables@[k] == x;
                if k < i {
                    assert(before[k] == x);
                } else if k > i {
                    assert(before[k - 1] == x);
                }
            }
            if before.contains(x) {
                let k = choose|k: int| 0 <= k < before.len() && before[k] == x;
                if k < i {
                    assert(variables@[k] == x);
                } else {
                    assert(variables@[k + 1] == x);
                }
            }
            if x == c {
                assert(variables@[i as int] == x);
            }
        }
    }
}

/// The variables of `expr`: the ASCII letters that occur in it, each once, in
/// ascending order of their code points (upper case before lower case).
pub fn extract_variables(expr: &str) -> (variables: Vec<char>)
    ensures
        is_variable_list(variables@, expr@),
{
    let chars = characters(expr);
    let mut variables: Vec<char> = Vec::new();
    let mut i: usize = 0;
    while i < chars.len()
        invariant
            chars@ == expr@,
            i <= chars.len(),
            is_variable_list(variables@, chars@.take(i as int)),
        decreases chars.len() - i,
    {
        let c = chars[i];
        let ghost before = variables@;
        let ghost seen = chars@.take(i as int);
        let ghost now = chars@.take(i + 1);
        assert(now == seen.push(c));
        assert forall|x: char|
            #![trigger now.contains(x)]
            #![trigger seen.contains(x)]
            now.contains(x) <==> seen.contains(x) || x == c by {
            if now.contains(x) {
                let k = choose|k: int| 0 <= k < now.len() && now[k] == x;
                if k < i {
                    assert(seen[k] == x);
                }
            }
            if seen.contains(x) {
                let k = choose|k: int| 0 <= k < seen.len() && seen[k] == x;
                assert(now[k] == x);
            }
            if x == c {
                assert(now[i as int] == x);
            }
        }
        if is_variable(c) {
            insert_ascending(&mut variables, c);
        }
        assert forall|x: char|
            #![trigger variables@.contains(x)]
            #![trigger now.contains(x)]
            variables@.contains(x) <==> now.contains(x) && is_variable_char(x) by {
            assert(before.contains(x) <==> seen.contains(x) && is_variable_char(x));
        }
        i += 1;
    }
    assert(chars@.take(i as int) == chars@);
    variables
}

} // verus!
