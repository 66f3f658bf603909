//! Assignments: which variables are bound, and to which truth value.

use std::collections::HashMap;
use vstd::prelude::*;
use crate::formula::truth;

verus! {

/// A finite map from variables to truth values. Each variable is bound at
/// most once; binding it again replaces the value.
pub struct Assignment {
    /// The values, keyed by the variable's code point.
    values: HashMap<u32, bool>,
}

/// The key under which a variable's value is kept: its code point.
spec fn key(variable: char) -> u32 {
    variable as u32
}

impl View for Assignment {
    type V = Map<char, bool>;

    closed spec fn view(&self) -> Map<char, bool> {
        Map::new(
            |c: char| self.values@.contains_key(key(c)),
            |c: char| self.values@[key(c)],
        )
    }
}

impl Assignment {
    /// The assignment that binds no variable.
    pub fn new() -> (assignment: Self)
        ensures
            assignment@ == Map::<char, bool>::empty(),
    {
        let assignment = Assignment { values: HashMap::new() };
        assert(assignment@ =~= Map::<char, bool>::empty());
        assignment
    }

    /// Binds `variable` to `value`, and returns the value it was bound to before.
    pub fn insert(&mut self, variable: char, value: bool) -> (previous: Option<bool>)
        ensures
            final(self)@ == old(self)@.insert(variable, value),
            previous == if old(self)@.contains_key(variable) {
                Some(old(self)@[variable])
            } else {
                None::<bool>
            },
    {
        let previous = self.values.insert(variable as u32, value);
        assert forall|c: char| #[trigger] key(c) == key(variable) implies c == variable by {
            vstd::utf8::char_u32_cast(c, key(c));
            vstd::utf8::char_u32_cast(variable, key(variable));
        }
        assert(self@ =~= old(self)@.insert(variable, value));
        previous
    }

    /// The value that `variable` is bound to, if it is bound.
    pub fn get(&self, variable: char) -> (value: Option<bool>)
        ensures
            value == if self@.contains_key(variable) {
                Some(self@[variable])
            } else {
                None::<bool>
            },
    {
        match self.values.get(&(variable as u32)) {
            Some(value) => Some(*value),
            None => None,
        }
    }

    /// The truth value of `variable`: false where it is not bound.
    pub fn value_of(&self, variable: char) -> (value: bool)
        ensures
            value == truth(self@, variable),
    {
        match self.get(variable) {
            Some(value) => value,
            None => false,
        }
    }
}

} // verus!
