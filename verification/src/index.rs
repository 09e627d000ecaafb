//! Deciding which generated files the manifest keeps current.

use vstd::prelude::*;

verus! {

/// The path is listed among the expected paths of its category.
pub open spec fn spec_should_keep(rel: Seq<char>, expected: Seq<Seq<char>>) -> bool {
    exists|i: int| 0 <= i < expected.len() && expected[i] == rel
}

/// A generated file is kept exactly when its repository-relative path stands
/// in the manifest's expected paths for its category.
pub fn should_keep(rel: &String, expected: &Vec<String>) -> (r: bool)
    ensures
        r == spec_should_keep(rel@, expected.deep_view()),
{
    let mut i: usize = 0;
    while i < expected.len()
        invariant
            0 <= i <= expected.len(),
            forall|k: int| 0 <= k < i ==> expected.deep_view()[k] != rel@,
        decreases expected.len() - i,
    {
        proof {
            assert(expected.deep_view()[i as int] == expected@[i as int]@);
        }
        if expected[i].eq(rel) {
            return true;
        }
        i = i + 1;
    }
    false
}

} // verus!
