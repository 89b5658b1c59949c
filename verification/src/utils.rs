//! Small shared helpers.

use vstd::prelude::*;

verus! {

/// Turns a borrowed slice of string slices into owned strings,
/// keeping order and contents.
pub fn vec_str_to_vec_string(s_vec: &[&str]) -> (r: Vec<String>)
    ensures
        r@.len() == s_vec@.len(),
        forall|i: int| 0 <= i < r@.len() ==> r@[i]@ == s_vec@[i]@,
{
    let mut r: Vec<String> = Vec::new();
    let mut i: usize = 0;
    while i < s_vec.len()
        invariant
            i <= s_vec@.len(),
            r@.len() == i,
            forall|j: int| 0 <= j < i ==> r@[j]@ == s_vec@[j]@,
        decreases s_vec@.len() - i,
    {
        r.push(s_vec[i].to_owned());
        i = i + 1;
    }
    r
}

} // verus!
