use vstd::prelude::*;

verus! {

broadcast use vstd::std_specs::vec::group_vec_axioms;

/// The lines of the rewritten file: `text` first, then every original line unchanged.
pub fn prepend_line(text: &String, lines: &Vec<String>) -> (r: Vec<String>)
    ensures
        r@.map_values(|s: String| s@) == seq![text@] + lines@.map_values(|s: String| s@),
{
    let mut r: Vec<String> = Vec::new();
    r.push(text.clone());
    let mut i: usize = 0;
    while i < lines.len()
        invariant
            i <= lines.len(),
            r@.len() == i + 1,
            r@[0]@ == text@,
            forall|j: int| 0 <= j < i ==> r@[j + 1]@ == lines@[j]@,
        decreases lines.len() - i,
    {
        r.push(lines[i].clone());
        i = i + 1;
    }
    assert(r@.map_values(|s: String| s@) =~= seq![text@] + lines@.map_values(|s: String| s@));
    r
}

} // verus!
