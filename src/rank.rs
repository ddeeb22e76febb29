use vstd::prelude::*;

use crate::sizer::DirectoryInfo;

verus! {

broadcast use {vstd::std_specs::vec::group_vec_axioms, vstd::seq_lib::group_to_multiset_ensures};

/// Sizes do not grow along `s`.
pub open spec fn sorted_by_size_desc(s: Seq<DirectoryInfo>) -> bool {
    forall|i: int, j: int| 0 <= i < j < s.len() ==> s[i].size >= s[j].size
}

/// Every record of `top` is at least as large as every record of `rest`.
pub open spec fn dominates(top: Seq<DirectoryInfo>, rest: Seq<DirectoryInfo>) -> bool {
    forall|i: int, j: int| 0 <= i < top.len() && 0 <= j < rest.len() ==> top[i].size >= rest[j].size
}

/// The `count` largest records of `results`, largest first. Records of equal
/// size come in no particular order.
pub fn largest(results: Vec<DirectoryInfo>, count: usize) -> (r: Vec<DirectoryInfo>)
    ensures
        r.len() == if count < results.len() {
            count as int
        } else {
            results.len() as int
        },
        sorted_by_size_desc(r@),
        exists|rest: Seq<DirectoryInfo>|
            (r@ + rest).to_multiset() == results@.to_multiset() && #[trigger] dominates(r@, rest),
        count >= results.len() ==> r@.to_multiset() == results@.to_multiset(),
{
    let ghost all = results@;
    let mut rest = results;
    let mut out: Vec<DirectoryInfo> = Vec::new();
    proof {
        assert(out@ + rest@ =~= all);
    }
    while out.len() < count && rest.len() > 0
        invariant
            out.len() <= count,
            out.len() + rest.len() == all.len(),
            (out@ + rest@).to_multiset() == all.to_multiset(),
            sorted_by_size_desc(out@),
            dominates(out@, rest@),
        decreases rest.len(),
    {
        let mut best: usize = 0;
        let mut j: usize = 1;
        while j < rest.len()
            invariant
                0 <= best < rest.len(),
                1 <= j <= rest.len(),
                forall|m: int| 0 <= m < j ==> rest@[m].size <= rest@[best as int].size,
            decreases rest.len() - j,
        {
            if rest[j].size > rest[best].size {
                best = j;
            }
            j = j + 1;
        }
        let ghost old_out = out@;
        let ghost old_rest = rest@;
        let x = rest.remove(best);
        out.push(x);
        proof {
            vstd::seq_lib::lemma_multiset_commutative(old_out, old_rest);
            vstd::seq_lib::lemma_multiset_commutative(out@, rest@);
            assert(out@ == old_out.push(x));
            assert(rest@ == old_rest.remove(best as int));
            assert((out@ + rest@).to_multiset() =~= all.to_multiset());
            assert forall|m: int| 0 <= m < rest@.len() implies rest@[m].size <= x.size by {
                if m < best {
                    assert(rest@[m] == old_rest[m]);
                } else {
                    assert(rest@[m] == old_rest[m + 1]);
                }
            }
        }
    }
    proof {
        assert(dominates(out@, rest@));
        if count >= all.len() {
            assert(rest@.len() == 0);
            assert(out@ + rest@ =~= out@);
        }
    }
    out
}

} // verus!
