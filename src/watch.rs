use vstd::prelude::*;
use crate::executor::lines;
use crate::manifest::{contains_name, names_contain};

verus! {

/// The paths of `a` that `b` lacks, in the order of `a`.
pub open spec fn missing_from(a: Seq<String>, b: Seq<String>) -> Seq<Seq<char>>
    decreases a.len(),
{
    if a.len() == 0 {
        seq![]
    } else if names_contain(b, a.last()@) {
        missing_from(a.drop_last(), b)
    } else {
        missing_from(a.drop_last(), b).push(a.last()@)
    }
}

/// The paths of `a` that `b` lacks. With the watched set as `a` and the
/// wanted set as `b` these are the watches to release; the other way
/// round, the paths to start watching.
pub fn paths_missing_from(a: &Vec<String>, b: &Vec<String>) -> (r: Vec<String>)
    ensures
        lines(r@) == missing_from(a@, b@),
{
    let mut r: Vec<String> = Vec::new();
    let mut i: usize = 0;
    assert(a@.subrange(0, 0) =~= Seq::<String>::empty());
    assert(lines(r@) =~= Seq::<Seq<char>>::empty());
    while i < a.len()
        invariant
            i <= a@.len(),
            lines(r@) == missing_from(a@.subrange(0, i as int), b@),
        decreases a@.len() - i,
    {
        assert(a@.subrange(0, i + 1).drop_last() =~= a@.subrange(0, i as int));
        if !contains_name(b, &a[i]) {
            let ghost before = r@;
            r.push(a[i].clone());
            assert(lines(r@) =~= lines(before).push(a@[i as int]@));
        }
        i = i + 1;
    }
    assert(a@.subrange(0, i as int) =~= a@);
    r
}

} // verus!
