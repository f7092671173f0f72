//! Small helpers on vectors.
use vstd::prelude::*;

verus! {

/// `s` read from the back.
pub open spec fn backwards<T>(s: Seq<T>) -> Seq<T> {
    Seq::new(s.len(), |i: int| s[s.len() - 1 - i])
}

/// The elements of `v` in reverse order, so that popping yields them front first.
pub fn into_reversed<T>(v: Vec<T>) -> (r: Vec<T>)
    ensures
        r@ == backwards(v@),
{
    let mut v = v;
    let ghost all = v@;
    let mut rev: Vec<T> = Vec::new();
    while v.len() > 0
        invariant
            all == v@ + backwards(rev@),
        decreases v.len(),
    {
        let ghost before = v@;
        let t = v.pop().unwrap();
        rev.push(t);
        assert(backwards(rev@) =~= seq![t] + backwards(rev@.drop_last()));
        assert(before =~= v@.push(t));
        assert(all =~= v@ + backwards(rev@));
    }
    assert(all =~= backwards(rev@));
    assert(rev@ =~= backwards(all));
    rev
}

} // verus!
