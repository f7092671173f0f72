//! Finite sets of variable ids, kept as vectors without repetition.
use vstd::prelude::*;

verus! {

/// Whether `x` is among `s`.
pub fn contains(s: &Vec<u32>, x: u32) -> (r: bool)
    ensures
        r == s@.contains(x),
        r == s@.to_set().contains(x),
{
    let mut i: usize = 0;
    while i < s.len()
        invariant
            i <= s@.len(),
            forall|k: int| 0 <= k < i ==> s@[k] != x,
        decreases s.len() - i,
    {
        if s[i] == x {
            assert(s@.to_set().contains(x));
            return true;
        }
        i = i + 1;
    }
    false
}

/// Adds `x` to the set `s`.
pub fn insert(s: &mut Vec<u32>, x: u32)
    requires
        old(s)@.no_duplicates(),
    ensures
        final(s)@.no_duplicates(),
        final(s)@.to_set() == old(s)@.to_set().insert(x),
{
    if !contains(s, x) {
        let ghost before = s@;
        s.push(x);
        proof {
            assert(s@.to_set() =~= before.to_set().insert(x)) by {
                assert forall|y: u32| s@.to_set().contains(y) implies before.to_set().insert(x).contains(y) by {
                    let k = choose|k: int| 0 <= k < s@.len() && s@[k] == y;
                    if k < before.len() {
                        assert(before[k] == y);
                    }
                }
                assert forall|y: u32| before.to_set().insert(x).contains(y) implies s@.to_set().contains(y) by {
                    if y == x {
                        assert(s@[s@.len() - 1] == x);
                    } else {
                        let k = choose|k: int| 0 <= k < before.len() && before[k] == y;
                        assert(s@[k] == y);
                    }
                }
            }
        }
    } else {
        assert(s@.to_set().insert(x) =~= s@.to_set());
    }
}

/// Adds every element of `t` to the set `s`.
pub fn insert_all(s: &mut Vec<u32>, t: &Vec<u32>)
    requires
        old(s)@.no_duplicates(),
    ensures
        final(s)@.no_duplicates(),
        final(s)@.to_set() == old(s)@.to_set().union(t@.to_set()),
{
    let mut i: usize = 0;
    while i < t.len()
        invariant
            i <= t@.len(),
            s@.no_duplicates(),
            s@.to_set() == old(s)@.to_set().union(t@.take(i as int).to_set()),
        decreases t.len() - i,
    {
        insert(s, t[i]);
        proof {
            assert(t@.take(i + 1) =~= t@.take(i as int).push(t@[i as int]));
            lemma_to_set_push(t@.take(i as int), t@[i as int]);
        }
        i = i + 1;
    }
    assert(t@.take(t@.len() as int) =~= t@);
}

pub proof fn lemma_to_set_push(s: Seq<u32>, x: u32)
    ensures
        s.push(x).to_set() == s.to_set().insert(x),
{
    assert(s.push(x).to_set() =~= s.to_set().insert(x)) by {
        assert forall|y: u32| s.push(x).to_set().contains(y) implies s.to_set().insert(x).contains(y) by {
            let k = choose|k: int| 0 <= k < s.push(x).len() && s.push(x)[k] == y;
            if k < s.len() {
                assert(s[k] == y);
            }
        }
        assert forall|y: u32| s.to_set().insert(x).contains(y) implies s.push(x).to_set().contains(y) by {
            if y == x {
                assert(s.push(x)[s.len() as int] == x);
            } else {
                let k = choose|k: int| 0 <= k < s.len() && s[k] == y;
                assert(s.push(x)[k] == y);
            }
        }
    }
}

/// The elements of `s` that are not in `t`.
pub fn difference(s: &Vec<u32>, t: &Vec<u32>) -> (r: Vec<u32>)
    requires
        s@.no_duplicates(),
    ensures
        r@.no_duplicates(),
        r@.to_set() == s@.to_set().difference(t@.to_set()),
{
    let mut r: Vec<u32> = Vec::new();
    let mut i: usize = 0;
    while i < s.len()
        invariant
            i <= s@.len(),
            s@.no_duplicates(),
            r@.no_duplicates(),
            r@.to_set() == s@.take(i as int).to_set().difference(t@.to_set()),
        decreases s.len() - i,
    {
        let x = s[i];
        let ghost before = r@;
        proof {
            assert(s@.take(i + 1) =~= s@.take(i as int).push(x));
            lemma_to_set_push(s@.take(i as int), x);
        }
        if !contains(t, x) {
            insert(&mut r, x);
            assert(r@.to_set() =~= s@.take(i + 1).to_set().difference(t@.to_set()));
        } else {
            assert(r@.to_set() =~= s@.take(i + 1).to_set().difference(t@.to_set()));
        }
        i = i + 1;
    }
    assert(s@.take(s@.len() as int) =~= s@);
    r
}

} // verus!

verus! {

/// Where `x` stands in `s`.
pub fn index_of(s: &Vec<u32>, x: u32) -> (r: Option<usize>)
    ensures
        r is Some ==> r->0 < s@.len() && s@[r->0 as int] == x,
        r is None ==> !s@.contains(x),
{
    let mut i: usize = 0;
    while i < s.len()
        invariant
            i <= s@.len(),
            forall|k: int| 0 <= k < i ==> s@[k] != x,
        decreases s.len() - i,
    {
        if s[i] == x {
            return Some(i);
        }
        i = i + 1;
    }
    None
}

} // verus!
