use vstd::prelude::*;

verus! {

use crate::ID;

/// Linear membership test on a list of ids.
pub fn contains_id(v: &Vec<ID>, x: ID) -> (b: bool)
    ensures
        b == v@.contains(x),
{
    let mut i: usize = 0;
    while i < v.len()
        invariant
            i <= v@.len(),
            forall|j: int| 0 <= j < i ==> v@[j] != x,
        decreases v@.len() - i,
    {
        if v[i] == x {
            return true;
        }
        i += 1;
    }
    false
}

/// Copies a list of ids element by element.
pub fn clone_id_vec(v: &Vec<ID>) -> (r: Vec<ID>)
    ensures
        r@ == v@,
{
    let mut out: Vec<ID> = Vec::new();
    let mut i: usize = 0;
    while i < v.len()
        invariant
            i <= v@.len(),
            out@.len() == i,
            forall|j: int| 0 <= j < i ==> out@[j] == v@[j],
        decreases v@.len() - i,
    {
        out.push(v[i]);
        i += 1;
    }
    proof {
        assert(out@ =~= v@);
    }
    out
}

/// Removes an id from a duplicate-free list, reporting whether it was there;
/// every other id keeps its membership.
pub fn remove_id(v: &mut Vec<ID>, x: ID) -> (found: bool)
    requires
        old(v)@.no_duplicates(),
    ensures
        found == old(v)@.contains(x),
        !final(v)@.contains(x),
        forall|y: ID| y != x ==> final(v)@.contains(y) == old(v)@.contains(y),
        final(v)@.len() == old(v)@.len() - (if found { 1int } else { 0int }),
        final(v)@.no_duplicates(),
    {
    let mut i: usize = 0;
    while i < v.len()
        invariant
            old(v)@.no_duplicates(),
            *v == *old(v),
            i <= v@.len(),
            forall|j: int| 0 <= j < i ==> v@[j] != x,
        decreases v@.len() - i,
    {
        if v[i] == x {
            v.remove(i);
            proof {
                old(v)@.remove_ensures(i as int);
                assert(!v@.contains(x)) by {
                    assert forall|k: int| 0 <= k < v@.len() implies v@[k] != x by {
                        if k < i {
                            assert(v@[k] == old(v)@[k]);
                        } else {
                            assert(v@[k] == old(v)@[k + 1]);
                        }
                    }
                }
                assert forall|y: ID| y != x && old(v)@.contains(y) implies v@.contains(y) by {
                    let k = choose|k: int| 0 <= k < old(v)@.len() && old(v)@[k] == y;
                    if k < i {
                        assert(v@[k] == y);
                    } else if k > i {
                        assert(v@[k - 1] == y);
                    }
                }
                assert forall|y: ID| v@.contains(y) implies old(v)@.contains(y) by {
                    let k = choose|k: int| 0 <= k < v@.len() && v@[k] == y;
                    if k < i {
                        assert(old(v)@[k] == y);
                    } else {
                        assert(old(v)@[k + 1] == y);
                    }
                }
            }
            return true;
        }
        i += 1;
    }
    false
}

/// Linear membership test on a list of connection identities.
pub fn contains_conn(v: &Vec<crate::ConnId>, x: crate::ConnId) -> (b: bool)
    ensures
        b == v@.contains(x),
{
    let mut i: usize = 0;
    while i < v.len()
        invariant
            i <= v@.len(),
            forall|j: int| 0 <= j < i ==> v@[j] != x,
        decreases v@.len() - i,
    {
        if v[i] == x {
            return true;
        }
        i += 1;
    }
    false
}

} // verus!
