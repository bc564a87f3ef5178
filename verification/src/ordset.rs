//! Strictly sorted duplicate-free sequences of `u32` values.
//!
//! Token generation deduplicates day-hour pairs, days and hours into
//! ascending order. This module models that as a fold of an ordered
//! insertion ([`insert_one`]) and provides the verified executable
//! insertion on `Vec<u32>`.

use vstd::prelude::*;

verus! {

/// The sequence is strictly increasing, hence duplicate-free.
pub open spec fn sorted_strict(s: Seq<u32>) -> bool {
    forall|i: int, j: int| 0 <= i < j < s.len() ==> s[i] < s[j]
}

/// Insert `x` into the strictly sorted sequence `s`, keeping it strictly
/// sorted; inserting a present value leaves the sequence unchanged.
pub open spec fn insert_one(s: Seq<u32>, x: u32) -> Seq<u32>
    decreases s.len(),
{
    if s.len() == 0 {
        seq![x]
    } else if s.last() < x {
        s.push(x)
    } else if s.last() == x {
        s
    } else {
        insert_one(s.drop_last(), x).push(s.last())
    }
}

/// [`insert_one`] keeps the sequence strictly sorted and its value set is
/// the old value set plus the inserted value.
pub proof fn lemma_insert_one_props(s: Seq<u32>, x: u32)
    requires
        sorted_strict(s),
    ensures
        sorted_strict(insert_one(s, x)),
        forall|y: u32| #[trigger] insert_one(s, x).contains(y) ==> (s.contains(y) || y == x),
        forall|y: u32| s.contains(y) ==> #[trigger] insert_one(s, x).contains(y),
        insert_one(s, x).contains(x),
    decreases s.len(),
{
    let r = insert_one(s, x);
    if s.len() == 0 {
        assert forall|y: u32| r.contains(y) implies (s.contains(y) || y == x) by {
            assert(r[choose|i: int| 0 <= i < r.len() && r[i] == y] == x);
        }
        assert(r.contains(x)) by {
            assert(r[0] == x);
        }
    } else if s.last() < x {
        assert forall|y: u32| r.contains(y) implies (s.contains(y) || y == x) by {
            let i = choose|i: int| 0 <= i < r.len() && r[i] == y;
            if i < s.len() {
                assert(s[i] == y);
            }
        }
        assert forall|y: u32| s.contains(y) || y == x implies r.contains(y) by {
            if s.contains(y) {
                let i = choose|i: int| 0 <= i < s.len() && s[i] == y;
                assert(r[i] == y);
            } else {
                assert(r[s.len() as int] == x);
            }
        }
    } else if s.last() == x {
        assert(s.contains(x)) by {
            assert(s[s.len() - 1] == x);
        }
    } else {
        let t = s.drop_last();
        assert(sorted_strict(t));
        lemma_insert_one_props(t, x);
        let u = insert_one(t, x);
        // every element of u is below s.last()
        assert forall|k: int| 0 <= k < u.len() implies u[k] < s.last() by {
            assert(u.contains(u[k]));
            if t.contains(u[k]) {
                let i = choose|i: int| 0 <= i < t.len() && t[i] == u[k];
                assert(s[i] < s[s.len() - 1]);
            }
        }
        assert(sorted_strict(r)) by {
            assert forall|i: int, j: int| 0 <= i < j < r.len() implies r[i] < r[j] by {
                if j < u.len() {
                    assert(u[i] < u[j]);
                } else {
                    assert(r[j] == s.last());
                    assert(r[i] == u[i]);
                }
            }
        }
        assert forall|y: u32| r.contains(y) implies (s.contains(y) || y == x) by {
            let i = choose|i: int| 0 <= i < r.len() && r[i] == y;
            if i < u.len() {
                assert(u.contains(u[i]));
                if t.contains(y) {
                    let k = choose|k: int| 0 <= k < t.len() && t[k] == y;
                    assert(s[k] == y);
                }
            } else {
                assert(y == s.last());
                assert(s[s.len() - 1] == y);
            }
        }
        assert forall|y: u32| s.contains(y) implies r.contains(y) by {
            let i = choose|i: int| 0 <= i < s.len() && s[i] == y;
            if i < s.len() - 1 {
                assert(t[i] == y);
                assert(t.contains(y));
                assert(u.contains(y));
                let k = choose|k: int| 0 <= k < u.len() && u[k] == y;
                assert(r[k] == y);
            } else {
                assert(r[r.len() - 1] == y);
            }
        }
        assert(r.contains(x)) by {
            assert(u.contains(x));
            let k = choose|k: int| 0 <= k < u.len() && u[k] == x;
            assert(r[k] == x);
        }
    }
}

/// Verified executable counterpart of [`insert_one`].
pub fn insert_one_vec(v: &mut Vec<u32>, x: u32)
    ensures
        final(v)@ == insert_one(old(v)@, x),
    decreases old(v)@.len(),
{
    let n = v.len();
    if n == 0 {
        v.push(x);
    } else {
        let last = v[n - 1];
        if last < x {
            v.push(x);
        } else if last == x {
        } else {
            let popped = v.pop().unwrap();
            insert_one_vec(v, x);
            v.push(popped);
        }
    }
}

} // verus!
