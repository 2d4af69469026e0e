//! Ordering of collected scan results.
//!
//! Workers report open ports in an arbitrary interleaving; the collector
//! turns that unordered pile into a deterministic report by sorting it
//! ascending. [`sort_ports`] keeps exactly the collected ports, and
//! [`lemma_sorted_output_unique`] shows that the sorted rendering depends
//! only on which ports were collected — not on the worker count or on the
//! order in which results arrived.

use vstd::prelude::*;
use vstd::relations::{sorted_by, total_ordering};
use vstd::seq_lib::lemma_sorted_unique;

verus! {

/// The port sequence is in ascending order.
pub open spec fn sorted(s: Seq<u16>) -> bool {
    forall|i: int, j: int| 0 <= i <= j < s.len() ==> s[i] <= s[j]
}

/// Sort the collected results in place, ascending. The result holds
/// exactly the ports that were collected: nothing is added, dropped or
/// duplicated, so an empty collection stays empty.
pub fn sort_ports(v: &mut Vec<u16>)
    ensures
        sorted(final(v)@),
        final(v)@.to_multiset() == old(v)@.to_multiset(),
        final(v)@.len() == old(v)@.len(),
{
    broadcast use vstd::seq_lib::to_multiset_update;
    broadcast use vstd::seq_lib::group_to_multiset_ensures;
    broadcast use vstd::multiset::group_multiset_axioms;

    let mut i: usize = 1;
    while i < v.len()
        invariant
            1 <= i,
            v@.len() == old(v)@.len(),
            v@.to_multiset() == old(v)@.to_multiset(),
            forall|a: int, b: int| 0 <= a <= b < i && b < v@.len() ==> v@[a] <= v@[b],
        decreases v@.len() - i,
    {
        let mut j: usize = i;
        while j > 0 && v[j - 1] > v[j]
            invariant
                0 <= j <= i < v@.len(),
                v@.len() == old(v)@.len(),
                v@.to_multiset() == old(v)@.to_multiset(),
                forall|a: int, b: int|
                    0 <= a <= b <= i && b != j ==> v@[a] <= v@[b],
            decreases j,
        {
            let x = v[j - 1];
            let y = v[j];
            let ghost before = v@;
            v[j - 1] = y;
            v[j] = x;
            proof {
                assert(before.contains(x)) by {
                    assert(before[j - 1] == x);
                }
                assert(before.contains(y)) by {
                    assert(before[j as int] == y);
                }
                before.to_multiset_ensures();
                before.update(j - 1, y).to_multiset_ensures();
                assert(before.to_multiset().count(x) > 0);
                assert(before.to_multiset().count(y) > 0);
                let s1 = before.update(j - 1, y);
                vstd::seq_lib::to_multiset_update(before, j - 1, y);
                vstd::seq_lib::to_multiset_update(s1, j as int, x);
                assert(v@ == s1.update(j as int, x));
                assert(s1[j as int] == y);
                assert(s1.to_multiset() == before.to_multiset().insert(y).remove(x));
                assert(v@.to_multiset() == s1.to_multiset().insert(x).remove(y));
                assert(v@.to_multiset() =~= before.to_multiset());
            }
            j = j - 1;
        }
        proof {
            assert forall|a: int, b: int| 0 <= a <= b <= i implies v@[a] <= v@[b] by {
                if b == j && a < b {
                    assert(v@[a] <= v@[j - 1]);
                }
            }
        }
        i = i + 1;
    }
}

/// Determinism of the report: two sorted sequences built from the same
/// collected multiset of open ports are identical. However the workers
/// interleave, and whatever the worker count, the final report is fixed by
/// the set of open ports alone.
pub proof fn lemma_sorted_output_unique(a: Seq<u16>, b: Seq<u16>)
    requires
        sorted(a),
        sorted(b),
        a.to_multiset() == b.to_multiset(),
    ensures
        a == b,
{
    let leq = |x: u16, y: u16| x <= y;
    assert forall|x: u16, y: u16| #[trigger] leq(x, y) || #[trigger] leq(y, x) by {}
    assert(total_ordering(leq));
    assert(sorted_by(a, leq));
    assert(sorted_by(b, leq));
    lemma_sorted_unique(a, b, leq);
    assert(a =~= b);
}

} // verus!
