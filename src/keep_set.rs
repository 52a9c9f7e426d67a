//! The descriptors that a marking pass leaves open across `exec`.
use vstd::prelude::*;
use vstd::relations::{sorted_by, total_ordering};
use vstd::seq_lib::lemma_sorted_unique;

verus! {

/// True when `s` is in ascending order.
pub open spec fn ascending(s: Seq<i32>) -> bool {
    forall|i: int, j: int| 0 <= i < j < s.len() ==> s[i] <= s[j]
}

/// True when `k` is what a keep set made from `input` holds: the numbers of
/// `input`, each as often as it occurs there, in ascending order.
pub open spec fn is_keep_of(k: Seq<i32>, input: Seq<i32>) -> bool {
    ascending(k) && k.to_multiset() == input.to_multiset()
}

/// Relies on `slice::sort_unstable`: it leaves the elements in ascending
/// order and neither adds nor drops an element.
#[verifier::external_body]
fn sort_fds(v: &mut Vec<i32>)
    ensures
        ascending(final(v)@),
        final(v)@.to_multiset() == old(v)@.to_multiset(),
{
    v.sort_unstable()
}

/// The descriptor numbers that must not be marked close-on-exec, sorted
/// ascending so that a lookup is a binary search. Fixed once made.
pub struct KeepSet {
    fds: Vec<i32>,
}

impl View for KeepSet {
    type V = Seq<i32>;

    closed spec fn view(&self) -> Seq<i32> {
        self.fds@
    }
}

impl KeepSet {
    #[verifier::type_invariant]
    spec fn inv(&self) -> bool {
        ascending(self.fds@)
    }

    /// Makes the keep set of `keep_fds`, given in any order. A number given
    /// twice is held twice, which changes no lookup.
    pub fn new(keep_fds: Vec<i32>) -> (r: KeepSet)
        ensures
            is_keep_of(r@, keep_fds@),
    {
        let mut fds = keep_fds;
        sort_fds(&mut fds);
        KeepSet { fds }
    }

    /// The numbers held, in ascending order.
    pub fn as_slice(&self) -> (r: &[i32])
        ensures
            r@ == self@,
            ascending(r@),
    {
        proof {
            use_type_invariant(self);
        }
        self.fds.as_slice()
    }

    /// True when `fd` is one of the kept descriptors.
    pub fn contains(&self, fd: i32) -> (r: bool)
        ensures
            r == self@.contains(fd),
    {
        proof {
            use_type_invariant(self);
        }
        let fds = &self.fds;
        // Every number below `lo` is smaller than `fd`, every one from `hi`
        // on is larger.
        let mut lo: usize = 0;
        let mut hi: usize = fds.len();
        while lo < hi
            invariant
                0 <= lo <= hi <= fds@.len(),
                fds@ == self@,
                ascending(fds@),
                forall|i: int| 0 <= i < lo ==> fds@[i] < fd,
                forall|i: int| hi <= i < fds@.len() ==> fds@[i] > fd,
            decreases hi - lo,
        {
            let mid = lo + (hi - lo) / 2;
            if fds[mid] == fd {
                assert(self@[mid as int] == fd);
                return true;
            } else if fds[mid] < fd {
                lo = mid + 1;
            } else {
                hi = mid;
            }
        }
        false
    }
}

/// The keep set does not depend on the order in which its numbers are given:
/// from two inputs that are permutations of each other come identical keep
/// sets.
pub proof fn lemma_keep_order_independent(a: Seq<i32>, b: Seq<i32>, ka: Seq<i32>, kb: Seq<i32>)
    requires
        a.to_multiset() == b.to_multiset(),
        is_keep_of(ka, a),
        is_keep_of(kb, b),
    ensures
        ka == kb,
{
    let leq = |x: i32, y: i32| x <= y;
    assert(total_ordering(leq));
    assert(sorted_by(ka, leq));
    assert(sorted_by(kb, leq));
    lemma_sorted_unique(ka, kb, leq);
}

} // verus!
