//! Key ranges and the static partitioner: a range `[lower, upper]` is split
//! into per-worker sub-ranges that cover it exactly once.

use vstd::prelude::*;
use crate::u256::{U256, pow256};

verus! {

/// An inclusive range of candidate keys. Once assigned to a worker it is
/// never changed.
#[derive(Clone, Copy, PartialEq, Eq, Structural, Debug)]
pub struct KeyRange {
    pub lower: U256,
    pub upper: U256,
}

impl KeyRange {
    /// A range is well formed when its bounds are ordered.
    pub open spec fn wf(self) -> bool {
        self.lower.as_nat() <= self.upper.as_nat()
    }

    /// Whether a key value lies in the range.
    pub open spec fn spec_contains(self, k: nat) -> bool {
        self.lower.as_nat() <= k <= self.upper.as_nat()
    }

    /// How many keys the range holds.
    pub open spec fn count(self) -> nat {
        (self.upper.as_nat() - self.lower.as_nat() + 1) as nat
    }

    /// Builds a range after checking that the bounds are ordered.
    pub fn new(lower: U256, upper: U256) -> (r: Option<KeyRange>)
        ensures
            r is Some <==> lower.as_nat() <= upper.as_nat(),
            r is Some ==> r->0 == (KeyRange { lower, upper }),
    {
        if lower.le(&upper) {
            Some(KeyRange { lower, upper })
        } else {
            None
        }
    }
}

/// Sub-ranges chained end to end: the first starts at `lo`, the last ends at
/// `hi`, and each one starts right after its predecessor ends.
pub open spec fn is_chain(parts: Seq<KeyRange>, lo: nat, hi: nat) -> bool {
    &&& parts.len() > 0
    &&& parts[0].lower.as_nat() == lo
    &&& parts[parts.len() - 1].upper.as_nat() == hi
    &&& forall|i: int| 0 <= i < parts.len() ==> (#[trigger] parts[i]).wf()
    &&& forall|i: int|
        #![trigger parts[i], parts[i + 1]]
        0 <= i < parts.len() - 1 ==> parts[i + 1].lower.as_nat() == parts[i].upper.as_nat() + 1
}

/// Dropping the last member of a chain leaves a chain that ends where the
/// last member starts.
proof fn lemma_chain_front(parts: Seq<KeyRange>, lo: nat, hi: nat)
    requires
        is_chain(parts, lo, hi),
        parts.len() > 1,
    ensures
        parts.last().lower.as_nat() >= 1,
        is_chain(parts.drop_last(), lo, (parts.last().lower.as_nat() - 1) as nat),
{
    let front = parts.drop_last();
    assert(parts[(parts.len() - 2) + 1].lower.as_nat() == parts[parts.len() - 2].upper.as_nat()
        + 1);
    assert(front[front.len() - 1] == parts[parts.len() - 2]);
    assert(front[0] == parts[0]);
    assert forall|i: int| 0 <= i < front.len() implies (#[trigger] front[i]).wf() by {
        assert(front[i] == parts[i]);
    }
    assert forall|i: int|
        #![trigger front[i], front[i + 1]]
        0 <= i < front.len() - 1 implies front[i + 1].lower.as_nat() == front[i].upper.as_nat()
        + 1 by {
        assert(front[i] == parts[i]);
        assert(front[i + 1] == parts[i + 1]);
        assert(parts[i + 1].lower.as_nat() == parts[i].upper.as_nat() + 1);
    }
}

/// In a chain over `[lo, hi]`, every member stays inside `[lo, hi]`.
pub proof fn lemma_chain_bounds(parts: Seq<KeyRange>, lo: nat, hi: nat)
    requires
        is_chain(parts, lo, hi),
    ensures
        forall|i: int|
            0 <= i < parts.len() ==> lo <= (#[trigger] parts[i]).lower.as_nat() && parts[
                i
            ].upper.as_nat() <= hi,
    decreases parts.len(),
{
    if parts.len() > 1 {
        let front = parts.drop_last();
        let mid = (parts.last().lower.as_nat() - 1) as nat;
        lemma_chain_front(parts, lo, hi);
        lemma_chain_bounds(front, lo, mid);
        assert forall|i: int|
            0 <= i < parts.len() implies lo <= (#[trigger] parts[i]).lower.as_nat() && parts[
            i
        ].upper.as_nat() <= hi by {
            if i < parts.len() - 1 {
                assert(front[i] == parts[i]);
                assert(lo <= front[i].lower.as_nat() && front[i].upper.as_nat() <= mid);
            }
        }
    }
}

/// A chain over `[lo, hi]` covers it exactly once: a key is in some member
/// exactly when it is in `[lo, hi]`, and never in two members.
pub proof fn lemma_chain_covers(parts: Seq<KeyRange>, lo: nat, hi: nat, k: nat)
    requires
        is_chain(parts, lo, hi),
    ensures
        (lo <= k <= hi) <==> exists|i: int|
            0 <= i < parts.len() && (#[trigger] parts[i]).spec_contains(k),
        forall|i: int, j: int|
            0 <= i < j < parts.len() && (#[trigger] parts[i]).spec_contains(k) ==> !(
            #[trigger] parts[j]).spec_contains(k),
    decreases parts.len(),
{
    lemma_chain_bounds(parts, lo, hi);
    if exists|i: int| 0 <= i < parts.len() && (#[trigger] parts[i]).spec_contains(k) {
        let i0 = choose|i: int| 0 <= i < parts.len() && (#[trigger] parts[i]).spec_contains(k);
        assert(lo <= parts[i0].lower.as_nat() && parts[i0].upper.as_nat() <= hi);
        assert(lo <= k <= hi);
    }
    if parts.len() == 1 {
        if lo <= k <= hi {
            assert(parts[0].spec_contains(k));
        }
    } else {
        let front = parts.drop_last();
        let mid = (parts.last().lower.as_nat() - 1) as nat;
        lemma_chain_front(parts, lo, hi);
        lemma_chain_covers(front, lo, mid, k);
        lemma_chain_bounds(front, lo, mid);
        if lo <= k <= hi {
            if k <= mid {
                let i = choose|i: int|
                    0 <= i < front.len() && (#[trigger] front[i]).spec_contains(k);
                assert(front[i] == parts[i]);
                assert(parts[i].spec_contains(k));
            } else {
                assert(parts[parts.len() - 1].spec_contains(k));
            }
        }
        assert forall|i: int, j: int|
            0 <= i < j < parts.len() && (#[trigger] parts[i]).spec_contains(k) implies !(
        #[trigger] parts[j]).spec_contains(k) by {
            assert(front[i] == parts[i]);
            if j < parts.len() - 1 {
                assert(front[j] == parts[j]);
                assert(front[i].spec_contains(k) ==> !front[j].spec_contains(k));
            } else {
                assert(front[i].upper.as_nat() <= mid);
                assert(parts[j].lower.as_nat() == mid + 1);
            }
        }
    }
}

/// Facts about one partition step: advancing by one chunk stays within the
/// width consumed by `n` chunks.
proof fn lemma_partition_step(i: nat, n: nat, c: nat, width: nat)
    by (nonlinear_arith)
    requires
        i + 1 <= n,
        c >= 1,
        n * c <= width,
    ensures
        (i + 1) * c == i * c + c,
        i * c + c <= width,
{
}

impl KeyRange {
    /// Splits the range into per-worker sub-ranges that cover it exactly
    /// once, in order. With `n` workers and at least `n` keys there are `n`
    /// sub-ranges, each of `(upper - lower) / n` keys except the last, which
    /// absorbs the remainder of that division; with fewer keys than workers
    /// each key becomes its own sub-range.
    #[verifier::rlimit(100)]
    pub fn partition(&self, n: usize) -> (parts: Vec<KeyRange>)
        requires
            self.wf(),
            n >= 1,
        ensures
            is_chain(parts@, self.lower.as_nat(), self.upper.as_nat()),
            parts@.len() == if self.count() < n {
                self.count()
            } else {
                n as nat
            },
            self.count() > n && n >= 2 ==> parts@[0].count() == (self.upper.as_nat()
                - self.lower.as_nat()) as nat / (n as nat),
            self.count() > n ==> forall|i: int|
                0 <= i < parts@.len() - 1 ==> (#[trigger] parts@[i]).count() == parts@[0].count(),
    {
        let width = self.upper.sub(&self.lower);
        let nn: u64 = n as u64;
        let n_u256 = U256::from_u64(nn);
        if width.lt(&n_u256) {
            self.partition_singletons(width)
        } else {
            let parts = self.partition_chunks(width, n);
            proof {
                if n >= 2 {
                    assert(parts@[0].count() == width.as_nat() / (n as nat));
                }
                assert forall|i: int|
                    0 <= i < parts@.len() - 1 implies (#[trigger] parts@[i]).count() == parts@[
                    0
                ].count() by {
                    assert(parts@[i].count() == width.as_nat() / (n as nat));
                    assert(parts@[0].count() == width.as_nat() / (n as nat));
                }
            }
            parts
        }
    }

    /// The case of fewer keys than workers: one singleton per key.
    fn partition_singletons(&self, width: U256) -> (parts: Vec<KeyRange>)
        requires
            self.wf(),
            width.as_nat() == self.upper.as_nat() - self.lower.as_nat(),
            width.as_nat() < 0xffff_ffff_ffff_ffff,
        ensures
            is_chain(parts@, self.lower.as_nat(), self.upper.as_nat()),
            parts@.len() == self.count(),
    {
        let m: u64 = width.l0 + 1;
        proof {
            assert(width.as_nat() == width.l0);
        }
        let mut parts: Vec<KeyRange> = Vec::new();
        let mut cur = self.lower;
        let mut i: u64 = 0;
        while i < m
            invariant
                0 <= i <= m,
                m == width.as_nat() + 1,
                self.wf(),
                width.as_nat() == self.upper.as_nat() - self.lower.as_nat(),
                parts@.len() == i,
                i < m ==> cur.as_nat() == self.lower.as_nat() + i,
                forall|j: int|
                    0 <= j < i ==> (#[trigger] parts@[j]).lower.as_nat() == self.lower.as_nat() + j
                        && parts@[j].upper.as_nat() == self.lower.as_nat() + j,
            decreases m - i,
        {
            parts.push(KeyRange { lower: cur, upper: cur });
            if i + 1 < m {
                cur = cur.succ();
            }
            i = i + 1;
        }
        proof {
            assert(parts@[parts@.len() - 1].upper.as_nat() == self.upper.as_nat());
        }
        parts
    }

    /// The case of at least one key per worker: `n` sub-ranges of `chunk`
    /// keys, the last taking what remains.
    #[verifier::rlimit(60)]
    fn partition_chunks(&self, width: U256, n: usize) -> (parts: Vec<KeyRange>)
        requires
            self.wf(),
            n >= 1,
            width.as_nat() == self.upper.as_nat() - self.lower.as_nat(),
            width.as_nat() >= n,
        ensures
            is_chain(parts@, self.lower.as_nat(), self.upper.as_nat()),
            parts@.len() == n,
            forall|i: int|
                0 <= i < parts@.len() - 1 ==> (#[trigger] parts@[i]).count() == width.as_nat() / (
                n as nat),
    {
        let nn: u64 = n as u64;
        let (chunk, rem) = width.div_rem_u64(nn);
        let ghost c = chunk.as_nat();
        let one = U256::from_u64(1);
        proof {
            assert(c >= 1) by {
                if chunk.as_nat() == 0 {
                    assert(chunk.as_nat() * nn == 0) by (nonlinear_arith)
                        requires
                            chunk.as_nat() == 0,
                    ;
                }
            }
            assert((n as nat) * c <= width.as_nat()) by (nonlinear_arith)
                requires
                    c * (nn as nat) + rem == width.as_nat(),
                    rem >= 0,
                    nn == n,
            ;
            lemma_partition_step(0, n as nat, c, width.as_nat());
        }
        let chunk_m1 = chunk.sub(&one);
        let mut parts: Vec<KeyRange> = Vec::new();
        let mut cur = self.lower;
        let mut i: usize = 0;
        while i < n - 1
            invariant
                0 <= i <= n - 1,
                n >= 1,
                self.wf(),
                c == chunk.as_nat(),
                c >= 1,
                chunk_m1.as_nat() == c - 1,
                (n as nat) * c <= width.as_nat(),
                width.as_nat() == self.upper.as_nat() - self.lower.as_nat(),
                parts@.len() == i,
                cur.as_nat() == self.lower.as_nat() + i * c,
                i * c + c <= width.as_nat(),
                forall|j: int| 0 <= j < i ==> (#[trigger] parts@[j]).wf(),
                forall|j: int| 0 <= j < i ==> (#[trigger] parts@[j]).count() == c,
                i > 0 ==> parts@[0].lower.as_nat() == self.lower.as_nat(),
                i > 0 ==> parts@[parts@.len() - 1].upper.as_nat() + 1 == cur.as_nat(),
                forall|j: int|
                    #![trigger parts@[j], parts@[j + 1]]
                    0 <= j < i - 1 ==> parts@[j + 1].lower.as_nat() == parts@[j].upper.as_nat()
                        + 1,
            decreases n - 1 - i,
        {
            let end = cur.add(&chunk_m1);
            parts.push(KeyRange { lower: cur, upper: end });
            cur = cur.add(&chunk);
            proof {
                lemma_partition_step((i + 1) as nat, n as nat, c, width.as_nat());
                assert((i + 1) * c == i * c + c) by (nonlinear_arith);
            }
            i = i + 1;
        }
        proof {
            assert(cur.as_nat() <= self.upper.as_nat());
        }
        parts.push(KeyRange { lower: cur, upper: self.upper });
        proof {
            assert(parts@[0].lower.as_nat() == self.lower.as_nat());
            assert forall|j: int|
                #![trigger parts@[j], parts@[j + 1]]
                0 <= j < parts@.len() - 1 implies parts@[j + 1].lower.as_nat() == parts@[
                j
            ].upper.as_nat() + 1 by {
                assert(parts@[j] == parts@[j]);
            }
        }
        parts
    }
}

} // verus!
