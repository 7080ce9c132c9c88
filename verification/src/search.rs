//! The search coordinator's verified core: shared run state with a monotonic
//! `found` flag and a one-shot reporting gate, the candidate check, the
//! sequential sweep of a sub-range, and the randomized issuer of sub-ranges
//! guarded by the membership filter.

use vstd::prelude::*;
use crate::u256::{U256, key_bytes32};
use crate::range::KeyRange;
use crate::pipeline::{DerivationPipeline, valid_scalar, fingerprint_of_key};
use crate::filter::MembershipFilter;
use crate::random::random_in_range;
use rand::rngs::StdRng;

verus! {

/// The largest value the progress counter can report.
pub open spec fn counter_max() -> nat {
    0xffff_ffff_ffff_ffffnat
}

/// A key value whose fingerprint is the target.
pub open spec fn is_match(v: nat, target: Seq<u8>) -> bool {
    valid_scalar(v) && fingerprint_of_key(v) == target
}

/// Shared per-run state. `found` moves from false to true at most once in a
/// run and is never reset: no method of this type sets it back to false, as
/// each method's contract pins the flag's new value. `reported` is the
/// one-shot gate that elects the single caller who announces the match.
pub struct SearchState {
    found: bool,
    reported: bool,
    total_checked: u64,
}

impl SearchState {
    /// Whether a match has been found.
    pub closed spec fn found(self) -> bool {
        self.found
    }

    /// Whether the one-shot report has been claimed.
    pub closed spec fn reported(self) -> bool {
        self.reported
    }

    /// Candidates checked so far; saturates at its maximum.
    pub closed spec fn total(self) -> nat {
        self.total_checked as nat
    }

    pub fn new() -> (r: SearchState)
        ensures
            !r.found(),
            !r.reported(),
            r.total() == 0,
    {
        SearchState { found: false, reported: false, total_checked: 0 }
    }

    pub fn is_found(&self) -> (r: bool)
        ensures
            r == self.found(),
    {
        self.found
    }

    pub fn total_checked(&self) -> (r: u64)
        ensures
            r == self.total(),
    {
        self.total_checked
    }

    /// Raises the `found` flag. It is never lowered again.
    pub fn mark_found(&mut self)
        ensures
            final(self).found(),
            final(self).reported() == old(self).reported(),
            final(self).total() == old(self).total(),
    {
        self.found = true;
    }

    /// Claims the one-shot report: true for the first caller in a run,
    /// false for every later one, whichever worker calls it.
    pub fn try_claim_report(&mut self) -> (r: bool)
        ensures
            r == !old(self).reported(),
            final(self).reported(),
            final(self).found() == old(self).found(),
            final(self).total() == old(self).total(),
    {
        let first = !self.reported;
        self.reported = true;
        first
    }

    /// Counts one completed candidate check; the counter saturates rather
    /// than wrap.
    pub fn record_one(&mut self)
        ensures
            final(self).total() == if old(self).total() < counter_max() {
                old(self).total() + 1
            } else {
                old(self).total()
            },
            final(self).found() == old(self).found(),
            final(self).reported() == old(self).reported(),
    {
        if self.total_checked < 0xffff_ffff_ffff_ffff {
            self.total_checked = self.total_checked + 1;
        }
    }
}

/// One permitted transition of the shared state: no change, raising the
/// `found` flag, claiming the report gate, or counting a check. These are
/// the only ways a worker touches the state.
pub open spec fn state_step(pre: SearchState, post: SearchState) -> bool {
    ||| post == pre
    ||| (post.found() && post.reported() == pre.reported() && post.total() == pre.total())
    ||| (post.reported() && post.found() == pre.found() && post.total() == pre.total())
    ||| (post.found() == pre.found() && post.reported() == pre.reported())
}

/// Once raised, `found` stays raised across any permitted transition.
pub proof fn lemma_found_monotonic(pre: SearchState, post: SearchState)
    requires
        state_step(pre, post),
        pre.found(),
    ensures
        post.found(),
{
}

proof fn lemma_found_carries(states: Seq<SearchState>, i: int, j: int)
    requires
        forall|k: int|
            #![trigger states[k], states[k + 1]]
            0 <= k < states.len() - 1 ==> state_step(states[k], states[k + 1]),
        0 <= i <= j < states.len(),
        states[i].found(),
    ensures
        states[j].found(),
    decreases j - i,
{
    if i < j {
        lemma_found_carries(states, i, j - 1);
        assert(state_step(states[j - 1], states[(j - 1) + 1]));
    }
}

/// Over any run — a sequence of permitted transitions — `found` moves from
/// false to true at most once, and never back.
pub proof fn lemma_found_once(states: Seq<SearchState>)
    requires
        forall|k: int|
            #![trigger states[k], states[k + 1]]
            0 <= k < states.len() - 1 ==> state_step(states[k], states[k + 1]),
    ensures
        forall|i: int, j: int|
            0 <= i <= j < states.len() && (#[trigger] states[i]).found() ==> (
            #[trigger] states[j]).found(),
        forall|i: int, j: int|
            #![trigger states[i], states[j]]
            0 <= i < states.len() - 1 && 0 <= j < states.len() - 1 && !states[i].found()
                && states[i + 1].found() && !states[j].found() && states[j + 1].found() ==> i == j,
{
    assert forall|i: int, j: int|
        0 <= i <= j < states.len() && (#[trigger] states[i]).found() implies (
    #[trigger] states[j]).found() by {
        lemma_found_carries(states, i, j);
    }
    assert forall|i: int, j: int|
        #![trigger states[i], states[j]]
        0 <= i < states.len() - 1 && 0 <= j < states.len() - 1 && !states[i].found() && states[i
            + 1].found() && !states[j].found() && states[j + 1].found() implies i == j by {
        if i < j {
            lemma_found_carries(states, i + 1, j);
        }
        if j < i {
            lemma_found_carries(states, j + 1, i);
        }
    }
}

/// Relies on `num_cpus::get`: the number of logical processors, documented
/// to be at least one.
#[verifier::external_body]
fn cpu_count() -> (r: usize)
    ensures
        r >= 1,
{
    num_cpus::get()
}

/// How many workers a machine with `cpus` processors gets: all but one, to
/// leave headroom, and never fewer than one.
pub fn worker_count(cpus: usize) -> (r: usize)
    requires
        cpus >= 1,
    ensures
        r == if cpus > 1 {
            (cpus - 1) as int
        } else {
            1int
        },
        r >= 1,
{
    if cpus > 1 {
        cpus - 1
    } else {
        1
    }
}

/// The worker count planned for this machine.
pub fn planned_worker_count() -> (r: usize)
    ensures
        r >= 1,
{
    let cpus = cpu_count();
    worker_count(cpus)
}

/// What one candidate check concluded.
#[derive(Clone, Copy, PartialEq, Eq, Structural, Debug)]
pub enum CandidateOutcome {
    /// The candidate's fingerprint equals the target.
    Match,
    /// The candidate derives a fingerprint, but not the target's.
    NoMatch,
    /// The candidate is no valid scalar and is skipped.
    InvalidScalar,
}

/// Byte-string equality.
fn bytes_equal(a: &Vec<u8>, b: &Vec<u8>) -> (r: bool)
    ensures
        r == (a@ =~= b@),
{
    if a.len() != b.len() {
        return false;
    }
    let n = a.len();
    let mut i: usize = 0;
    while i < n
        invariant
            n == a@.len() == b@.len(),
            0 <= i <= n,
            forall|j: int| 0 <= j < i ==> a@[j] == b@[j],
        decreases n - i,
    {
        if a[i] != b[i] {
            return false;
        }
        i = i + 1;
    }
    true
}

/// Checks one candidate against the target fingerprint: exactly the valid
/// scalars whose derived fingerprint equals the target are matches, and
/// invalid scalars are told apart from honest misses.
pub fn check_candidate(pipeline: &DerivationPipeline, candidate: &U256, target: &Vec<u8>) -> (r:
    CandidateOutcome)
    ensures
        r == CandidateOutcome::Match <==> is_match(candidate.as_nat(), target@),
        r == CandidateOutcome::InvalidScalar <==> !valid_scalar(candidate.as_nat()),
        r == CandidateOutcome::NoMatch <==> valid_scalar(candidate.as_nat()) && !is_match(
            candidate.as_nat(),
            target@,
        ),
{
    match pipeline.fingerprint(candidate) {
        Ok(fingerprint) => {
            if bytes_equal(&fingerprint, target) {
                CandidateOutcome::Match
            } else {
                CandidateOutcome::NoMatch
            }
        },
        Err(_) => CandidateOutcome::InvalidScalar,
    }
}

/// Sweeps a sub-range sequentially: candidates are tried in increasing
/// order until the first match, the end of the range, or a match already
/// found before the call. Every completed check is counted, invalid scalars
/// are skipped, and the `found` flag is raised exactly on a match.
pub fn search_range(
    pipeline: &DerivationPipeline,
    range: &KeyRange,
    target: &Vec<u8>,
    state: &mut SearchState,
) -> (r: Option<U256>)
    requires
        range.wf(),
    ensures
        old(state).found() ==> r is None && *final(state) == *old(state),
        !old(state).found() && r is Some ==> {
            &&& range.spec_contains(r->0.as_nat())
            &&& is_match(r->0.as_nat(), target@)
            &&& forall|k: nat|
                range.lower.as_nat() <= k < r->0.as_nat() ==> !is_match(k, target@)
            &&& final(state).found()
            &&& final(state).reported() == old(state).reported()
            &&& final(state).total() == if old(state).total() + (r->0.as_nat()
                - range.lower.as_nat() + 1) <= counter_max() {
                old(state).total() + (r->0.as_nat() - range.lower.as_nat() + 1) as nat
            } else {
                counter_max()
            }
        },
        !old(state).found() && r is None ==> {
            &&& forall|k: nat| range.spec_contains(k) ==> !is_match(k, target@)
            &&& !final(state).found()
            &&& final(state).reported() == old(state).reported()
            &&& final(state).total() == if old(state).total() + range.count() <= counter_max() {
                old(state).total() + range.count()
            } else {
                counter_max()
            }
        },
{
    if state.is_found() {
        return None;
    }
    let mut cur = range.lower;
    loop
        invariant_except_break
            state.total() == if old(state).total() + (cur.as_nat() - range.lower.as_nat())
                <= counter_max() {
                old(state).total() + (cur.as_nat() - range.lower.as_nat()) as nat
            } else {
                counter_max()
            },
        invariant
            range.wf(),
            !old(state).found(),
            range.lower.as_nat() <= cur.as_nat() <= range.upper.as_nat(),
            forall|k: nat| range.lower.as_nat() <= k < cur.as_nat() ==> !is_match(k, target@),
            !state.found(),
            state.reported() == old(state).reported(),
        ensures
            !state.found(),
            state.reported() == old(state).reported(),
            forall|k: nat| range.spec_contains(k) ==> !is_match(k, target@),
            state.total() == if old(state).total() + range.count() <= counter_max() {
                old(state).total() + range.count()
            } else {
                counter_max()
            },
        decreases range.upper.as_nat() - cur.as_nat(),
    {
        let outcome = check_candidate(pipeline, &cur, target);
        state.record_one();
        if matches!(outcome, CandidateOutcome::Match) {
            state.mark_found();
            return Some(cur);
        }
        if cur.equals(&range.upper) {
            break;
        }
        proof {
            range.upper.lemma_as_nat_bound();
        }
        cur = cur.succ();
    }
    None
}

/// Range exhaustion counts exactly: when a sweep of `range` ends without a
/// match, the sweep's saturating counter update amounts to exactly
/// `upper - lower + 1` more checks, as long as the running total stays
/// within the progress counter's machine bound.
pub proof fn lemma_exhaustion_counts_exactly(range: KeyRange, total: nat)
    requires
        range.wf(),
        total + range.count() <= counter_max(),
    ensures
        (if total + range.count() <= counter_max() {
            total + range.count()
        } else {
            counter_max()
        }) == total + (range.upper.as_nat() - range.lower.as_nat()) + 1,
{
}

/// Issues randomized sub-ranges, refusing starts the membership filter has
/// already seen so that work is not reissued. The issuer owns its generator
/// and filter.
pub struct RangeIssuer {
    rng: StdRng,
    filter: MembershipFilter,
    bounds: KeyRange,
    width: U256,
}

impl RangeIssuer {
    /// The set of sub-range starts already handed out (since the filter's
    /// last reset), as canonical 32-byte keys.
    pub closed spec fn issued(self) -> Set<Seq<u8>> {
        self.filter.contents()
    }

    /// Insertions into the filter since its last reset.
    pub closed spec fn issued_count(self) -> nat {
        self.filter.insertions()
    }

    /// The filter's insertion ceiling.
    pub closed spec fn ceiling(self) -> nat {
        self.filter.ceiling()
    }

    /// The full range drawn from.
    pub closed spec fn bounds(self) -> KeyRange {
        self.bounds
    }

    /// The width of issued sub-ranges.
    pub closed spec fn width(self) -> nat {
        self.width.as_nat()
    }

    pub closed spec fn wf(self) -> bool {
        self.filter.wf() && self.bounds.wf()
    }

    /// Builds an issuer over `bounds` that hands out sub-ranges of at most
    /// `width + 1` keys, with a fresh membership filter behind it.
    pub fn new(
        rng: StdRng,
        bounds: KeyRange,
        width: U256,
        filter_bits: usize,
        filter_hashes: u32,
        filter_ceiling: usize,
    ) -> (r: RangeIssuer)
        requires
            bounds.wf(),
            filter_bits >= 1,
            filter_hashes >= 1,
            filter_ceiling >= 1,
        ensures
            r.wf(),
            r.issued() =~= Set::<Seq<u8>>::empty(),
            r.bounds() == bounds,
            r.width() == width.as_nat(),
    {
        RangeIssuer {
            rng,
            filter: MembershipFilter::new(filter_bits, filter_hashes, filter_ceiling),
            bounds,
            width,
        }
    }

    /// Draws sub-range starts until one is found that the filter has not
    /// seen, for at most `max_attempts` draws. A fresh start is recorded in
    /// the filter and returned with its sub-range, clipped to the bounds; a
    /// run of filter hits leaves the issuer's memory unchanged.
    pub fn claim(&mut self, max_attempts: usize) -> (r: Option<KeyRange>)
        requires
            old(self).wf(),
        ensures
            final(self).wf(),
            final(self).bounds() == old(self).bounds(),
            final(self).width() == old(self).width(),
            final(self).ceiling() == old(self).ceiling(),
            old(self).issued() =~= Set::<Seq<u8>>::empty() && max_attempts >= 1 ==> r is Some,
            r is None ==> final(self).issued() == old(self).issued() && final(self).issued_count()
                == old(self).issued_count(),
            r is Some ==> {
                &&& r->0.wf()
                &&& old(self).bounds().spec_contains(r->0.lower.as_nat())
                &&& old(self).bounds().spec_contains(r->0.upper.as_nat())
                &&& r->0.upper.as_nat() == if r->0.lower.as_nat() + old(self).width() <= old(
                    self,
                ).bounds().upper.as_nat() {
                    r->0.lower.as_nat() + old(self).width()
                } else {
                    old(self).bounds().upper.as_nat()
                }
                &&& !old(self).issued().contains(key_bytes32(r->0.lower.as_nat()))
            },
            r is Some && old(self).issued_count() + 1 < old(self).ceiling()
                ==> final(self).issued() =~= old(self).issued().insert(
                key_bytes32(r->0.lower.as_nat()),
            ) && final(self).issued_count() == old(self).issued_count() + 1,
            r is Some && old(self).issued_count() + 1 == old(self).ceiling()
                ==> final(self).issued() =~= Set::<Seq<u8>>::empty() && final(self).issued_count()
                == 0,
    {
        let mut attempt: usize = 0;
        while attempt < max_attempts
            invariant
                self.filter.wf(),
                self.bounds.wf(),
                self.bounds == old(self).bounds,
                self.width == old(self).width,
                self.filter.contents() == old(self).filter.contents(),
                self.filter.insertions() == old(self).filter.insertions(),
                self.filter.ceiling() == old(self).filter.ceiling(),
                attempt > 0 ==> !(old(self).filter.contents() =~= Set::<Seq<u8>>::empty()),
            decreases max_attempts - attempt,
        {
            let start = random_in_range(&mut self.rng, &self.bounds.lower, &self.bounds.upper);
            let key = start.to_be_bytes();
            if !self.filter.contains(&key) {
                self.filter.insert(&key);
                let available = self.bounds.upper.sub(&start);
                let end = if self.width.le(&available) {
                    start.add(&self.width)
                } else {
                    self.bounds.upper
                };
                return Some(KeyRange { lower: start, upper: end });
            }
            attempt = attempt + 1;
        }
        None
    }
}

} // verus!
