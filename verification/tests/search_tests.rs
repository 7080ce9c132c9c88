use keyspace_search::pipeline::DerivationPipeline;
use keyspace_search::range::KeyRange;
use keyspace_search::search::{
    search_range, check_candidate, CandidateOutcome, SearchState, RangeIssuer, worker_count,
};
use keyspace_search::random::random_in_range;
use keyspace_search::u256::U256;
use rand::SeedableRng;
use rand::rngs::StdRng;

fn range(lo: u64, hi: u64) -> KeyRange {
    KeyRange { lower: U256::from_u64(lo), upper: U256::from_u64(hi) }
}

fn fingerprint_of(pipeline: &DerivationPipeline, key: u64) -> Vec<u8> {
    pipeline.fingerprint(&U256::from_u64(key)).unwrap()
}

#[test]
fn sequential_search_finds_key_three() {
    // Range [0x1, 0x5], target is the fingerprint of key 0x3.
    let pipeline = DerivationPipeline::new();
    let target = fingerprint_of(&pipeline, 3);
    let mut state = SearchState::new();
    let found = search_range(&pipeline, &range(1, 5), &target, &mut state);
    let key = found.expect("the match lies in the range");
    assert_eq!(key, U256::from_u64(3));
    assert!(state.is_found());
    let hex = String::from_utf8(key.to_padded_hex()).unwrap();
    assert_eq!(hex, format!("{:0>64}", "3"));
    assert_eq!(state.total_checked(), 3);
}

#[test]
fn degenerate_range_short_circuits() {
    // Range [0x1, 0x1]: the generator must hand back 0x1 without a random
    // draw over an empty interval, and the pipeline must accept it.
    let mut rng = StdRng::seed_from_u64(11);
    let one = U256::from_u64(1);
    let drawn = random_in_range(&mut rng, &one, &one);
    assert_eq!(drawn, one);
    let pipeline = DerivationPipeline::new();
    let target = fingerprint_of(&pipeline, 1);
    let mut state = SearchState::new();
    let found = search_range(&pipeline, &range(1, 1), &target, &mut state);
    assert_eq!(found, Some(one));
    assert!(state.is_found());
}

#[test]
fn exhausted_range_counts_every_candidate() {
    // The target's key lies outside the range: the worker exhausts it,
    // `found` stays false, and the counter is exactly upper - lower + 1.
    let pipeline = DerivationPipeline::new();
    let target = fingerprint_of(&pipeline, 100);
    let mut state = SearchState::new();
    let found = search_range(&pipeline, &range(1, 5), &target, &mut state);
    assert_eq!(found, None);
    assert!(!state.is_found());
    assert_eq!(state.total_checked(), 5);
}

#[test]
fn duplicate_detection_reports_once_without_crash() {
    // Two workers see the true match in the same interval: both raise the
    // flag, the sink is reached at least once, and only one report wins.
    let pipeline = DerivationPipeline::new();
    let target = fingerprint_of(&pipeline, 3);
    let key = U256::from_u64(3);
    let mut state = SearchState::new();
    let mut sink_lines: Vec<String> = Vec::new();

    for _worker in 0..2 {
        let outcome = check_candidate(&pipeline, &key, &target);
        assert_eq!(outcome, CandidateOutcome::Match);
        state.mark_found();
        sink_lines.push(String::from_utf8(key.to_padded_hex()).unwrap());
        if state.try_claim_report() {
            // only the first worker prints
        }
    }
    assert!(state.is_found());
    assert!(sink_lines.len() >= 1);
    assert_eq!(sink_lines[0], sink_lines[1]);
}

#[test]
fn search_skips_invalid_scalar_zero() {
    // A range that starts at zero: zero is no scalar and is skipped, the
    // match at 0x2 is still found, and zero was counted as checked.
    let pipeline = DerivationPipeline::new();
    let target = fingerprint_of(&pipeline, 2);
    let mut state = SearchState::new();
    let found = search_range(&pipeline, &range(0, 4), &target, &mut state);
    assert_eq!(found, Some(U256::from_u64(2)));
    assert_eq!(state.total_checked(), 3);
}

#[test]
fn search_returns_nothing_once_found() {
    let pipeline = DerivationPipeline::new();
    let target = fingerprint_of(&pipeline, 2);
    let mut state = SearchState::new();
    state.mark_found();
    let found = search_range(&pipeline, &range(1, 5), &target, &mut state);
    assert_eq!(found, None);
    assert_eq!(state.total_checked(), 0);
}

#[test]
fn report_gate_admits_exactly_one() {
    let mut state = SearchState::new();
    assert!(state.try_claim_report());
    assert!(!state.try_claim_report());
    assert!(!state.try_claim_report());
}

#[test]
fn random_draws_stay_inside_bounds() {
    let mut rng = StdRng::seed_from_u64(42);
    let lo = U256::from_u64(1000);
    let hi = U256::from_u64(2000);
    for _ in 0..200 {
        let v = random_in_range(&mut rng, &lo, &hi);
        assert!(lo.le(&v));
        assert!(v.le(&hi));
    }
}

#[test]
fn random_draws_reach_both_ends() {
    // The draw is over the inclusive interval: on a two-value range both
    // values turn up.
    let mut rng = StdRng::seed_from_u64(9);
    let lo = U256::from_u64(5);
    let hi = U256::from_u64(6);
    let mut saw_lo = false;
    let mut saw_hi = false;
    for _ in 0..256 {
        let v = random_in_range(&mut rng, &lo, &hi);
        if v.equals(&lo) {
            saw_lo = true;
        }
        if v.equals(&hi) {
            saw_hi = true;
        }
    }
    assert!(saw_lo && saw_hi);
}

#[test]
fn issuer_hands_out_fresh_sub_ranges() {
    let rng = StdRng::seed_from_u64(7);
    let bounds = range(0, 1_000_000);
    let width = U256::from_u64(100);
    let mut issuer = RangeIssuer::new(rng, bounds, width, 4096, 4, 100_000);
    let a = issuer.claim(64).expect("a fresh start exists");
    let b = issuer.claim(64).expect("a fresh start exists");
    for r in [a, b] {
        assert!(bounds.lower.le(&r.lower));
        assert!(r.lower.le(&r.upper));
        assert!(r.upper.le(&bounds.upper));
        assert!(r.upper.sub(&r.lower).le(&width));
    }
    // The membership filter refuses the start already handed out.
    assert!(!a.lower.equals(&b.lower));
}

#[test]
fn worker_count_leaves_headroom() {
    assert_eq!(worker_count(8), 7);
    assert_eq!(worker_count(2), 1);
    assert_eq!(worker_count(1), 1);
}
