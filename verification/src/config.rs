//! Run configuration: the wallet descriptor handed in by the loader, its
//! translation into a search plan — parsed range bounds and a normalized
//! 20-byte target fingerprint — and the breakdown of elapsed seconds for
//! progress reports. All failures here are fatal before any worker starts.

use vstd::prelude::*;
use crate::u256::U256;
use crate::hexstr::{hex_value, is_hex_digit, HexParseError};
use crate::u256::pow256;
use crate::range::KeyRange;
use crate::pipeline::{parse_p2pkh_address, p2pkh_hash_of};

verus! {

/// One search task as the loader hands it over: a numbered key range with
/// hex-string bounds and the target address.
pub struct WalletDescriptor {
    pub number: u32,
    pub lower_hex: Vec<u8>,
    pub upper_hex: Vec<u8>,
    pub address: String,
}

/// Why a descriptor cannot start a run.
#[derive(Clone, Copy, PartialEq, Eq, Structural, Debug)]
pub enum ConfigError {
    /// The lower bound is not a hex value of the key space.
    InvalidLowerBound,
    /// The upper bound is not a hex value of the key space.
    InvalidUpperBound,
    /// The bounds are ordered the wrong way round.
    EmptyRange,
    /// The target is not a pay-to-pubkey-hash address.
    InvalidTargetAddress,
}

/// A validated run: the range to sweep and the target fingerprint, fixed
/// for the whole run.
pub struct SearchPlan {
    pub range: KeyRange,
    pub target: Vec<u8>,
}

/// Whether a hex bound string denotes a key value.
pub open spec fn bound_ok(s: Seq<u8>) -> bool {
    s.len() > 0 && (forall|i: int| 0 <= i < s.len() ==> is_hex_digit(s[i])) && hex_value(s)
        < pow256()
}

/// Finds the wallet with the given number: the first hit, as the loader's
/// list is searched front to back.
pub fn find_wallet(wallets: &Vec<WalletDescriptor>, number: u32) -> (r: Option<usize>)
    ensures
        r is Some ==> 0 <= r->0 < wallets@.len() && wallets@[r->0 as int].number == number
            && forall|j: int| 0 <= j < r->0 ==> wallets@[j].number != number,
        r is None ==> forall|j: int| 0 <= j < wallets@.len() ==> wallets@[j].number != number,
{
    let n = wallets.len();
    let mut i: usize = 0;
    while i < n
        invariant
            n == wallets@.len(),
            0 <= i <= n,
            forall|j: int| 0 <= j < i ==> wallets@[j].number != number,
        decreases n - i,
    {
        if wallets[i].number == number {
            return Some(i);
        }
        i = i + 1;
    }
    None
}

/// Validates a descriptor into a search plan. The bounds must parse as key
/// values in order, and the target must be a pay-to-pubkey-hash address; the
/// first failure, checked in that order, is the run's fatal error.
pub fn plan_search(wallet: &WalletDescriptor) -> (r: Result<SearchPlan, ConfigError>)
    ensures
        match r {
            Ok(plan) => {
                &&& bound_ok(wallet.lower_hex@)
                &&& bound_ok(wallet.upper_hex@)
                &&& plan.range.lower.as_nat() == hex_value(wallet.lower_hex@)
                &&& plan.range.upper.as_nat() == hex_value(wallet.upper_hex@)
                &&& plan.range.wf()
                &&& p2pkh_hash_of(wallet.address@) is Some
                &&& plan.target@ == p2pkh_hash_of(wallet.address@)->0
                &&& plan.target@.len() == 20
            },
            Err(ConfigError::InvalidLowerBound) => !bound_ok(wallet.lower_hex@),
            Err(ConfigError::InvalidUpperBound) => bound_ok(wallet.lower_hex@) && !bound_ok(
                wallet.upper_hex@,
            ),
            Err(ConfigError::EmptyRange) => bound_ok(wallet.lower_hex@) && bound_ok(
                wallet.upper_hex@,
            ) && hex_value(wallet.lower_hex@) > hex_value(wallet.upper_hex@),
            Err(ConfigError::InvalidTargetAddress) => bound_ok(wallet.lower_hex@) && bound_ok(
                wallet.upper_hex@,
            ) && hex_value(wallet.lower_hex@) <= hex_value(wallet.upper_hex@) && p2pkh_hash_of(
                wallet.address@,
            ) is None,
        },
{
    let lower = match U256::from_hex(wallet.lower_hex.as_slice()) {
        Ok(v) => v,
        Err(_) => {
            return Err(ConfigError::InvalidLowerBound);
        },
    };
    let upper = match U256::from_hex(wallet.upper_hex.as_slice()) {
        Ok(v) => v,
        Err(_) => {
            return Err(ConfigError::InvalidUpperBound);
        },
    };
    let range = match KeyRange::new(lower, upper) {
        Some(range) => range,
        None => {
            return Err(ConfigError::EmptyRange);
        },
    };
    let target = match parse_p2pkh_address(wallet.address.as_str()) {
        Some(t) => t,
        None => {
            return Err(ConfigError::InvalidTargetAddress);
        },
    };
    Ok(SearchPlan { range, target })
}

/// An elapsed time broken into days, hours, minutes and seconds, the form
/// the progress report prints.
#[derive(Clone, Copy, PartialEq, Eq, Structural, Debug)]
pub struct DurationParts {
    pub days: u64,
    pub hours: u64,
    pub minutes: u64,
    pub seconds: u64,
}

impl DurationParts {
    /// Breaks a number of seconds down exactly: the parts recombine to the
    /// input and each unit stays under its carry bound.
    pub fn from_seconds(total: u64) -> (r: DurationParts)
        ensures
            r.days * 86400 + r.hours * 3600 + r.minutes * 60 + r.seconds == total,
            r.hours < 24,
            r.minutes < 60,
            r.seconds < 60,
    {
        let days = total / 86400;
        let rem_day = total % 86400;
        let hours = rem_day / 3600;
        let rem_hour = rem_day % 3600;
        let minutes = rem_hour / 60;
        let seconds = rem_hour % 60;
        proof {
            vstd::arithmetic::div_mod::lemma_fundamental_div_mod(total as int, 86400);
            vstd::arithmetic::div_mod::lemma_fundamental_div_mod(rem_day as int, 3600);
            vstd::arithmetic::div_mod::lemma_fundamental_div_mod(rem_hour as int, 60);
            vstd::arithmetic::div_mod::lemma_mod_division_less_than_divisor(total as int, 86400);
            vstd::arithmetic::div_mod::lemma_mod_division_less_than_divisor(rem_day as int, 3600);
            vstd::arithmetic::div_mod::lemma_mod_division_less_than_divisor(rem_hour as int, 60);
        }
        DurationParts { days, hours, minutes, seconds }
    }
}

} // verus!
