//! The histograms that the service exports, with their bucket bounds in
//! milliseconds.

use crate::registration::RegistrationError;
use vstd::prelude::*;

verus! {

/// Name of the histogram of hashing durations.
pub const GENERATE_HASH_NAME: &'static str = "generate_hash_duration_seconds";

/// Help text of the histogram of hashing durations.
pub const GENERATE_HASH_HELP: &'static str = "Duration to generate argon2 hash for the user.";

/// Name of the histogram of durations of storing a user.
pub const SAVE_USER_NAME: &'static str = "save_user_duration_seconds";

/// Help text of the histogram of durations of storing a user.
pub const SAVE_USER_HELP: &'static str = "Duration to save user into the database.";

/// The `n` bounds `first`, `first + step`, ..., `first + (n - 1) * step`.
pub open spec fn evenly_spaced(first: nat, step: nat, n: nat) -> Seq<u64> {
    Seq::new(n, |i: int| (first + i * step) as u64)
}

/// Builds `n` bounds from `first` in steps of `step`.
fn spaced_bounds(first: u64, step: u64, n: u64) -> (r: Vec<u64>)
    requires
        first + n * step <= u64::MAX,
    ensures
        r@ == evenly_spaced(first as nat, step as nat, n as nat),
{
    let mut r: Vec<u64> = Vec::new();
    let mut i: u64 = 0;
    while i < n
        invariant
            i <= n,
            first + n * step <= u64::MAX,
            r@ == evenly_spaced(first as nat, step as nat, i as nat),
        decreases n - i,
    {
        assert(first + i * step <= first + n * step) by (nonlinear_arith)
            requires
                i < n,
        ;
        r.push(first + i * step);
        i = i + 1;
    }
    r
}

/// Bucket bounds of the hashing histogram: 50 ms to 150 ms in steps of 10 ms.
pub fn generate_hash_buckets_ms() -> (r: Vec<u64>)
    ensures
        r@ == evenly_spaced(50, 10, 11),
        r@[0] == 50 && r@[10] == 150,
{
    spaced_bounds(50, 10, 11)
}

/// Bucket bounds of the storing histogram: 10 ms to 100 ms in steps of 10 ms.
pub fn save_user_buckets_ms() -> (r: Vec<u64>)
    ensures
        r@ == evenly_spaced(10, 10, 10),
        r@[0] == 10 && r@[9] == 100,
{
    spaced_bounds(10, 10, 10)
}

/// Whether a registration with this outcome hashed a password, and whether it
/// stored a user: each one is a sample of the matching histogram.
pub open spec fn samples_of(outcome: Result<(), RegistrationError>) -> (bool, bool) {
    match outcome {
        Ok(()) => (true, true),
        Err(RegistrationError::SaveFailed) => (true, false),
        Err(_) => (false, false),
    }
}

/// The histograms that a registration records a duration in: the hashing one
/// once a password was hashed, the storing one once the user was stored.
pub fn recorded_samples(outcome: Result<(), RegistrationError>) -> (r: (bool, bool))
    ensures
        r == samples_of(outcome),
{
    match outcome {
        Ok(()) => (true, true),
        Err(RegistrationError::SaveFailed) => (true, false),
        Err(_) => (false, false),
    }
}

/// Samples recorded in the hashing histogram over a run of registrations.
pub open spec fn hash_samples(outcomes: Seq<Result<(), RegistrationError>>) -> nat
    decreases outcomes.len(),
{
    if outcomes.len() == 0 {
        0
    } else {
        hash_samples(outcomes.drop_last()) + if samples_of(outcomes.last()).0 {
            1nat
        } else {
            0nat
        }
    }
}

/// Samples recorded in the storing histogram over a run of registrations.
pub open spec fn save_samples(outcomes: Seq<Result<(), RegistrationError>>) -> nat
    decreases outcomes.len(),
{
    if outcomes.len() == 0 {
        0
    } else {
        save_samples(outcomes.drop_last()) + if samples_of(outcomes.last()).1 {
            1nat
        } else {
            0nat
        }
    }
}

/// After `n` successful registrations each histogram holds exactly `n` more
/// samples than before them.
pub proof fn lemma_successful_registrations_counted(
    before: Seq<Result<(), RegistrationError>>,
    after: Seq<Result<(), RegistrationError>>,
)
    requires
        forall|i: int| 0 <= i < after.len() ==> after[i] is Ok,
    ensures
        hash_samples(before + after) == hash_samples(before) + after.len(),
        save_samples(before + after) == save_samples(before) + after.len(),
    decreases after.len(),
{
    if after.len() == 0 {
        assert(before + after =~= before);
    } else {
        let shorter = after.drop_last();
        lemma_successful_registrations_counted(before, shorter);
        assert((before + after).drop_last() =~= before + shorter);
        assert((before + after).last() == after.last());
    }
}

} // verus!
