//! The overwrite policy applied before each transformation.
//!
//! Given the policy, whether the target file already exists, and — when
//! they could be read — the modification times of the input and the
//! existing target, the decision says whether the transformation proceeds,
//! is silently skipped, or fails because a needed timestamp could not be
//! read.

use vstd::prelude::*;

use crate::transformer::OverwriteBehavior;

verus! {

/// What happens to one queued transformation once the overwrite policy has
/// been consulted.
#[derive(Clone, Copy, Debug, PartialEq, Eq, Structural)]
pub enum OverwriteDecision {
    /// The transformation runs and the target is (over)written.
    Proceed,
    /// The target is left as it is; this is a silent success.
    SkipExisting,
    /// The policy needed the modification times and they could not be
    /// read; this is a per-file error.
    TimestampUnavailable,
}

/// The decision for `policy` when the target's existence and the
/// modification times (input, existing target) are as given. Times are
/// only consulted under `IfNewer` with an existing target; `None` there
/// means they could not be read.
pub open spec fn spec_overwrite_decision(
    policy: OverwriteBehavior,
    target_exists: bool,
    times: Option<(u64, u64)>,
) -> OverwriteDecision {
    match policy {
        OverwriteBehavior::Always => OverwriteDecision::Proceed,
        OverwriteBehavior::Never => if target_exists {
            OverwriteDecision::SkipExisting
        } else {
            OverwriteDecision::Proceed
        },
        OverwriteBehavior::IfNewer => if !target_exists {
            OverwriteDecision::Proceed
        } else {
            match times {
                None => OverwriteDecision::TimestampUnavailable,
                Some((input_time, output_time)) => if input_time > output_time {
                    OverwriteDecision::Proceed
                } else {
                    OverwriteDecision::SkipExisting
                },
            }
        },
    }
}

/// Applies the overwrite policy: `Always` proceeds unconditionally;
/// `Never` skips an existing target silently; `IfNewer` proceeds only when
/// the input is strictly newer than the existing target, and turns an
/// unreadable timestamp into a per-file error.
pub fn overwrite_decision(
    policy: &OverwriteBehavior,
    target_exists: bool,
    modification_times: Option<(u64, u64)>,
) -> (d: OverwriteDecision)
    ensures
        d == spec_overwrite_decision(*policy, target_exists, modification_times),
{
    match policy {
        OverwriteBehavior::Always => OverwriteDecision::Proceed,
        OverwriteBehavior::Never => {
            if target_exists {
                OverwriteDecision::SkipExisting
            } else {
                OverwriteDecision::Proceed
            }
        },
        OverwriteBehavior::IfNewer => {
            if !target_exists {
                OverwriteDecision::Proceed
            } else {
                match modification_times {
                    None => OverwriteDecision::TimestampUnavailable,
                    Some((input_time, output_time)) => {
                        if input_time > output_time {
                            OverwriteDecision::Proceed
                        } else {
                            OverwriteDecision::SkipExisting
                        }
                    },
                }
            }
        },
    }
}

/// Law: under the `Never` policy an existing target is always skipped —
/// the transformation never runs (so the input is never read for it) and
/// no error is reported, whatever the timestamps say.
pub proof fn lemma_never_policy_skips(target_exists: bool, times: Option<(u64, u64)>)
    requires
        target_exists,
    ensures
        spec_overwrite_decision(OverwriteBehavior::Never, target_exists, times)
            == OverwriteDecision::SkipExisting,
{
}

/// Law: under the `IfNewer` policy with an existing target and readable
/// times, no write occurs when the input is not strictly newer than the
/// target, and a write is attempted exactly when it is strictly newer.
pub proof fn lemma_if_newer_policy(input_time: u64, output_time: u64)
    ensures
        input_time <= output_time ==> spec_overwrite_decision(
            OverwriteBehavior::IfNewer,
            true,
            Some((input_time, output_time)),
        ) == OverwriteDecision::SkipExisting,
        input_time > output_time ==> spec_overwrite_decision(
            OverwriteBehavior::IfNewer,
            true,
            Some((input_time, output_time)),
        ) == OverwriteDecision::Proceed,
{
}

/// Law: under the `IfNewer` policy with an existing target, an unreadable
/// timestamp is surfaced as an error, never as a silent skip or a write.
pub proof fn lemma_if_newer_unreadable_times_error(target_exists: bool)
    requires
        target_exists,
    ensures
        spec_overwrite_decision(OverwriteBehavior::IfNewer, target_exists, None)
            == OverwriteDecision::TimestampUnavailable,
{
}

} // verus!
