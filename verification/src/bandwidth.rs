//! Bandwidth policy and manager configuration.

use vstd::prelude::*;

verus! {

/// The manager's bandwidth policy: a single global cap shared across the
/// active downloads.
#[derive(Debug, Clone, Copy, PartialEq, Eq, Structural)]
pub struct BandwidthPolicy {
    /// Global cap in bytes per second, or `None` for unlimited.
    pub max_bytes_per_sec: Option<u64>,
}

/// The per-download share of a global cap given `active` transfers (a
/// count of zero counts as one); no share where there is no cap or the cap
/// is `0`, which means unlimited.
pub open spec fn budget(cap: Option<u64>, active: nat) -> Option<u64> {
    match cap {
        Some(total) if total > 0 => Some(
            (total / (if active == 0 {
                1
            } else {
                active
            }) as u64) as u64,
        ),
        _ => None,
    }
}

/// The token-bucket rate for one of `active` downloads: its share of the
/// cap, at least one byte per second; `None` exactly when the policy is
/// unlimited.
pub open spec fn limiter_rate(cap: Option<u64>, active: nat) -> Option<u64> {
    match budget(cap, active) {
        Some(b) => if b > 0 {
            Some(b)
        } else {
            Some(1)
        },
        None => None,
    }
}

impl BandwidthPolicy {
    /// A policy with no bandwidth limit.
    pub fn unlimited() -> (r: BandwidthPolicy)
        ensures
            r.max_bytes_per_sec is None,
    {
        BandwidthPolicy { max_bytes_per_sec: None }
    }

    /// A policy capped at `max_bytes_per_sec` (a cap of `0` means unlimited).
    pub fn new(max_bytes_per_sec: Option<u64>) -> (r: BandwidthPolicy)
        ensures
            r.max_bytes_per_sec == max_bytes_per_sec,
    {
        BandwidthPolicy { max_bytes_per_sec }
    }

    /// The per-download share of the global cap given `active` transfers
    /// (a count of zero is treated as one); `None` when unlimited.
    pub fn per_download_budget(&self, active: usize) -> (r: Option<u64>)
        ensures
            r == budget(self.max_bytes_per_sec, active as nat),
    {
        match self.max_bytes_per_sec {
            None => None,
            Some(0) => None,
            Some(total) => {
                let n: u64 = if active == 0 {
                    1
                } else {
                    active as u64
                };
                Some(total / n)
            },
        }
    }

    /// The rate of the token bucket one download is throttled by (its
    /// share, at least one byte per second), or `None` when unlimited.
    pub fn limiter_for(&self, active: usize) -> (r: Option<u64>)
        ensures
            r == limiter_rate(self.max_bytes_per_sec, active as nat),
    {
        match self.per_download_budget(active) {
            Some(b) => if b > 0 {
                Some(b)
            } else {
                Some(1)
            },
            None => None,
        }
    }
}

/// The shares handed to `active` downloads never add up to more than a
/// global cap above `0`.
pub proof fn law_budget_shares_fit(total: u64, active: usize)
    requires
        active > 0,
        total > 0,
    ensures
        budget(Some(total), active as nat) matches Some(b) && b * active <= total,
{
    let a = active as u64;
    let b = total / a;
    assert(b * a <= total) by (nonlinear_arith)
        requires
            b == total / a,
            a > 0,
    ;
}

/// A policy is unlimited exactly when it has no cap or a cap of `0`: then
/// no download gets a share or a limiter; otherwise every download, however
/// many are active, is throttled at its share, or at one byte per second
/// where the share rounds down to nothing.
pub proof fn law_only_unlimited_policies_leave_downloads_unthrottled(cap: Option<u64>, active: nat)
    ensures
        (cap is None || cap == Some(0u64)) ==> budget(cap, active) is None && limiter_rate(cap, active) is None,
        (cap matches Some(t) && t > 0) ==> (limiter_rate(cap, active) is Some && limiter_rate(cap, active)->0 >= 1
            && budget(cap, active) is Some && limiter_rate(cap, active)->0 == (if budget(cap, active)->0 > 0 {
            budget(cap, active)->0
        } else {
            1
        })),
{
}

/// How the manager treats downloads that were in flight when the process
/// exited without finishing them.
#[derive(Debug, Clone, Copy, PartialEq, Eq, Structural)]
pub enum RecoveryPolicy {
    /// Interrupted downloads become failed with a clear error, and must be
    /// retried explicitly.
    Failed,
    /// Interrupted downloads become queued again and can be restarted by the
    /// scheduler.
    Queued,
}

impl Default for RecoveryPolicy {
    fn default() -> (r: RecoveryPolicy)
        ensures
            r == RecoveryPolicy::Failed,
    {
        RecoveryPolicy::Failed
    }
}

/// Configuration of the download manager.
#[derive(Debug, Clone, Copy, PartialEq, Eq, Structural)]
pub struct ManagerConfig {
    /// Maximum number of downloads allowed to transfer at the same time.
    pub max_concurrent_downloads: usize,
    /// Bandwidth policy applied across active downloads.
    pub bandwidth: BandwidthPolicy,
    /// How to recover in-flight downloads discovered at startup.
    pub recover_interrupted: RecoveryPolicy,
}

impl Default for ManagerConfig {
    fn default() -> (r: ManagerConfig)
        ensures
            r.max_concurrent_downloads == 3,
            r.bandwidth.max_bytes_per_sec is None,
            r.recover_interrupted == RecoveryPolicy::Failed,
    {
        ManagerConfig {
            max_concurrent_downloads: 3,
            bandwidth: BandwidthPolicy::unlimited(),
            recover_interrupted: RecoveryPolicy::Failed,
        }
    }
}

} // verus!
