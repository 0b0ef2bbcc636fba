//! The boot decision: recover from bad Wi-Fi credentials by counting failed
//! station connections across reboots, and honour a factory reset request.

use vstd::prelude::*;
use crate::config::MAX_STA_FAILS;

verus! {

/// What a boot does before bringing up Wi-Fi.
#[derive(Clone, Copy, Debug, PartialEq, Eq, Structural)]
pub struct BootPlan {
    /// Wipe the stored credentials (a factory reset was requested).
    pub clear_credentials: bool,
    /// Start the setup portal whatever credentials are stored.
    pub force_portal: bool,
    /// The failure count to store now.
    pub fail_count: u32,
    /// The failure count to store before a station connection attempt:
    /// the attempt counts as failed until it succeeds.
    pub attempt_fail_count: u32,
}

/// The failure count once a factory reset request is honoured.
pub open spec fn fails_after_reset(factory_reset: bool, sta_fail_count: u32) -> int {
    if factory_reset { 0 } else { sta_fail_count as int }
}

/// The plan for a boot with a pending factory reset request
/// `factory_reset` and `sta_fail_count` consecutive failed station
/// connections.
pub open spec fn boot_plan(factory_reset: bool, sta_fail_count: u32) -> BootPlan {
    let fails = fails_after_reset(factory_reset, sta_fail_count);
    let force_portal = fails >= MAX_STA_FAILS;
    let fail_count: u32 = if force_portal { 0 } else { fails as u32 };
    BootPlan {
        clear_credentials: factory_reset,
        force_portal,
        fail_count,
        attempt_fail_count: (fail_count + 1) as u32,
    }
}

/// Plan a boot from the persisted state: a pending factory reset request
/// and the number of consecutive failed station connections.
pub fn plan_boot(factory_reset: bool, sta_fail_count: u32) -> (p: BootPlan)
    ensures
        p == boot_plan(factory_reset, sta_fail_count),
        p.clear_credentials == factory_reset,
        p.force_portal == (fails_after_reset(factory_reset, sta_fail_count) >= MAX_STA_FAILS),
        p.force_portal ==> p.fail_count == 0,
        !p.force_portal ==> p.fail_count == fails_after_reset(factory_reset, sta_fail_count),
        p.attempt_fail_count == p.fail_count + 1,
        p.fail_count < MAX_STA_FAILS,
{
    let fails: u32 = if factory_reset { 0 } else { sta_fail_count };
    let force_portal = fails >= MAX_STA_FAILS;
    let fail_count: u32 = if force_portal { 0 } else { fails };
    BootPlan {
        clear_credentials: factory_reset,
        force_portal,
        fail_count,
        attempt_fail_count: fail_count + 1,
    }
}

/// The persisted failure count after `n` boots in a row, from a clean
/// count, none of them forced into the portal, whose station connection
/// attempt failed.
pub open spec fn count_after_failed_boots(n: nat) -> u32
    decreases n,
{
    if n == 0 {
        0
    } else {
        boot_plan(false, count_after_failed_boots((n - 1) as nat)).attempt_fail_count
    }
}

/// From a clean count, the boot that follows `MAX_STA_FAILS` failed
/// connections in a row starts the setup portal, and none before it does.
pub proof fn lemma_portal_after_repeated_failures(n: nat)
    requires
        n <= MAX_STA_FAILS,
    ensures
        count_after_failed_boots(n) == n,
        boot_plan(false, count_after_failed_boots(n)).force_portal == (n == MAX_STA_FAILS),
    decreases n,
{
    if n > 0 {
        lemma_portal_after_repeated_failures((n - 1) as nat);
    }
}

} // verus!
