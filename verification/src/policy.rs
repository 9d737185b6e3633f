//! Product policy: the telemetry and commercial defaults of a build, pinned in one place.
use vstd::prelude::*;

verus! {

/// Master switch for commercial telemetry egress: when set, every guarded call site
/// returns before doing any network work.
pub const BLOCK_COMMERCIAL_TELEMETRY: bool = true;

/// Default for `check_for_update_on_startup` when the user has not configured it.
pub const CHECK_FOR_UPDATE_ON_STARTUP_BY_DEFAULT: bool = !BLOCK_COMMERCIAL_TELEMETRY;

/// Whether the built-in OTEL metrics exporter is enabled by default.
pub const OTEL_METRICS_ENABLED_BY_DEFAULT: bool = !BLOCK_COMMERCIAL_TELEMETRY;

/// The derived defaults follow the master switch: blocking telemetry turns off update
/// probes and metrics export.
pub proof fn lemma_defaults_follow_switch()
    ensures
        CHECK_FOR_UPDATE_ON_STARTUP_BY_DEFAULT == !BLOCK_COMMERCIAL_TELEMETRY,
        OTEL_METRICS_ENABLED_BY_DEFAULT == !BLOCK_COMMERCIAL_TELEMETRY,
{
}

} // verus!
