//! Health rating of modules and topic connections.
//!
//! A connection is rated by its backlog first and by the waiting time of its
//! oldest message second; a module is as unhealthy as the worst counter of
//! any topic it reads or writes that is not ignored.
use vstd::prelude::*;
use crate::config::GraphConfig;
use crate::snapshot::{ReadMetrics, WriteMetrics};

verus! {

/// Health status of a module or topic connection.
#[derive(Debug, Clone, Copy, PartialEq, Eq, Structural)]
pub enum HealthStatus {
    Healthy,
    Warning,
    Critical,
}

/// Thresholds at which counters turn a module or connection unhealthy.
#[derive(Debug, Clone, Copy, PartialEq, Eq, Structural)]
pub struct HealthConfig {
    pub backlog_warning: u64,
    pub backlog_critical: u64,
    pub pending_warning_us: u64,
    pub pending_critical_us: u64,
}

impl Default for HealthConfig {
    fn default() -> (r: Self)
        ensures
            r == (HealthConfig {
                backlog_warning: 100,
                backlog_critical: 1000,
                pending_warning_us: 500_000,
                pending_critical_us: 2_000_000,
            }),
    {
        HealthConfig {
            backlog_warning: 100,
            backlog_critical: 1000,
            pending_warning_us: 500_000,
            pending_critical_us: 2_000_000,
        }
    }
}

impl HealthConfig {
    /// The thresholds of a graph configuration, with waiting times converted
    /// from milliseconds to microseconds.
    pub fn from(config: GraphConfig) -> (r: Self)
        requires
            config.pending_warning_ms * 1000 <= u64::MAX,
            config.pending_critical_ms * 1000 <= u64::MAX,
        ensures
            r.backlog_warning == config.backlog_warning,
            r.backlog_critical == config.backlog_critical,
            r.pending_warning_us == config.pending_warning_ms * 1000,
            r.pending_critical_us == config.pending_critical_ms * 1000,
    {
        HealthConfig {
            backlog_warning: config.backlog_warning,
            backlog_critical: config.backlog_critical,
            pending_warning_us: config.pending_warning_ms * 1000,
            pending_critical_us: config.pending_critical_ms * 1000,
        }
    }
}

/// `v` is present and at least `limit`.
pub open spec fn reaches_limit(v: Option<u64>, limit: u64) -> bool {
    match v {
        Some(x) => x >= limit,
        None => false,
    }
}

/// The health of a connection with the given backlog and waiting time:
/// the backlog decides when it reaches a threshold, the waiting time
/// otherwise.
pub open spec fn edge_health(cfg: HealthConfig, backlog: Option<u64>, pending_us: Option<u64>) -> HealthStatus {
    if reaches_limit(backlog, cfg.backlog_critical) {
        HealthStatus::Critical
    } else if reaches_limit(backlog, cfg.backlog_warning) {
        HealthStatus::Warning
    } else if reaches_limit(pending_us, cfg.pending_critical_us) {
        HealthStatus::Critical
    } else if reaches_limit(pending_us, cfg.pending_warning_us) {
        HealthStatus::Warning
    } else {
        HealthStatus::Healthy
    }
}

/// A read counter that makes its module critical.
pub open spec fn read_is_critical(cfg: HealthConfig, r: ReadMetrics) -> bool {
    reaches_limit(r.backlog, cfg.backlog_critical) || reaches_limit(r.pending_us, cfg.pending_critical_us)
}

/// A read counter that makes its module at least a warning.
pub open spec fn read_is_warning(cfg: HealthConfig, r: ReadMetrics) -> bool {
    reaches_limit(r.backlog, cfg.backlog_warning) || reaches_limit(r.pending_us, cfg.pending_warning_us)
}

/// A write counter that makes its module critical.
pub open spec fn write_is_critical(cfg: HealthConfig, w: WriteMetrics) -> bool {
    reaches_limit(w.pending_us, cfg.pending_critical_us)
}

/// A write counter that makes its module at least a warning.
pub open spec fn write_is_warning(cfg: HealthConfig, w: WriteMetrics) -> bool {
    reaches_limit(w.pending_us, cfg.pending_warning_us)
}

/// Computes the health of a connection from its backlog and waiting time.
pub fn compute_edge_health(cfg: &HealthConfig, backlog: Option<u64>, pending_us: Option<u64>) -> (r:
    HealthStatus)
    ensures
        r == edge_health(*cfg, backlog, pending_us),
{
    if let Some(backlog) = backlog {
        if backlog >= cfg.backlog_critical {
            return HealthStatus::Critical;
        } else if backlog >= cfg.backlog_warning {
            return HealthStatus::Warning;
        }
    }
    if let Some(pending) = pending_us {
        if pending >= cfg.pending_critical_us {
            return HealthStatus::Critical;
        } else if pending >= cfg.pending_warning_us {
            return HealthStatus::Warning;
        }
    }
    HealthStatus::Healthy
}

} // verus!
