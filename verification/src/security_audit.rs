//! Levels and states of vulnerabilities found by component audits.

use vstd::prelude::*;

verus! {

/// Severity of a vulnerability found by a component audit.
#[derive(Debug, Clone, Copy, PartialEq, Eq, Structural)]
pub enum SecuritySeverity {
    Critical,
    High,
    Medium,
    Low,
    Info,
}

/// Where a vulnerability stands.
#[derive(Debug, Clone, Copy, PartialEq, Eq, Structural)]
pub enum VulnerabilityStatus {
    Open,
    InProgress,
    Fixed,
    FalsePositive,
}

} // verus!
