//! Error kinds of the library.

use vstd::prelude::*;

verus! {

/// What went wrong.
#[derive(Debug, PartialEq, Eq, Clone, Copy, Structural)]
pub enum SimError {
    /// A configuration value is out of range or inconsistent.
    ConfigInvalid,
    /// No logical topology connects every pair of ground stations.
    TopologyInfeasible,
    /// A query names a node, edge or path that does not exist.
    PathUnreachable,
    /// An event reached a handler that has no business with it.
    ProtocolViolation,
    /// An event names a port where no application listens.
    ApplicationMissing,
}

impl SimError {
    /// A short human-readable description.
    pub fn message(&self) -> (r: &'static str)
        ensures
            r@.len() > 0,
    {
        proof {
            reveal_strlit("invalid configuration");
            reveal_strlit("infeasible logical topology");
            reveal_strlit("unreachable path");
            reveal_strlit("protocol violation");
            reveal_strlit("no application at port");
        }
        match self {
            SimError::ConfigInvalid => "invalid configuration",
            SimError::TopologyInfeasible => "infeasible logical topology",
            SimError::PathUnreachable => "unreachable path",
            SimError::ProtocolViolation => "protocol violation",
            SimError::ApplicationMissing => "no application at port",
        }
    }
}

} // verus!
