//! Error taxonomy of the control plane.

use vstd::prelude::*;

verus! {

/// Errors surfaced by the control plane.  Transient conditions are retried
/// by the procedure engine; the others are permanent for the procedure
/// instance that meets them.
#[derive(Clone, Copy, PartialEq, Eq, Structural, Debug)]
pub enum Error {
    /// A retryable condition: RPC unavailable, timeout, leader unknown.
    Transient,
    /// A submission was rejected before any procedure was created.
    InvalidArguments,
    /// The region is not present in the route table.
    RegionRouteNotFound,
    /// The compare-and-swap at route commit saw a different leader than
    /// expected; permanent for this procedure.
    RouteChanged,
    /// The target datanode rejected the region (disk full or incompatible
    /// schema); permanent.
    TargetRejected,
    /// The route commit succeeded but a post-commit step cannot finish;
    /// the procedure must roll forward and never aborts.
    Catastrophic,
}

impl Error {
    /// Whether the procedure engine may retry a step that failed with this
    /// error.
    pub open spec fn spec_is_retryable(self) -> bool {
        self is Transient
    }

    pub fn is_retryable(&self) -> (r: bool)
        ensures
            r == self.spec_is_retryable(),
    {
        match self {
            Error::Transient => true,
            _ => false,
        }
    }

    /// A short human-readable tag for the error, for status reports.
    pub fn text(&self) -> (r: &'static str) {
        match self {
            Error::Transient => "transient",
            Error::InvalidArguments => "invalid arguments",
            Error::RegionRouteNotFound => "region route not found",
            Error::RouteChanged => "route changed",
            Error::TargetRejected => "target rejected",
            Error::Catastrophic => "catastrophic",
        }
    }
}

} // verus!
