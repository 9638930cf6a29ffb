//! Errors of the filter.
use vstd::prelude::*;

use crate::prefix::Ipv6Prefix;

verus! {

/// What can go wrong in setting up or running the filter.
#[derive(Debug)]
pub enum FilterError {
    /// Setting up failed; the text says how.
    InitError(String),
    /// A rule for this network exists already.
    RuleConflict(Ipv6Prefix),
    /// Capturing a packet timed out.
    CaptureTimeout,
    /// The platform is not supported; the text names it.
    UnsupportedPlatform(&'static str),
}

} // verus!
