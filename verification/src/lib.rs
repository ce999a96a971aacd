//! Discovery of known hardware models on local network segments.
//!
//! The library holds the verified core of the discovery pipeline: the
//! model registry, reply-line parsing, per-interface deduplication of
//! responding addresses, probe-outcome classification, and the
//! eligibility rule for network interfaces. The surrounding process
//! (multicast pinging, remote sessions, printing) lives outside and
//! hands the library plain values.

pub mod orchestrate;
pub mod probe;
pub mod registry;
pub mod scan;
pub mod text;

use vstd::prelude::*;

verus! {

/// The delimiter that attaches a zone or scope suffix to a link-local
/// address; the suffix is not part of the routable address.
pub open spec fn spec_scope_delimiter() -> char {
    '%'
}

} // verus!
