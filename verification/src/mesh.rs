//! Service mesh mode: the gateway as a sidecar, with an identity for each
//! workload.

pub mod sidecar;
pub mod spiffe;
