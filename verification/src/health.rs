//! The health check.

use vstd::prelude::*;

verus! {

/// What the health check answers.
#[derive(Clone, Copy, Debug, PartialEq, Eq, Structural)]
pub enum HealthCheckResponse {
    /// OK
    OK,
}

/// The health check of the service.
#[derive(Clone, Copy, Debug)]
pub struct HealthApi;

impl HealthApi {
    /// Return the health of the service. Useful to check if everything is
    /// configured correctly: a service that answers at all answers `OK`.
    pub fn health_check(&self) -> (health: HealthCheckResponse)
        ensures
            health == HealthCheckResponse::OK,
    {
        HealthCheckResponse::OK
    }
}

} // verus!
