//! The health of the orchestration: whether its persistence answers.

use vstd::prelude::*;

verus! {

/// The name under which the orchestration reports its health.
pub const ORCHESTRATION_HEALTH_INDICATOR_NAME: &'static str = "orchestration";

/// Whether a component works.
#[derive(Debug, Clone, Copy, PartialEq, Eq, Structural)]
pub enum HealthStatus {
    /// It works.
    Up,
    /// It does not.
    Down,
}

/// The health of a component.
#[derive(Debug)]
pub struct Health {
    /// Whether it works.
    pub status: HealthStatus,
    /// Why it does not.
    pub message: Option<String>,
    /// What is known about the persistence.
    pub persistence: String,
}

/// Reports the health of the orchestration under a name.
#[derive(Debug)]
pub struct OrchestrationHealthIndicator {
    /// The name.
    pub name: String,
}

impl OrchestrationHealthIndicator {
    /// An indicator under [`ORCHESTRATION_HEALTH_INDICATOR_NAME`].
    pub fn new() -> (indicator: OrchestrationHealthIndicator)
        ensures
            indicator.name@ == ORCHESTRATION_HEALTH_INDICATOR_NAME@,
    {
        OrchestrationHealthIndicator { name: ORCHESTRATION_HEALTH_INDICATOR_NAME.to_owned() }
    }

    /// An indicator under a name.
    pub fn with_name(name: &str) -> (indicator: OrchestrationHealthIndicator)
        ensures
            indicator.name@ == name@,
    {
        OrchestrationHealthIndicator { name: name.to_owned() }
    }

    /// The name.
    pub fn name(&self) -> (name: &str)
        ensures
            name@ == self.name@,
    {
        self.name.as_str()
    }

    /// The health, by what a probe of the persistence said.
    pub fn check(&self, healthy: bool) -> (health: Health)
        ensures
            healthy ==> health.status == HealthStatus::Up && health.message is None
                && health.persistence@ == "ok"@,
            !healthy ==> health.status == HealthStatus::Down && (health.message matches Some(m)
                && m@ == "persistence provider unreachable"@) && health.persistence@
                == "unreachable"@,
    {
        if healthy {
            Health { status: HealthStatus::Up, message: None, persistence: "ok".to_owned() }
        } else {
            Health {
                status: HealthStatus::Down,
                message: Some("persistence provider unreachable".to_owned()),
                persistence: "unreachable".to_owned(),
            }
        }
    }
}

} // verus!
