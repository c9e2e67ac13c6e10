//! The settings that the configuration loader hands to the agent.

use vstd::prelude::*;

verus! {

/// The settings of the agent.
#[derive(Debug, Clone, PartialEq, Eq)]
pub struct Config {
    /// The address of the game server, as `host:port`.
    pub server_address: String,
    /// The name under which the team registers.
    pub team_name: String,
    /// The navigation mode. `random` selects the simpler heuristic; every
    /// other word selects the visit-count engine.
    pub navigation_mode: String,
    /// Whether progress is to be saved. The core does not read it.
    pub save_progress: bool,
}

impl Config {
    /// Whether the settings select the navigation mode `random`.
    pub open spec fn random_navigation(&self) -> bool {
        self.navigation_mode@ == "random"@
    }

    /// Executable form of [`Config::random_navigation`].
    pub fn uses_random_navigation(&self) -> (random: bool)
        ensures
            random == self.random_navigation(),
    {
        self.navigation_mode.as_str().eq("random")
    }
}

} // verus!
