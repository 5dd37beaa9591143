//! Process-wide state handed explicitly to the parts that need it: the
//! configuration, the game environment, and the ready and shutdown flags.

use std::sync::Arc;
use vstd::prelude::*;
use crate::config::ConfigurationManager;

verus! {

/// Relies on `std::time::SystemTime::now` and `duration_since(UNIX_EPOCH)`:
/// seconds since the Unix epoch, or 0 for a clock set before it.
#[verifier::external_body]
pub fn get_unix_timestamp() -> (r: u64) {
    match std::time::SystemTime::now().duration_since(std::time::UNIX_EPOCH) {
        Ok(d) => d.as_secs(),
        Err(_) => 0,
    }
}

/// The hotel's subsystems; they live outside the library, so loading and
/// disposing change nothing here.
pub struct GameEnvironment;

impl GameEnvironment {
    pub fn new() -> (r: Self) {
        GameEnvironment
    }

    pub fn load(&self) -> (r: Result<(), String>)
        ensures
            r is Ok,
    {
        Ok(())
    }

    pub fn dispose(&self) {
    }
}

/// Shared state of a running server.
pub struct Emulator {
    config: Arc<ConfigurationManager>,
    game_environment: Arc<GameEnvironment>,
    ready: bool,
    shutting_down: bool,
}

impl Emulator {
    pub closed spec fn spec_ready(&self) -> bool {
        self.ready
    }

    pub closed spec fn spec_shutting_down(&self) -> bool {
        self.shutting_down
    }

    pub closed spec fn spec_config(&self) -> ConfigurationManager {
        *self.config
    }

    pub fn new(config: Arc<ConfigurationManager>, game_environment: Arc<GameEnvironment>) -> (r:
        Self)
        ensures
            !r.spec_ready(),
            !r.spec_shutting_down(),
            r.spec_config() == *config,
    {
        Emulator { config, game_environment, ready: false, shutting_down: false }
    }

    pub fn get_config(&self) -> (r: Arc<ConfigurationManager>)
        ensures
            *r == self.spec_config(),
    {
        self.config.clone()
    }

    pub fn get_game_environment(&self) -> (r: Arc<GameEnvironment>) {
        self.game_environment.clone()
    }

    /// Everything is loaded and the servers listen.
    pub fn set_ready(&mut self)
        ensures
            final(self).spec_ready(),
            final(self).spec_shutting_down() == old(self).spec_shutting_down(),
            final(self).spec_config() == old(self).spec_config(),
    {
        self.ready = true;
    }

    pub fn is_ready(&self) -> (r: bool)
        ensures
            r == self.spec_ready(),
    {
        self.ready
    }

    pub fn is_shutting_down(&self) -> (r: bool)
        ensures
            r == self.spec_shutting_down(),
    {
        self.shutting_down
    }

    /// Starts the shutdown; returns `true` only for the call that started it.
    pub fn dispose(&mut self) -> (r: bool)
        ensures
            r == !old(self).spec_shutting_down(),
            final(self).spec_shutting_down(),
            final(self).spec_ready() == old(self).spec_ready(),
            final(self).spec_config() == old(self).spec_config(),
    {
        if self.shutting_down {
            return false;
        }
        self.shutting_down = true;
        true
    }
}

} // verus!
