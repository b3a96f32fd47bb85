//! The settings of one server: network ports, map assets and the event's
//! rules, with the values that stand in for what is left out.

use vstd::prelude::*;

verus! {

/// The port of the game listener where none is set.
pub const DEFAULT_PORT: u16 = 48900;

/// The port of the overlay listener where none is set.
pub const DEFAULT_OVERLAY_PORT: u16 = 48901;

/// The length of qualifying in seconds where none is set.
pub const DEFAULT_QUAL_TIME: usize = 120;

/// The number of laps of a race where none is set.
pub const DEFAULT_MAX_LAPS: usize = 5;

/// All settings of one server.
#[derive(Clone, Debug)]
pub struct Config {
    pub network: NetworkSettings,
    pub game: GameSettings,
    pub event: EventSettings,
}

/// Where the server listens.
#[derive(Clone, Debug)]
pub struct NetworkSettings {
    pub port: Option<u16>,
    pub overlay_port: Option<u16>,
}

/// The map's asset files and the rules of the session.
#[derive(Clone, Debug)]
pub struct GameSettings {
    pub map: String,
    pub map_limits: Option<String>,
    pub map_limits_pit: Option<String>,
    pub map_limits_pit_exit: Option<String>,
    pub map_finish: Option<String>,
    pub map_spawns_pit: Option<String>,
    pub map_spawns_odd: Option<String>,
    pub map_spawns_even: Option<String>,
    pub map_checkpoints: Option<Vec<String>>,
    pub server_physics: bool,
    pub max_cars: Option<u8>,
    pub max_laps: Option<usize>,
    pub qual_time: Option<usize>,
}

/// Who is expected at the event.
#[derive(Clone, Debug)]
pub struct EventSettings {
    pub expected_clients: Option<Vec<String>>,
}

impl NetworkSettings {
    /// The port of the game listener, TCP and UDP.
    pub fn port(&self) -> (r: u16)
        ensures
            r == self.spec_port(),
    {
        match self.port {
            Some(port) => port,
            None => DEFAULT_PORT,
        }
    }

    /// The port of the game listener: the one set, else 48900.
    pub open spec fn spec_port(&self) -> u16 {
        match self.port {
            Some(port) => port,
            None => DEFAULT_PORT,
        }
    }

    /// The port of the overlay listener.
    pub fn overlay_port(&self) -> (r: u16)
        ensures
            r == self.spec_overlay_port(),
    {
        match self.overlay_port {
            Some(port) => port,
            None => DEFAULT_OVERLAY_PORT,
        }
    }

    /// The port of the overlay listener: the one set, else 48901.
    pub open spec fn spec_overlay_port(&self) -> u16 {
        match self.overlay_port {
            Some(port) => port,
            None => DEFAULT_OVERLAY_PORT,
        }
    }
}

impl GameSettings {
    /// The length of qualifying in seconds.
    pub fn qual_time(&self) -> (r: usize)
        ensures
            r == self.spec_qual_time(),
    {
        match self.qual_time {
            Some(seconds) => seconds,
            None => DEFAULT_QUAL_TIME,
        }
    }

    /// The length of qualifying in seconds: the one set, else 120.
    pub open spec fn spec_qual_time(&self) -> usize {
        match self.qual_time {
            Some(seconds) => seconds,
            None => DEFAULT_QUAL_TIME,
        }
    }

    /// The number of laps of a race.
    pub fn max_laps(&self) -> (r: usize)
        ensures
            r == self.spec_max_laps(),
    {
        match self.max_laps {
            Some(laps) => laps,
            None => DEFAULT_MAX_LAPS,
        }
    }

    /// The number of laps of a race: the one set, else 5.
    pub open spec fn spec_max_laps(&self) -> usize {
        match self.max_laps {
            Some(laps) => laps,
            None => DEFAULT_MAX_LAPS,
        }
    }
}

} // verus!
