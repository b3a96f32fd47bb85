//! The phases of a race event.

use vstd::prelude::*;

verus! {

/// The phase that the server is in.
#[derive(Clone, Copy, Debug, PartialEq, Eq, Structural)]
pub enum ServerState {
    Unknown,
    WaitingForClients,
    WaitingForReady,
    WaitingForSpawns,
    Qualifying,
    LiningUp,
    Countdown,
    Race,
    Finish,
}

impl ServerState {
    /// The number that stands for the phase on the overlay stream.
    pub open spec fn spec_id(self) -> u8 {
        match self {
            ServerState::Unknown => 0,
            ServerState::WaitingForClients => 1,
            ServerState::WaitingForReady => 2,
            ServerState::WaitingForSpawns => 3,
            ServerState::Qualifying => 4,
            ServerState::LiningUp => 5,
            ServerState::Countdown => 6,
            ServerState::Race => 7,
            ServerState::Finish => 8,
        }
    }

    /// The number that stands for the phase on the overlay stream.
    pub fn id(&self) -> (r: u8)
        ensures
            r == self.spec_id(),
    {
        match self {
            ServerState::Unknown => 0,
            ServerState::WaitingForClients => 1,
            ServerState::WaitingForReady => 2,
            ServerState::WaitingForSpawns => 3,
            ServerState::Qualifying => 4,
            ServerState::LiningUp => 5,
            ServerState::Countdown => 6,
            ServerState::Race => 7,
            ServerState::Finish => 8,
        }
    }

    /// Whether the roster is closed in this phase: from the wait for spawns
    /// on, nobody joins.
    pub open spec fn roster_frozen(self) -> bool {
        self != ServerState::Unknown && self != ServerState::WaitingForClients && self
            != ServerState::WaitingForReady
    }

    /// Whether cars are timed and held to the track in this phase.
    pub open spec fn on_track(self) -> bool {
        self == ServerState::Qualifying || self == ServerState::Race
    }

    /// Whether cars are timed and held to the track in this phase.
    pub fn is_on_track(&self) -> (r: bool)
        ensures
            r == self.on_track(),
    {
        match self {
            ServerState::Qualifying => true,
            ServerState::Race => true,
            _ => false,
        }
    }
}

} // verus!
