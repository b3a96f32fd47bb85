//! The error values of the server, its sessions and its overlays.

use vstd::prelude::*;

verus! {

/// What can go wrong while a packet is routed.
#[derive(Debug, Clone, Copy, PartialEq, Eq, Structural)]
pub enum ServerError {
    /// The payload is malformed or too short.
    BrokenPacket,
    /// The packet addresses a car that its client does not own.
    CarDoesntExist,
    /// The packet addresses a session that is not live.
    ClientDoesntExist,
}

/// Why a session is not admitted.
#[derive(Debug, Clone, Copy, PartialEq, Eq, Structural)]
pub enum AuthenticationError {
    /// The name is not on the whitelist, or a live session has it already.
    NotWhitelisted,
    /// The roster is closed: the event is past the point where sessions
    /// join.
    Closed,
    /// Every session id is taken.
    Full,
}

/// What can go wrong with one overlay connection.
#[derive(Debug, Clone, Copy, PartialEq, Eq, Structural)]
pub enum OverlayError {
    /// The connection failed or did not open with a greeting.
    ConnectionError,
}

impl ServerError {
    /// The name of the error, as it is logged.
    pub fn name(&self) -> (r: &'static str)
        ensures
            r@ == match *self {
                ServerError::BrokenPacket => "BrokenPacket"@,
                ServerError::CarDoesntExist => "CarDoesntExist"@,
                ServerError::ClientDoesntExist => "ClientDoesntExist"@,
            },
    {
        match self {
            ServerError::BrokenPacket => "BrokenPacket",
            ServerError::CarDoesntExist => "CarDoesntExist",
            ServerError::ClientDoesntExist => "ClientDoesntExist",
        }
    }
}

impl AuthenticationError {
    /// What the refused player is told.
    pub open spec fn spec_reason(self) -> &'static str {
        match self {
            AuthenticationError::NotWhitelisted => "Not whitelisted for this server!",
            AuthenticationError::Closed => "Failed to authenticate player!",
            AuthenticationError::Full => "Failed to authenticate player!",
        }
    }

    /// What the refused player is told.
    pub fn reason(&self) -> (r: &'static str)
        ensures
            r == self.spec_reason(),
    {
        match self {
            AuthenticationError::NotWhitelisted => "Not whitelisted for this server!",
            AuthenticationError::Closed => "Failed to authenticate player!",
            AuthenticationError::Full => "Failed to authenticate player!",
        }
    }
}

impl OverlayError {
    /// The name of the error, as it is logged.
    pub fn name(&self) -> (r: &'static str)
        ensures
            r@ == "ConnectionError"@,
    {
        "ConnectionError"
    }
}

} // verus!
