//! The rule engine of a dedicated multiplayer racing server.
//!
//! The engine decides; it performs no input or output. A shell around it
//! reads sockets and files, hands what it read to the engine as plain values,
//! and sends what the engine has queued.
//!
//! - `codec`, `packet`, `text`, `number`: the wire format.
//! - `car`, `client`, `overlay`, `spawns`, `math`: the data of a running
//!   event, with lengths and fractions in millionths and times in
//!   milliseconds.
//! - `server`: the roster, the packet router, the look at the track and the
//!   race state machine.
//! - `ui`: what the dashboard and the server tell each other.
//! - `laws`: what holds of all of it together.

pub mod car;
pub mod client;
pub mod codec;
pub mod config;
pub mod error;
pub mod laws;
pub mod math;
pub mod number;
pub mod overlay;
pub mod packet;
pub mod server;
pub mod spawns;
pub mod state;
pub mod text;
pub mod ui;
