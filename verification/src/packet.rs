//! The payloads of the text protocol: identifiers, the headers that address
//! a car, and the packets that the server writes.

use vstd::prelude::*;

use crate::error::ServerError;
use crate::number::{is_number_text, number_text};
use crate::text::{
    ascii, decimal, field, find, index_of, nth_field, nth_tail, parse_u8, push_bytes,
    push_decimal, push_str, tail, to_vec, trim, trimmed, u8_of_text,
};

verus! {

/// The shortest vehicle packet.
pub const MIN_VEHICLE_PACKET: usize = 6;

/// What kind of packet a payload is, by its first byte.
#[derive(Clone, Copy, Debug, PartialEq, Eq, Structural)]
pub enum PacketId {
    /// `H`: a request for a full sync.
    Hello,
    /// `p`: a keep-alive ping.
    Ping,
    /// `C`: chat.
    Chat,
    /// `E`: an event from the client.
    Event,
    /// `O`: a vehicle packet; its second byte says which.
    Vehicle,
    /// `Z`: a position report.
    Transform,
    /// `V` to `Y`: passed on to the peers as it is.
    PassThrough,
    /// `S`: a sync message, which only the server sends.
    Sync,
    /// Anything else.
    Unknown,
}

/// The kind of a packet with the given first byte.
pub open spec fn id_of(first: u8) -> PacketId {
    if 86 <= first <= 89 {
        PacketId::PassThrough
    } else if first == 72 {
        PacketId::Hello
    } else if first == 112 {
        PacketId::Ping
    } else if first == 67 {
        PacketId::Chat
    } else if first == 69 {
        PacketId::Event
    } else if first == 79 {
        PacketId::Vehicle
    } else if first == 90 {
        PacketId::Transform
    } else if first == 83 {
        PacketId::Sync
    } else {
        PacketId::Unknown
    }
}

/// Tells what kind of packet a payload is. An empty payload has no kind.
pub fn identify(data: &[u8]) -> (r: Result<PacketId, ServerError>)
    ensures
        match r {
            Ok(id) => data@.len() > 0 && id == id_of(data@[0]),
            Err(e) => e == ServerError::BrokenPacket && data@.len() == 0,
        },
{
    if data.len() == 0 {
        return Err(ServerError::BrokenPacket);
    }
    let first = data[0];
    Ok(
        if 86 <= first && first <= 89 {
            PacketId::PassThrough
        } else if first == 72 {
            PacketId::Hello
        } else if first == 112 {
            PacketId::Ping
        } else if first == 67 {
            PacketId::Chat
        } else if first == 69 {
            PacketId::Event
        } else if first == 79 {
            PacketId::Vehicle
        } else if first == 90 {
            PacketId::Transform
        } else if first == 83 {
            PacketId::Sync
        } else {
            PacketId::Unknown
        },
    )
}

/// The car that `<client>-<car>` names.
pub open spec fn car_pair(s: Seq<u8>) -> Option<(u8, u8)> {
    let dash = index_of(s, 45);
    if dash >= s.len() {
        None
    } else {
        match (u8_of_text(s.take(dash)), u8_of_text(s.skip(dash + 1))) {
            (Some(client_id), Some(car_id)) => Some((client_id, car_id)),
            _ => None,
        }
    }
}

/// Reads `<client>-<car>`.
pub fn parse_car_pair(s: &[u8]) -> (r: Option<(u8, u8)>)
    ensures
        r == car_pair(s@),
{
    let dash = find(s, 0, 45);
    assert(s@.skip(0) =~= s@);
    if dash >= s.len() {
        return None;
    }
    let left = &s[0..dash];
    let right = &s[dash + 1..s.len()];
    assert(left@ =~= s@.take(dash as int));
    assert(right@ =~= s@.skip(dash + 1));
    match parse_u8(left) {
        None => None,
        Some(client_id) => match parse_u8(right) {
            None => None,
            Some(car_id) => Some((client_id, car_id)),
        },
    }
}

/// The car that a despawn packet names: `Od:<client>-<car>`.
pub open spec fn despawn_header(data: Seq<u8>) -> Option<(u8, u8)> {
    match tail(data, 58, 1) {
        Some(body) => car_pair(body),
        None => None,
    }
}

/// The car that a vehicle packet addresses and the data it carries for it:
/// `O?:<client>-<car>:<data>`.
pub open spec fn vehicle_header(data: Seq<u8>) -> Option<(u8, u8, Seq<u8>)> {
    match (field(data, 58, 1), tail(data, 58, 2)) {
        (Some(pair), Some(rest)) => match car_pair(pair) {
            Some((client_id, car_id)) => Some((client_id, car_id, rest)),
            None => None,
        },
        _ => None,
    }
}

/// The car that a position report speaks of and the report itself:
/// `Z:<client>:<car>:<json>`.
pub open spec fn transform_header(data: Seq<u8>) -> Option<(u8, u8, Seq<u8>)> {
    match (field(data, 58, 1), field(data, 58, 2), tail(data, 58, 3)) {
        (Some(client), Some(car), Some(json)) => match (u8_of_text(client), u8_of_text(car)) {
            (Some(client_id), Some(car_id)) => Some((client_id, car_id, json)),
            _ => None,
        },
        _ => None,
    }
}

/// Reads the header of a despawn packet.
pub fn parse_despawn_header(data: &[u8]) -> (r: Option<(u8, u8)>)
    ensures
        r == despawn_header(data@),
{
    match nth_tail(data, 58, 1) {
        Some(body) => parse_car_pair(body),
        None => None,
    }
}

/// Reads the header of a vehicle packet that addresses a car.
pub fn parse_vehicle_header(data: &[u8]) -> (r: Option<(u8, u8, Vec<u8>)>)
    ensures
        match r {
            Some((client_id, car_id, rest)) => vehicle_header(data@) == Some(
                (client_id, car_id, rest@),
            ),
            None => vehicle_header(data@) is None,
        },
{
    let pair = match nth_field(data, 58, 1) {
        Some(pair) => pair,
        None => {
            return None;
        },
    };
    let rest = match nth_tail(data, 58, 2) {
        Some(rest) => rest,
        None => {
            return None;
        },
    };
    match parse_car_pair(pair) {
        Some((client_id, car_id)) => Some((client_id, car_id, to_vec(rest))),
        None => None,
    }
}

/// Reads the header of a position report.
pub fn parse_transform_header(data: &[u8]) -> (r: Option<(u8, u8, Vec<u8>)>)
    ensures
        match r {
            Some((client_id, car_id, json)) => transform_header(data@) == Some(
                (client_id, car_id, json@),
            ),
            None => transform_header(data@) is None,
        },
{
    let client = match nth_field(data, 58, 1) {
        Some(client) => client,
        None => {
            return None;
        },
    };
    let car = match nth_field(data, 58, 2) {
        Some(car) => car,
        None => {
            return None;
        },
    };
    let json = match nth_tail(data, 58, 3) {
        Some(json) => json,
        None => {
            return None;
        },
    };
    match parse_u8(client) {
        None => None,
        Some(client_id) => match parse_u8(car) {
            None => None,
            Some(car_id) => Some((client_id, car_id, to_vec(json))),
        },
    }
}

/// The message of a chat packet `C:<id>:<message>`: its third field without
/// white space at the ends, empty where the packet has no third field.
pub open spec fn chat_message(data: Seq<u8>) -> Seq<u8> {
    match field(data, 58, 2) {
        Some(message) => trimmed(message),
        None => Seq::empty(),
    }
}

/// Reads the message of a chat packet.
pub fn parse_chat_message(data: &[u8]) -> (r: Vec<u8>)
    ensures
        r@ == chat_message(data@),
{
    match nth_field(data, 58, 2) {
        Some(message) => to_vec(trim(message)),
        None => Vec::new(),
    }
}

/// The client that the arguments of a `SetSize` event name:
/// `<id>;<w>;<l>;<h>`, the id a byte-sized number and the three sizes number
/// texts. `None` where a part is missing or is not what it should be.
pub open spec fn size_event(args: Seq<u8>) -> Option<u8> {
    match (field(args, 59, 0), field(args, 59, 1), field(args, 59, 2), field(args, 59, 3)) {
        (Some(id), Some(w), Some(l), Some(h)) => if is_number_text(w) && is_number_text(l)
            && is_number_text(h) {
            u8_of_text(id)
        } else {
            None
        },
        _ => None,
    }
}

/// Reads the arguments of a `SetSize` event.
pub fn parse_size_event(args: &[u8]) -> (r: Option<u8>)
    ensures
        r == size_event(args@),
{
    let id = match nth_field(args, 59, 0) {
        Some(id) => id,
        None => {
            return None;
        },
    };
    let w = match nth_field(args, 59, 1) {
        Some(w) => w,
        None => {
            return None;
        },
    };
    let l = match nth_field(args, 59, 2) {
        Some(l) => l,
        None => {
            return None;
        },
    };
    let h = match nth_field(args, 59, 3) {
        Some(h) => h,
        None => {
            return None;
        },
    };
    if number_text(w) && number_text(l) && number_text(h) {
        parse_u8(id)
    } else {
        None
    }
}

/// The packet that announces a car:
/// `Os:<roles>:<name>:<client>-<car>:<json>`.
pub open spec fn spawn_packet(
    roles: Seq<u8>,
    name: Seq<u8>,
    client_id: u8,
    car_id: u8,
    json: Seq<u8>,
) -> Seq<u8> {
    ascii("Os:") + roles + seq![58u8] + name + seq![58u8] + decimal(client_id as nat) + seq![45u8]
        + decimal(car_id as nat) + seq![58u8] + json
}

/// Builds the packet that announces a car.
pub fn spawn_notice(
    roles: &[u8],
    name: &[u8],
    client_id: u8,
    car_id: u8,
    json: &[u8],
) -> (r: Vec<u8>)
    ensures
        r@ == spawn_packet(roles@, name@, client_id, car_id, json@),
{
    let mut packet: Vec<u8> = Vec::new();
    push_str(&mut packet, "Os:");
    push_bytes(&mut packet, roles);
    packet.push(58);
    push_bytes(&mut packet, name);
    packet.push(58);
    push_decimal(&mut packet, client_id as u64);
    packet.push(45);
    push_decimal(&mut packet, car_id as u64);
    packet.push(58);
    push_bytes(&mut packet, json);
    assert(packet@ =~= spawn_packet(roles@, name@, client_id, car_id, json@));
    packet
}

/// The answer to a request for a full sync: `Sn<name>`.
pub open spec fn sync_packet(name: Seq<u8>) -> Seq<u8> {
    ascii("Sn") + name
}

/// Builds the answer to a request for a full sync.
pub fn sync_notice(name: &[u8]) -> (r: Vec<u8>)
    ensures
        r@ == sync_packet(name@),
{
    let mut packet: Vec<u8> = Vec::new();
    push_str(&mut packet, "Sn");
    push_bytes(&mut packet, name);
    assert(packet@ =~= sync_packet(name@));
    packet
}

} // verus!
