//! The packet router: what each packet of a session does to the server and
//! to whom it is passed on.

use vstd::prelude::*;

use crate::car::{Car, Transform};
use crate::client::{cars_distinct, event_packet, id_free, Client, ClientState};
use crate::codec::{opened, split_datagram, unseal, datagram_parts};
use crate::error::ServerError;
use crate::math::{Vec3, UNIT};
use crate::packet::{
    chat_message, despawn_header, id_of, identify, PacketId, parse_chat_message,
    parse_despawn_header, parse_size_event, parse_transform_header, parse_vehicle_header,
    size_event, spawn_notice, spawn_packet, sync_notice, sync_packet, transform_header,
    vehicle_header, MIN_VEHICLE_PACKET,
};
use crate::server::roster::{despawn_notice, despawn_packet};
use crate::server::{broadcasted, broadcasted_udp, client_wf, client_wf_kept, only_changed, Server};
use crate::state::ServerState;
use crate::text::{
    ascii, decimal, field, has_prefix, nth_field, nth_tail, push_decimal, same_bytes,
    starts_with, tail, to_vec, views,
};

verus! {

/// What is left to do with a packet once it has been routed.
#[derive(Clone, Debug)]
pub enum Routed {
    /// Nothing: the packet has had its effect.
    Done,
    /// A position report waits to be decoded. Its numbers go to
    /// `update_transform` together with the packet.
    Transform { client_id: u8, car_id: u8, json: Vec<u8>, packet: Vec<u8> },
    /// A respawn that is to be snapped to the pit lane waits to be decoded.
    /// Its position goes to `respawn_in_pits`.
    Respawn { client_id: u8, car_id: u8, json: Vec<u8> },
}

/// The hitbox that a car gets when its size is reported.
pub open spec fn reported_hitbox() -> Vec3 {
    Vec3 { x: 650000, y: 1000000, z: 600000 }
}

/// `after` is `before` marked ready and told so.
pub open spec fn readied(before: Client, after: Client) -> bool {
    &&& after == Client { ready: true, queue: after.queue, ..before }
    &&& views(after.queue@) == views(before.queue@).push(ascii("C:Server:You are now ready!"))
}

/// The first car of every session with the id has the reported hitbox, and
/// nothing else has changed.
pub open spec fn sized(before: Seq<Client>, after: Seq<Client>, id: u8) -> bool {
    &&& after.len() == before.len()
    &&& forall|i: int|
        0 <= i < before.len() ==> if (#[trigger] before[i]).id == id && before[i].cars@.len() > 0 {
            &&& (#[trigger] after[i]) == Client { cars: after[i].cars, ..before[i] }
            &&& after[i].cars@ == before[i].cars@.update(
                0,
                (before[i].cars@[0].0, Car { hitbox_half: reported_hitbox(), ..before[i].cars@[0].1 }),
            )
        } else {
            after[i] == before[i]
        }
}

/// What a request for a full sync does: the requester is sent `Sn<name>`.
pub open spec fn hello_routed(before: Server, after: Server, at: int) -> bool {
    &&& after == Server { clients: after.clients, ..before }
    &&& only_changed(before.clients@, after.clients@, at)
    &&& Client::queued(
        before.clients@[at],
        after.clients@[at],
        sync_packet(before.clients@[at].name()),
    )
}

/// What a chat packet does. A message that does not begin with `!` goes to
/// everybody. `!ready` marks the sender ready and tells it so. `!pos` asks
/// for the sender's first car and fails where it has none. Any other command
/// is answered as unknown.
pub open spec fn chat_routed(
    before: Server,
    after: Server,
    at: int,
    data: Seq<u8>,
    r: Result<Routed, ServerError>,
) -> bool {
    let message = chat_message(data);
    &&& after == Server { clients: after.clients, ..before }
    &&& if !has_prefix(message, ascii("!")) {
        r matches Ok(Routed::Done) && broadcasted(before.clients@, after.clients@, data, None)
    } else if message == ascii("!ready") {
        r matches Ok(Routed::Done) && only_changed(before.clients@, after.clients@, at) && readied(
            before.clients@[at],
            after.clients@[at],
        )
    } else if message == ascii("!pos") {
        after.clients@ == before.clients@ && if before.clients@[at].cars@.len() > 0 {
            r matches Ok(Routed::Done)
        } else {
            r matches Err(ServerError::CarDoesntExist)
        }
    } else {
        r matches Ok(Routed::Done) && only_changed(before.clients@, after.clients@, at)
            && Client::queued(
            before.clients@[at],
            after.clients@[at],
            ascii("C:Server:Unknown command!"),
        )
    }
}

/// What an event packet `E:<name>:<args>` does. `SetSize` with arguments
/// gives the first car of the client it names the reported hitbox, and is a
/// broken packet where its arguments are not what they should be. Any other
/// event, and one without arguments, does nothing.
pub open spec fn event_routed(
    before: Server,
    after: Server,
    data: Seq<u8>,
    r: Result<Routed, ServerError>,
) -> bool {
    &&& after == Server { clients: after.clients, ..before }
    &&& if field(data, 58, 1) == Some(ascii("SetSize")) && field(data, 58, 2) is Some {
        match size_event(field(data, 58, 2).unwrap()) {
            Some(id) => r matches Ok(Routed::Done) && sized(before.clients@, after.clients@, id),
            None => r matches Err(ServerError::BrokenPacket) && after.clients@ == before.clients@,
        }
    } else {
        r matches Ok(Routed::Done) && after.clients@ == before.clients@
    }
}

/// Whether the session at `at` may spawn a car now: spawning is allowed, and
/// the session has fewer cars than a session may have.
pub open spec fn may_spawn(s: Server, at: int) -> bool {
    s.allow_spawns && match s.config.game.max_cars {
        Some(max_cars) => s.clients@[at].cars@.len() < max_cars,
        None => true,
    }
}

/// The owner of a car that has just been spawned: the car stands at the end
/// of its cars, and it has been asked for the car's size and, unless it is
/// marked for removal, sent the announcement.
pub open spec fn spawned_owner(
    before: Client,
    after: Client,
    car_id: u8,
    json: Seq<u8>,
    packet: Seq<u8>,
) -> bool {
    &&& after == Client { cars: after.cars, queue: after.queue, ..before }
    &&& after.cars@.len() == before.cars@.len() + 1
    &&& after.cars@.drop_last() == before.cars@
    &&& after.cars@.last().0 == car_id
    &&& Car::fresh(after.cars@.last().1, json)
    &&& views(after.queue@) == views(before.queue@).push(
        event_packet(ascii("GetSize"), decimal(before.id as nat)),
    ) + (if before.state != ClientState::Disconnect {
        seq![packet]
    } else {
        Seq::empty()
    })
}

/// The owner of a car whose spawn has been denied: it has been sent the
/// announcement and, right after it, the removal of the same car.
pub open spec fn denied_owner(before: Client, after: Client, car_id: u8, packet: Seq<u8>) -> bool {
    &&& after == Client { queue: after.queue, ..before }
    &&& views(after.queue@) == views(before.queue@).push(packet).push(
        despawn_packet(before.id, car_id),
    )
}

/// What a spawn request `Os:<…>:<json>` does. The car gets the smallest id
/// that is free at its owner. Where the owner may spawn, the car is
/// registered, the owner is asked for its size, and everybody is sent the
/// announcement. Where it may not, the owner alone is sent the announcement
/// and the removal, and no car is registered. A request without the blob is a
/// broken packet, and one from an owner with no id left names a car that
/// cannot exist.
pub open spec fn spawn_routed(
    before: Server,
    after: Server,
    at: int,
    data: Seq<u8>,
    r: Result<Routed, ServerError>,
) -> bool {
    let owner = before.clients@[at];
    &&& after == Server { clients: after.clients, ..before }
    &&& match tail(data, 58, 2) {
        None => r matches Err(ServerError::BrokenPacket) && after.clients@ == before.clients@,
        Some(json) => if forall|k: u8| !id_free(owner.cars@, k) {
            r matches Err(ServerError::CarDoesntExist) && after.clients@ == before.clients@
        } else {
            &&& r matches Ok(Routed::Done)
            &&& exists|car_id: u8| #[trigger]
                Client::is_next_id(owner.cars@, car_id) && spawn_done(
                    before,
                    after,
                    at,
                    car_id,
                    json,
                )
        },
    }
}

/// What a spawn request has done once the id of the car is known.
pub open spec fn spawn_done(
    before: Server,
    after: Server,
    at: int,
    car_id: u8,
    json: Seq<u8>,
) -> bool {
    let owner = before.clients@[at];
    let packet = spawn_packet(owner.roles(), owner.name(), owner.id, car_id, json);
    &&& after.clients@.len() == before.clients@.len()
    &&& if may_spawn(before, at) {
        forall|i: int|
            0 <= i < before.clients@.len() ==> if i == at {
                spawned_owner(before.clients@[i], #[trigger] after.clients@[i], car_id, json, packet)
            } else if before.clients@[i].state != ClientState::Disconnect {
                Client::queued(before.clients@[i], after.clients@[i], packet)
            } else {
                after.clients@[i] == before.clients@[i]
            }
    } else {
        only_changed(before.clients@, after.clients@, at) && denied_owner(
            owner,
            after.clients@[at],
            car_id,
            packet,
        )
    }
}

/// `after` is `before` with the blob of its car under `car_id` replaced; a
/// session without such a car is unchanged.
pub open spec fn json_set(before: Client, after: Client, car_id: u8, json: Seq<u8>) -> bool {
    if id_free(before.cars@, car_id) {
        after == before
    } else {
        &&& after == Client { cars: after.cars, ..before }
        &&& after.cars@.len() == before.cars@.len()
        &&& forall|j: int|
            0 <= j < before.cars@.len() ==> if (#[trigger] before.cars@[j]).0 == car_id {
                &&& (#[trigger] after.cars@[j]).0 == car_id
                &&& after.cars@[j].1 == Car { car_json: after.cars@[j].1.car_json, ..before.cars@[j].1 }
                &&& after.cars@[j].1.car_json@ == json
            } else {
                after.cars@[j] == before.cars@[j]
            }
    }
}

/// What a vehicle-data packet `Oc:<client>-<car>:<json>` does: the car it
/// addresses gets the blob, and every session but the one it names is sent
/// the packet as it is. A packet whose header does not read is broken.
pub open spec fn car_data_routed(
    before: Server,
    after: Server,
    data: Seq<u8>,
    r: Result<Routed, ServerError>,
) -> bool {
    &&& after == Server { clients: after.clients, ..before }
    &&& match vehicle_header(data) {
        None => r matches Err(ServerError::BrokenPacket) && after.clients@ == before.clients@,
        Some((client_id, car_id, json)) => {
            &&& r matches Ok(Routed::Done)
            &&& after.clients@.len() == before.clients@.len()
            &&& forall|i: int|
                0 <= i < before.clients@.len() ==> if (#[trigger] before.clients@[i]).id
                    == client_id {
                    json_set(before.clients@[i], #[trigger] after.clients@[i], car_id, json)
                } else if before.clients@[i].state != ClientState::Disconnect {
                    Client::queued(before.clients@[i], after.clients@[i], data)
                } else {
                    after.clients@[i] == before.clients@[i]
                }
        },
    }
}

/// A session after a despawn packet that names the car `car_id` of the
/// session `client_id`: the session named has lost that car, and every
/// session that is not marked for removal has been sent the packet.
pub open spec fn despawn_seen(
    before: Client,
    after: Client,
    client_id: u8,
    car_id: u8,
    data: Seq<u8>,
) -> bool {
    &&& after == Client { cars: after.cars, queue: after.queue, ..before }
    &&& after.cars@ == if before.id == client_id {
        Client::without(before.cars@, car_id)
    } else {
        before.cars@
    }
    &&& views(after.queue@) == if before.state != ClientState::Disconnect {
        views(before.queue@).push(data)
    } else {
        views(before.queue@)
    }
}

/// What a despawn packet `Od:<client>-<car>` does: the car is unregistered
/// and everybody, the sender too, is sent the packet as it is. A packet
/// whose header does not read is broken.
pub open spec fn despawn_routed(
    before: Server,
    after: Server,
    data: Seq<u8>,
    r: Result<Routed, ServerError>,
) -> bool {
    &&& after == Server { clients: after.clients, ..before }
    &&& match despawn_header(data) {
        None => r matches Err(ServerError::BrokenPacket) && after.clients@ == before.clients@,
        Some((client_id, car_id)) => {
            &&& r matches Ok(Routed::Done)
            &&& after.clients@.len() == before.clients@.len()
            &&& forall|i: int|
                0 <= i < before.clients@.len() ==> despawn_seen(
                    #[trigger] before.clients@[i],
                    #[trigger] after.clients@[i],
                    client_id,
                    car_id,
                    data,
                )
        },
    }
}

/// What a respawn packet `Or:<client>-<car>:<json>` does. While respawns are
/// forced to the pit lane, nothing yet: the packet is handed back to be
/// decoded, and is broken where its header does not read. Otherwise the peers
/// of the sender are sent the packet as it is.
pub open spec fn respawn_routed(
    before: Server,
    after: Server,
    at: int,
    data: Seq<u8>,
    r: Result<Routed, ServerError>,
) -> bool {
    &&& after == Server { clients: after.clients, ..before }
    &&& if before.force_respawn_pits {
        &&& after.clients@ == before.clients@
        &&& match vehicle_header(data) {
            None => r matches Err(ServerError::BrokenPacket),
            Some((client_id, car_id, json)) => r matches Ok(
                Routed::Respawn { client_id: c, car_id: k, json: j },
            ) && c == client_id && k == car_id && j@ == json,
        }
    } else {
        r matches Ok(Routed::Done) && broadcasted(
            before.clients@,
            after.clients@,
            data,
            Some(before.clients@[at].id),
        )
    }
}

/// What a vehicle packet does, by its second byte: `s` spawns, `c` updates a
/// car's blob, `d` despawns, `r` respawns, `t` goes to the peers and `m` to
/// everybody as it is, and anything else is dropped. A vehicle packet of
/// fewer than six bytes is broken.
pub open spec fn vehicle_routed(
    before: Server,
    after: Server,
    at: int,
    data: Seq<u8>,
    r: Result<Routed, ServerError>,
) -> bool {
    if data.len() < MIN_VEHICLE_PACKET {
        r matches Err(ServerError::BrokenPacket) && after == before
    } else if data[1] == 115 {
        spawn_routed(before, after, at, data, r)
    } else if data[1] == 99 {
        car_data_routed(before, after, data, r)
    } else if data[1] == 100 {
        despawn_routed(before, after, data, r)
    } else if data[1] == 114 {
        respawn_routed(before, after, at, data, r)
    } else if data[1] == 116 {
        r matches Ok(Routed::Done) && after == (Server { clients: after.clients, ..before })
            && broadcasted(
            before.clients@,
            after.clients@,
            data,
            Some(before.clients@[at].id),
        )
    } else if data[1] == 109 {
        r matches Ok(Routed::Done) && after == (Server { clients: after.clients, ..before })
            && broadcasted(before.clients@, after.clients@, data, None)
    } else {
        r matches Ok(Routed::Done) && after == before
    }
}

/// The cars of a session after its car under `car_id` was sent back to the
/// pit lane; every car where `hit` is not set.
pub open spec fn cars_pitted(
    before: Seq<(u8, Car)>,
    after: Seq<(u8, Car)>,
    hit: bool,
    car_id: u8,
    qualifying: bool,
) -> bool {
    &&& after.len() == before.len()
    &&& forall|j: int|
        0 <= j < before.len() ==> {
            &&& (#[trigger] after[j]).0 == before[j].0
            &&& after[j].1 == if hit && before[j].0 == car_id {
                Car::sent_to_pits(before[j].1, qualifying)
            } else {
                before[j].1
            }
        }
}

/// The cars of a session after its car under `car_id` took over a position
/// report; every car where `hit` is not set.
pub open spec fn cars_moved(
    before: Seq<(u8, Car)>,
    after: Seq<(u8, Car)>,
    hit: bool,
    car_id: u8,
    report: Transform,
    now: u64,
) -> bool {
    &&& after.len() == before.len()
    &&& forall|j: int|
        0 <= j < before.len() ==> {
            &&& (#[trigger] after[j]).0 == before[j].0
            &&& after[j].1 == if hit && before[j].0 == car_id {
                Car::moved_to(before[j].1, report, now)
            } else {
                before[j].1
            }
        }
}

/// Whether a respawn at `pos` by the session `client_id` is snapped to the
/// pit lane: not while the grid lines up or counts down, and only where the
/// car would come up more than one unit from its pit slot.
pub open spec fn snaps(s: Server, client_id: u8, pos: Vec3) -> bool {
    s.server_state != ServerState::LiningUp && s.server_state != ServerState::Countdown
        && Vec3::apart(s.track_spawns_pit.slot(client_id).pos, pos, UNIT as int)
}

/// What a respawn that is forced to the pit lane does: the car it names
/// heads for the first checkpoint again, in qualifying with its clocks
/// cleared, and where the respawn is snapped, the sender is told to respawn
/// at the pit slot of the session named.
pub open spec fn pits_routed(
    before: Server,
    after: Server,
    at: int,
    client_id: u8,
    car_id: u8,
    pos: Vec3,
) -> bool {
    &&& after == Server { clients: after.clients, ..before }
    &&& after.clients@.len() == before.clients@.len()
    &&& forall|i: int|
        0 <= i < before.clients@.len() ==> {
            &&& (#[trigger] after.clients@[i]) == Client {
                cars: after.clients@[i].cars,
                queue: after.clients@[i].queue,
                ..before.clients@[i]
            }
            &&& cars_pitted(
                before.clients@[i].cars@,
                after.clients@[i].cars@,
                before.clients@[i].id == client_id,
                car_id,
                before.server_state == ServerState::Qualifying,
            )
            &&& views(after.clients@[i].queue@) == if i == at && snaps(before, client_id, pos) {
                views(before.clients@[i].queue@).push(
                    event_packet(ascii("Respawn"), before.track_spawns_pit.slot(client_id).text()),
                )
            } else {
                views(before.clients@[i].queue@)
            }
        }
}

/// Whether a position report for the car `car_id` of the session
/// `client_id` finds its car: it does unless the session is live and has no
/// such car.
pub open spec fn report_lands(clients: Seq<Client>, client_id: u8, car_id: u8) -> bool {
    forall|i: int|
        0 <= i < clients.len() && (#[trigger] clients[i]).id == client_id ==> !id_free(
            clients[i].cars@,
            car_id,
        )
}

/// What a position report does: the car takes over the transform, and
/// every other session whose datagram address is known is sent the packet as
/// it is. A report for a car that its session does not have changes
/// nothing.
pub open spec fn transform_routed(
    before: Server,
    after: Server,
    client_id: u8,
    car_id: u8,
    report: Transform,
    packet: Seq<u8>,
    now: u64,
    r: Result<(), ServerError>,
) -> bool {
    &&& after == Server { clients: after.clients, ..before }
    &&& if !report_lands(before.clients@, client_id, car_id) {
        r matches Err(ServerError::CarDoesntExist) && after.clients@ == before.clients@
    } else {
        &&& r is Ok
        &&& after.clients@.len() == before.clients@.len()
        &&& forall|i: int|
            0 <= i < before.clients@.len() ==> {
                &&& (#[trigger] after.clients@[i]) == Client {
                    cars: after.clients@[i].cars,
                    udp_queue: after.clients@[i].udp_queue,
                    ..before.clients@[i]
                }
                &&& cars_moved(
                    before.clients@[i].cars@,
                    after.clients@[i].cars@,
                    before.clients@[i].id == client_id,
                    car_id,
                    report,
                    now,
                )
                &&& views(after.clients@[i].udp_queue@) == if crate::server::receives_udp(
                    before.clients@[i],
                    Some(client_id),
                ) {
                    views(before.clients@[i].udp_queue@).push(packet)
                } else {
                    views(before.clients@[i].udp_queue@)
                }
            }
    }
}

/// What a packet that came on a session's stream does, once it is out of its
/// envelope. An empty packet is broken. `V` to `Y` go to the peers as they
/// are. `H` is answered, `O`, `C` and `E` are routed by their own rules, and
/// anything else is dropped.
pub open spec fn routed_tcp(
    before: Server,
    after: Server,
    at: int,
    data: Seq<u8>,
    r: Result<Routed, ServerError>,
) -> bool {
    if data.len() == 0 {
        r matches Err(ServerError::BrokenPacket) && after == before
    } else {
        match id_of(data[0]) {
            PacketId::PassThrough => r matches Ok(Routed::Done) && after == (Server {
                clients: after.clients,
                ..before
            }) && broadcasted(
                before.clients@,
                after.clients@,
                data,
                Some(before.clients@[at].id),
            ),
            PacketId::Hello => r matches Ok(Routed::Done) && hello_routed(before, after, at),
            PacketId::Vehicle => vehicle_routed(before, after, at, data, r),
            PacketId::Chat => chat_routed(before, after, at, data, r),
            PacketId::Event => event_routed(before, after, data, r),
            _ => r matches Ok(Routed::Done) && after == before,
        }
    }
}

/// What a packet that came as a datagram does, once it is out of its
/// envelope. An empty packet is broken. `V` to `Y` go, as datagrams, to the
/// peers whose address is known. `p` is answered with `p`. `Z` is handed back
/// to be decoded, and is broken where its header does not read. Anything else
/// is dropped.
pub open spec fn routed_udp(
    before: Server,
    after: Server,
    at: int,
    data: Seq<u8>,
    r: Result<Routed, ServerError>,
) -> bool {
    if data.len() == 0 {
        r matches Err(ServerError::BrokenPacket) && after == before
    } else {
        match id_of(data[0]) {
            PacketId::PassThrough => r matches Ok(Routed::Done) && after == (Server {
                clients: after.clients,
                ..before
            }) && broadcasted_udp(
                before.clients@,
                after.clients@,
                data,
                Some(before.clients@[at].id),
            ),
            PacketId::Ping => {
                &&& r matches Ok(Routed::Done)
                &&& after == Server { clients: after.clients, ..before }
                &&& only_changed(before.clients@, after.clients@, at)
                &&& Client::queued_udp(before.clients@[at], after.clients@[at], seq![112u8])
            },
            PacketId::Transform => after == before && match transform_header(data) {
                None => r matches Err(ServerError::BrokenPacket),
                Some((client_id, car_id, json)) => r matches Ok(
                    Routed::Transform { client_id: c, car_id: k, json: j, packet: p },
                ) && c == client_id && k == car_id && j@ == json && p@ == data,
            },
            _ => r matches Ok(Routed::Done) && after == before,
        }
    }
}

/// `after` is `before` with the datagram address of the session at `at`
/// known.
pub open spec fn heard(before: Server, after: Server, at: int) -> bool {
    &&& after == Server { clients: after.clients, ..before }
    &&& only_changed(before.clients@, after.clients@, at)
    &&& after.clients@[at] == Client { udp_known: true, ..before.clients@[at] }
}

/// What a datagram payload from the session at `at` does. An empty payload
/// is broken and changes nothing. Any other makes the session's datagram
/// address known; it is then taken out of its envelope, which fails on a
/// corrupt one, and routed.
pub open spec fn datagram_routed(
    before: Server,
    after: Server,
    at: int,
    payload: Seq<u8>,
    r: Result<Routed, ServerError>,
) -> bool {
    if payload.len() == 0 {
        r matches Err(ServerError::BrokenPacket) && after == before
    } else {
        exists|mid: Server| #[trigger]
            heard(before, mid, at) && match opened(payload) {
                None => r matches Err(ServerError::BrokenPacket) && after == mid,
                Some(data) => routed_udp(mid, after, at, data, r),
            }
    }
}

impl Client {
    /// Registers a car under the id that is next, and queues the request for
    /// its size.
    pub fn spawn_car(&mut self, car_id: u8, json: &[u8])
        requires
            Client::is_next_id(old(self).cars@, car_id),
        ensures
            *final(self) == (Client {
                cars: final(self).cars,
                queue: final(self).queue,
                ..*old(self)
            }),
            final(self).cars@.len() == old(self).cars@.len() + 1,
            final(self).cars@.drop_last() == old(self).cars@,
            final(self).cars@.last().0 == car_id,
            Car::fresh(final(self).cars@.last().1, json@),
            views(final(self).queue@) == views(old(self).queue@).push(
                event_packet(ascii("GetSize"), decimal(old(self).id as nat)),
            ),
            cars_distinct(old(self).cars@) ==> cars_distinct(final(self).cars@),
    {
        let car = Car::new(to_vec(json));
        let got = self.register_car(car);
        assert(got == Some(car_id));
        assert(self.cars@.drop_last() =~= old(self).cars@);
        let mut number: Vec<u8> = Vec::new();
        push_decimal(&mut number, self.id as u64);
        assert(number@ =~= decimal(self.id as nat));
        self.trigger_client_event("GetSize", number.as_slice());
    }

    /// Sends the car under `car_id` back to the pit lane, where the session
    /// has it.
    pub fn pit_car(&mut self, car_id: u8, qualifying: bool)
        ensures
            *final(self) == (Client { cars: final(self).cars, ..*old(self) }),
            cars_pitted(old(self).cars@, final(self).cars@, true, car_id, qualifying),
    {
        let mut j: usize = 0;
        while j < self.cars.len()
            invariant
                j <= self.cars@.len(),
                *self == (Client { cars: self.cars, ..*old(self) }),
                self.cars@.len() == old(self).cars@.len(),
                forall|k: int|
                    0 <= k < self.cars@.len() ==> {
                        &&& (#[trigger] self.cars@[k]).0 == old(self).cars@[k].0
                        &&& self.cars@[k].1 == if k < j && old(self).cars@[k].0 == car_id {
                            Car::sent_to_pits(old(self).cars@[k].1, qualifying)
                        } else {
                            old(self).cars@[k].1
                        }
                    },
            decreases self.cars.len() - j,
        {
            if self.cars[j].0 == car_id {
                self.cars[j].1.respawn_in_pits(qualifying);
            }
            j += 1;
        }
    }

    /// Gives the car under `car_id` the transform of a position report.
    pub fn move_car(&mut self, car_id: u8, report: &Transform, now: u64)
        ensures
            *final(self) == (Client { cars: final(self).cars, ..*old(self) }),
            cars_moved(old(self).cars@, final(self).cars@, true, car_id, *report, now),
    {
        let mut j: usize = 0;
        while j < self.cars.len()
            invariant
                j <= self.cars@.len(),
                *self == (Client { cars: self.cars, ..*old(self) }),
                self.cars@.len() == old(self).cars@.len(),
                forall|k: int|
                    0 <= k < self.cars@.len() ==> {
                        &&& (#[trigger] self.cars@[k]).0 == old(self).cars@[k].0
                        &&& self.cars@[k].1 == if k < j && old(self).cars@[k].0 == car_id {
                            Car::moved_to(old(self).cars@[k].1, *report, now)
                        } else {
                            old(self).cars@[k].1
                        }
                    },
            decreases self.cars.len() - j,
        {
            if self.cars[j].0 == car_id {
                self.cars[j].1.set_transform(report, now);
            }
            j += 1;
        }
    }
}

impl Server {
    /// Answers a request for a full sync.
    pub fn route_hello(&mut self, client_idx: usize)
        requires
            old(self).wf(),
            client_idx < old(self).clients@.len(),
        ensures
            final(self).wf(),
            hello_routed(*old(self), *final(self), client_idx as int),
    {
        let packet = sync_notice(self.clients[client_idx].get_name());
        self.clients[client_idx].queue_packet(packet);
        proof {
            Server::wf_same_roster(*old(self), *self);
        }
    }

    /// Routes a chat packet.
    pub fn route_chat(&mut self, client_idx: usize, data: &[u8]) -> (r: Result<Routed, ServerError>)
        requires
            old(self).wf(),
            client_idx < old(self).clients@.len(),
        ensures
            final(self).wf(),
            chat_routed(*old(self), *final(self), client_idx as int, data@, r),
    {
        let message = parse_chat_message(data);
        if !starts_with(message.as_slice(), "!".as_bytes()) {
            self.broadcast(data, None);
            proof {
                Server::wf_same_roster(*old(self), *self);
            }
            return Ok(Routed::Done);
        }
        if same_bytes(message.as_slice(), "!ready".as_bytes()) {
            self.clients[client_idx].ready = true;
            self.clients[client_idx].queue_packet(crate::text::literal("C:Server:You are now ready!"));
            proof {
                Server::wf_same_roster(*old(self), *self);
            }
            Ok(Routed::Done)
        } else if same_bytes(message.as_slice(), "!pos".as_bytes()) {
            if self.clients[client_idx].cars.len() > 0 {
                Ok(Routed::Done)
            } else {
                Err(ServerError::CarDoesntExist)
            }
        } else {
            self.clients[client_idx].queue_packet(crate::text::literal("C:Server:Unknown command!"));
            proof {
                Server::wf_same_roster(*old(self), *self);
            }
            Ok(Routed::Done)
        }
    }

    /// Gives the first car of the session with the id the reported hitbox.
    #[verifier::rlimit(50)]
    pub fn set_size(&mut self, id: u8)
        requires
            old(self).wf(),
        ensures
            final(self).wf(),
            *final(self) == (Server { clients: final(self).clients, ..*old(self) }),
            sized(old(self).clients@, final(self).clients@, id),
    {
        match self.find_client(id) {
            Some(at) => {
                if self.clients[at].cars.len() > 0 {
                    self.clients[at].cars[0].1.hitbox_half = Vec3 { x: 650000, y: 1000000, z: 600000 };
                    proof {
                        let before = old(self).clients@;
                        let after = self.clients@;
                        assert forall|i: int| 0 <= i < before.len() implies {
                            &&& (#[trigger] after[i]).id == before[i].id
                            &&& after[i].info == before[i].info
                            &&& after[i].finished == before[i].finished
                            &&& client_wf(after[i], self.checkpoints)
                        } by {
                            assert(client_wf(before[i], self.checkpoints));
                            if i == at {
                                assert(cars_distinct(after[i].cars@)) by {
                                    assert forall|a: int, b: int|
                                        0 <= a < b < after[i].cars@.len() implies (
                                    #[trigger] after[i].cars@[a]).0 != (
                                    #[trigger] after[i].cars@[b]).0 by {
                                        assert(before[i].cars@[a].0 != before[i].cars@[b].0);
                                    }
                                }
                                assert forall|j: int|
                                    0 <= j < after[i].cars@.len() && self.checkpoints > 0 implies (
                                #[trigger] after[i].cars@[j]).1.next_checkpoint
                                    < self.checkpoints by {
                                    assert(before[i].cars@[j].1.next_checkpoint < self.checkpoints);
                                }
                            }
                        }
                        Server::wf_same_people(*old(self), *self);
                        assert forall|i: int| 0 <= i < before.len() && i != at implies before[i].id
                            != id by {
                            if i < at {
                                assert(before[i].id != before[at as int].id);
                            } else {
                                assert(before[at as int].id != before[i].id);
                            }
                        }
                    }
                }
            },
            None => {},
        }
    }

    /// Routes an event packet.
    pub fn route_event(&mut self, data: &[u8]) -> (r: Result<Routed, ServerError>)
        requires
            old(self).wf(),
        ensures
            final(self).wf(),
            event_routed(*old(self), *final(self), data@, r),
    {
        let name = match nth_field(data, 58, 1) {
            Some(name) => name,
            None => {
                return Ok(Routed::Done);
            },
        };
        if !same_bytes(name, "SetSize".as_bytes()) {
            return Ok(Routed::Done);
        }
        let args = match nth_field(data, 58, 2) {
            Some(args) => args,
            None => {
                return Ok(Routed::Done);
            },
        };
        match parse_size_event(args) {
            Some(id) => {
                self.set_size(id);
                Ok(Routed::Done)
            },
            None => Err(ServerError::BrokenPacket),
        }
    }

    /// Registers a car that may spawn, asks its owner for its size, and sends
    /// everybody the announcement.
    #[verifier::rlimit(50)]
    pub fn admit_car(&mut self, client_idx: usize, car_id: u8, json: &[u8], packet: &[u8])
        requires
            old(self).wf(),
            client_idx < old(self).clients@.len(),
            Client::is_next_id(old(self).clients@[client_idx as int].cars@, car_id),
        ensures
            final(self).wf(),
            *final(self) == (Server { clients: final(self).clients, ..*old(self) }),
            final(self).clients@.len() == old(self).clients@.len(),
            forall|i: int|
                0 <= i < old(self).clients@.len() ==> if i == client_idx {
                    spawned_owner(
                        old(self).clients@[i],
                        #[trigger] final(self).clients@[i],
                        car_id,
                        json@,
                        packet@,
                    )
                } else if old(self).clients@[i].state != ClientState::Disconnect {
                    Client::queued(old(self).clients@[i], final(self).clients@[i], packet@)
                } else {
                    final(self).clients@[i] == old(self).clients@[i]
                },
    {
        assert(client_wf(old(self).clients@[client_idx as int], self.checkpoints));
        self.clients[client_idx].spawn_car(car_id, json);
        let ghost mid = self.clients@;
        self.broadcast(packet, None);
        proof {
            let before = old(self).clients@;
            let after = self.clients@;
            assert forall|i: int| 0 <= i < before.len() implies {
                &&& (#[trigger] after[i]).id == before[i].id
                &&& after[i].info == before[i].info
                &&& after[i].finished == before[i].finished
                &&& client_wf(after[i], self.checkpoints)
                &&& if i == client_idx {
                    spawned_owner(before[i], after[i], car_id, json@, packet@)
                } else if before[i].state != ClientState::Disconnect {
                    Client::queued(before[i], after[i], packet@)
                } else {
                    after[i] == before[i]
                }
            } by {
                assert(client_wf(before[i], self.checkpoints));
                assert(mid[i].id == before[i].id);
                assert(after[i].cars == mid[i].cars);
                if i == client_idx {
                    let ask = event_packet(ascii("GetSize"), decimal(before[i].id as nat));
                    if before[i].state != ClientState::Disconnect {
                        assert(views(after[i].queue@) =~= views(before[i].queue@).push(ask) + seq![
                            packet@,
                        ]);
                    } else {
                        assert(views(after[i].queue@) =~= views(before[i].queue@).push(ask)
                            + Seq::<Seq<u8>>::empty());
                    }
                    assert forall|j: int|
                        0 <= j < after[i].cars@.len() && self.checkpoints > 0 implies (
                    #[trigger] after[i].cars@[j]).1.next_checkpoint < self.checkpoints by {
                        if j < before[i].cars@.len() {
                            assert(after[i].cars@.drop_last()[j] == before[i].cars@[j]);
                        }
                    }
                }
            }
            Server::wf_same_people(*old(self), *self);
        }
    }

    /// Routes a spawn request.
    #[verifier::rlimit(50)]
    pub fn route_spawn(
        &mut self,
        client_idx: usize,
        data: &[u8],
    ) -> (r: Result<Routed, ServerError>)
        requires
            old(self).wf(),
            client_idx < old(self).clients@.len(),
        ensures
            final(self).wf(),
            spawn_routed(*old(self), *final(self), client_idx as int, data@, r),
    {
        let json = match nth_tail(data, 58, 2) {
            Some(json) => json,
            None => {
                return Err(ServerError::BrokenPacket);
            },
        };
        let car_id = match self.clients[client_idx].next_car_id() {
            Some(car_id) => car_id,
            None => {
                return Err(ServerError::CarDoesntExist);
            },
        };
        let allowed = self.allow_spawns && match self.config.game.max_cars {
            Some(max_cars) => self.clients[client_idx].cars.len() < max_cars as usize,
            None => true,
        };
        let id = self.clients[client_idx].id;
        let packet = spawn_notice(
            self.clients[client_idx].get_roles(),
            self.clients[client_idx].get_name(),
            id,
            car_id,
            json,
        );
        let ghost owner = old(self).clients@[client_idx as int];
        assert(client_wf(owner, self.checkpoints));
        assert(Client::is_next_id(owner.cars@, car_id));
        if allowed {
            self.admit_car(client_idx, car_id, json, packet.as_slice());
            proof {
                assert(spawn_done(*old(self), *self, client_idx as int, car_id, json@));
            }
        } else {
            self.clients[client_idx].queue_packet(packet);
            self.clients[client_idx].queue_packet(despawn_notice(id, car_id));
            proof {
                Server::wf_same_roster(*old(self), *self);
                assert(spawn_done(*old(self), *self, client_idx as int, car_id, json@));
            }
        }
        Ok(Routed::Done)
    }

    /// Routes a vehicle-data packet.
    #[verifier::rlimit(50)]
    pub fn route_car_data(&mut self, data: &[u8]) -> (r: Result<Routed, ServerError>)
        requires
            old(self).wf(),
        ensures
            final(self).wf(),
            car_data_routed(*old(self), *final(self), data@, r),
    {
        let (client_id, car_id, json) = match parse_vehicle_header(data) {
            Some(header) => header,
            None => {
                return Err(ServerError::BrokenPacket);
            },
        };
        self.broadcast(data, Some(client_id));
        let ghost mid = self.clients@;
        let found = self.find_client(client_id);
        let mut slot: Option<usize> = None;
        match found {
            Some(at) => {
                slot = self.clients[at].find_car(car_id);
                match slot {
                    Some(j) => {
                        self.clients[at].cars[j].1.car_json = json;
                    },
                    None => {},
                }
            },
            None => {},
        }
        proof {
            let before = old(self).clients@;
            let after = self.clients@;
            assert forall|i: int| 0 <= i < before.len() implies {
                &&& (#[trigger] after[i]).id == before[i].id
                &&& after[i].info == before[i].info
                &&& after[i].finished == before[i].finished
                &&& client_wf(after[i], self.checkpoints)
                &&& if before[i].id == client_id {
                    json_set(before[i], after[i], car_id, json@)
                } else if before[i].state != ClientState::Disconnect {
                    Client::queued(before[i], after[i], data@)
                } else {
                    after[i] == before[i]
                }
            } by {
                assert(client_wf(before[i], self.checkpoints));
                assert(mid[i].id == before[i].id);
                if before[i].id == client_id {
                    assert(mid[i] == before[i]);
                    assert(found is Some);
                    let at = found.unwrap() as int;
                    assert(i == at) by {
                        if i < at {
                            assert(before[i].id != before[at].id);
                        } else if at < i {
                            assert(before[at].id != before[i].id);
                        }
                    }
                    let cars = before[i].cars@;
                    assert(cars_distinct(cars));
                    match slot {
                        Some(place) => {
                            let spot = place as int;
                            assert(cars[spot].0 == car_id);
                            assert forall|j: int| 0 <= j < cars.len() implies if (
                            #[trigger] cars[j]).0 == car_id {
                                &&& (#[trigger] after[i].cars@[j]).0 == car_id
                                &&& after[i].cars@[j].1 == Car {
                                    car_json: after[i].cars@[j].1.car_json,
                                    ..cars[j].1
                                }
                                &&& after[i].cars@[j].1.car_json@ == json@
                            } else {
                                after[i].cars@[j] == cars[j]
                            } by {
                                if j < spot {
                                    assert(cars[j].0 != cars[spot].0);
                                } else if spot < j {
                                    assert(cars[spot].0 != cars[j].0);
                                }
                            }
                        },
                        None => {
                            assert(after[i] == before[i]);
                        },
                    }
                    assert(cars_distinct(after[i].cars@)) by {
                        assert forall|a: int, b: int| 0 <= a < b < after[i].cars@.len() implies (
                        #[trigger] after[i].cars@[a]).0 != (#[trigger] after[i].cars@[b]).0 by {
                            assert(cars[a].0 != cars[b].0);
                        }
                    }
                    assert forall|j: int|
                        0 <= j < after[i].cars@.len() && self.checkpoints > 0 implies (
                    #[trigger] after[i].cars@[j]).1.next_checkpoint < self.checkpoints by {
                        assert(cars[j].1.next_checkpoint < self.checkpoints);
                    }
                } else {
                    assert(after[i] == mid[i]);
                    assert(after[i].cars == before[i].cars);
                }
            }
            Server::wf_same_people(*old(self), *self);
        }
        Ok(Routed::Done)
    }

    /// Routes a despawn packet.
    #[verifier::rlimit(50)]
    pub fn route_despawn(&mut self, data: &[u8]) -> (r: Result<Routed, ServerError>)
        requires
            old(self).wf(),
        ensures
            final(self).wf(),
            despawn_routed(*old(self), *final(self), data@, r),
    {
        let (client_id, car_id) = match parse_despawn_header(data) {
            Some(header) => header,
            None => {
                return Err(ServerError::BrokenPacket);
            },
        };
        match self.find_client(client_id) {
            Some(at) => {
                self.clients[at].unregister_car(car_id);
            },
            None => {},
        }
        let ghost mid = self.clients@;
        self.broadcast(data, None);
        proof {
            let before = old(self).clients@;
            let after = self.clients@;
            assert forall|i: int| 0 <= i < before.len() implies {
                &&& (#[trigger] after[i]).id == before[i].id
                &&& after[i].info == before[i].info
                &&& after[i].finished == before[i].finished
                &&& client_wf(after[i], self.checkpoints)
                &&& despawn_seen(before[i], after[i], client_id, car_id, data@)
            } by {
                assert(client_wf(before[i], self.checkpoints));
                assert(mid[i].id == before[i].id);
                assert(after[i].cars == mid[i].cars);
                assert forall|j: int|
                    0 <= j < after[i].cars@.len() && self.checkpoints > 0 implies (
                #[trigger] after[i].cars@[j]).1.next_checkpoint < self.checkpoints by {
                    let m = choose|m: int|
                        0 <= m < before[i].cars@.len() && before[i].cars@[m] == mid[i].cars@[j];
                    assert(before[i].cars@[m].1.next_checkpoint < self.checkpoints);
                }
            }
            Server::wf_same_people(*old(self), *self);
        }
        Ok(Routed::Done)
    }

    /// Routes a respawn packet.
    pub fn route_respawn(&mut self, client_idx: usize, data: &[u8]) -> (r: Result<
        Routed,
        ServerError,
    >)
        requires
            old(self).wf(),
            client_idx < old(self).clients@.len(),
        ensures
            final(self).wf(),
            respawn_routed(*old(self), *final(self), client_idx as int, data@, r),
    {
        if self.force_respawn_pits {
            match parse_vehicle_header(data) {
                Some((client_id, car_id, json)) => Ok(Routed::Respawn { client_id, car_id, json }),
                None => Err(ServerError::BrokenPacket),
            }
        } else {
            let owner = self.clients[client_idx].id;
            self.broadcast(data, Some(owner));
            proof {
                Server::wf_same_roster(*old(self), *self);
            }
            Ok(Routed::Done)
        }
    }

    /// Routes a vehicle packet by its second byte.
    pub fn parse_vehicle_packet(&mut self, client_idx: usize, data: &[u8]) -> (r: Result<
        Routed,
        ServerError,
    >)
        requires
            old(self).wf(),
            client_idx < old(self).clients@.len(),
        ensures
            final(self).wf(),
            vehicle_routed(*old(self), *final(self), client_idx as int, data@, r),
    {
        if data.len() < MIN_VEHICLE_PACKET {
            return Err(ServerError::BrokenPacket);
        }
        let code = data[1];
        if code == 115 {
            self.route_spawn(client_idx, data)
        } else if code == 99 {
            self.route_car_data(data)
        } else if code == 100 {
            self.route_despawn(data)
        } else if code == 114 {
            self.route_respawn(client_idx, data)
        } else if code == 116 {
            let owner = self.clients[client_idx].id;
            self.broadcast(data, Some(owner));
            proof {
                Server::wf_same_roster(*old(self), *self);
            }
            Ok(Routed::Done)
        } else if code == 109 {
            self.broadcast(data, None);
            proof {
                Server::wf_same_roster(*old(self), *self);
            }
            Ok(Routed::Done)
        } else {
            Ok(Routed::Done)
        }
    }

    /// Sends the car `car_id` of the session `client_id` back to the pit
    /// lane.
    #[verifier::rlimit(50)]
    pub fn pit_car(&mut self, client_id: u8, car_id: u8)
        requires
            old(self).wf(),
        ensures
            final(self).wf(),
            *final(self) == (Server { clients: final(self).clients, ..*old(self) }),
            final(self).clients@.len() == old(self).clients@.len(),
            forall|i: int|
                0 <= i < old(self).clients@.len() ==> {
                    &&& (#[trigger] final(self).clients@[i]) == Client {
                        cars: final(self).clients@[i].cars,
                        ..old(self).clients@[i]
                    }
                    &&& cars_pitted(
                        old(self).clients@[i].cars@,
                        final(self).clients@[i].cars@,
                        old(self).clients@[i].id == client_id,
                        car_id,
                        old(self).server_state == ServerState::Qualifying,
                    )
                },
    {
        let qualifying = self.server_state == ServerState::Qualifying;
        let found = self.find_client(client_id);
        match found {
            Some(owner) => {
                self.clients[owner].pit_car(car_id, qualifying);
            },
            None => {},
        }
        proof {
            let before = old(self).clients@;
            let after = self.clients@;
            assert forall|i: int| 0 <= i < before.len() implies {
                &&& (#[trigger] after[i]).id == before[i].id
                &&& after[i].info == before[i].info
                &&& after[i].finished == before[i].finished
                &&& client_wf(after[i], self.checkpoints)
                &&& after[i] == Client { cars: after[i].cars, ..before[i] }
                &&& cars_pitted(
                    before[i].cars@,
                    after[i].cars@,
                    before[i].id == client_id,
                    car_id,
                    qualifying,
                )
            } by {
                assert(client_wf(before[i], self.checkpoints));
                if before[i].id == client_id {
                    let owner = found.unwrap() as int;
                    if i < owner {
                        assert(before[i].id != before[owner].id);
                    } else if owner < i {
                        assert(before[owner].id != before[i].id);
                    }
                } else {
                    assert(after[i] == before[i]);
                }
                assert forall|j: int| 0 <= j < before[i].cars@.len() implies {
                    &&& (#[trigger] after[i].cars@[j]).0 == before[i].cars@[j].0
                    &&& self.checkpoints > 0 ==> after[i].cars@[j].1.next_checkpoint
                        < self.checkpoints
                } by {
                    assert(before[i].cars@[j].1.next_checkpoint < self.checkpoints
                        || self.checkpoints == 0);
                }
                client_wf_kept(before[i], after[i], self.checkpoints);
            }
            Server::wf_same_people(*old(self), *self);
        }
    }

    /// Carries out a respawn that is forced to the pit lane, once its
    /// position has been decoded. `client_idx` is the place of the sender.
    #[verifier::rlimit(50)]
    pub fn respawn_in_pits(&mut self, client_idx: usize, client_id: u8, car_id: u8, pos: &Vec3)
        requires
            old(self).wf(),
            client_idx < old(self).clients@.len(),
        ensures
            final(self).wf(),
            pits_routed(*old(self), *final(self), client_idx as int, client_id, car_id, *pos),
    {
        self.pit_car(client_id, car_id);
        let ghost mid = *self;
        let spawn = self.track_spawns_pit.get_client_spawn(client_id);
        let held = self.server_state == ServerState::LiningUp || self.server_state
            == ServerState::Countdown;
        if !held && spawn.pos.farther(pos, 1000000) {
            let data = spawn.to_event_data();
            self.clients[client_idx].trigger_client_event("Respawn", data.as_slice());
            proof {
                Server::wf_same_roster(mid, *self);
            }
        }
        proof {
            let before = old(self).clients@;
            let after = self.clients@;
            assert forall|i: int| 0 <= i < before.len() implies {
                &&& (#[trigger] after[i]) == Client {
                    cars: after[i].cars,
                    queue: after[i].queue,
                    ..before[i]
                }
                &&& cars_pitted(
                    before[i].cars@,
                    after[i].cars@,
                    before[i].id == client_id,
                    car_id,
                    old(self).server_state == ServerState::Qualifying,
                )
            } by {
                assert(mid.clients@[i].id == before[i].id);
                assert(after[i].cars == mid.clients@[i].cars);
            }
        }
    }

    /// Applies a position report, once its numbers have been decoded, and
    /// passes the packet on.
    #[verifier::rlimit(50)]
    pub fn update_transform(
        &mut self,
        client_id: u8,
        car_id: u8,
        report: &Transform,
        packet: &[u8],
        now: u64,
    ) -> (r: Result<(), ServerError>)
        requires
            old(self).wf(),
        ensures
            final(self).wf(),
            transform_routed(
                *old(self),
                *final(self),
                client_id,
                car_id,
                *report,
                packet@,
                now,
                r,
            ),
    {
        let found = self.find_client(client_id);
        match found {
            Some(owner) => {
                if self.clients[owner].find_car(car_id).is_none() {
                    return Err(ServerError::CarDoesntExist);
                }
                self.clients[owner].move_car(car_id, report, now);
            },
            None => {},
        }
        let ghost mid = self.clients@;
        self.broadcast_udp(packet, Some(client_id));
        proof {
            let before = old(self).clients@;
            let after = self.clients@;
            assert(report_lands(before, client_id, car_id)) by {
                assert forall|i: int|
                    0 <= i < before.len() && (#[trigger] before[i]).id == client_id implies !id_free(
                    before[i].cars@,
                    car_id,
                ) by {
                    let owner = found.unwrap() as int;
                    if i < owner {
                        assert(before[i].id != before[owner].id);
                    } else if owner < i {
                        assert(before[owner].id != before[i].id);
                    }
                }
            }
            assert forall|i: int| 0 <= i < before.len() implies {
                &&& (#[trigger] after[i]).id == before[i].id
                &&& after[i].info == before[i].info
                &&& after[i].finished == before[i].finished
                &&& client_wf(after[i], self.checkpoints)
                &&& after[i] == Client {
                    cars: after[i].cars,
                    udp_queue: after[i].udp_queue,
                    ..before[i]
                }
                &&& cars_moved(
                    before[i].cars@,
                    after[i].cars@,
                    before[i].id == client_id,
                    car_id,
                    *report,
                    now,
                )
                &&& views(after[i].udp_queue@) == if crate::server::receives_udp(
                    before[i],
                    Some(client_id),
                ) {
                    views(before[i].udp_queue@).push(packet@)
                } else {
                    views(before[i].udp_queue@)
                }
            } by {
                assert(client_wf(before[i], self.checkpoints));
                assert(mid[i].id == before[i].id);
                assert(after[i].cars == mid[i].cars);
                if before[i].id == client_id {
                    let owner = found.unwrap() as int;
                    if i < owner {
                        assert(before[i].id != before[owner].id);
                    } else if owner < i {
                        assert(before[owner].id != before[i].id);
                    }
                } else {
                    assert(mid[i].cars == before[i].cars);
                }
                assert forall|j: int| 0 <= j < before[i].cars@.len() implies {
                    &&& (#[trigger] after[i].cars@[j]).0 == before[i].cars@[j].0
                    &&& self.checkpoints > 0 ==> after[i].cars@[j].1.next_checkpoint
                        < self.checkpoints
                } by {
                    assert(before[i].cars@[j].1.next_checkpoint < self.checkpoints
                        || self.checkpoints == 0);
                }
                client_wf_kept(before[i], after[i], self.checkpoints);
            }
            Server::wf_same_people(*old(self), *self);
        }
        Ok(())
    }

    /// Routes a packet that came on the stream of the session at
    /// `client_idx`.
    #[verifier::rlimit(50)]
    pub fn parse_packet(&mut self, client_idx: usize, payload: Vec<u8>) -> (r: Result<
        Routed,
        ServerError,
    >)
        requires
            old(self).wf(),
        ensures
            final(self).wf(),
            if client_idx >= old(self).clients@.len() {
                r matches Err(ServerError::ClientDoesntExist) && *final(self) == *old(self)
            } else {
                match opened(payload@) {
                    None => r matches Err(ServerError::BrokenPacket) && *final(self) == *old(self),
                    Some(data) => routed_tcp(*old(self), *final(self), client_idx as int, data, r),
                }
            },
    {
        if client_idx >= self.clients.len() {
            return Err(ServerError::ClientDoesntExist);
        }
        let packet = match unseal(payload) {
            Ok(packet) => packet,
            Err(e) => {
                return Err(e);
            },
        };
        let data = packet.as_slice();
        let id = match identify(data) {
            Ok(id) => id,
            Err(e) => {
                return Err(e);
            },
        };
        match id {
            PacketId::PassThrough => {
                let owner = self.clients[client_idx].id;
                self.broadcast(data, Some(owner));
                proof {
                    Server::wf_same_roster(*old(self), *self);
                }
                Ok(Routed::Done)
            },
            PacketId::Hello => {
                self.route_hello(client_idx);
                Ok(Routed::Done)
            },
            PacketId::Vehicle => self.parse_vehicle_packet(client_idx, data),
            PacketId::Chat => self.route_chat(client_idx, data),
            PacketId::Event => self.route_event(data),
            _ => Ok(Routed::Done),
        }
    }

    /// Routes a packet that came as a datagram, once it is out of its
    /// envelope.
    pub fn route_datagram(&mut self, client_idx: usize, data: &[u8]) -> (r: Result<
        Routed,
        ServerError,
    >)
        requires
            old(self).wf(),
            client_idx < old(self).clients@.len(),
        ensures
            final(self).wf(),
            routed_udp(*old(self), *final(self), client_idx as int, data@, r),
    {
        let id = match identify(data) {
            Ok(id) => id,
            Err(e) => {
                return Err(e);
            },
        };
        match id {
            PacketId::PassThrough => {
                let owner = self.clients[client_idx].id;
                self.broadcast_udp(data, Some(owner));
                proof {
                    Server::wf_same_roster(*old(self), *self);
                }
                Ok(Routed::Done)
            },
            PacketId::Ping => {
                let mut pong: Vec<u8> = Vec::new();
                pong.push(112);
                assert(pong@ =~= seq![112u8]);
                self.clients[client_idx].queue_datagram(pong);
                proof {
                    Server::wf_same_roster(*old(self), *self);
                }
                Ok(Routed::Done)
            },
            PacketId::Transform => {
                match parse_transform_header(data) {
                    Some((client_id, car_id, json)) => Ok(
                        Routed::Transform { client_id, car_id, json, packet: to_vec(data) },
                    ),
                    None => Err(ServerError::BrokenPacket),
                }
            },
            _ => Ok(Routed::Done),
        }
    }

    /// Routes the payload of a datagram from the session at `client_idx`.
    pub fn parse_packet_udp(&mut self, client_idx: usize, payload: Vec<u8>) -> (r: Result<
        Routed,
        ServerError,
    >)
        requires
            old(self).wf(),
        ensures
            final(self).wf(),
            if client_idx >= old(self).clients@.len() {
                r matches Err(ServerError::ClientDoesntExist) && *final(self) == *old(self)
            } else {
                datagram_routed(*old(self), *final(self), client_idx as int, payload@, r)
            },
    {
        if client_idx >= self.clients.len() {
            return Err(ServerError::ClientDoesntExist);
        }
        if payload.len() == 0 {
            return Err(ServerError::BrokenPacket);
        }
        self.clients[client_idx].udp_known = true;
        let ghost mid = *self;
        proof {
            Server::wf_same_roster(*old(self), *self);
            assert(heard(*old(self), mid, client_idx as int));
        }
        let packet = match unseal(payload) {
            Ok(packet) => packet,
            Err(e) => {
                return Err(e);
            },
        };
        self.route_datagram(client_idx, packet.as_slice())
    }

    /// Routes a datagram: finds the session that its header names and routes
    /// its payload. Returns the place of that session with what is left to
    /// do.
    #[verifier::rlimit(50)]
    pub fn process_udp(&mut self, datagram: &[u8]) -> (r: Result<(usize, Routed), ServerError>)
        requires
            old(self).wf(),
        ensures
            final(self).wf(),
            match datagram_parts(datagram@) {
                None => r matches Err(ServerError::BrokenPacket) && *final(self) == *old(self),
                Some((id, payload)) => if crate::server::roster::id_unused(old(self).clients@, id) {
                    r matches Err(ServerError::ClientDoesntExist) && *final(self) == *old(self)
                } else {
                    exists|at: int|
                        0 <= at < old(self).clients@.len() && (#[trigger] old(self).clients@[at]).id
                            == id && match r {
                            Ok((place, routed)) => place == at && datagram_routed(
                                *old(self),
                                *final(self),
                                at,
                                payload,
                                Ok(routed),
                            ),
                            Err(e) => datagram_routed(*old(self), *final(self), at, payload, Err(e)),
                        }
                },
            },
    {
        let (id, payload) = match split_datagram(datagram) {
            Ok(parts) => parts,
            Err(e) => {
                return Err(e);
            },
        };
        let at = match self.find_client(id) {
            Some(at) => at,
            None => {
                return Err(ServerError::ClientDoesntExist);
            },
        };
        assert(old(self).clients@[at as int].id == id);
        match self.parse_packet_udp(at, payload) {
            Ok(routed) => Ok((at, routed)),
            Err(e) => Err(e),
        }
    }
}

} // verus!
