//! One client session as the rules see it: identity, flags, cars, and the
//! packets that wait to be sent to it.

use vstd::prelude::*;

use crate::car::Car;
use crate::codec::{frame, framed, seal, sealed};
use crate::math::{clamp, saturate, Vec3, UNIT};
use crate::overlay::{lap_times_text, numbered, Overlay};
use crate::text::{ascii, millionths_text, push_bytes, push_millionths, push_str, to_vec, views};

verus! {

/// Who a session belongs to.
#[derive(Clone, Debug)]
pub struct UserData {
    pub username: String,
    pub roles: String,
}

/// Whether a session is still served.
#[derive(Clone, Copy, Debug, PartialEq, Eq, Structural)]
pub enum ClientState {
    /// Authenticated and served.
    Connected,
    /// Kicked or lost; the session is dropped at the end of the tick.
    Disconnect,
}

/// One authenticated session.
#[derive(Clone, Debug)]
pub struct Client {
    /// Unique among the live sessions.
    pub id: u8,
    pub info: UserData,
    pub state: ClientState,
    /// Whether a datagram has come from this session, so that datagrams can
    /// be sent to it.
    pub udp_known: bool,
    /// The payloads that wait to be sent on the session's stream, oldest
    /// first.
    pub queue: Vec<Vec<u8>>,
    /// The payloads that wait to be sent to the session as datagrams.
    pub udp_queue: Vec<Vec<u8>>,
    pub ready: bool,
    /// The place on the starting grid, counted from one; zero before
    /// qualifying has ended.
    pub grid_spot: usize,
    pub finished: bool,
    pub incidents: usize,
    /// The session's cars, each under its id.
    pub cars: Vec<(u8, Car)>,
    pub overlay: Option<Overlay>,
    /// When the session was last sent a physics advisory.
    pub last_physics_update: u64,
}

/// The bytes of a name or of a list of roles.
pub open spec fn bytes_of(s: String) -> Seq<u8> {
    vstd::utf8::encode_utf8(s@)
}

/// The bytes of a name or of a list of roles.
pub fn string_bytes(s: &String) -> (r: &[u8])
    ensures
        r@ == bytes_of(*s),
{
    s.as_str().as_bytes()
}

/// No two cars of the list share an id.
pub open spec fn cars_distinct(cars: Seq<(u8, Car)>) -> bool {
    forall|i: int, j: int| 0 <= i < j < cars.len() ==> (#[trigger] cars[i]).0 != (#[trigger] cars[j]).0
}

/// No car of the list has the id.
pub open spec fn id_free(cars: Seq<(u8, Car)>, id: u8) -> bool {
    forall|i: int| 0 <= i < cars.len() ==> (#[trigger] cars[i]).0 != id
}

/// The kick packet: the letter `K` and the reason.
pub open spec fn kick_packet(reason: Seq<u8>) -> Seq<u8> {
    seq![75u8] + reason
}

/// An event for the client: `E:<name>:<data>`.
pub open spec fn event_packet(name: Seq<u8>, data: Seq<u8>) -> Seq<u8> {
    seq![69u8, 58u8] + name + seq![58u8] + data
}

/// Builds the kick packet for a reason.
pub fn kick_notice(reason: &str) -> (r: Vec<u8>)
    ensures
        r@ == kick_packet(ascii(reason)),
{
    let mut packet: Vec<u8> = Vec::new();
    packet.push(75);
    push_str(&mut packet, reason);
    assert(packet@ =~= kick_packet(ascii(reason)));
    packet
}

impl Client {
    /// A session as it is admitted: connected, not ready, without cars,
    /// overlay or grid place, nothing queued.
    pub open spec fn fresh(c: Client, id: u8, info: UserData, now: u64) -> bool {
        &&& c.id == id
        &&& c.info == info
        &&& c.state == ClientState::Connected
        &&& !c.udp_known
        &&& c.queue@.len() == 0
        &&& c.udp_queue@.len() == 0
        &&& !c.ready
        &&& c.grid_spot == 0
        &&& !c.finished
        &&& c.incidents == 0
        &&& c.cars@.len() == 0
        &&& c.overlay is None
        &&& c.last_physics_update == now
    }

    /// Admits a session under `id`.
    pub fn new(id: u8, info: UserData, now: u64) -> (c: Client)
        ensures
            Client::fresh(c, id, info, now),
    {
        Client {
            id,
            info,
            state: ClientState::Connected,
            udp_known: false,
            queue: Vec::new(),
            udp_queue: Vec::new(),
            ready: false,
            grid_spot: 0,
            finished: false,
            incidents: 0,
            cars: Vec::new(),
            overlay: None,
            last_physics_update: now,
        }
    }

    /// The session's id.
    pub fn get_id(&self) -> (r: u8)
        ensures
            r == self.id,
    {
        self.id
    }

    /// The bytes of the session's user name.
    pub open spec fn name(&self) -> Seq<u8> {
        bytes_of(self.info.username)
    }

    /// The bytes of the session's roles.
    pub open spec fn roles(&self) -> Seq<u8> {
        bytes_of(self.info.roles)
    }

    /// The session's user name.
    pub fn get_name(&self) -> (r: &[u8])
        ensures
            r@ == self.name(),
    {
        string_bytes(&self.info.username)
    }

    /// The session's roles.
    pub fn get_roles(&self) -> (r: &[u8])
        ensures
            r@ == self.roles(),
    {
        string_bytes(&self.info.roles)
    }

    /// `after` is `before` with one more payload at the end of its queue.
    pub open spec fn queued(before: Client, after: Client, payload: Seq<u8>) -> bool {
        &&& after == Client { queue: after.queue, ..before }
        &&& views(after.queue@) == views(before.queue@).push(payload)
    }

    /// `after` is `before` with one more payload at the end of its datagram
    /// queue.
    pub open spec fn queued_udp(before: Client, after: Client, payload: Seq<u8>) -> bool {
        &&& after == Client { udp_queue: after.udp_queue, ..before }
        &&& views(after.udp_queue@) == views(before.udp_queue@).push(payload)
    }

    /// Queues a payload for the session's stream.
    pub fn queue_packet(&mut self, payload: Vec<u8>)
        ensures
            Client::queued(*old(self), *final(self), payload@),
    {
        self.queue.push(payload);
        assert(views(self.queue@) =~= views(old(self).queue@).push(payload@));
    }

    /// Queues a payload to be sent to the session as a datagram.
    pub fn queue_datagram(&mut self, payload: Vec<u8>)
        ensures
            Client::queued_udp(*old(self), *final(self), payload@),
    {
        self.udp_queue.push(payload);
        assert(views(self.udp_queue@) =~= views(old(self).udp_queue@).push(payload@));
    }

    /// `after` is `before` kicked: the kick packet queued, the session marked
    /// for removal.
    pub open spec fn kicked(before: Client, after: Client, reason: Seq<u8>) -> bool {
        &&& after == Client { queue: after.queue, state: ClientState::Disconnect, ..before }
        &&& views(after.queue@) == views(before.queue@).push(kick_packet(reason))
    }

    /// Kicks the session with a reason for the player to read.
    pub fn kick(&mut self, reason: &str)
        ensures
            Client::kicked(*old(self), *final(self), ascii(reason)),
    {
        self.queue_packet(kick_notice(reason));
        self.state = ClientState::Disconnect;
    }

    /// Queues an event for the client's game: `E:<name>:<data>`.
    pub fn trigger_client_event(&mut self, name: &str, data: &[u8])
        ensures
            Client::queued(*old(self), *final(self), event_packet(ascii(name), data@)),
    {
        let mut packet: Vec<u8> = Vec::new();
        packet.push(69);
        packet.push(58);
        push_str(&mut packet, name);
        packet.push(58);
        push_bytes(&mut packet, data);
        assert(packet@ =~= event_packet(ascii(name), data@));
        self.queue_packet(packet);
    }

    /// Where the car with the id stands in the list.
    pub fn find_car(&self, car_id: u8) -> (r: Option<usize>)
        ensures
            match r {
                Some(at) => at < self.cars@.len() && self.cars@[at as int].0 == car_id && forall|
                    k: int,
                |
                    0 <= k < at ==> (#[trigger] self.cars@[k]).0 != car_id,
                None => id_free(self.cars@, car_id),
            },
    {
        let mut i: usize = 0;
        while i < self.cars.len()
            invariant
                i <= self.cars@.len(),
                forall|k: int| 0 <= k < i ==> (#[trigger] self.cars@[k]).0 != car_id,
            decreases self.cars.len() - i,
        {
            if self.cars[i].0 == car_id {
                return Some(i);
            }
            i += 1;
        }
        None
    }

    /// The id that the next car gets: the smallest that no car of the list
    /// has.
    pub open spec fn is_next_id(cars: Seq<(u8, Car)>, id: u8) -> bool {
        id_free(cars, id) && forall|k: u8| k < id ==> !id_free(cars, k)
    }

    /// The smallest id that no car of the session has; `None` where all are
    /// taken.
    pub fn next_car_id(&self) -> (r: Option<u8>)
        ensures
            match r {
                Some(id) => Client::is_next_id(self.cars@, id),
                None => forall|k: u8| !id_free(self.cars@, k),
            },
    {
        let mut id: u8 = 0;
        loop
            invariant
                forall|k: u8| k < id ==> !id_free(self.cars@, k),
            decreases 255 - id,
        {
            match self.find_car(id) {
                None => {
                    return Some(id);
                },
                Some(_) => {},
            }
            if id == 255 {
                return None;
            }
            id += 1;
        }
    }

    /// Registers a car under the smallest free id and returns that id. A
    /// session that holds a car under every id takes no more.
    pub fn register_car(&mut self, car: Car) -> (r: Option<u8>)
        ensures
            match r {
                Some(id) => Client::is_next_id(old(self).cars@, id) && *final(self) == (Client {
                    cars: final(self).cars,
                    ..*old(self)
                }) && final(self).cars@ == old(self).cars@.push((id, car)),
                None => *final(self) == *old(self) && forall|k: u8| !id_free(old(self).cars@, k),
            },
            cars_distinct(old(self).cars@) ==> cars_distinct(final(self).cars@),
    {
        match self.next_car_id() {
            Some(id) => {
                self.cars.push((id, car));
                Some(id)
            },
            None => None,
        }
    }

    /// The list without its first car under the id.
    pub open spec fn without(cars: Seq<(u8, Car)>, car_id: u8) -> Seq<(u8, Car)>
        decreases cars.len(),
    {
        if cars.len() == 0 {
            cars
        } else if cars[0].0 == car_id {
            cars.skip(1)
        } else {
            seq![cars[0]] + Client::without(cars.skip(1), car_id)
        }
    }

    /// Removing at the first place that holds the id is `without`.
    pub proof fn without_is_remove(cars: Seq<(u8, Car)>, car_id: u8, at: int)
        requires
            0 <= at < cars.len(),
            cars[at].0 == car_id,
            forall|k: int| 0 <= k < at ==> (#[trigger] cars[k]).0 != car_id,
        ensures
            Client::without(cars, car_id) == cars.remove(at),
        decreases cars.len(),
    {
        if at == 0 {
            assert(cars.skip(1) =~= cars.remove(0));
        } else {
            let rest = cars.skip(1);
            assert forall|k: int| 0 <= k < at - 1 implies (#[trigger] rest[k]).0 != car_id by {
                assert(rest[k] == cars[k + 1]);
            }
            Client::without_is_remove(rest, car_id, at - 1);
            assert(seq![cars[0]] + rest.remove(at - 1) =~= cars.remove(at));
        }
    }

    /// A list that has no car under the id is its own `without`.
    pub proof fn without_absent(cars: Seq<(u8, Car)>, car_id: u8)
        requires
            id_free(cars, car_id),
        ensures
            Client::without(cars, car_id) == cars,
        decreases cars.len(),
    {
        if cars.len() > 0 {
            let rest = cars.skip(1);
            assert(cars[0].0 != car_id);
            assert forall|k: int| 0 <= k < rest.len() implies (#[trigger] rest[k]).0 != car_id by {
                assert(rest[k] == cars[k + 1]);
            }
            Client::without_absent(rest, car_id);
            assert(seq![cars[0]] + rest =~= cars);
        }
    }

    /// Removes the car under the id, where the session has one.
    pub fn unregister_car(&mut self, car_id: u8)
        ensures
            *final(self) == (Client { cars: final(self).cars, ..*old(self) }),
            final(self).cars@ == Client::without(old(self).cars@, car_id),
            cars_distinct(old(self).cars@) ==> cars_distinct(final(self).cars@),
            forall|k: int|
                0 <= k < final(self).cars@.len() ==> exists|m: int|
                    0 <= m < old(self).cars@.len() && old(self).cars@[m] == #[trigger] final(self).cars@[k],
    {
        match self.find_car(car_id) {
            Some(at) => {
                proof {
                    Client::without_is_remove(self.cars@, car_id, at as int);
                }
                let _ = self.cars.remove(at);
                assert forall|k: int| 0 <= k < self.cars@.len() implies exists|m: int|
                    0 <= m < old(self).cars@.len() && old(self).cars@[m] == #[trigger] self.cars@[k] by {
                    if k < at {
                        assert(old(self).cars@[k] == self.cars@[k]);
                    } else {
                        assert(old(self).cars@[k + 1] == self.cars@[k]);
                    }
                }
                assert(cars_distinct(old(self).cars@) ==> cars_distinct(self.cars@)) by {
                    if cars_distinct(old(self).cars@) {
                        assert forall|i: int, j: int| 0 <= i < j < self.cars@.len() implies (
                        #[trigger] self.cars@[i]).0 != (#[trigger] self.cars@[j]).0 by {
                            let oi = if i < at { i } else { i + 1 };
                            let oj = if j < at { j } else { j + 1 };
                            assert(self.cars@[i] == old(self).cars@[oi]);
                            assert(self.cars@[j] == old(self).cars@[oj]);
                        }
                    }
                }
            },
            None => {
                proof {
                    Client::without_absent(self.cars@, car_id);
                }
                assert forall|k: int| 0 <= k < self.cars@.len() implies exists|m: int|
                    0 <= m < old(self).cars@.len() && old(self).cars@[m] == #[trigger] self.cars@[k] by {
                    assert(old(self).cars@[k] == self.cars@[k]);
                }
            },
        }
    }

    /// How far the session has come in the race: the laps of its first car
    /// and that car's progress along the track, nothing without a car.
    pub open spec fn progress(&self) -> int {
        if self.cars@.len() > 0 {
            self.cars@[0].1.laps * UNIT + self.cars@[0].1.last_progress
        } else {
            0
        }
    }

    /// How far the session has come in the race.
    pub fn get_progress(&self) -> (r: i128)
        ensures
            r == self.progress(),
    {
        if self.cars.len() > 0 {
            let laps: i128 = self.cars[0].1.laps as i128;
            let part: i128 = self.cars[0].1.last_progress as i128;
            laps * 1000000 + part
        } else {
            0
        }
    }

    /// The fastest lap over a list of cars; the largest number where none has
    /// completed a lap.
    pub open spec fn fastest_of(cars: Seq<(u8, Car)>) -> u64
        decreases cars.len(),
    {
        if cars.len() == 0 {
            u64::MAX
        } else {
            let rest = Client::fastest_of(cars.drop_last());
            let own = crate::car::shortest(cars.last().1.lap_times@);
            if own < rest {
                own
            } else {
                rest
            }
        }
    }

    /// The session's fastest lap over all its cars.
    pub fn fastest_lap(&self) -> (r: u64)
        ensures
            r == Client::fastest_of(self.cars@),
    {
        let mut best: u64 = u64::MAX;
        let mut i: usize = 0;
        assert(self.cars@.take(0) =~= Seq::<(u8, Car)>::empty());
        while i < self.cars.len()
            invariant
                i <= self.cars.len(),
                best == Client::fastest_of(self.cars@.take(i as int)),
            decreases self.cars.len() - i,
        {
            assert(self.cars@.take(i + 1).drop_last() =~= self.cars@.take(i as int));
            let own = self.cars[i].1.fastest_lap();
            if own < best {
                best = own;
            }
            i += 1;
        }
        assert(self.cars@.take(i as int) =~= self.cars@);
        best
    }

    /// Whether the session's overlay is due the lap count and the lap times
    /// of its first car.
    pub open spec fn overlay_due(&self) -> bool {
        self.overlay is Some && self.cars@.len() > 0 && self.cars@[0].1.laps_ui_dirty
    }

    /// What `update_overlay` makes of a session: where the overlay is due, it
    /// is told `L<laps>` and then the lap times of the first car, and the car
    /// is marked as shown; else nothing changes.
    pub open spec fn overlay_updated(before: Client, after: Client) -> bool {
        if before.overlay_due() {
            let car = before.cars@[0].1;
            &&& after == Client { overlay: after.overlay, cars: after.cars, ..before }
            &&& after.cars@ == before.cars@.update(
                0,
                (before.cars@[0].0, Car { laps_ui_dirty: false, ..car }),
            )
            &&& after.overlay is Some
            &&& exists|between: Overlay|
                Overlay::told(before.overlay.unwrap(), between, numbered(76, car.laps as nat))
                    && Overlay::told(
                    between,
                    after.overlay.unwrap(),
                    seq![81u8] + lap_times_text(car.lap_times@),
                )
        } else {
            after == before
        }
    }

    /// Brings the session's overlay up to date with its first car.
    pub fn update_overlay(&mut self)
        ensures
            Client::overlay_updated(*old(self), *final(self)),
    {
        if self.cars.len() == 0 || !self.cars[0].1.laps_ui_dirty {
            return ;
        }
        match &mut self.overlay {
            Some(overlay) => {
                let ghost start = *overlay;
                overlay.set_laps(self.cars[0].1.laps);
                let ghost between = *overlay;
                overlay.set_lap_times(&self.cars[0].1.lap_times);
                self.cars[0].1.laps_ui_dirty = false;
                assert(Overlay::told(start, between, numbered(76, old(self).cars@[0].1.laps as nat)));
            },
            None => {},
        }
    }
}

/// A session is sent a physics advisory at most once in this many
/// milliseconds.
pub const ADVISORY_EVERY: u64 = 100;

/// A payload as it is written to a stream: sealed, and behind its length
/// prefix. A payload that cannot be sealed or framed is not written.
pub open spec fn wire_form(payload: Seq<u8>) -> Seq<u8> {
    match sealed(payload) {
        Some(sent) => if sent.len() <= u32::MAX {
            framed(sent)
        } else {
            Seq::empty()
        },
        None => Seq::empty(),
    }
}

/// The bytes that a queue of payloads makes on a stream, oldest payload
/// first.
pub open spec fn stream_bytes(queue: Seq<Seq<u8>>) -> Seq<u8>
    decreases queue.len(),
{
    if queue.len() == 0 {
        Seq::empty()
    } else {
        stream_bytes(queue.drop_last()) + wire_form(queue.last())
    }
}

/// The datagrams that a queue of payloads makes, oldest first: each payload
/// sealed, those that cannot be sealed left out.
pub open spec fn datagrams_of(queue: Seq<Seq<u8>>) -> Seq<Seq<u8>>
    decreases queue.len(),
{
    if queue.len() == 0 {
        Seq::empty()
    } else {
        match sealed(queue.last()) {
            Some(sent) => datagrams_of(queue.drop_last()).push(sent),
            None => datagrams_of(queue.drop_last()),
        }
    }
}

/// The data of a physics advisory: the velocity, a `#`, and the angular
/// velocity turned round, the numbers parted by semicolons.
pub open spec fn advisory_text(vel: Vec3, angvel: Vec3) -> Seq<u8> {
    millionths_text(vel.x) + seq![59u8] + millionths_text(vel.y) + seq![59u8] + millionths_text(
        vel.z,
    ) + seq![35u8] + millionths_text(clamp(-angvel.x)) + seq![59u8] + millionths_text(
        clamp(-angvel.y),
    ) + seq![59u8] + millionths_text(clamp(-angvel.z))
}

/// Writes the data of a physics advisory.
pub fn advisory_data(vel: &Vec3, angvel: &Vec3) -> (r: Vec<u8>)
    ensures
        r@ == advisory_text(*vel, *angvel),
{
    let mut out: Vec<u8> = Vec::new();
    push_millionths(&mut out, vel.x);
    out.push(59);
    push_millionths(&mut out, vel.y);
    out.push(59);
    push_millionths(&mut out, vel.z);
    out.push(35);
    push_millionths(&mut out, saturate(-(angvel.x as i128)));
    out.push(59);
    push_millionths(&mut out, saturate(-(angvel.y as i128)));
    out.push(59);
    push_millionths(&mut out, saturate(-(angvel.z as i128)));
    assert(out@ =~= advisory_text(*vel, *angvel));
    out
}

impl Client {
    /// What a contact report does to a session. Where more than 100
    /// milliseconds have passed since its last advisory, the session's clock
    /// is set to `now`, and a session with a car is told to take the velocity
    /// that the contact leaves it with. Otherwise nothing changes.
    pub open spec fn advised(
        before: Client,
        after: Client,
        vel: Vec3,
        angvel: Vec3,
        now: u64,
    ) -> bool {
        if crate::car::elapsed(now, before.last_physics_update) > ADVISORY_EVERY {
            &&& after == Client { last_physics_update: now, queue: after.queue, ..before }
            &&& views(after.queue@) == if before.cars@.len() > 0 {
                views(before.queue@).push(
                    event_packet(ascii("SetVelocity"), advisory_text(vel, angvel)),
                )
            } else {
                views(before.queue@)
            }
        } else {
            after == before
        }
    }

    /// Takes note of a contact that the physics probe has found.
    pub fn physics_advisory(&mut self, vel: &Vec3, angvel: &Vec3, now: u64)
        ensures
            Client::advised(*old(self), *final(self), *vel, *angvel, now),
    {
        if crate::car::since(now, self.last_physics_update) > ADVISORY_EVERY {
            if self.cars.len() > 0 {
                let data = advisory_data(vel, angvel);
                self.trigger_client_event("SetVelocity", data.as_slice());
            }
            self.last_physics_update = now;
        }
    }

    /// Empties the queue and returns the bytes to write to the session's
    /// stream.
    pub fn take_stream_bytes(&mut self) -> (r: Vec<u8>)
        ensures
            r@ == stream_bytes(views(old(self).queue@)),
            *final(self) == (Client { queue: final(self).queue, ..*old(self) }),
            final(self).queue@.len() == 0,
    {
        let mut out: Vec<u8> = Vec::new();
        let mut k: usize = 0;
        let ghost all = views(self.queue@);
        assert(all.take(0) =~= Seq::<Seq<u8>>::empty());
        while k < self.queue.len()
            invariant
                k <= self.queue@.len(),
                *self == *old(self),
                all == views(self.queue@),
                out@ == stream_bytes(all.take(k as int)),
            decreases self.queue.len() - k,
        {
            assert(all.take(k + 1).drop_last() =~= all.take(k as int));
            assert(all.take(k + 1).last() == self.queue@[k as int]@);
            match seal(to_vec(self.queue[k].as_slice())) {
                Some(sent) => {
                    match frame(sent.as_slice()) {
                        Some(bytes) => {
                            push_bytes(&mut out, bytes.as_slice());
                        },
                        None => {
                            assert(out@ + Seq::<u8>::empty() =~= out@);
                        },
                    }
                },
                None => {
                    assert(out@ + Seq::<u8>::empty() =~= out@);
                },
            }
            k += 1;
        }
        assert(all.take(k as int) =~= all);
        self.queue = Vec::new();
        out
    }

    /// Empties the datagram queue and returns the datagrams to send to the
    /// session.
    pub fn take_datagrams(&mut self) -> (r: Vec<Vec<u8>>)
        ensures
            views(r@) == datagrams_of(views(old(self).udp_queue@)),
            *final(self) == (Client { udp_queue: final(self).udp_queue, ..*old(self) }),
            final(self).udp_queue@.len() == 0,
    {
        let mut out: Vec<Vec<u8>> = Vec::new();
        let mut k: usize = 0;
        let ghost all = views(self.udp_queue@);
        assert(all.take(0) =~= Seq::<Seq<u8>>::empty());
        assert(views(out@) =~= Seq::<Seq<u8>>::empty());
        while k < self.udp_queue.len()
            invariant
                k <= self.udp_queue@.len(),
                *self == *old(self),
                all == views(self.udp_queue@),
                views(out@) == datagrams_of(all.take(k as int)),
            decreases self.udp_queue.len() - k,
        {
            assert(all.take(k + 1).drop_last() =~= all.take(k as int));
            assert(all.take(k + 1).last() == self.udp_queue@[k as int]@);
            match seal(to_vec(self.udp_queue[k].as_slice())) {
                Some(sent) => {
                    let ghost so_far = views(out@);
                    out.push(sent);
                    assert(views(out@) =~= so_far.push(sent@));
                },
                None => {},
            }
            k += 1;
        }
        assert(all.take(k as int) =~= all);
        self.udp_queue = Vec::new();
        out
    }
}

} // verus!
