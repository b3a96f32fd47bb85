//! The race state machine: what each phase waits for, and what the server
//! does when it moves on.

use vstd::prelude::*;

use crate::car::{elapsed, since, Car};
use crate::client::{event_packet, Client};
use crate::math::{Vec3, UNIT};
use crate::overlay::{numbered, Overlay};
use crate::server::roster::{leaving, name_taken, swept};
use crate::server::track::{looked, Sighting};
use crate::server::grid::{keys_of, place, places};
use crate::server::{
    client_wf, client_wf_kept, expected, ids_distinct, names_distinct, no_repeats,
    overlays_told, plain_name, Server,
};
use crate::spawns::{Spawn, Spawns};
use crate::state::ServerState;
use crate::text::{ascii, views};

verus! {

/// How long the server waits for the expected clients, in seconds.
pub const JOIN_TIMEOUT: u64 = 300;

/// How long the grid may take to line up, in seconds.
pub const LINEUP_TIMEOUT: u64 = 45;

/// The time between two steps of the countdown, in milliseconds.
pub const COUNTDOWN_STEP: u64 = 1000;

/// The time between two rounds of race positions, in milliseconds.
pub const POSITIONS_EVERY: u64 = 50;

/// How long the server stays up after the race, in seconds.
pub const FINISH_LINGER: u64 = 30;

/// The whole seconds from `start` to `now`.
pub open spec fn seconds(now: u64, start: u64) -> int {
    elapsed(now, start) as int / 1000
}

/// The whole seconds from `start` to `now`.
pub fn seconds_since(now: u64, start: u64) -> (r: u64)
    ensures
        r == seconds(now, start),
{
    since(now, start) / 1000
}

/// Whether every expected name has a live session. Without a whitelist
/// nobody is waited for.
pub open spec fn roster_complete(s: Server) -> bool {
    match s.config.event.expected_clients {
        Some(list) => forall|k: int|
            0 <= k < list@.len() ==> name_taken(s.clients@, #[trigger] list@[k]),
        None => true,
    }
}

/// Whether every session is ready.
pub open spec fn everyone_ready(clients: Seq<Client>) -> bool {
    forall|i: int| 0 <= i < clients.len() ==> (#[trigger] clients[i]).ready
}

/// Whether every session has a car.
pub open spec fn everyone_spawned(clients: Seq<Client>) -> bool {
    forall|i: int| 0 <= i < clients.len() ==> (#[trigger] clients[i]).cars@.len() > 0
}

/// `after` is `before` having entered `state` at `now`, every overlay told
/// so, and nothing else changed.
pub open spec fn entered(before: Server, after: Server, state: ServerState, now: u64) -> bool {
    &&& after == Server {
        clients: after.clients,
        server_state: state,
        server_state_start: now,
        ..before
    }
    &&& overlays_told(before.clients@, after.clients@, numbered(83, state.spec_id() as nat))
}

/// Nobody is ready any more, and nothing else has changed.
pub open spec fn unreadied(before: Seq<Client>, after: Seq<Client>) -> bool {
    &&& after.len() == before.len()
    &&& forall|i: int|
        0 <= i < before.len() ==> #[trigger] after[i] == (Client { ready: false, ..before[i] })
}

/// What the wait for clients does at `now`. While a whitelist is set and
/// 300 seconds have not passed, the server goes on to wait for readiness
/// once every expected name has a session. Without a whitelist, or after 300
/// seconds, it closes the roster and goes on at once.
pub open spec fn waited_for_clients(before: Server, after: Server, now: u64) -> bool {
    if before.config.event.expected_clients is Some && seconds(now, before.server_state_start)
        < JOIN_TIMEOUT {
        if roster_complete(before) {
            entered(before, after, ServerState::WaitingForReady, now)
        } else {
            after == before
        }
    } else {
        entered(Server { accepting: false, ..before }, after, ServerState::WaitingForReady, now)
    }
}

/// What the wait for readiness does at `now`. Once every session is ready,
/// spawning is allowed, the roster is closed, the server goes on to wait for
/// spawns, and everybody's readiness is cleared.
pub open spec fn waited_for_ready(before: Server, after: Server, now: u64) -> bool {
    if everyone_ready(before.clients@) {
        exists|mid: Server| #[trigger]
            entered(
                Server { allow_spawns: true, accepting: false, ..before },
                mid,
                ServerState::WaitingForSpawns,
                now,
            ) && after == (Server { clients: after.clients, ..mid }) && unreadied(
                mid.clients@,
                after.clients@,
            )
    } else {
        after == before
    }
}

/// How many cars the sessions before the one at `i` have.
pub open spec fn cars_before(clients: Seq<Client>, i: int) -> nat
    decreases i,
{
    if i <= 0 {
        0
    } else {
        cars_before(clients, i - 1) + clients[i - 1].cars@.len()
    }
}

/// The pit slot of the `n`-th car: its number, and the last slot that a
/// spawn set can name for all cars beyond it.
pub open spec fn pit_number(n: nat) -> u8 {
    if n > 255 {
        255
    } else {
        n as u8
    }
}

/// The events that send `count` cars to the pit slots from the `first` on.
pub open spec fn pit_events(pit: Spawns, first: nat, count: nat) -> Seq<Seq<u8>> {
    Seq::new(
        count,
        |j: int| event_packet(ascii("Respawn"), pit.slot(pit_number((first + j) as nat)).text()),
    )
}

/// Every car has been sent to a pit slot of its own, the cars numbered
/// through all sessions in order; each session has been told so once for
/// each of its cars.
pub open spec fn sent_to_pits(before: Server, after: Server) -> bool {
    &&& after == Server { clients: after.clients, ..before }
    &&& after.clients@.len() == before.clients@.len()
    &&& forall|i: int|
        0 <= i < before.clients@.len() ==> {
            &&& #[trigger] after.clients@[i] == Client {
                queue: after.clients@[i].queue,
                ..before.clients@[i]
            }
            &&& views(after.clients@[i].queue@) == views(before.clients@[i].queue@) + pit_events(
                before.track_spawns_pit,
                cars_before(before.clients@, i),
                before.clients@[i].cars@.len(),
            )
        }
}

/// What the wait for spawns does at `now`. Once every session has a car,
/// qualifying begins: spawning is closed, respawns are forced to the pit
/// lane, and every car is sent to a pit slot.
pub open spec fn waited_for_spawns(before: Server, after: Server, now: u64) -> bool {
    if everyone_spawned(before.clients@) {
        exists|mid: Server| #[trigger]
            entered(
                Server { allow_spawns: false, force_respawn_pits: true, ..before },
                mid,
                ServerState::Qualifying,
                now,
            ) && sent_to_pits(mid, after)
    } else {
        after == before
    }
}

/// The fastest laps of the sessions, in the order of the roster.
pub open spec fn lap_keys(clients: Seq<Client>) -> Seq<int> {
    Seq::new(clients.len(), |i: int| Client::fastest_of(clients[i].cars@) as int)
}

/// Every car of the list has been cleared of what qualifying left on it.
pub open spec fn cars_cleared(before: Seq<(u8, Car)>, after: Seq<(u8, Car)>) -> bool {
    &&& after.len() == before.len()
    &&& forall|j: int|
        0 <= j < before.len() ==> (#[trigger] after[j]).0 == before[j].0 && Car::cleared(
            before[j].1,
            after[j].1,
        )
}

/// The grid has been set: each session has the place that its fastest lap
/// earns it, its cars are cleared, and nobody is ready.
pub open spec fn gridded(before: Seq<Client>, after: Seq<Client>) -> bool {
    &&& after.len() == before.len()
    &&& forall|i: int|
        0 <= i < before.len() ==> {
            &&& #[trigger] after[i] == Client {
                grid_spot: place(lap_keys(before), i) as usize,
                ready: false,
                cars: after[i].cars,
                ..before[i]
            }
            &&& cars_cleared(before[i].cars@, after[i].cars@)
        }
}

/// What qualifying does at `now`. Once more than the qualifying time has
/// passed, the grid is set, spawns and respawns are closed, respawns are no
/// longer forced to the pit lane, and the grid begins to line up.
pub open spec fn qualified(before: Server, after: Server, now: u64) -> bool {
    if seconds(now, before.server_state_start) > before.config.game.spec_qual_time() {
        exists|mid: Server| #[trigger]
            gridded(before.clients@, mid.clients@) && mid == (Server {
                clients: mid.clients,
                allow_respawns: false,
                allow_spawns: false,
                force_respawn_pits: false,
                generic_timer0: now,
                ..before
            }) && entered(mid, after, ServerState::LiningUp, now)
    } else {
        after == before
    }
}

impl Client {
    /// Tells the session to respawn each of its cars at a pit slot of its
    /// own, the first at the slot `first`, and returns the slot of the car
    /// that comes next.
    pub fn pit_all(&mut self, pit: &Spawns, first: u8) -> (next: u8)
        ensures
            *final(self) == (Client { queue: final(self).queue, ..*old(self) }),
            views(final(self).queue@) == views(old(self).queue@) + pit_events(
                *pit,
                first as nat,
                old(self).cars@.len(),
            ),
            next == pit_number(first as nat + old(self).cars@.len()),
    {
        let mut slot: u8 = first;
        let mut j: usize = 0;
        assert(views(self.queue@) + pit_events(*pit, first as nat, 0) =~= views(self.queue@));
        while j < self.cars.len()
            invariant
                j <= self.cars@.len(),
                *self == (Client { queue: self.queue, ..*old(self) }),
                slot == pit_number(first as nat + j as nat),
                views(self.queue@) == views(old(self).queue@) + pit_events(
                    *pit,
                    first as nat,
                    j as nat,
                ),
            decreases self.cars.len() - j,
        {
            let spawn = pit.get_client_spawn(slot);
            let data = spawn.to_event_data();
            self.trigger_client_event("Respawn", data.as_slice());
            assert(views(self.queue@) =~= views(old(self).queue@) + pit_events(
                *pit,
                first as nat,
                (j + 1) as nat,
            ));
            if slot < 255 {
                slot += 1;
            }
            j += 1;
        }
        slot
    }

    /// Clears every car of what qualifying left on it.
    pub fn clear_cars(&mut self)
        ensures
            *final(self) == (Client { cars: final(self).cars, ..*old(self) }),
            cars_cleared(old(self).cars@, final(self).cars@),
    {
        let mut j: usize = 0;
        while j < self.cars.len()
            invariant
                j <= self.cars@.len(),
                *self == (Client { cars: self.cars, ..*old(self) }),
                self.cars@.len() == old(self).cars@.len(),
                forall|k: int|
                    0 <= k < self.cars@.len() ==> (#[trigger] self.cars@[k]).0 == old(
                        self,
                    ).cars@[k].0,
                forall|k: int|
                    0 <= k < j ==> Car::cleared(old(self).cars@[k].1, (#[trigger] self.cars@[k]).1),
                forall|k: int|
                    j <= k < self.cars@.len() ==> (#[trigger] self.cars@[k]).1 == old(
                        self,
                    ).cars@[k].1,
            decreases self.cars.len() - j,
        {
            self.cars[j].1.clear_laps();
            j += 1;
        }
    }
}

/// The events of the cars from `first` on are those from the slot of
/// `first` on.
pub proof fn pit_events_capped(pit: Spawns, first: nat, count: nat)
    ensures
        pit_events(pit, first, count) == pit_events(pit, pit_number(first) as nat, count),
{
    assert(pit_events(pit, first, count) =~= pit_events(pit, pit_number(first) as nat, count));
}

/// The grid slot of a place on the grid: odd places stand on one side, even
/// places on the other, each side counted from its front. Place zero, which
/// nobody has after qualifying, has no slot.
pub open spec fn grid_slot(s: Server, grid_spot: usize) -> Option<Spawn> {
    if grid_spot == 0 {
        None
    } else if grid_spot % 2 == 1 {
        Some(s.track_spawns_odd.slot(pit_number((grid_spot / 2) as nat)))
    } else {
        Some(s.track_spawns_even.slot(pit_number((grid_spot / 2 - 1) as nat)))
    }
}

/// Whether the first car of a session stands off its grid slot: more than
/// one unit away in the ground plane, or more than three units above or
/// below.
pub open spec fn misplaced(s: Server, c: Client) -> bool {
    c.cars@.len() > 0 && match grid_slot(s, c.grid_spot) {
        Some(slot) => Vec3::apart_xy(slot.pos, c.cars@[0].1.pos, UNIT as int) || Vec3::apart_z(
            slot.pos,
            c.cars@[0].1.pos,
            3 * UNIT,
        ),
        None => false,
    }
}

/// Every session whose first car stands off its grid slot has been told to
/// respawn at that slot, and nothing else has changed.
pub open spec fn nudged(before: Server, after: Server) -> bool {
    &&& after == Server { clients: after.clients, ..before }
    &&& after.clients@.len() == before.clients@.len()
    &&& forall|i: int|
        0 <= i < before.clients@.len() ==> if misplaced(before, #[trigger] before.clients@[i]) {
            Client::queued(
                before.clients@[i],
                #[trigger] after.clients@[i],
                event_packet(
                    ascii("Respawn"),
                    grid_slot(before, before.clients@[i].grid_spot).unwrap().text(),
                ),
            )
        } else {
            after.clients@[i] == before.clients@[i]
        }
}

/// Every session that is not ready has been kicked for it, and nothing else
/// has changed.
pub open spec fn unready_kicked(before: Server, after: Server) -> bool {
    &&& after == Server { clients: after.clients, ..before }
    &&& after.clients@.len() == before.clients@.len()
    &&& forall|i: int|
        0 <= i < before.clients@.len() ==> if !(#[trigger] before.clients@[i]).ready {
            Client::kicked(
                before.clients@[i],
                #[trigger] after.clients@[i],
                ascii("Not ready in time!"),
            )
        } else {
            after.clients@[i] == before.clients@[i]
        }
}

/// How lining up ends, if it ends at `now`: with everybody ready the
/// countdown begins; after 45 seconds it begins without those who are not
/// ready, who are kicked.
pub open spec fn lineup_closed(before: Server, after: Server, now: u64, ready: bool) -> bool {
    if ready {
        entered(Server { generic_timer0: now, ..before }, after, ServerState::Countdown, now)
    } else if seconds(now, before.server_state_start) > LINEUP_TIMEOUT {
        exists|mid: Server| #[trigger]
            unready_kicked(before, mid) && entered(
                Server { generic_timer0: now, ..mid },
                after,
                ServerState::Countdown,
                now,
            )
    } else {
        after == before
    }
}

/// What lining up does at `now`. Once a second the cars are held to their
/// grid slots and readiness is looked at. Then the phase ends or goes on as
/// `lineup_closed` says.
pub open spec fn lined_up(before: Server, after: Server, now: u64) -> bool {
    if seconds(now, before.generic_timer0) > 0 {
        exists|mid: Server| #[trigger]
            nudged(Server { generic_timer0: now, ..before }, mid) && lineup_closed(
                mid,
                after,
                now,
                everyone_ready(before.clients@),
            )
    } else {
        lineup_closed(before, after, now, false)
    }
}

/// What the countdown does at `now`. Every 1000 milliseconds it steps down
/// and every overlay is told the new count. A further 1000 milliseconds
/// after it has reached zero the race begins, with respawns forced to the
/// pit lane.
pub open spec fn counted_down(before: Server, after: Server, now: u64) -> bool {
    if elapsed(now, before.generic_timer0) > COUNTDOWN_STEP && before.countdown > 0 {
        &&& after == Server {
            clients: after.clients,
            countdown: (before.countdown - 1) as u8,
            generic_timer0: now,
            ..before
        }
        &&& overlays_told(
            before.clients@,
            after.clients@,
            numbered(67, (before.countdown - 1) as nat),
        )
    } else if elapsed(now, before.generic_timer0) > COUNTDOWN_STEP {
        entered(Server { force_respawn_pits: true, ..before }, after, ServerState::Race, now)
    } else {
        after == before
    }
}

/// What the finish does at `now`: after 30 seconds the process is asked to
/// end.
pub open spec fn lingered(before: Server, after: Server, now: u64) -> bool {
    if seconds(now, before.generic_timer0) > FINISH_LINGER {
        after == Server { exit_requested: true, ..before }
    } else {
        after == before
    }
}

/// The keys of the running order: the further a session has come, the
/// smaller its key.
pub open spec fn progress_keys(clients: Seq<Client>) -> Seq<int> {
    Seq::new(clients.len(), |i: int| -clients[i].progress())
}

/// Every overlay has been told the position of its session in the running
/// order and the size of the field, and nothing else has changed.
pub open spec fn positions_told(before: Server, after: Server) -> bool {
    &&& after == Server { clients: after.clients, ..before }
    &&& after.clients@.len() == before.clients@.len()
    &&& forall|i: int|
        0 <= i < before.clients@.len() ==> {
            &&& #[trigger] after.clients@[i] == Client {
                overlay: after.clients@[i].overlay,
                ..before.clients@[i]
            }
            &&& match before.clients@[i].overlay {
                Some(overlay) => after.clients@[i].overlay is Some && Overlay::placed(
                    overlay,
                    after.clients@[i].overlay.unwrap(),
                    place(progress_keys(before.clients@), i) as usize,
                    before.clients@.len() as usize,
                ),
                None => after.clients@[i].overlay is None,
            }
        }
}

/// Whether a session finishes the race now: it has not finished yet, and its
/// first car has completed more than `max_laps` laps.
pub open spec fn finishes(c: Client, max_laps: usize) -> bool {
    !c.finished && c.cars@.len() > 0 && c.cars@[0].1.laps > max_laps
}

/// The ids of the sessions that finish now, in the order of the roster.
pub open spec fn new_finishers(clients: Seq<Client>, max_laps: usize) -> Seq<u8>
    decreases clients.len(),
{
    if clients.len() == 0 {
        Seq::empty()
    } else if finishes(clients.last(), max_laps) {
        new_finishers(clients.drop_last(), max_laps).push(clients.last().id)
    } else {
        new_finishers(clients.drop_last(), max_laps)
    }
}

/// The sessions that finish now are marked finished and stand, in the order
/// of the roster, at the end of the finish order. Nothing else has changed:
/// the finish order up to now is a prefix of the new one.
pub open spec fn finishers_noted(before: Server, after: Server) -> bool {
    let max_laps = before.config.game.spec_max_laps();
    &&& after == Server { clients: after.clients, finish_order: after.finish_order, ..before }
    &&& after.finish_order@ == before.finish_order@ + new_finishers(before.clients@, max_laps)
    &&& after.clients@.len() == before.clients@.len()
    &&& forall|i: int|
        0 <= i < before.clients@.len() ==> #[trigger] after.clients@[i] == (Client {
            finished: before.clients@[i].finished || finishes(before.clients@[i], max_laps),
            ..before.clients@[i]
        })
}

/// Whether every session has finished.
pub open spec fn everyone_finished(clients: Seq<Client>) -> bool {
    forall|i: int| 0 <= i < clients.len() ==> (#[trigger] clients[i]).finished
}

/// The steps of the race at `now`, with the server as it is between them.
/// Every 50 milliseconds the overlays are told the running order. Then the
/// sessions that finish are noted. Then, once everybody has finished, the
/// finish begins.
pub open spec fn race_steps(
    before: Server,
    told: Server,
    noted: Server,
    after: Server,
    now: u64,
) -> bool {
    &&& if elapsed(now, before.generic_timer0) > POSITIONS_EVERY {
        positions_told(Server { generic_timer0: now, ..before }, told)
    } else {
        told == before
    }
    &&& finishers_noted(told, noted)
    &&& if everyone_finished(noted.clients@) {
        entered(Server { generic_timer0: now, ..noted }, after, ServerState::Finish, now)
    } else {
        after == noted
    }
}

/// What the race does at `now`.
pub open spec fn raced(before: Server, after: Server, now: u64) -> bool {
    exists|told: Server, noted: Server| #[trigger] race_steps(before, told, noted, after, now)
}

/// What one step of the state machine does at `now`, by the phase that the
/// server is in.
pub open spec fn advanced(before: Server, after: Server, now: u64) -> bool {
    match before.server_state {
        ServerState::Unknown => after == before,
        ServerState::WaitingForClients => waited_for_clients(before, after, now),
        ServerState::WaitingForReady => waited_for_ready(before, after, now),
        ServerState::WaitingForSpawns => waited_for_spawns(before, after, now),
        ServerState::Qualifying => qualified(before, after, now),
        ServerState::LiningUp => lined_up(before, after, now),
        ServerState::Countdown => counted_down(before, after, now),
        ServerState::Race => raced(before, after, now),
        ServerState::Finish => lingered(before, after, now),
    }
}

/// A list with one more entry holds what it held, and that entry.
pub proof fn push_contains(s: Seq<u8>, x: u8, y: u8)
    ensures
        s.push(x).contains(y) == (s.contains(y) || x == y),
{
    if s.contains(y) {
        let i = choose|i: int| 0 <= i < s.len() && s[i] == y;
        assert(s.push(x)[i] == y);
    }
    if x == y {
        assert(s.push(x)[s.len() as int] == y);
    }
    if s.push(x).contains(y) {
        let i = choose|i: int| 0 <= i < s.push(x).len() && s.push(x)[i] == y;
        if i < s.len() {
            assert(s[i] == y);
        }
    }
}

/// The number of laps that the overlays show as the length of the race: the
/// laps of the race while it runs, and none before and after.
pub open spec fn shown_max_laps(s: Server) -> usize {
    if s.server_state == ServerState::Race {
        s.config.game.spec_max_laps()
    } else {
        0
    }
}

/// How long the overlays go without a refresh, in milliseconds.
pub const REFRESH_EVERY: u64 = 100;

/// The steps of an overlay update at `now`, with the server as it is between
/// them. Each overlay is brought up to date with the first car of its
/// session. Then, if more than 100 milliseconds have passed since the last
/// refresh, every overlay is told the length of the race and the phase.
pub open spec fn refresh_steps(
    before: Server,
    shown: Server,
    told: Server,
    after: Server,
    now: u64,
) -> bool {
    &&& shown == Server { clients: shown.clients, ..before }
    &&& shown.clients@.len() == before.clients@.len()
    &&& forall|i: int|
        0 <= i < before.clients@.len() ==> Client::overlay_updated(
            #[trigger] before.clients@[i],
            shown.clients@[i],
        )
    &&& if elapsed(now, before.overlay_update_time) > REFRESH_EVERY {
        &&& told == Server { clients: told.clients, overlay_update_time: now, ..shown }
        &&& overlays_told(
            shown.clients@,
            told.clients@,
            numbered(77, shown_max_laps(before) as nat),
        )
        &&& after == Server { clients: after.clients, ..told }
        &&& overlays_told(
            told.clients@,
            after.clients@,
            numbered(83, before.server_state.spec_id() as nat),
        )
    } else {
        told == shown && after == shown
    }
}

/// What an overlay update does at `now`.
pub open spec fn refreshed(before: Server, after: Server, now: u64) -> bool {
    exists|shown: Server, told: Server| #[trigger] refresh_steps(before, shown, told, after, now)
}

/// The steps of a tick once the packets have been routed, with the server as
/// it is between them: the state machine advances, the track is looked at,
/// the overlays are updated, and the sessions marked for removal are
/// dropped.
pub open spec fn tick_steps(
    before: Server,
    moved: Server,
    seen: Server,
    shown: Server,
    after: Server,
    sightings: Seq<Sighting>,
    now: u64,
) -> bool {
    &&& advanced(before, moved, now)
    &&& looked(moved, seen, sightings, now)
    &&& refreshed(seen, shown, now)
    &&& after == Server { clients: after.clients, ..shown }
    &&& swept(shown.clients@, after.clients@)
}

/// The sessions that a tick drops, with the server as it is between the
/// steps of the tick: those that are marked for removal once the overlays
/// have been updated.
pub open spec fn drop_steps(
    before: Server,
    moved: Server,
    seen: Server,
    shown: Server,
    gone: Seq<Client>,
    sightings: Seq<Sighting>,
    now: u64,
) -> bool {
    &&& advanced(before, moved, now)
    &&& looked(moved, seen, sightings, now)
    &&& refreshed(seen, shown, now)
    &&& gone == leaving(shown.clients@)
}

/// The sessions that a tick drops.
pub open spec fn dropped(
    before: Server,
    gone: Seq<Client>,
    sightings: Seq<Sighting>,
    now: u64,
) -> bool {
    exists|moved: Server, seen: Server, shown: Server| #[trigger]
        drop_steps(before, moved, seen, shown, gone, sightings, now)
}

/// What a tick does once the packets have been routed.
pub open spec fn processed(
    before: Server,
    after: Server,
    sightings: Seq<Sighting>,
    now: u64,
) -> bool {
    exists|moved: Server, seen: Server, shown: Server| #[trigger]
        tick_steps(before, moved, seen, shown, after, sightings, now)
}

impl Server {
    /// Whether every expected name has a live session.
    pub fn is_roster_complete(&self) -> (r: bool)
        ensures
            r == roster_complete(*self),
    {
        match &self.config.event.expected_clients {
            None => true,
            Some(list) => {
                let mut k: usize = 0;
                while k < list.len()
                    invariant
                        k <= list@.len(),
                        self.config.event.expected_clients == Some(*list),
                        forall|m: int|
                            0 <= m < k ==> name_taken(self.clients@, #[trigger] (*list)@[m]),
                    decreases list.len() - k,
                {
                    if !self.has_name(&list[k]) {
                        assert(self.config.event.expected_clients->0 == *list);
                        assert(!name_taken(self.clients@, (*list)@[k as int]));
                        return false;
                    }
                    k += 1;
                }
                assert(self.config.event.expected_clients->0 == *list);
                true
            },
        }
    }

    /// Whether every session is ready.
    pub fn is_everyone_ready(&self) -> (r: bool)
        ensures
            r == everyone_ready(self.clients@),
    {
        let mut i: usize = 0;
        while i < self.clients.len()
            invariant
                i <= self.clients@.len(),
                forall|k: int| 0 <= k < i ==> (#[trigger] self.clients@[k]).ready,
            decreases self.clients.len() - i,
        {
            if !self.clients[i].ready {
                return false;
            }
            i += 1;
        }
        true
    }

    /// Whether every session has a car.
    pub fn is_everyone_spawned(&self) -> (r: bool)
        ensures
            r == everyone_spawned(self.clients@),
    {
        let mut i: usize = 0;
        while i < self.clients.len()
            invariant
                i <= self.clients@.len(),
                forall|k: int| 0 <= k < i ==> (#[trigger] self.clients@[k]).cars@.len() > 0,
            decreases self.clients.len() - i,
        {
            if self.clients[i].cars.len() == 0 {
                return false;
            }
            i += 1;
        }
        true
    }

    /// Clears everybody's readiness.
    pub fn clear_ready(&mut self)
        requires
            old(self).wf(),
        ensures
            final(self).wf(),
            *final(self) == (Server { clients: final(self).clients, ..*old(self) }),
            unreadied(old(self).clients@, final(self).clients@),
    {
        let mut i: usize = 0;
        while i < self.clients.len()
            invariant
                i <= self.clients@.len(),
                *self == (Server { clients: self.clients, ..*old(self) }),
                self.clients@.len() == old(self).clients@.len(),
                forall|k: int|
                    0 <= k < i ==> #[trigger] self.clients@[k] == (Client {
                        ready: false,
                        ..old(self).clients@[k]
                    }),
                forall|k: int|
                    i <= k < self.clients@.len() ==> self.clients@[k] == old(self).clients@[k],
            decreases self.clients.len() - i,
        {
            self.clients[i].ready = false;
            i += 1;
        }
        proof {
            Server::wf_same_roster(*old(self), *self);
        }
    }

    /// One step of the wait for clients.
    pub fn wait_for_clients(&mut self, now: u64)
        requires
            old(self).wf(),
            old(self).server_state == ServerState::WaitingForClients,
        ensures
            final(self).wf(),
            waited_for_clients(*old(self), *final(self), now),
    {
        let timed_out = seconds_since(now, self.server_state_start) >= JOIN_TIMEOUT;
        if self.config.event.expected_clients.is_some() && !timed_out {
            if self.is_roster_complete() {
                self.set_server_state(ServerState::WaitingForReady, now);
            }
        } else {
            self.accepting = false;
            self.set_server_state(ServerState::WaitingForReady, now);
        }
    }

    /// One step of the wait for readiness.
    pub fn wait_for_ready(&mut self, now: u64)
        requires
            old(self).wf(),
            old(self).server_state == ServerState::WaitingForReady,
        ensures
            final(self).wf(),
            waited_for_ready(*old(self), *final(self), now),
    {
        if self.is_everyone_ready() {
            self.allow_spawns = true;
            self.accepting = false;
            self.set_server_state(ServerState::WaitingForSpawns, now);
            let ghost mid = *self;
            self.clear_ready();
            assert(entered(
                Server { allow_spawns: true, accepting: false, ..*old(self) },
                mid,
                ServerState::WaitingForSpawns,
                now,
            ));
        }
    }

    /// Sends every car to a pit slot of its own.
    #[verifier::rlimit(50)]
    pub fn send_to_pits(&mut self)
        requires
            old(self).wf(),
        ensures
            final(self).wf(),
            sent_to_pits(*old(self), *final(self)),
    {
        let mut slot: u8 = 0;
        let mut i: usize = 0;
        while i < self.clients.len()
            invariant
                i <= self.clients@.len(),
                *self == (Server { clients: self.clients, ..*old(self) }),
                self.clients@.len() == old(self).clients@.len(),
                slot == pit_number(cars_before(old(self).clients@, i as int)),
                forall|k: int|
                    0 <= k < i ==> {
                        &&& #[trigger] self.clients@[k] == Client {
                            queue: self.clients@[k].queue,
                            ..old(self).clients@[k]
                        }
                        &&& views(self.clients@[k].queue@) == views(old(self).clients@[k].queue@)
                            + pit_events(
                            old(self).track_spawns_pit,
                            cars_before(old(self).clients@, k),
                            old(self).clients@[k].cars@.len(),
                        )
                    },
                forall|k: int|
                    i <= k < self.clients@.len() ==> self.clients@[k] == old(self).clients@[k],
            decreases self.clients.len() - i,
        {
            proof {
                pit_events_capped(
                    self.track_spawns_pit,
                    cars_before(old(self).clients@, i as int),
                    old(self).clients@[i as int].cars@.len(),
                );
            }
            slot = self.clients[i].pit_all(&self.track_spawns_pit, slot);
            i += 1;
        }
        proof {
            Server::wf_same_roster(*old(self), *self);
        }
    }

    /// One step of the wait for spawns.
    pub fn wait_for_spawns(&mut self, now: u64)
        requires
            old(self).wf(),
            old(self).server_state == ServerState::WaitingForSpawns,
        ensures
            final(self).wf(),
            waited_for_spawns(*old(self), *final(self), now),
    {
        if self.is_everyone_spawned() {
            self.allow_spawns = false;
            self.force_respawn_pits = true;
            self.set_server_state(ServerState::Qualifying, now);
            let ghost mid = *self;
            self.send_to_pits();
            assert(entered(
                Server { allow_spawns: false, force_respawn_pits: true, ..*old(self) },
                mid,
                ServerState::Qualifying,
                now,
            ));
        }
    }

    /// The fastest lap of every session, in the order of the roster.
    pub fn fastest_laps(&self) -> (keys: Vec<i128>)
        ensures
            keys@.len() == self.clients@.len(),
            keys_of(keys@) == lap_keys(self.clients@),
    {
        let mut keys: Vec<i128> = Vec::new();
        let mut i: usize = 0;
        while i < self.clients.len()
            invariant
                i <= self.clients@.len(),
                keys@.len() == i,
                forall|k: int|
                    0 <= k < i ==> #[trigger] keys@[k] == Client::fastest_of(
                        self.clients@[k].cars@,
                    ),
            decreases self.clients.len() - i,
        {
            keys.push(self.clients[i].fastest_lap() as i128);
            i += 1;
        }
        assert(keys_of(keys@) =~= lap_keys(self.clients@));
        keys
    }

    /// Sets the grid from the fastest laps, clears the cars and everybody's
    /// readiness.
    #[verifier::rlimit(50)]
    pub fn set_grid(&mut self)
        requires
            old(self).wf(),
        ensures
            final(self).wf(),
            *final(self) == (Server { clients: final(self).clients, ..*old(self) }),
            gridded(old(self).clients@, final(self).clients@),
    {
        let keys = self.fastest_laps();
        let spots = places(&keys);
        let mut i: usize = 0;
        while i < self.clients.len()
            invariant
                i <= self.clients@.len(),
                *self == (Server { clients: self.clients, ..*old(self) }),
                self.clients@.len() == old(self).clients@.len(),
                spots@.len() == self.clients@.len(),
                forall|k: int|
                    0 <= k < spots@.len() ==> #[trigger] spots@[k] == place(
                        lap_keys(old(self).clients@),
                        k,
                    ),
                forall|k: int|
                    0 <= k < i ==> {
                        &&& #[trigger] self.clients@[k] == Client {
                            grid_spot: place(lap_keys(old(self).clients@), k) as usize,
                            ready: false,
                            cars: self.clients@[k].cars,
                            ..old(self).clients@[k]
                        }
                        &&& cars_cleared(old(self).clients@[k].cars@, self.clients@[k].cars@)
                    },
                forall|k: int|
                    i <= k < self.clients@.len() ==> self.clients@[k] == old(self).clients@[k],
            decreases self.clients.len() - i,
        {
            self.clients[i].grid_spot = spots[i];
            self.clients[i].ready = false;
            self.clients[i].clear_cars();
            i += 1;
        }
        proof {
            let before = old(self).clients@;
            let after = self.clients@;
            assert forall|k: int| 0 <= k < before.len() implies {
                &&& (#[trigger] after[k]).id == before[k].id
                &&& after[k].info == before[k].info
                &&& after[k].finished == before[k].finished
                &&& client_wf(after[k], self.checkpoints)
            } by {
                assert(client_wf(before[k], self.checkpoints));
                assert forall|j: int| 0 <= j < before[k].cars@.len() implies {
                    &&& (#[trigger] after[k].cars@[j]).0 == before[k].cars@[j].0
                    &&& self.checkpoints > 0 ==> after[k].cars@[j].1.next_checkpoint
                        < self.checkpoints
                } by {}
                client_wf_kept(before[k], after[k], self.checkpoints);
            }
            Server::wf_same_people(*old(self), *self);
        }
    }

    /// One step of qualifying.
    pub fn qualify(&mut self, now: u64)
        requires
            old(self).wf(),
            old(self).server_state == ServerState::Qualifying,
        ensures
            final(self).wf(),
            qualified(*old(self), *final(self), now),
    {
        let limit = self.config.game.qual_time();
        if (seconds_since(now, self.server_state_start) as u128) > (limit as u128) {
            self.set_grid();
            self.allow_respawns = false;
            self.allow_spawns = false;
            self.force_respawn_pits = false;
            self.generic_timer0 = now;
            let ghost mid = *self;
            self.set_server_state(ServerState::LiningUp, now);
            assert(gridded(old(self).clients@, mid.clients@));
        }
    }

    /// The grid slot of a place on the grid.
    pub fn get_grid_slot(&self, grid_spot: usize) -> (r: Option<Spawn>)
        ensures
            r == grid_slot(*self, grid_spot),
    {
        if grid_spot == 0 {
            None
        } else {
            let half = grid_spot / 2;
            if grid_spot % 2 == 1 {
                let slot: u8 = if half > 255 {
                    255
                } else {
                    half as u8
                };
                Some(self.track_spawns_odd.get_client_spawn(slot))
            } else {
                let slot: u8 = if half - 1 > 255 {
                    255
                } else {
                    (half - 1) as u8
                };
                Some(self.track_spawns_even.get_client_spawn(slot))
            }
        }
    }

    /// Tells every session whose first car stands off its grid slot to
    /// respawn at that slot.
    #[verifier::rlimit(50)]
    pub fn hold_to_grid(&mut self)
        requires
            old(self).wf(),
        ensures
            final(self).wf(),
            nudged(*old(self), *final(self)),
    {
        let mut i: usize = 0;
        while i < self.clients.len()
            invariant
                i <= self.clients@.len(),
                *self == (Server { clients: self.clients, ..*old(self) }),
                self.clients@.len() == old(self).clients@.len(),
                forall|k: int|
                    0 <= k < i ==> if misplaced(*old(self), #[trigger] old(self).clients@[k]) {
                        Client::queued(
                            old(self).clients@[k],
                            self.clients@[k],
                            event_packet(
                                ascii("Respawn"),
                                grid_slot(*old(self), old(self).clients@[k].grid_spot).unwrap().text(),
                            ),
                        )
                    } else {
                        self.clients@[k] == old(self).clients@[k]
                    },
                forall|k: int|
                    i <= k < self.clients@.len() ==> self.clients@[k] == old(self).clients@[k],
            decreases self.clients.len() - i,
        {
            if self.clients[i].cars.len() > 0 {
                match self.get_grid_slot(self.clients[i].grid_spot) {
                    Some(slot) => {
                        let at = self.clients[i].cars[0].1.pos;
                        if slot.pos.farther_xy(&at, 1000000) || slot.pos.farther_z(&at, 3000000) {
                            let data = slot.to_event_data();
                            self.clients[i].trigger_client_event("Respawn", data.as_slice());
                        }
                    },
                    None => {},
                }
            }
            i += 1;
        }
        proof {
            Server::wf_same_roster(*old(self), *self);
        }
    }

    /// Kicks every session that is not ready.
    pub fn kick_unready(&mut self)
        requires
            old(self).wf(),
        ensures
            final(self).wf(),
            unready_kicked(*old(self), *final(self)),
    {
        let mut i: usize = 0;
        while i < self.clients.len()
            invariant
                i <= self.clients@.len(),
                *self == (Server { clients: self.clients, ..*old(self) }),
                self.clients@.len() == old(self).clients@.len(),
                forall|k: int|
                    0 <= k < i ==> if !(#[trigger] old(self).clients@[k]).ready {
                        Client::kicked(
                            old(self).clients@[k],
                            self.clients@[k],
                            ascii("Not ready in time!"),
                        )
                    } else {
                        self.clients@[k] == old(self).clients@[k]
                    },
                forall|k: int|
                    i <= k < self.clients@.len() ==> self.clients@[k] == old(self).clients@[k],
            decreases self.clients.len() - i,
        {
            if !self.clients[i].ready {
                self.clients[i].kick("Not ready in time!");
            }
            i += 1;
        }
        proof {
            Server::wf_same_roster(*old(self), *self);
        }
    }

    /// Ends the lining up, where it is to end at `now`.
    pub fn close_lineup(&mut self, now: u64, ready: bool)
        requires
            old(self).wf(),
            old(self).server_state == ServerState::LiningUp,
        ensures
            final(self).wf(),
            lineup_closed(*old(self), *final(self), now, ready),
    {
        if ready {
            self.generic_timer0 = now;
            self.set_server_state(ServerState::Countdown, now);
        } else if seconds_since(now, self.server_state_start) > LINEUP_TIMEOUT {
            self.kick_unready();
            let ghost mid = *self;
            self.generic_timer0 = now;
            self.set_server_state(ServerState::Countdown, now);
            assert(unready_kicked(*old(self), mid));
        }
    }

    /// One step of lining up.
    pub fn line_up(&mut self, now: u64)
        requires
            old(self).wf(),
            old(self).server_state == ServerState::LiningUp,
        ensures
            final(self).wf(),
            lined_up(*old(self), *final(self), now),
    {
        if seconds_since(now, self.generic_timer0) > 0 {
            let ready = self.is_everyone_ready();
            self.generic_timer0 = now;
            self.hold_to_grid();
            let ghost mid = *self;
            self.close_lineup(now, ready);
            assert(nudged(Server { generic_timer0: now, ..*old(self) }, mid));
        } else {
            self.close_lineup(now, false);
        }
    }

    /// One step of the countdown.
    pub fn count_down(&mut self, now: u64)
        requires
            old(self).wf(),
            old(self).server_state == ServerState::Countdown,
        ensures
            final(self).wf(),
            counted_down(*old(self), *final(self), now),
    {
        if since(now, self.generic_timer0) > COUNTDOWN_STEP {
            if self.countdown > 0 {
                self.countdown = self.countdown - 1;
                self.generic_timer0 = now;
                self.tell_overlays(67, self.countdown as u64);
                proof {
                    Server::wf_same_roster(*old(self), *self);
                }
            } else {
                self.force_respawn_pits = true;
                self.set_server_state(ServerState::Race, now);
            }
        }
    }

    /// One step of the finish.
    pub fn linger(&mut self, now: u64)
        requires
            old(self).wf(),
        ensures
            final(self).wf(),
            lingered(*old(self), *final(self), now),
    {
        if seconds_since(now, self.generic_timer0) > FINISH_LINGER {
            self.exit_requested = true;
        }
    }

    /// The keys of the running order, in the order of the roster.
    pub fn running_keys(&self) -> (keys: Vec<i128>)
        ensures
            keys@.len() == self.clients@.len(),
            keys_of(keys@) == progress_keys(self.clients@),
    {
        let mut keys: Vec<i128> = Vec::new();
        let mut i: usize = 0;
        while i < self.clients.len()
            invariant
                i <= self.clients@.len(),
                keys@.len() == i,
                forall|k: int| 0 <= k < i ==> #[trigger] keys@[k] == -self.clients@[k].progress(),
            decreases self.clients.len() - i,
        {
            let progress = self.clients[i].get_progress();
            keys.push(-progress);
            i += 1;
        }
        assert(keys_of(keys@) =~= progress_keys(self.clients@));
        keys
    }

    /// Tells every overlay the position of its session in the running order.
    #[verifier::rlimit(50)]
    pub fn tell_positions(&mut self)
        requires
            old(self).wf(),
        ensures
            final(self).wf(),
            positions_told(*old(self), *final(self)),
    {
        let keys = self.running_keys();
        let spots = places(&keys);
        let total = self.clients.len();
        let mut i: usize = 0;
        while i < self.clients.len()
            invariant
                i <= self.clients@.len(),
                *self == (Server { clients: self.clients, ..*old(self) }),
                self.clients@.len() == old(self).clients@.len(),
                total == old(self).clients@.len(),
                spots@.len() == self.clients@.len(),
                forall|k: int|
                    0 <= k < spots@.len() ==> #[trigger] spots@[k] == place(
                        progress_keys(old(self).clients@),
                        k,
                    ),
                forall|k: int|
                    0 <= k < i ==> {
                        &&& #[trigger] self.clients@[k] == Client {
                            overlay: self.clients@[k].overlay,
                            ..old(self).clients@[k]
                        }
                        &&& match old(self).clients@[k].overlay {
                            Some(overlay) => self.clients@[k].overlay is Some && Overlay::placed(
                                overlay,
                                self.clients@[k].overlay.unwrap(),
                                place(progress_keys(old(self).clients@), k) as usize,
                                total,
                            ),
                            None => self.clients@[k].overlay is None,
                        }
                    },
                forall|k: int|
                    i <= k < self.clients@.len() ==> self.clients@[k] == old(self).clients@[k],
            decreases self.clients.len() - i,
        {
            match &mut self.clients[i].overlay {
                Some(overlay) => {
                    overlay.set_position(spots[i], total);
                },
                None => {},
            }
            i += 1;
        }
        proof {
            Server::wf_same_roster(*old(self), *self);
        }
    }

    /// Marks the sessions that finish now and adds them to the finish
    /// order.
    #[verifier::rlimit(50)]
    pub fn note_finishers(&mut self)
        requires
            old(self).wf(),
            !old(self).accepting,
        ensures
            final(self).wf(),
            finishers_noted(*old(self), *final(self)),
    {
        let max_laps = self.config.game.max_laps();
        let mut i: usize = 0;
        assert(old(self).clients@.take(0) =~= Seq::<Client>::empty());
        assert(self.finish_order@ + Seq::<u8>::empty() =~= self.finish_order@);
        while i < self.clients.len()
            invariant
                i <= self.clients@.len(),
                max_laps == old(self).config.game.spec_max_laps(),
                *self == (Server {
                    clients: self.clients,
                    finish_order: self.finish_order,
                    ..*old(self)
                }),
                self.clients@.len() == old(self).clients@.len(),
                self.finish_order@ == old(self).finish_order@ + new_finishers(
                    old(self).clients@.take(i as int),
                    max_laps,
                ),
                ids_distinct(old(self).clients@),
                no_repeats(self.finish_order@),
                forall|k: int|
                    0 <= k < self.clients@.len() && !(#[trigger] self.clients@[k]).finished
                        ==> !self.finish_order@.contains(self.clients@[k].id),
                forall|k: int|
                    0 <= k < i ==> #[trigger] self.clients@[k] == (Client {
                        finished: old(self).clients@[k].finished || finishes(
                            old(self).clients@[k],
                            max_laps,
                        ),
                        ..old(self).clients@[k]
                    }),
                forall|k: int|
                    i <= k < self.clients@.len() ==> self.clients@[k] == old(self).clients@[k],
            decreases self.clients.len() - i,
        {
            let ghost order = self.finish_order@;
            let ghost roster = self.clients@;
            let ghost done = old(self).clients@.take(i as int);
            let ghost next = old(self).clients@.take(i + 1);
            assert(next.drop_last() =~= done);
            assert(next.last() == old(self).clients@[i as int]);
            if !self.clients[i].finished && self.clients[i].cars.len() > 0
                && self.clients[i].cars[0].1.laps > max_laps {
                let id = self.clients[i].id;
                assert(!order.contains(id));
                self.clients[i].finished = true;
                self.finish_order.push(id);
                proof {
                    assert(self.finish_order@ =~= old(self).finish_order@ + new_finishers(
                        next,
                        max_laps,
                    ));
                    assert(no_repeats(self.finish_order@)) by {
                        assert forall|a: int, b: int|
                            0 <= a < b < self.finish_order@.len() implies self.finish_order@[a]
                            != self.finish_order@[b] by {
                            if b == order.len() {
                                assert(order[a] == self.finish_order@[a]);
                            }
                        }
                    }
                    assert forall|k: int|
                        0 <= k < self.clients@.len() && !(#[trigger] self.clients@[k]).finished
                            implies !self.finish_order@.contains(self.clients@[k].id) by {
                        push_contains(order, id, self.clients@[k].id);
                        assert(roster[k] == self.clients@[k]);
                        assert(self.clients@[k].id == old(self).clients@[k].id);
                        if k < i {
                            assert(old(self).clients@[k].id != old(self).clients@[i as int].id);
                        } else {
                            assert(old(self).clients@[i as int].id != old(self).clients@[k].id);
                        }
                    }
                }
            }
            i += 1;
        }
        proof {
            assert(old(self).clients@.take(i as int) =~= old(self).clients@);
            let before = old(self).clients@;
            let after = self.clients@;
            assert forall|k: int| 0 <= k < after.len() implies client_wf(
                #[trigger] after[k],
                self.checkpoints,
            ) by {
                assert(client_wf(before[k], self.checkpoints));
            }
            assert forall|k: int| 0 <= k < after.len() implies expected(
                self.config.event.expected_clients,
                (#[trigger] after[k]).info.username,
            ) by {
                assert(after[k].info == before[k].info);
            }
            assert(ids_distinct(after)) by {
                assert forall|a: int, b: int| 0 <= a < b < after.len() implies (
                #[trigger] after[a]).id != (#[trigger] after[b]).id by {
                    assert(before[a].id != before[b].id);
                }
            }
            assert(names_distinct(after)) by {
                assert forall|a: int, b: int| 0 <= a < b < after.len() implies plain_name(
                    (#[trigger] after[a]).info.username,
                ) != plain_name((#[trigger] after[b]).info.username) by {
                    assert(plain_name(before[a].info.username) != plain_name(
                        before[b].info.username,
                    ));
                }
            }
        }
    }

    /// Whether every session has finished.
    pub fn is_everyone_finished(&self) -> (r: bool)
        ensures
            r == everyone_finished(self.clients@),
    {
        let mut i: usize = 0;
        while i < self.clients.len()
            invariant
                i <= self.clients@.len(),
                forall|k: int| 0 <= k < i ==> (#[trigger] self.clients@[k]).finished,
            decreases self.clients.len() - i,
        {
            if !self.clients[i].finished {
                return false;
            }
            i += 1;
        }
        true
    }

    /// One step of the race.
    #[verifier::rlimit(50)]
    pub fn race(&mut self, now: u64)
        requires
            old(self).wf(),
            old(self).server_state == ServerState::Race,
        ensures
            final(self).wf(),
            raced(*old(self), *final(self), now),
    {
        if since(now, self.generic_timer0) > POSITIONS_EVERY {
            self.generic_timer0 = now;
            self.tell_positions();
        }
        let ghost told = *self;
        self.note_finishers();
        let ghost noted = *self;
        if self.is_everyone_finished() {
            self.generic_timer0 = now;
            self.set_server_state(ServerState::Finish, now);
        }
        assert(race_steps(*old(self), told, noted, *self, now));
    }

    /// One step of the state machine.
    pub fn advance(&mut self, now: u64)
        requires
            old(self).wf(),
        ensures
            final(self).wf(),
            advanced(*old(self), *final(self), now),
    {
        match self.server_state {
            ServerState::Unknown => {},
            ServerState::WaitingForClients => self.wait_for_clients(now),
            ServerState::WaitingForReady => self.wait_for_ready(now),
            ServerState::WaitingForSpawns => self.wait_for_spawns(now),
            ServerState::Qualifying => self.qualify(now),
            ServerState::LiningUp => self.line_up(now),
            ServerState::Countdown => self.count_down(now),
            ServerState::Race => self.race(now),
            ServerState::Finish => self.linger(now),
        }
    }

    /// Brings every overlay up to date with the first car of its session.
    #[verifier::rlimit(50)]
    pub fn show_laps(&mut self)
        requires
            old(self).wf(),
        ensures
            final(self).wf(),
            *final(self) == (Server { clients: final(self).clients, ..*old(self) }),
            final(self).clients@.len() == old(self).clients@.len(),
            forall|i: int|
                0 <= i < old(self).clients@.len() ==> Client::overlay_updated(
                    #[trigger] old(self).clients@[i],
                    final(self).clients@[i],
                ),
    {
        let mut i: usize = 0;
        while i < self.clients.len()
            invariant
                i <= self.clients@.len(),
                *self == (Server { clients: self.clients, ..*old(self) }),
                self.clients@.len() == old(self).clients@.len(),
                forall|k: int|
                    0 <= k < i ==> Client::overlay_updated(
                        #[trigger] old(self).clients@[k],
                        self.clients@[k],
                    ),
                forall|k: int|
                    i <= k < self.clients@.len() ==> self.clients@[k] == old(self).clients@[k],
            decreases self.clients.len() - i,
        {
            self.clients[i].update_overlay();
            i += 1;
        }
        proof {
            let before = old(self).clients@;
            let after = self.clients@;
            assert forall|k: int| 0 <= k < before.len() implies {
                &&& (#[trigger] after[k]).id == before[k].id
                &&& after[k].info == before[k].info
                &&& after[k].finished == before[k].finished
                &&& client_wf(after[k], self.checkpoints)
            } by {
                assert(client_wf(before[k], self.checkpoints));
                assert(Client::overlay_updated(before[k], after[k]));
                if before[k].overlay_due() {
                    assert forall|j: int| 0 <= j < before[k].cars@.len() implies {
                        &&& (#[trigger] after[k].cars@[j]).0 == before[k].cars@[j].0
                        &&& self.checkpoints > 0 ==> after[k].cars@[j].1.next_checkpoint
                            < self.checkpoints
                    } by {
                        assert(before[k].cars@[j].1.next_checkpoint < self.checkpoints
                            || self.checkpoints == 0);
                    }
                    client_wf_kept(before[k], after[k], self.checkpoints);
                }
            }
            Server::wf_same_people(*old(self), *self);
        }
    }

    /// Updates the overlays.
    #[verifier::rlimit(50)]
    pub fn update_overlays(&mut self, now: u64)
        requires
            old(self).wf(),
        ensures
            final(self).wf(),
            refreshed(*old(self), *final(self), now),
    {
        self.show_laps();
        let ghost shown = *self;
        if since(now, self.overlay_update_time) > REFRESH_EVERY {
            let max_laps = if self.server_state == ServerState::Race {
                self.config.game.max_laps()
            } else {
                0
            };
            self.overlay_update_time = now;
            self.tell_overlays(77, max_laps as u64);
            let ghost told = *self;
            self.tell_overlays(83, self.server_state.id() as u64);
            proof {
                Server::wf_same_roster(shown, told);
                Server::wf_same_roster(told, *self);
                assert(refresh_steps(*old(self), shown, told, *self, now));
            }
        } else {
            assert(refresh_steps(*old(self), shown, shown, *self, now));
        }
    }

    /// The part of a tick that follows the routing of the packets.
    /// `sightings` holds what the map geometry says of the cars of the
    /// session whose turn it is to be held to the track. Returns the sessions
    /// that the tick has dropped, with what was still queued for them.
    #[verifier::rlimit(50)]
    pub fn process(&mut self, sightings: &Vec<Sighting>, now: u64) -> (gone: Vec<Client>)
        requires
            old(self).wf(),
        ensures
            final(self).wf(),
            processed(*old(self), *final(self), sightings@, now),
            dropped(*old(self), gone@, sightings@, now),
    {
        self.advance(now);
        let ghost moved = *self;
        self.observe(sightings, now);
        let ghost seen = *self;
        self.update_overlays(now);
        let ghost shown = *self;
        let gone = self.remove_disconnected();
        assert(tick_steps(*old(self), moved, seen, shown, *self, sightings@, now));
        assert(drop_steps(*old(self), moved, seen, shown, gone@, sightings@, now));
        gone
    }
}

} // verus!
