//! What holds of the library as a whole: properties that tie several of its
//! operations together, each stated over the same models as the contracts
//! of those operations.

use vstd::prelude::*;

use crate::client::Client;
use crate::client::ClientState;
use crate::codec::{is_sealed, marker, marker_is_four, opened, sealed, COMPRESS_ABOVE};
use crate::server::roster::{staying, staying_is_a_selection, swept};
use crate::server::grid::{place, place_taken, places_are_a_permutation};
use crate::server::phases::{
    advanced, entered, gridded, lap_keys, lined_up, lineup_closed, nudged, processed,
    race_steps, refresh_steps, sent_to_pits, tick_steps, unready_kicked,
};
use crate::server::track::Sighting;
use crate::server::Server;
use crate::spawns::{Spawn, Spawns};
use crate::state::ServerState;

verus! {

/// Whether `short` is the beginning of `long`.
pub open spec fn is_prefix(short: Seq<u8>, long: Seq<u8>) -> bool {
    short.len() <= long.len() && long.take(short.len() as int) == short
}

/// Whether some session of the list stands on the grid place `spot`.
pub open spec fn spot_taken(clients: Seq<Client>, spot: int) -> bool {
    exists|i: int| 0 <= i < clients.len() && (#[trigger] clients[i]).grid_spot == spot
}

/// On a well-formed server no two cars share their pair of session id and car
/// id: two cars with the same pair are the same car of the same session.
pub proof fn car_keys_are_unique(s: Server, i: int, j: int, k: int, l: int)
    requires
        s.wf(),
        0 <= i < s.clients@.len(),
        0 <= j < s.clients@[i].cars@.len(),
        0 <= k < s.clients@.len(),
        0 <= l < s.clients@[k].cars@.len(),
        s.clients@[i].id == s.clients@[k].id,
        s.clients@[i].cars@[j].0 == s.clients@[k].cars@[l].0,
    ensures
        i == k,
        j == l,
{
    if i < k {
        assert(s.clients@[i].id != s.clients@[k].id);
    } else if k < i {
        assert(s.clients@[k].id != s.clients@[i].id);
    }
    assert(crate::server::client_wf(s.clients@[i], s.checkpoints));
    if j < l {
        assert(s.clients@[i].cars@[j].0 != s.clients@[i].cars@[l].0);
    } else if l < j {
        assert(s.clients@[i].cars@[l].0 != s.clients@[i].cars@[j].0);
    }
}

/// When qualifying ends, the grid places are a permutation of `1..=N` that
/// follows the fastest laps: every session has a place in that range, no two
/// sessions share one, every place is taken, and a session with a faster lap
/// stands in front of one with a slower lap.
#[verifier::rlimit(50)]
pub proof fn grid_is_a_permutation(before: Seq<Client>, after: Seq<Client>)
    requires
        gridded(before, after),
        before.len() <= usize::MAX,
    ensures
        forall|i: int| 0 <= i < after.len() ==> 1 <= (#[trigger] after[i]).grid_spot <= after.len(),
        forall|i: int, j: int|
            0 <= i < after.len() && 0 <= j < after.len() && i != j ==> (
            #[trigger] after[i]).grid_spot != (#[trigger] after[j]).grid_spot,
        forall|spot: int| 1 <= spot <= after.len() ==> #[trigger] spot_taken(after, spot),
        forall|i: int, j: int|
            0 <= i < after.len() && 0 <= j < after.len() && Client::fastest_of(before[i].cars@)
                < Client::fastest_of(before[j].cars@) ==> (#[trigger] after[i]).grid_spot < (
            #[trigger] after[j]).grid_spot,
{
    let keys = lap_keys(before);
    places_are_a_permutation(keys);
    assert forall|i: int| 0 <= i < after.len() implies (#[trigger] after[i]).grid_spot == place(
        keys,
        i,
    ) by {
        assert(1 <= place(keys, i) <= keys.len());
    }
    assert forall|spot: int| 1 <= spot <= after.len() implies #[trigger] spot_taken(
        after,
        spot,
    ) by {
        assert(place_taken(keys, spot));
        let i = choose|i: int| 0 <= i < keys.len() && #[trigger] place(keys, i) == spot;
        assert(after[i].grid_spot == spot);
    }
    assert forall|i: int, j: int|
        0 <= i < after.len() && 0 <= j < after.len() && Client::fastest_of(before[i].cars@)
            < Client::fastest_of(before[j].cars@) implies (#[trigger] after[i]).grid_spot < (
    #[trigger] after[j]).grid_spot by {
        assert(keys[i] < keys[j]);
        assert(place(keys, i) < place(keys, j));
    }
}

/// When the state machine leaves qualifying, the grid places of the sessions
/// are a permutation of `1..=N` that follows their fastest laps.
pub proof fn qualifying_ends_with_a_grid(before: Server, after: Server, now: u64)
    requires
        before.server_state == ServerState::Qualifying,
        advanced(before, after, now),
        after.server_state != ServerState::Qualifying,
    ensures
        after.server_state == ServerState::LiningUp,
        after.clients@.len() == before.clients@.len(),
        forall|i: int|
            0 <= i < after.clients@.len() ==> 1 <= (#[trigger] after.clients@[i]).grid_spot
                <= after.clients@.len(),
        forall|i: int, j: int|
            0 <= i < after.clients@.len() && 0 <= j < after.clients@.len() && i != j ==> (
            #[trigger] after.clients@[i]).grid_spot != (#[trigger] after.clients@[j]).grid_spot,
        forall|i: int, j: int|
            0 <= i < after.clients@.len() && 0 <= j < after.clients@.len() && Client::fastest_of(
                before.clients@[i].cars@,
            ) < Client::fastest_of(before.clients@[j].cars@) ==> (
            #[trigger] after.clients@[i]).grid_spot < (#[trigger] after.clients@[j]).grid_spot,
{
    let mid = choose|mid: Server| #[trigger]
        gridded(before.clients@, mid.clients@) && mid == (Server {
            clients: mid.clients,
            allow_respawns: false,
            allow_spawns: false,
            force_respawn_pits: false,
            generic_timer0: now,
            ..before
        }) && entered(mid, after, ServerState::LiningUp, now);
    assert(before.clients@.len() == before.clients.len());
    grid_is_a_permutation(before.clients@, mid.clients@);
    assert forall|i: int| 0 <= i < after.clients@.len() implies (
    #[trigger] after.clients@[i]).grid_spot == mid.clients@[i].grid_spot by {
        assert(crate::server::overlay_told(
            mid.clients@[i],
            after.clients@[i],
            crate::overlay::numbered(83, ServerState::LiningUp.spec_id() as nat),
        ));
    }
}

/// A step of the state machine never takes anything out of the finish order
/// and never reorders it: the order before the step is the beginning of the
/// order after it.
#[verifier::rlimit(50)]
pub proof fn finish_order_only_grows(before: Server, after: Server, now: u64)
    requires
        advanced(before, after, now),
    ensures
        is_prefix(before.finish_order@, after.finish_order@),
{
    let order = before.finish_order@;
    assert(order.take(order.len() as int) =~= order);
    match before.server_state {
        ServerState::Unknown => {},
        ServerState::WaitingForClients => {},
        ServerState::WaitingForReady => {
            if crate::server::phases::everyone_ready(before.clients@) {
                let mid = choose|mid: Server| #[trigger]
                    entered(
                        Server { allow_spawns: true, accepting: false, ..before },
                        mid,
                        ServerState::WaitingForSpawns,
                        now,
                    ) && after == (Server { clients: after.clients, ..mid })
                        && crate::server::phases::unreadied(mid.clients@, after.clients@);
            }
        },
        ServerState::WaitingForSpawns => {
            if crate::server::phases::everyone_spawned(before.clients@) {
                let mid = choose|mid: Server| #[trigger]
                    entered(
                        Server { allow_spawns: false, force_respawn_pits: true, ..before },
                        mid,
                        ServerState::Qualifying,
                        now,
                    ) && sent_to_pits(mid, after);
            }
        },
        ServerState::Qualifying => {
            if crate::server::phases::seconds(now, before.server_state_start)
                > before.config.game.spec_qual_time() {
                let mid = choose|mid: Server| #[trigger]
                    gridded(before.clients@, mid.clients@) && mid == (Server {
                        clients: mid.clients,
                        allow_respawns: false,
                        allow_spawns: false,
                        force_respawn_pits: false,
                        generic_timer0: now,
                        ..before
                    }) && entered(mid, after, ServerState::LiningUp, now);
            }
        },
        ServerState::LiningUp => {
            lineup_keeps_finish_order(before, after, now);
        },
        ServerState::Countdown => {},
        ServerState::Race => {
            let (told, noted) = choose|told: Server, noted: Server| #[trigger]
                race_steps(before, told, noted, after, now);
            assert(told.finish_order == before.finish_order);
            assert(noted.finish_order@.take(order.len() as int) =~= order);
            assert(after.finish_order == noted.finish_order);
        },
        ServerState::Finish => {},
    }
}

/// Lining up leaves the finish order as it is.
pub proof fn lineup_keeps_finish_order(before: Server, after: Server, now: u64)
    requires
        lined_up(before, after, now),
    ensures
        after.finish_order == before.finish_order,
{
    if crate::server::phases::seconds(now, before.generic_timer0) > 0 {
        let mid = choose|mid: Server| #[trigger]
            nudged(Server { generic_timer0: now, ..before }, mid) && lineup_closed(
                mid,
                after,
                now,
                crate::server::phases::everyone_ready(before.clients@),
            );
        closing_keeps_finish_order(
            mid,
            after,
            now,
            crate::server::phases::everyone_ready(before.clients@),
        );
    } else {
        closing_keeps_finish_order(before, after, now, false);
    }
}

/// The end of lining up leaves the finish order as it is.
pub proof fn closing_keeps_finish_order(before: Server, after: Server, now: u64, ready: bool)
    requires
        lineup_closed(before, after, now, ready),
    ensures
        after.finish_order == before.finish_order,
{
    if !ready && crate::server::phases::seconds(now, before.server_state_start)
        > crate::server::phases::LINEUP_TIMEOUT {
        let mid = choose|mid: Server| #[trigger]
            unready_kicked(before, mid) && entered(
                Server { generic_timer0: now, ..mid },
                after,
                ServerState::Countdown,
                now,
            );
    }
}

/// A whole tick never takes anything out of the finish order and never
/// reorders it.
pub proof fn tick_keeps_finish_order(
    before: Server,
    after: Server,
    sightings: Seq<Sighting>,
    now: u64,
)
    requires
        processed(before, after, sightings, now),
    ensures
        is_prefix(before.finish_order@, after.finish_order@),
{
    let (moved, seen, shown) = choose|moved: Server, seen: Server, shown: Server| #[trigger]
        tick_steps(before, moved, seen, shown, after, sightings, now);
    finish_order_only_grows(before, moved, now);
    assert(seen.finish_order == moved.finish_order);
    let (a, b) = choose|a: Server, b: Server| #[trigger] refresh_steps(seen, a, b, shown, now);
    assert(shown.finish_order == seen.finish_order);
    assert(after.finish_order == shown.finish_order);
}

/// On a well-formed server the finish order names nobody twice.
pub proof fn finish_order_has_no_repeats(s: Server, a: int, b: int)
    requires
        s.wf(),
        0 <= a < s.finish_order@.len(),
        0 <= b < s.finish_order@.len(),
        a != b,
    ensures
        s.finish_order@[a] != s.finish_order@[b],
{
    if a < b {
        assert(s.finish_order@[a] != s.finish_order@[b]);
    } else {
        assert(s.finish_order@[b] != s.finish_order@[a]);
    }
}

/// Every payload of more than 400 bytes that is sent at all is sent behind
/// the marker.
pub proof fn long_payloads_travel_sealed(payload: Seq<u8>)
    requires
        payload.len() > COMPRESS_ABOVE,
        sealed(payload) is Some,
    ensures
        is_sealed(sealed(payload).unwrap()),
{
    marker_is_four();
    let sent = sealed(payload).unwrap();
    assert(sent.take(4) =~= marker());
}

/// Past the end of an extrapolating spawn set of two or more slots, the slot
/// of `grid_id` is the point at parameter `grid_id` on the line from the
/// first slot to the second.
pub proof fn extrapolation_is_lerp(spawns: Spawns, grid_id: u8)
    requires
        spawns.extrapolate,
        spawns.spawns@.len() >= 2,
        grid_id >= spawns.spawns@.len(),
    ensures
        spawns.slot(grid_id) == Spawn::lerp_at(
            spawns.spawns@[0],
            spawns.spawns@[1],
            grid_id as int,
        ),
{
}

/// A payload of up to 400 bytes that does not begin with the marker travels
/// as it is and is routed as it is.
pub proof fn short_payloads_travel_plain(payload: Seq<u8>)
    requires
        payload.len() <= COMPRESS_ABOVE,
        !is_sealed(payload),
    ensures
        sealed(payload) == Some(payload),
        opened(sealed(payload).unwrap()) == Some(payload),
{
}

/// A sweep leaves no session behind that is marked for removal: whoever is
/// marked is dropped within the tick.
pub proof fn sweep_drops_the_marked(before: Seq<Client>, after: Seq<Client>)
    requires
        swept(before, after),
    ensures
        forall|i: int|
            0 <= i < after.len() ==> (#[trigger] after[i]).state != ClientState::Disconnect,
{
    let places = staying_is_a_selection(before);
    assert forall|i: int| 0 <= i < after.len() implies (#[trigger] after[i]).state
        != ClientState::Disconnect by {
        assert(before[places[i]] == staying(before)[i]);
        assert(after[i].state == staying(before)[i].state);
    }
}

/// A whole tick leaves no session behind that is marked for removal.
pub proof fn tick_drops_the_marked(
    before: Server,
    after: Server,
    sightings: Seq<Sighting>,
    now: u64,
)
    requires
        processed(before, after, sightings, now),
    ensures
        forall|i: int|
            0 <= i < after.clients@.len() ==> (#[trigger] after.clients@[i]).state
                != ClientState::Disconnect,
{
    let (moved, seen, shown) = choose|moved: Server, seen: Server, shown: Server| #[trigger]
        tick_steps(before, moved, seen, shown, after, sightings, now);
    sweep_drops_the_marked(shown.clients@, after.clients@);
}

} // verus!
