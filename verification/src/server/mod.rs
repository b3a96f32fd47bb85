//! The server-wide state and the operations that every part of the tick
//! builds on.

use vstd::prelude::*;

use crate::client::{bytes_of, cars_distinct, Client, ClientState};
use crate::config::Config;
use crate::overlay::{numbered, Overlay};
use crate::spawns::Spawns;
use crate::state::ServerState;
use crate::text::{to_vec, trimmed};

pub mod audit;
pub mod grid;
pub mod phases;
pub mod roster;
pub mod router;
pub mod track;

verus! {

/// The countdown starts from this number.
pub const COUNTDOWN_FROM: u8 = 5;

/// Everything the rules know of one running event.
#[derive(Clone, Debug)]
pub struct Server {
    /// The live sessions, in the order in which they were admitted.
    pub clients: Vec<Client>,
    /// The overlays that have greeted and wait for their session, each with
    /// the name it announced.
    pub unconnected_overlays: Vec<(Vec<u8>, Overlay)>,
    pub config: Config,
    /// Whether new sessions are still admitted. Once cleared it stays so.
    pub accepting: bool,
    /// Set when the event is over and the process is to end.
    pub exit_requested: bool,
    /// The place in `clients` of the session whose cars are held to the track
    /// in this tick.
    pub track_limits_client: u8,
    pub track_spawns_pit: Spawns,
    pub track_spawns_odd: Spawns,
    pub track_spawns_even: Spawns,
    /// How many checkpoints the track has.
    pub checkpoints: usize,
    pub server_state: ServerState,
    /// When the current phase began.
    pub server_state_start: u64,
    pub countdown: u8,
    pub allow_spawns: bool,
    pub force_respawn_pits: bool,
    pub allow_respawns: bool,
    /// When the overlays were last refreshed.
    pub overlay_update_time: u64,
    /// The clock of whatever the current phase repeats.
    pub generic_timer0: u64,
    /// The ids of the sessions that have finished the race, first finisher
    /// first.
    pub finish_order: Vec<u8>,
}

/// No two sessions of the list share an id.
pub open spec fn ids_distinct(clients: Seq<Client>) -> bool {
    forall|i: int, j: int|
        0 <= i < j < clients.len() ==> (#[trigger] clients[i]).id != (#[trigger] clients[j]).id
}

/// A user name as it is compared: without white space at its ends.
pub open spec fn plain_name(name: String) -> Seq<u8> {
    trimmed(bytes_of(name))
}

/// No two sessions of the list share a user name.
pub open spec fn names_distinct(clients: Seq<Client>) -> bool {
    forall|i: int, j: int|
        0 <= i < j < clients.len() ==> plain_name((#[trigger] clients[i]).info.username)
            != plain_name((#[trigger] clients[j]).info.username)
}

/// Nothing occurs twice in the list.
pub open spec fn no_repeats(ids: Seq<u8>) -> bool {
    forall|i: int, j: int| 0 <= i < j < ids.len() ==> ids[i] != ids[j]
}

/// Whether the whitelist has the name. Without a whitelist every name is
/// expected.
pub open spec fn expected(whitelist: Option<Vec<String>>, name: String) -> bool {
    match whitelist {
        Some(list) => exists|k: int|
            0 <= k < list@.len() && plain_name(#[trigger] list@[k]) == plain_name(name),
        None => true,
    }
}

/// What holds of every session: its cars have ids of their own, and each car
/// heads for a checkpoint that the track has.
pub open spec fn client_wf(c: Client, checkpoints: usize) -> bool {
    &&& cars_distinct(c.cars@)
    &&& forall|j: int|
        0 <= j < c.cars@.len() && checkpoints > 0 ==> (#[trigger] c.cars@[j]).1.next_checkpoint
            < checkpoints
}

/// `after` holds the sessions of `before`, in the same order, each with the
/// identity, the cars and the finished flag it had.
pub open spec fn same_roster(before: Seq<Client>, after: Seq<Client>) -> bool {
    &&& after.len() == before.len()
    &&& forall|i: int|
        0 <= i < before.len() ==> {
            &&& (#[trigger] after[i]).id == (#[trigger] before[i]).id
            &&& after[i].info == before[i].info
            &&& after[i].cars == before[i].cars
            &&& after[i].finished == before[i].finished
        }
}

/// The overlay of `before`, if it has one, has been told `message`, and
/// nothing else has changed between `before` and `after`.
pub open spec fn overlay_told(before: Client, after: Client, message: Seq<u8>) -> bool {
    &&& after == Client { overlay: after.overlay, ..before }
    &&& match before.overlay {
        Some(overlay) => after.overlay is Some && Overlay::told(
            overlay,
            after.overlay.unwrap(),
            message,
        ),
        None => after.overlay is None,
    }
}

/// Every overlay of `before` has been told `message`, and nothing else has
/// changed between `before` and `after`.
pub open spec fn overlays_told(before: Seq<Client>, after: Seq<Client>, message: Seq<u8>) -> bool {
    &&& after.len() == before.len()
    &&& forall|i: int|
        0 <= i < before.len() ==> overlay_told(#[trigger] before[i], #[trigger] after[i], message)
}

/// Whether a broadcast that spares `owner` reaches the session: it reaches
/// every session but the owner and those marked for removal.
pub open spec fn receives(c: Client, owner: Option<u8>) -> bool {
    c.state != ClientState::Disconnect && owner != Some(c.id)
}

/// Whether a datagram broadcast that spares `owner` reaches the session: as
/// `receives`, and the session's datagram address must be known.
pub open spec fn receives_udp(c: Client, owner: Option<u8>) -> bool {
    c.udp_known && receives(c, owner)
}

/// `payload` has been queued for every session that the broadcast reaches,
/// and nothing else has changed.
pub open spec fn broadcasted(
    before: Seq<Client>,
    after: Seq<Client>,
    payload: Seq<u8>,
    owner: Option<u8>,
) -> bool {
    &&& after.len() == before.len()
    &&& forall|i: int|
        0 <= i < before.len() ==> if receives(#[trigger] before[i], owner) {
            Client::queued(before[i], #[trigger] after[i], payload)
        } else {
            after[i] == before[i]
        }
}

/// `payload` has been queued as a datagram for every session that the
/// datagram broadcast reaches, and nothing else has changed.
pub open spec fn broadcasted_udp(
    before: Seq<Client>,
    after: Seq<Client>,
    payload: Seq<u8>,
    owner: Option<u8>,
) -> bool {
    &&& after.len() == before.len()
    &&& forall|i: int|
        0 <= i < before.len() ==> if receives_udp(#[trigger] before[i], owner) {
            Client::queued_udp(before[i], #[trigger] after[i], payload)
        } else {
            after[i] == before[i]
        }
}

/// A session whose cars kept their ids and still head for checkpoints that
/// the track has is well formed if it was.
pub proof fn client_wf_kept(before: Client, after: Client, checkpoints: usize)
    requires
        client_wf(before, checkpoints),
        after.cars@.len() == before.cars@.len(),
        forall|j: int|
            0 <= j < before.cars@.len() ==> {
                &&& (#[trigger] after.cars@[j]).0 == before.cars@[j].0
                &&& checkpoints > 0 ==> after.cars@[j].1.next_checkpoint < checkpoints
            },
    ensures
        client_wf(after, checkpoints),
{
    assert(cars_distinct(after.cars@)) by {
        assert forall|a: int, b: int| 0 <= a < b < after.cars@.len() implies (
        #[trigger] after.cars@[a]).0 != (#[trigger] after.cars@[b]).0 by {
            assert(before.cars@[a].0 != before.cars@[b].0);
        }
    }
}

/// Only the session at `at` differs between `before` and `after`.
pub open spec fn only_changed(before: Seq<Client>, after: Seq<Client>, at: int) -> bool {
    &&& after.len() == before.len()
    &&& forall|i: int| 0 <= i < before.len() && i != at ==> #[trigger] after[i] == before[i]
}

impl Server {
    /// What holds of the server between any two operations: session ids and
    /// user names are unique, every name is expected, every session is well
    /// formed, the finish order names nobody twice and nobody who has not
    /// finished, nobody is admitted once the roster is frozen, and nobody has
    /// finished while sessions are admitted.
    pub open spec fn wf(&self) -> bool {
        &&& ids_distinct(self.clients@)
        &&& names_distinct(self.clients@)
        &&& forall|i: int|
            0 <= i < self.clients@.len() ==> client_wf(#[trigger] self.clients@[i], self.checkpoints)
        &&& forall|i: int|
            0 <= i < self.clients@.len() ==> expected(
                self.config.event.expected_clients,
                (#[trigger] self.clients@[i]).info.username,
            )
        &&& no_repeats(self.finish_order@)
        &&& forall|i: int|
            0 <= i < self.clients@.len() && !(#[trigger] self.clients@[i]).finished
                ==> !self.finish_order@.contains(self.clients@[i].id)
        &&& self.server_state.roster_frozen() ==> !self.accepting
        &&& self.accepting ==> self.finish_order@.len() == 0
    }

    /// A server that only differs from a well-formed one in what its sessions
    /// queue, show and flag, but not in who they are, which cars they have and
    /// whether they have finished, is well formed.
    pub proof fn wf_same_roster(before: Server, after: Server)
        requires
            before.wf(),
            same_roster(before.clients@, after.clients@),
            after.checkpoints == before.checkpoints,
            after.config == before.config,
            after.finish_order == before.finish_order,
            after.server_state.roster_frozen() ==> !after.accepting,
            after.accepting ==> before.accepting,
        ensures
            after.wf(),
    {
        assert forall|i: int| 0 <= i < after.clients@.len() implies client_wf(
            #[trigger] after.clients@[i],
            after.checkpoints,
        ) by {
            assert(client_wf(before.clients@[i], before.checkpoints));
        }
        assert forall|i: int| 0 <= i < after.clients@.len() implies expected(
            after.config.event.expected_clients,
            (#[trigger] after.clients@[i]).info.username,
        ) by {
            assert(after.clients@[i].info == before.clients@[i].info);
        }
        assert forall|i: int|
            0 <= i < after.clients@.len() && !(#[trigger] after.clients@[i]).finished
                implies !after.finish_order@.contains(after.clients@[i].id) by {
            assert(!before.clients@[i].finished);
        }
        assert(ids_distinct(after.clients@)) by {
            assert forall|i: int, j: int| 0 <= i < j < after.clients@.len() implies (
            #[trigger] after.clients@[i]).id != (#[trigger] after.clients@[j]).id by {
                assert(before.clients@[i].id != before.clients@[j].id);
            }
        }
        assert(names_distinct(after.clients@)) by {
            assert forall|i: int, j: int| 0 <= i < j < after.clients@.len() implies plain_name(
                (#[trigger] after.clients@[i]).info.username,
            ) != plain_name((#[trigger] after.clients@[j]).info.username) by {
                assert(plain_name(before.clients@[i].info.username) != plain_name(
                    before.clients@[j].info.username,
                ));
            }
        }
    }

    /// A server that holds the sessions of a well-formed one, each still well
    /// formed and with the identity and the finished flag it had, is well
    /// formed.
    pub proof fn wf_same_people(before: Server, after: Server)
        requires
            before.wf(),
            after.clients@.len() == before.clients@.len(),
            forall|i: int|
                0 <= i < before.clients@.len() ==> {
                    &&& (#[trigger] after.clients@[i]).id == before.clients@[i].id
                    &&& after.clients@[i].info == before.clients@[i].info
                    &&& after.clients@[i].finished == before.clients@[i].finished
                    &&& client_wf(after.clients@[i], after.checkpoints)
                },
            after.config == before.config,
            after.finish_order == before.finish_order,
            after.server_state.roster_frozen() ==> !after.accepting,
            after.accepting ==> before.accepting,
        ensures
            after.wf(),
    {
        assert forall|i: int| 0 <= i < after.clients@.len() implies expected(
            after.config.event.expected_clients,
            (#[trigger] after.clients@[i]).info.username,
        ) by {
            assert(after.clients@[i].info == before.clients@[i].info);
            assert(expected(before.config.event.expected_clients, before.clients@[i].info.username));
        }
        assert forall|i: int|
            0 <= i < after.clients@.len() && !(#[trigger] after.clients@[i]).finished
                implies !after.finish_order@.contains(after.clients@[i].id) by {
            assert(!before.clients@[i].finished);
            assert(after.clients@[i].id == before.clients@[i].id);
        }
        assert(ids_distinct(after.clients@)) by {
            assert forall|i: int, j: int| 0 <= i < j < after.clients@.len() implies (
            #[trigger] after.clients@[i]).id != (#[trigger] after.clients@[j]).id by {
                assert(before.clients@[i].id != before.clients@[j].id);
            }
        }
        assert(names_distinct(after.clients@)) by {
            assert forall|i: int, j: int| 0 <= i < j < after.clients@.len() implies plain_name(
                (#[trigger] after.clients@[i]).info.username,
            ) != plain_name((#[trigger] after.clients@[j]).info.username) by {
                assert(plain_name(before.clients@[i].info.username) != plain_name(
                    before.clients@[j].info.username,
                ));
                assert(after.clients@[i].info == before.clients@[i].info);
                assert(after.clients@[j].info == before.clients@[j].info);
            }
        }
    }

    /// A server at the start of an event: nobody connected, the doors open,
    /// waiting for the expected clients, spawning not yet allowed.
    pub open spec fn initial(
        s: Server,
        config: Config,
        pit: Spawns,
        odd: Spawns,
        even: Spawns,
        checkpoints: usize,
        now: u64,
    ) -> bool {
        &&& s.clients@.len() == 0
        &&& s.unconnected_overlays@.len() == 0
        &&& s.config == config
        &&& s.accepting
        &&& !s.exit_requested
        &&& s.track_limits_client == 0
        &&& s.track_spawns_pit == pit
        &&& s.track_spawns_odd == odd
        &&& s.track_spawns_even == even
        &&& s.checkpoints == checkpoints
        &&& s.server_state == ServerState::WaitingForClients
        &&& s.server_state_start == now
        &&& s.countdown == COUNTDOWN_FROM
        &&& !s.allow_spawns
        &&& !s.force_respawn_pits
        &&& s.allow_respawns
        &&& s.overlay_update_time == now
        &&& s.generic_timer0 == now
        &&& s.finish_order@.len() == 0
    }

    /// Sets up the rules of an event from its settings, the three spawn sets
    /// of the map and the number of checkpoints of its track.
    pub fn new(
        config: Config,
        pit: Spawns,
        odd: Spawns,
        even: Spawns,
        checkpoints: usize,
        now: u64,
    ) -> (s: Server)
        ensures
            Server::initial(s, config, pit, odd, even, checkpoints, now),
            s.wf(),
    {
        Server {
            clients: Vec::new(),
            unconnected_overlays: Vec::new(),
            config,
            accepting: true,
            exit_requested: false,
            track_limits_client: 0,
            track_spawns_pit: pit,
            track_spawns_odd: odd,
            track_spawns_even: even,
            checkpoints,
            server_state: ServerState::WaitingForClients,
            server_state_start: now,
            countdown: COUNTDOWN_FROM,
            allow_spawns: false,
            force_respawn_pits: false,
            allow_respawns: true,
            overlay_update_time: now,
            generic_timer0: now,
            finish_order: Vec::new(),
        }
    }

    /// Every overlay is told a message of one code letter and one number.
    pub fn tell_overlays(&mut self, code: u8, n: u64)
        ensures
            *final(self) == (Server { clients: final(self).clients, ..*old(self) }),
            overlays_told(old(self).clients@, final(self).clients@, numbered(code, n as nat)),
            same_roster(old(self).clients@, final(self).clients@),
    {
        let mut i: usize = 0;
        while i < self.clients.len()
            invariant
                i <= self.clients@.len(),
                *self == (Server { clients: self.clients, ..*old(self) }),
                self.clients@.len() == old(self).clients@.len(),
                forall|k: int|
                    0 <= k < i ==> overlay_told(
                        #[trigger] old(self).clients@[k],
                        self.clients@[k],
                        numbered(code, n as nat),
                    ),
                forall|k: int|
                    i <= k < self.clients@.len() ==> self.clients@[k] == old(self).clients@[k],
            decreases self.clients.len() - i,
        {
            match &mut self.clients[i].overlay {
                Some(overlay) => {
                    overlay.write_numbered(code, n);
                },
                None => {},
            }
            i += 1;
        }
    }

    /// Enters a phase at `now` and tells every overlay its number: `S<n>`.
    pub fn set_server_state(&mut self, state: ServerState, now: u64)
        requires
            old(self).wf(),
            state.roster_frozen() ==> !old(self).accepting,
        ensures
            *final(self) == (Server {
                clients: final(self).clients,
                server_state: state,
                server_state_start: now,
                ..*old(self)
            }),
            overlays_told(
                old(self).clients@,
                final(self).clients@,
                numbered(83, state.spec_id() as nat),
            ),
            same_roster(old(self).clients@, final(self).clients@),
            final(self).wf(),
    {
        self.server_state = state;
        self.server_state_start = now;
        self.tell_overlays(83, state.id() as u64);
        proof {
            Server::wf_same_roster(*old(self), *self);
        }
    }

    /// Queues `payload` for every session but `owner` and those marked for
    /// removal.
    pub fn broadcast(&mut self, payload: &[u8], owner: Option<u8>)
        ensures
            *final(self) == (Server { clients: final(self).clients, ..*old(self) }),
            broadcasted(old(self).clients@, final(self).clients@, payload@, owner),
            same_roster(old(self).clients@, final(self).clients@),
    {
        let mut i: usize = 0;
        while i < self.clients.len()
            invariant
                i <= self.clients@.len(),
                *self == (Server { clients: self.clients, ..*old(self) }),
                self.clients@.len() == old(self).clients@.len(),
                forall|k: int|
                    0 <= k < i ==> if receives(#[trigger] old(self).clients@[k], owner) {
                        Client::queued(old(self).clients@[k], self.clients@[k], payload@)
                    } else {
                        self.clients@[k] == old(self).clients@[k]
                    },
                forall|k: int|
                    i <= k < self.clients@.len() ==> self.clients@[k] == old(self).clients@[k],
            decreases self.clients.len() - i,
        {
            let spared = match owner {
                Some(id) => id == self.clients[i].id,
                None => false,
            };
            let gone = match self.clients[i].state {
                ClientState::Disconnect => true,
                ClientState::Connected => false,
            };
            if !spared && !gone {
                self.clients[i].queue_packet(to_vec(payload));
            }
            i += 1;
        }
    }

    /// Queues `payload` as a datagram for every session whose datagram
    /// address is known, but for `owner` and those marked for removal.
    pub fn broadcast_udp(&mut self, payload: &[u8], owner: Option<u8>)
        ensures
            *final(self) == (Server { clients: final(self).clients, ..*old(self) }),
            broadcasted_udp(old(self).clients@, final(self).clients@, payload@, owner),
            same_roster(old(self).clients@, final(self).clients@),
    {
        let mut i: usize = 0;
        while i < self.clients.len()
            invariant
                i <= self.clients@.len(),
                *self == (Server { clients: self.clients, ..*old(self) }),
                self.clients@.len() == old(self).clients@.len(),
                forall|k: int|
                    0 <= k < i ==> if receives_udp(#[trigger] old(self).clients@[k], owner) {
                        Client::queued_udp(old(self).clients@[k], self.clients@[k], payload@)
                    } else {
                        self.clients@[k] == old(self).clients@[k]
                    },
                forall|k: int|
                    i <= k < self.clients@.len() ==> self.clients@[k] == old(self).clients@[k],
            decreases self.clients.len() - i,
        {
            let spared = match owner {
                Some(id) => id == self.clients[i].id,
                None => false,
            };
            let gone = match self.clients[i].state {
                ClientState::Disconnect => true,
                ClientState::Connected => false,
            };
            if !spared && !gone && self.clients[i].udp_known {
                self.clients[i].queue_datagram(to_vec(payload));
            }
            i += 1;
        }
    }

    /// Where the session with the id stands among the live sessions.
    pub fn find_client(&self, id: u8) -> (r: Option<usize>)
        ensures
            match r {
                Some(at) => at < self.clients@.len() && self.clients@[at as int].id == id
                    && forall|k: int| 0 <= k < at ==> (#[trigger] self.clients@[k]).id != id,
                None => forall|k: int|
                    0 <= k < self.clients@.len() ==> (#[trigger] self.clients@[k]).id != id,
            },
    {
        let mut i: usize = 0;
        while i < self.clients.len()
            invariant
                i <= self.clients@.len(),
                forall|k: int| 0 <= k < i ==> (#[trigger] self.clients@[k]).id != id,
            decreases self.clients.len() - i,
        {
            if self.clients[i].id == id {
                return Some(i);
            }
            i += 1;
        }
        None
    }
}

} // verus!
