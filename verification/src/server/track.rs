//! Holding the cars to the track: what the map geometry says of the cars of
//! one session is turned into off-track clocks, incidents, laps and
//! checkpoint progress.

use vstd::prelude::*;

use crate::car::Car;
use crate::client::{cars_distinct, Client};
use crate::math::Vec3;

use crate::server::{client_wf, ids_distinct, names_distinct, plain_name, expected, Server};

verus! {

/// What the map geometry says of one car at one moment.
#[derive(Clone, Copy, Debug, PartialEq, Eq, Structural)]
pub struct Sighting {
    /// Whether the car's footprint touches the track; `None` where the map
    /// has no track limits.
    pub on_track: Option<bool>,
    /// Whether the car's footprint touches the pit lane.
    pub in_pit: bool,
    /// Whether the car's footprint touches the checkpoint that the car heads
    /// for.
    pub at_checkpoint: bool,
    /// How far along the track the car is; `None` where the map has no path
    /// to measure it on.
    pub progress: Option<i64>,
}

/// A car after the track limits and the progress of a sighting were applied
/// to it, before its checkpoint is looked at.
pub open spec fn placed(before: Car, sighting: Sighting, now: u64) -> Car {
    let held = match sighting.on_track {
        Some(on_track) => Car::limits_seen(before, on_track, sighting.in_pit, now),
        None => before,
    };
    match sighting.progress {
        Some(progress) => Car { last_progress: progress, ..held },
        None => held,
    }
}

/// What a sighting makes of a car: the track limits are applied, then the
/// progress is noted, then the checkpoint is looked at.
pub open spec fn car_seen(
    before: Car,
    after: Car,
    sighting: Sighting,
    checkpoints: usize,
    now: u64,
) -> bool {
    Car::checkpoint_seen(placed(before, sighting, now), after, sighting.at_checkpoint, checkpoints, now)
}

/// Whether the sighting ends an off-track spell of the car.
pub open spec fn ends_incident(car: Car, sighting: Sighting) -> bool {
    sighting.on_track == Some(true) && car.offtrack_start is Some
}

/// How many of the first `n` cars end an off-track spell with their
/// sighting.
pub open spec fn incidents_ended(cars: Seq<(u8, Car)>, sightings: Seq<Sighting>, n: int) -> nat
    decreases n,
{
    if n <= 0 {
        0
    } else {
        incidents_ended(cars, sightings, n - 1) + if ends_incident(cars[n - 1].1, sightings[n - 1]) {
            1nat
        } else {
            0nat
        }
    }
}

/// `a + b`, as far as the machine counts.
pub open spec fn capped_sum(a: usize, b: nat) -> usize {
    if a + b > usize::MAX {
        usize::MAX
    } else {
        (a + b) as usize
    }
}

/// How many cars have a sighting: the sightings are matched to the cars in
/// order, and what is left over on either side is ignored.
pub open spec fn sighted(cars: Seq<(u8, Car)>, sightings: Seq<Sighting>) -> int {
    if cars.len() < sightings.len() {
        cars.len() as int
    } else {
        sightings.len() as int
    }
}

/// What a look at the track makes of a session: each car that has a sighting
/// is changed by it, and each off-track spell that ends counts as an
/// incident.
pub open spec fn observed(
    before: Client,
    after: Client,
    sightings: Seq<Sighting>,
    checkpoints: usize,
    now: u64,
) -> bool {
    let n = sighted(before.cars@, sightings);
    &&& after == Client { cars: after.cars, incidents: after.incidents, ..before }
    &&& after.incidents == capped_sum(before.incidents, incidents_ended(before.cars@, sightings, n))
    &&& after.cars@.len() == before.cars@.len()
    &&& forall|j: int|
        0 <= j < before.cars@.len() ==> {
            &&& (#[trigger] after.cars@[j]).0 == before.cars@[j].0
            &&& if j < n {
                car_seen(before.cars@[j].1, after.cars@[j].1, sightings[j], checkpoints, now)
            } else {
                after.cars@[j].1 == before.cars@[j].1
            }
        }
}

impl Car {
    /// Applies a sighting to the car and tells whether it ended an off-track
    /// spell.
    pub fn observe(&mut self, sighting: &Sighting, checkpoints: usize, now: u64) -> (ended: bool)
        ensures
            car_seen(*old(self), *final(self), *sighting, checkpoints, now),
            ended == ends_incident(*old(self), *sighting),
            old(self).next_checkpoint < checkpoints ==> final(self).next_checkpoint < checkpoints,
    {
        let ended = match sighting.on_track {
            Some(on_track) => self.check_limits(on_track, sighting.in_pit, now).is_some(),
            None => false,
        };
        match sighting.progress {
            Some(progress) => {
                self.last_progress = progress;
            },
            None => {},
        }
        self.check_checkpoint(sighting.at_checkpoint, checkpoints, now);
        ended
    }
}

impl Client {
    /// Applies one look at the track to the session's cars.
    #[verifier::rlimit(50)]
    pub fn observe(&mut self, sightings: &Vec<Sighting>, checkpoints: usize, now: u64)
        ensures
            observed(*old(self), *final(self), sightings@, checkpoints, now),
            client_wf(*old(self), checkpoints) ==> client_wf(*final(self), checkpoints),
    {
        let n = if self.cars.len() < sightings.len() {
            self.cars.len()
        } else {
            sightings.len()
        };
        let mut j: usize = 0;
        while j < n
            invariant
                j <= n,
                n == sighted(old(self).cars@, sightings@),
                *self == (Client { cars: self.cars, incidents: self.incidents, ..*old(self) }),
                self.incidents == capped_sum(
                    old(self).incidents,
                    incidents_ended(old(self).cars@, sightings@, j as int),
                ),
                self.cars@.len() == old(self).cars@.len(),
                forall|k: int|
                    0 <= k < self.cars@.len() ==> {
                        &&& (#[trigger] self.cars@[k]).0 == old(self).cars@[k].0
                        &&& if k < j {
                            car_seen(
                                old(self).cars@[k].1,
                                self.cars@[k].1,
                                sightings@[k],
                                checkpoints,
                                now,
                            )
                        } else {
                            self.cars@[k].1 == old(self).cars@[k].1
                        }
                    },
                forall|k: int|
                    0 <= k < self.cars@.len() && old(self).cars@[k].1.next_checkpoint < checkpoints
                        ==> (#[trigger] self.cars@[k]).1.next_checkpoint < checkpoints,
            decreases n - j,
        {
            let ended = self.cars[j].1.observe(&sightings[j], checkpoints, now);
            if ended && self.incidents < usize::MAX {
                self.incidents = self.incidents + 1;
            }
            j += 1;
        }
        proof {
            if client_wf(*old(self), checkpoints) {
                assert(cars_distinct(self.cars@)) by {
                    assert forall|a: int, b: int| 0 <= a < b < self.cars@.len() implies (
                    #[trigger] self.cars@[a]).0 != (#[trigger] self.cars@[b]).0 by {
                        assert(old(self).cars@[a].0 != old(self).cars@[b].0);
                    }
                }
                assert forall|k: int|
                    0 <= k < self.cars@.len() && checkpoints > 0 implies (
                #[trigger] self.cars@[k]).1.next_checkpoint < checkpoints by {
                    assert(old(self).cars@[k].1.next_checkpoint < checkpoints);
                }
            }
        }
    }
}

/// The place after `cursor` in the round of the sessions: one more, and zero
/// after the last place that the machine counts.
pub open spec fn next_cursor(cursor: u8) -> u8 {
    if cursor == 255 {
        0
    } else {
        (cursor + 1) as u8
    }
}

/// What one look at the track does: in qualifying and in the race, the
/// session whose turn it is has its cars changed by their sightings; in any
/// case the turn passes on.
pub open spec fn looked(before: Server, after: Server, sightings: Seq<Sighting>, now: u64) -> bool {
    &&& after == Server {
        clients: after.clients,
        track_limits_client: next_cursor(before.track_limits_client),
        ..before
    }
    &&& after.clients@.len() == before.clients@.len()
    &&& forall|i: int|
        0 <= i < before.clients@.len() ==> if before.looks_at_track() && i
            == before.track_limits_client {
            observed(
                before.clients@[i],
                #[trigger] after.clients@[i],
                sightings,
                before.checkpoints,
                now,
            )
        } else {
            after.clients@[i] == before.clients@[i]
        }
}

impl Server {
    /// Whether a look at the track applies in this tick: cars are held to the
    /// track in qualifying and in the race, and the session whose turn it is
    /// must exist.
    pub open spec fn looks_at_track(&self) -> bool {
        self.server_state.on_track() && self.track_limits_client < self.clients@.len()
    }

    /// Applies one look at the track to the session whose turn it is, and
    /// passes the turn on. `sightings` holds one sighting for each car of that
    /// session, in the order of its cars.
    #[verifier::rlimit(50)]
    pub fn observe(&mut self, sightings: &Vec<Sighting>, now: u64)
        requires
            old(self).wf(),
        ensures
            final(self).wf(),
            looked(*old(self), *final(self), sightings@, now),
    {
        let at = self.track_limits_client as usize;
        if self.server_state.is_on_track() && at < self.clients.len() {
            self.clients[at].observe(sightings, self.checkpoints, now);
            proof {
                let before = old(self).clients@;
                let after = self.clients@;
                assert forall|i: int| 0 <= i < after.len() implies client_wf(
                    #[trigger] after[i],
                    self.checkpoints,
                ) by {
                    assert(client_wf(before[i], self.checkpoints));
                }
                assert forall|i: int| 0 <= i < after.len() implies expected(
                    self.config.event.expected_clients,
                    (#[trigger] after[i]).info.username,
                ) by {
                    assert(after[i].info == before[i].info);
                }
                assert forall|i: int|
                    0 <= i < after.len() && !(#[trigger] after[i]).finished
                        implies !self.finish_order@.contains(after[i].id) by {
                    assert(!before[i].finished);
                }
                assert(ids_distinct(after)) by {
                    assert forall|i: int, j: int| 0 <= i < j < after.len() implies (
                    #[trigger] after[i]).id != (#[trigger] after[j]).id by {
                        assert(before[i].id != before[j].id);
                    }
                }
                assert(names_distinct(after)) by {
                    assert forall|i: int, j: int| 0 <= i < j < after.len() implies plain_name(
                        (#[trigger] after[i]).info.username,
                    ) != plain_name((#[trigger] after[j]).info.username) by {
                        assert(plain_name(before[i].info.username) != plain_name(
                            before[j].info.username,
                        ));
                    }
                }
            }
        }
        self.track_limits_client = if self.track_limits_client == 255 {
            0
        } else {
            self.track_limits_client + 1
        };
    }

    /// Whether the physics probe is to run in this tick: the server must be
    /// set to probe, and cars are probed in qualifying and in the race.
    pub open spec fn probes(&self) -> bool {
        self.config.game.server_physics && self.server_state.on_track()
    }

    /// Whether the physics probe is to run in this tick.
    pub fn wants_physics(&self) -> (r: bool)
        ensures
            r == self.probes(),
    {
        self.config.game.server_physics && self.server_state.is_on_track()
    }

    /// Takes note of a contact that the physics probe has found for the
    /// session with the id. A contact of a session that is not live is
    /// dropped.
    #[verifier::rlimit(50)]
    pub fn contact(&mut self, id: u8, vel: &Vec3, angvel: &Vec3, now: u64)
        requires
            old(self).wf(),
        ensures
            final(self).wf(),
            *final(self) == (Server { clients: final(self).clients, ..*old(self) }),
            final(self).clients@.len() == old(self).clients@.len(),
            forall|i: int|
                0 <= i < old(self).clients@.len() ==> if (#[trigger] old(self).clients@[i]).id
                    == id {
                    Client::advised(
                        old(self).clients@[i],
                        final(self).clients@[i],
                        *vel,
                        *angvel,
                        now,
                    )
                } else {
                    final(self).clients@[i] == old(self).clients@[i]
                },
    {
        let found = self.find_client(id);
        match found {
            Some(at) => {
                self.clients[at].physics_advisory(vel, angvel, now);
                proof {
                    let before = old(self).clients@;
                    assert forall|i: int| 0 <= i < before.len() && i != at implies before[i].id
                        != id by {
                        if i < at {
                            assert(before[i].id != before[at as int].id);
                        } else {
                            assert(before[at as int].id != before[i].id);
                        }
                    }
                    Server::wf_same_roster(*old(self), *self);
                }
            },
            None => {},
        }
    }
}

} // verus!
