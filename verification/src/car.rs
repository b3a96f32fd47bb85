//! The car model: last reported transform, lap timing and checkpoint
//! progress.

use vstd::prelude::*;

use crate::math::{advance, moved, Quat, Vec3, WireQuat, UNIT};

verus! {

/// A car that crosses the line at more than this angle between its velocity
/// and the track, in millionths of a degree, is going backward.
pub const BACKWARD_ABOVE: i64 = 135000000;

/// What a position packet reports of one car.
#[derive(Clone, Copy, Debug, PartialEq, Eq, Structural)]
pub struct Transform {
    pub pos: Vec3,
    pub rot: WireQuat,
    pub vel: Vec3,
    pub rvel: Vec3,
    pub tim: i64,
    pub ping: i64,
}

/// One car of one client.
#[derive(Clone, Debug)]
pub struct Car {
    /// The vehicle configuration, an opaque blob.
    pub car_json: Vec<u8>,
    pub pos: Vec3,
    pub rot: Quat,
    pub vel: Vec3,
    pub rvel: Vec3,
    pub tim: i64,
    pub ping: i64,
    /// When the transform was last reported.
    pub last_pos_update: Option<u64>,
    /// Since when the car has been outside the track limits.
    pub offtrack_start: Option<u64>,
    pub in_pits: bool,
    /// Whether the car was inside its next checkpoint when last looked at.
    pub intersects_cp: bool,
    pub hitbox_half: Vec3,
    pub latest_angle_to_track: i64,
    pub latest_vel_angle_to_track: i64,
    pub laps: usize,
    pub laps_ui_dirty: bool,
    pub lap_start: Option<u64>,
    /// The durations of the completed laps, oldest first.
    pub lap_times: Vec<u64>,
    pub next_checkpoint: usize,
    pub active_checkpoint: usize,
    /// How far along the track the car was when last looked at.
    pub last_progress: i64,
}

/// The time from `start` to `now`; nothing where `now` is the earlier.
pub open spec fn elapsed(now: u64, start: u64) -> u64 {
    if now >= start {
        (now - start) as u64
    } else {
        0
    }
}

/// The time from `start` to `now`.
pub fn since(now: u64, start: u64) -> (r: u64)
    ensures
        r == elapsed(now, start),
{
    if now >= start {
        now - start
    } else {
        0
    }
}

/// One more than `n`, as far as the machine counts.
pub open spec fn one_more(n: usize) -> usize {
    if n < usize::MAX {
        (n + 1) as usize
    } else {
        n
    }
}

/// One less than `n`, not below zero.
pub open spec fn one_less(n: usize) -> usize {
    if n > 0 {
        (n - 1) as usize
    } else {
        n
    }
}

/// The smallest of a list of durations; the largest number where the list is
/// empty.
pub open spec fn shortest(times: Seq<u64>) -> u64
    decreases times.len(),
{
    if times.len() == 0 {
        u64::MAX
    } else {
        let rest = shortest(times.drop_last());
        if times.last() < rest {
            times.last()
        } else {
            rest
        }
    }
}

/// `shortest` bounds every entry from below and, on a list with entries, is
/// one of them.
pub proof fn shortest_is_minimum(times: Seq<u64>)
    ensures
        forall|i: int| 0 <= i < times.len() ==> shortest(times) <= times[i],
        times.len() > 0 ==> exists|i: int| 0 <= i < times.len() && times[i] == shortest(times),
    decreases times.len(),
{
    if times.len() > 0 {
        let front = times.drop_last();
        shortest_is_minimum(front);
        assert forall|i: int| 0 <= i < times.len() implies shortest(times) <= times[i] by {
            if i < front.len() {
                assert(front[i] == times[i]);
            }
        }
        if times.last() < shortest(front) || front.len() == 0 {
            assert(times[times.len() - 1] == shortest(times));
        } else {
            let i = choose|i: int| 0 <= i < front.len() && front[i] == shortest(front);
            assert(times[i] == shortest(times));
        }
    }
}

impl Car {
    /// A car as it is registered: at rest at the origin, no lap begun, the
    /// first checkpoint ahead, a hitbox of one unit each way.
    pub open spec fn fresh(car: Car, car_json: Seq<u8>) -> bool {
        &&& car.car_json@ == car_json
        &&& car.pos == (Vec3 { x: 0, y: 0, z: 0 })
        &&& car.rot == (Quat { w: 0, x: 0, y: 0, z: 0 })
        &&& car.vel == (Vec3 { x: 0, y: 0, z: 0 })
        &&& car.rvel == (Vec3 { x: 0, y: 0, z: 0 })
        &&& car.tim == 0
        &&& car.ping == 0
        &&& car.last_pos_update is None
        &&& car.offtrack_start is None
        &&& !car.in_pits
        &&& !car.intersects_cp
        &&& car.hitbox_half == (Vec3 { x: UNIT, y: UNIT, z: UNIT })
        &&& car.latest_angle_to_track == 0
        &&& car.latest_vel_angle_to_track == 0
        &&& car.laps == 0
        &&& car.laps_ui_dirty
        &&& car.lap_start is None
        &&& car.lap_times@ == Seq::<u64>::empty()
        &&& car.next_checkpoint == 0
        &&& car.active_checkpoint == 0
        &&& car.last_progress == 0
    }

    /// Registers a car with its configuration blob.
    pub fn new(car_json: Vec<u8>) -> (car: Car)
        ensures
            Car::fresh(car, car_json@),
    {
        Car {
            car_json,
            pos: Vec3::zero(),
            rot: Quat { w: 0, x: 0, y: 0, z: 0 },
            vel: Vec3::zero(),
            rvel: Vec3::zero(),
            tim: 0,
            ping: 0,
            last_pos_update: None,
            offtrack_start: None,
            in_pits: false,
            intersects_cp: false,
            hitbox_half: Vec3 { x: UNIT, y: UNIT, z: UNIT },
            latest_angle_to_track: 0,
            latest_vel_angle_to_track: 0,
            laps: 0,
            laps_ui_dirty: true,
            lap_start: None,
            lap_times: Vec::new(),
            next_checkpoint: 0,
            active_checkpoint: 0,
            last_progress: 0,
        }
    }

    /// `after` is `before` with one more lap time at the end, and nothing
    /// else changed.
    pub open spec fn with_lap_time(before: Car, after: Car, duration: u64) -> bool {
        &&& after == Car { lap_times: after.lap_times, ..before }
        &&& after.lap_times@ == before.lap_times@.push(duration)
    }

    /// Records the duration of a completed lap.
    pub fn add_lap_time(&mut self, duration: u64)
        ensures
            Car::with_lap_time(*old(self), *final(self), duration),
    {
        self.lap_times.push(duration);
    }

    /// Where the car is at `now` if it has kept its last reported velocity:
    /// the last reported position where no report has come yet.
    pub open spec fn position_at(&self, now: u64) -> Vec3 {
        match self.last_pos_update {
            Some(at) => Vec3 {
                x: moved(self.pos.x, self.vel.x, elapsed(now, at)),
                y: moved(self.pos.y, self.vel.y, elapsed(now, at)),
                z: moved(self.pos.z, self.vel.z, elapsed(now, at)),
            },
            None => self.pos,
        }
    }

    /// The car's position at `now` by dead reckoning.
    pub fn pos(&self, now: u64) -> (r: Vec3)
        ensures
            r == self.position_at(now),
    {
        match self.last_pos_update {
            Some(at) => {
                let ms = since(now, at);
                Vec3 {
                    x: advance(self.pos.x, self.vel.x, ms),
                    y: advance(self.pos.y, self.vel.y, ms),
                    z: advance(self.pos.z, self.vel.z, ms),
                }
            },
            None => self.pos,
        }
    }

    /// `before` with the transform that a position packet reported at `now`.
    pub open spec fn moved_to(before: Car, report: Transform, now: u64) -> Car {
        Car {
            pos: report.pos,
            rot: Quat::of_wire(report.rot),
            vel: report.vel,
            rvel: report.rvel,
            tim: report.tim,
            ping: report.ping,
            last_pos_update: Some(now),
            ..before
        }
    }

    /// Takes over the transform of a position packet.
    pub fn set_transform(&mut self, report: &Transform, now: u64)
        ensures
            *final(self) == Car::moved_to(*old(self), *report, now),
    {
        self.pos = report.pos;
        self.rot = Quat::from_wire(&report.rot);
        self.vel = report.vel;
        self.rvel = report.rvel;
        self.tim = report.tim;
        self.ping = report.ping;
        self.last_pos_update = Some(now);
    }

    /// The car's fastest completed lap; the largest number where it has
    /// completed none.
    pub fn fastest_lap(&self) -> (r: u64)
        ensures
            r == shortest(self.lap_times@),
    {
        let mut best: u64 = u64::MAX;
        let mut i: usize = 0;
        assert(self.lap_times@.take(0) =~= Seq::<u64>::empty());
        while i < self.lap_times.len()
            invariant
                i <= self.lap_times.len(),
                best == shortest(self.lap_times@.take(i as int)),
            decreases self.lap_times.len() - i,
        {
            assert(self.lap_times@.take(i + 1).drop_last() =~= self.lap_times@.take(i as int));
            if self.lap_times[i] < best {
                best = self.lap_times[i];
            }
            i += 1;
        }
        assert(self.lap_times@.take(i as int) =~= self.lap_times@);
        best
    }

    /// What one look at the track limits makes of a car. On the track, the
    /// off-track clock is cleared. Off the track and outside the pit lane, the
    /// clock starts at `now` unless it runs already. In the pit lane nothing
    /// changes.
    pub open spec fn limits_seen(before: Car, on_track: bool, in_pit: bool, now: u64) -> Car {
        if on_track {
            Car { offtrack_start: None, ..before }
        } else if !in_pit && before.offtrack_start is None {
            Car { offtrack_start: Some(now), ..before }
        } else {
            before
        }
    }

    /// The off-track spell that ends with this look at the track limits: its
    /// duration where the car is back on the track with the clock running.
    pub open spec fn incident_ended(before: Car, on_track: bool, now: u64) -> Option<u64> {
        if on_track && before.offtrack_start is Some {
            Some(elapsed(now, before.offtrack_start.unwrap()))
        } else {
            None
        }
    }

    /// Applies one look at the track limits and returns the duration of the
    /// off-track spell that it ends, if it ends one.
    pub fn check_limits(&mut self, on_track: bool, in_pit: bool, now: u64) -> (r: Option<u64>)
        ensures
            *final(self) == Car::limits_seen(*old(self), on_track, in_pit, now),
            r == Car::incident_ended(*old(self), on_track, now),
    {
        if on_track {
            let r = match self.offtrack_start {
                Some(start) => Some(since(now, start)),
                None => None,
            };
            self.offtrack_start = None;
            r
        } else {
            if !in_pit && self.offtrack_start.is_none() {
                self.offtrack_start = Some(now);
            }
            None
        }
    }

    /// Whether the car's velocity points against the track.
    pub open spec fn going_backward(&self) -> bool {
        self.latest_vel_angle_to_track > BACKWARD_ABOVE
    }

    /// The checkpoint after `index` on a track of `checkpoints`.
    pub open spec fn following(index: usize, checkpoints: usize) -> usize {
        if index + 1 >= checkpoints {
            0
        } else {
            (index + 1) as usize
        }
    }

    /// What one look at the car's next checkpoint makes of it, on a track of
    /// `checkpoints` checkpoints. A car whose next checkpoint the track does
    /// not have is left alone. Otherwise the car remembers whether it is
    /// inside, and on entering:
    /// at the start/finish line, going backward, it loses a lap and its lap
    /// clock; going forward, it records the lap that its clock timed, gains a
    /// lap, restarts the clock and heads for the checkpoint after the line;
    /// at any other checkpoint it heads for the one after it.
    pub open spec fn checkpoint_seen(
        before: Car,
        after: Car,
        inside: bool,
        checkpoints: usize,
        now: u64,
    ) -> bool {
        if before.next_checkpoint >= checkpoints {
            after == before
        } else if !inside || before.intersects_cp {
            after == Car { intersects_cp: inside, ..before }
        } else if before.next_checkpoint != 0 {
            after == Car {
                intersects_cp: true,
                active_checkpoint: before.next_checkpoint,
                next_checkpoint: Car::following(before.next_checkpoint, checkpoints),
                ..before
            }
        } else if before.going_backward() {
            after == Car {
                intersects_cp: true,
                active_checkpoint: (checkpoints - 1) as usize,
                laps: one_less(before.laps),
                lap_start: None,
                ..before
            }
        } else {
            &&& after == Car {
                intersects_cp: true,
                active_checkpoint: (checkpoints - 1) as usize,
                laps: one_more(before.laps),
                laps_ui_dirty: true,
                lap_start: Some(now),
                next_checkpoint: Car::following(0, checkpoints),
                lap_times: after.lap_times,
                ..before
            }
            &&& after.lap_times@ == match before.lap_start {
                Some(start) => before.lap_times@.push(elapsed(now, start)),
                None => before.lap_times@,
            }
        }
    }

    /// Applies one look at the car's next checkpoint.
    pub fn check_checkpoint(&mut self, inside: bool, checkpoints: usize, now: u64)
        ensures
            Car::checkpoint_seen(*old(self), *final(self), inside, checkpoints, now),
            old(self).next_checkpoint < checkpoints ==> final(self).next_checkpoint < checkpoints,
            final(self).next_checkpoint >= checkpoints ==> final(self).next_checkpoint
                == old(self).next_checkpoint,
    {
        if self.next_checkpoint >= checkpoints {
            return ;
        }
        if !inside || self.intersects_cp {
            self.intersects_cp = inside;
            return ;
        }
        self.intersects_cp = true;
        if self.next_checkpoint != 0 {
            self.active_checkpoint = self.next_checkpoint;
            self.next_checkpoint =
            if self.next_checkpoint + 1 >= checkpoints {
                0
            } else {
                self.next_checkpoint + 1
            };
        } else {
            self.active_checkpoint = checkpoints - 1;
            if self.latest_vel_angle_to_track > BACKWARD_ABOVE {
                if self.laps > 0 {
                    self.laps = self.laps - 1;
                }
                self.lap_start = None;
            } else {
                match self.lap_start {
                    Some(start) => {
                        self.lap_times.push(since(now, start));
                    },
                    None => {},
                }
                if self.laps < usize::MAX {
                    self.laps = self.laps + 1;
                }
                self.laps_ui_dirty = true;
                self.lap_start = Some(now);
                self.next_checkpoint = if 1 >= checkpoints {
                    0
                } else {
                    1
                };
            }
        }
    }

    /// The checkpoint whose path the car's progress is measured on: the one
    /// before the checkpoint that the car heads for, which for the
    /// start/finish line is the last of the track. `None` where the track
    /// has no such checkpoint.
    pub open spec fn measured_on(&self, checkpoints: usize) -> Option<usize> {
        if self.next_checkpoint == 0 {
            if checkpoints > 0 {
                Some((checkpoints - 1) as usize)
            } else {
                None
            }
        } else if self.next_checkpoint - 1 < checkpoints {
            Some((self.next_checkpoint - 1) as usize)
        } else {
            None
        }
    }

    /// The checkpoint whose path the car's progress is measured on.
    pub fn progress_checkpoint(&self, checkpoints: usize) -> (r: Option<usize>)
        ensures
            r == self.measured_on(checkpoints),
    {
        if self.next_checkpoint == 0 {
            if checkpoints > 0 {
                Some(checkpoints - 1)
            } else {
                None
            }
        } else if self.next_checkpoint - 1 < checkpoints {
            Some(self.next_checkpoint - 1)
        } else {
            None
        }
    }

    /// A car as it leaves qualifying: no laps, no lap times, the first
    /// checkpoint ahead, both clocks cleared.
    pub open spec fn cleared(before: Car, after: Car) -> bool {
        &&& after == Car {
            laps: 0,
            next_checkpoint: 0,
            lap_start: None,
            offtrack_start: None,
            lap_times: after.lap_times,
            ..before
        }
        &&& after.lap_times@ == Seq::<u64>::empty()
    }

    /// Clears what qualifying left on the car.
    pub fn clear_laps(&mut self)
        ensures
            Car::cleared(*old(self), *final(self)),
    {
        self.laps = 0;
        self.lap_times = Vec::new();
        self.next_checkpoint = 0;
        self.lap_start = None;
        self.offtrack_start = None;
    }

    /// A car sent back to the pit lane: the first checkpoint ahead again, and
    /// in qualifying both clocks cleared.
    pub open spec fn sent_to_pits(before: Car, qualifying: bool) -> Car {
        if qualifying {
            Car { next_checkpoint: 0, lap_start: None, offtrack_start: None, ..before }
        } else {
            Car { next_checkpoint: 0, ..before }
        }
    }

    /// Notes that the car respawns in the pit lane.
    pub fn respawn_in_pits(&mut self, qualifying: bool)
        ensures
            *final(self) == Car::sent_to_pits(*old(self), qualifying),
    {
        self.next_checkpoint = 0;
        if qualifying {
            self.lap_start = None;
            self.offtrack_start = None;
        }
    }
}

} // verus!
