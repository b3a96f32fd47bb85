//! Spawn sets: the ordered slots of a pit lane or of one side of the grid.

use vstd::prelude::*;

use crate::math::{Vec3, WireQuat};
use crate::text::{millionths_text, push_millionths};

verus! {

/// One slot: where a car is put and how it is turned.
#[derive(Clone, Copy, Debug, PartialEq, Eq, Structural)]
pub struct Spawn {
    pub pos: Vec3,
    pub rot: WireQuat,
}

/// An ordered list of slots. With `extrapolate` set, the list goes on past its
/// end along the line through its first two slots.
#[derive(Clone, Debug)]
pub struct Spawns {
    pub extrapolate: bool,
    pub spawns: Vec<Spawn>,
}

impl Spawn {
    /// The slot at the origin with all rotation components zero.
    pub open spec fn origin() -> Spawn {
        Spawn { pos: Vec3 { x: 0, y: 0, z: 0 }, rot: WireQuat { x: 0, y: 0, z: 0, w: 0 } }
    }

    /// The slot at parameter `t` on the line through `a` and `b`.
    pub open spec fn lerp_at(a: Spawn, b: Spawn, t: int) -> Spawn {
        Spawn { pos: Vec3::lerp_at(a.pos, b.pos, t), rot: WireQuat::lerp_at(a.rot, b.rot, t) }
    }
}

impl Spawn {
    /// The slot as the data of a respawn event: the position, a `#`, and the
    /// rotation in wire order, the numbers parted by semicolons.
    pub open spec fn text(self) -> Seq<u8> {
        millionths_text(self.pos.x) + seq![59u8] + millionths_text(self.pos.y) + seq![59u8]
            + millionths_text(self.pos.z) + seq![35u8] + millionths_text(self.rot.x) + seq![59u8]
            + millionths_text(self.rot.y) + seq![59u8] + millionths_text(self.rot.z) + seq![59u8]
            + millionths_text(self.rot.w)
    }

    /// Writes the slot as the data of a respawn event.
    pub fn to_event_data(&self) -> (r: Vec<u8>)
        ensures
            r@ == self.text(),
    {
        let mut out: Vec<u8> = Vec::new();
        push_millionths(&mut out, self.pos.x);
        out.push(59);
        push_millionths(&mut out, self.pos.y);
        out.push(59);
        push_millionths(&mut out, self.pos.z);
        out.push(35);
        push_millionths(&mut out, self.rot.x);
        out.push(59);
        push_millionths(&mut out, self.rot.y);
        out.push(59);
        push_millionths(&mut out, self.rot.z);
        out.push(59);
        push_millionths(&mut out, self.rot.w);
        assert(out@ =~= self.text());
        out
    }
}

impl Spawns {
    /// The slot of `grid_id`: the listed one; past the end of an extrapolating
    /// list of two or more, the one at parameter `grid_id` on the line from the
    /// first slot to the second; else the origin.
    pub open spec fn slot(&self, grid_id: u8) -> Spawn {
        if grid_id < self.spawns@.len() {
            self.spawns@[grid_id as int]
        } else if self.extrapolate && self.spawns@.len() > 1 {
            Spawn::lerp_at(self.spawns@[0], self.spawns@[1], grid_id as int)
        } else {
            Spawn::origin()
        }
    }

    /// The slot of `grid_id`.
    pub fn get_client_spawn(&self, grid_id: u8) -> (r: Spawn)
        ensures
            r == self.slot(grid_id),
    {
        if (grid_id as usize) < self.spawns.len() {
            self.spawns[grid_id as usize]
        } else if self.extrapolate && self.spawns.len() > 1 {
            let a = &self.spawns[0];
            let b = &self.spawns[1];
            Spawn { pos: Vec3::lerp(&a.pos, &b.pos, grid_id), rot: WireQuat::lerp(&a.rot, &b.rot, grid_id) }
        } else {
            Spawn { pos: Vec3::zero(), rot: WireQuat::zero() }
        }
    }
}

} // verus!
