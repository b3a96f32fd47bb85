//! Checking at run time that a server is well formed, for callers that have
//! built or changed one by hand.

use vstd::prelude::*;

use crate::client::{cars_distinct, string_bytes, Client};
use crate::server::{
    client_wf, expected, ids_distinct, names_distinct, no_repeats, plain_name, Server,
};
use crate::state::ServerState;
use crate::text::{same_bytes, trim};

verus! {

/// Whether a list of ids names nobody twice.
pub fn has_no_repeats(ids: &Vec<u8>) -> (r: bool)
    ensures
        r == no_repeats(ids@),
{
    let mut i: usize = 0;
    while i < ids.len()
        invariant
            i <= ids@.len(),
            forall|a: int, b: int| 0 <= a < i && a < b < ids@.len() ==> ids@[a] != ids@[b],
        decreases ids.len() - i,
    {
        let mut j: usize = i + 1;
        while j < ids.len()
            invariant
                i < j <= ids@.len(),
                forall|b: int| i < b < j ==> ids@[i as int] != ids@[b],
            decreases ids.len() - j,
        {
            if ids[i] == ids[j] {
                return false;
            }
            j += 1;
        }
        i += 1;
    }
    true
}

/// Whether a list of ids has the id.
pub fn holds(ids: &Vec<u8>, id: u8) -> (r: bool)
    ensures
        r == ids@.contains(id),
{
    let mut i: usize = 0;
    while i < ids.len()
        invariant
            i <= ids@.len(),
            forall|k: int| 0 <= k < i ==> ids@[k] != id,
        decreases ids.len() - i,
    {
        if ids[i] == id {
            return true;
        }
        i += 1;
    }
    false
}

impl Client {
    /// Whether the session is well formed on a track of `checkpoints`
    /// checkpoints.
    pub fn is_well_formed(&self, checkpoints: usize) -> (r: bool)
        ensures
            r == client_wf(*self, checkpoints),
    {
        let mut i: usize = 0;
        while i < self.cars.len()
            invariant
                i <= self.cars@.len(),
                forall|a: int, b: int|
                    0 <= a < i && a < b < self.cars@.len() ==> (#[trigger] self.cars@[a]).0 != (
                    #[trigger] self.cars@[b]).0,
                forall|a: int|
                    0 <= a < i && checkpoints > 0 ==> (#[trigger] self.cars@[a]).1.next_checkpoint
                        < checkpoints,
            decreases self.cars.len() - i,
        {
            if checkpoints > 0 && self.cars[i].1.next_checkpoint >= checkpoints {
                assert(!(self.cars@[i as int].1.next_checkpoint < checkpoints));
                return false;
            }
            let mut j: usize = i + 1;
            while j < self.cars.len()
                invariant
                    i < j <= self.cars@.len(),
                    forall|b: int|
                        i < b < j ==> self.cars@[i as int].0 != (#[trigger] self.cars@[b]).0,
                decreases self.cars.len() - j,
            {
                if self.cars[i].0 == self.cars[j].0 {
                    assert(self.cars@[i as int].0 == self.cars@[j as int].0);
                    return false;
                }
                j += 1;
            }
            i += 1;
        }
        true
    }
}

impl Server {
    /// Whether no two sessions share an id.
    pub fn has_distinct_ids(&self) -> (r: bool)
        ensures
            r == ids_distinct(self.clients@),
    {
        let mut i: usize = 0;
        while i < self.clients.len()
            invariant
                i <= self.clients@.len(),
                forall|a: int, b: int|
                    0 <= a < i && a < b < self.clients@.len() ==> (#[trigger] self.clients@[a]).id
                        != (#[trigger] self.clients@[b]).id,
            decreases self.clients.len() - i,
        {
            let mut j: usize = i + 1;
            while j < self.clients.len()
                invariant
                    i < j <= self.clients@.len(),
                    forall|b: int|
                        i < b < j ==> self.clients@[i as int].id != (#[trigger] self.clients@[b]).id,
                decreases self.clients.len() - j,
            {
                if self.clients[i].id == self.clients[j].id {
                    assert(self.clients@[i as int].id == self.clients@[j as int].id);
                    return false;
                }
                j += 1;
            }
            i += 1;
        }
        true
    }

    /// Whether no two sessions share a user name.
    pub fn has_distinct_names(&self) -> (r: bool)
        ensures
            r == names_distinct(self.clients@),
    {
        let mut i: usize = 0;
        while i < self.clients.len()
            invariant
                i <= self.clients@.len(),
                forall|a: int, b: int|
                    0 <= a < i && a < b < self.clients@.len() ==> plain_name(
                        (#[trigger] self.clients@[a]).info.username,
                    ) != plain_name((#[trigger] self.clients@[b]).info.username),
            decreases self.clients.len() - i,
        {
            let name = trim(string_bytes(&self.clients[i].info.username));
            let mut j: usize = i + 1;
            while j < self.clients.len()
                invariant
                    i < j <= self.clients@.len(),
                    name@ == plain_name(self.clients@[i as int].info.username),
                    forall|b: int|
                        i < b < j ==> plain_name(self.clients@[i as int].info.username)
                            != plain_name((#[trigger] self.clients@[b]).info.username),
                decreases self.clients.len() - j,
            {
                if same_bytes(name, trim(string_bytes(&self.clients[j].info.username))) {
                    assert(plain_name(self.clients@[i as int].info.username) == plain_name(
                        self.clients@[j as int].info.username,
                    ));
                    return false;
                }
                j += 1;
            }
            i += 1;
        }
        true
    }

    /// What holds of every session of a well-formed server: it is well
    /// formed, its name is expected, and it has finished if the finish order
    /// names it.
    pub open spec fn sessions_sound(&self) -> bool {
        forall|i: int|
            0 <= i < self.clients@.len() ==> {
                &&& client_wf(#[trigger] self.clients@[i], self.checkpoints)
                &&& expected(self.config.event.expected_clients, self.clients@[i].info.username)
                &&& !self.clients@[i].finished ==> !self.finish_order@.contains(
                    self.clients@[i].id,
                )
            }
    }

    /// Whether every session is sound.
    pub fn has_sound_sessions(&self) -> (r: bool)
        ensures
            r == self.sessions_sound(),
    {
        let mut i: usize = 0;
        while i < self.clients.len()
            invariant
                i <= self.clients@.len(),
                forall|k: int|
                    0 <= k < i ==> {
                        &&& client_wf(#[trigger] self.clients@[k], self.checkpoints)
                        &&& expected(
                            self.config.event.expected_clients,
                            self.clients@[k].info.username,
                        )
                        &&& !self.clients@[k].finished ==> !self.finish_order@.contains(
                            self.clients@[k].id,
                        )
                    },
            decreases self.clients.len() - i,
        {
            if !self.clients[i].is_well_formed(self.checkpoints) {
                assert(!client_wf(self.clients@[i as int], self.checkpoints));
                return false;
            }
            if !self.is_expected(&self.clients[i].info.username) {
                assert(!expected(
                    self.config.event.expected_clients,
                    self.clients@[i as int].info.username,
                ));
                return false;
            }
            if !self.clients[i].finished && holds(&self.finish_order, self.clients[i].id) {
                assert(self.finish_order@.contains(self.clients@[i as int].id));
                return false;
            }
            i += 1;
        }
        true
    }

    /// Whether the server is well formed.
    pub fn is_well_formed(&self) -> (r: bool)
        ensures
            r == self.wf(),
    {
        let frozen = match self.server_state {
            ServerState::Unknown => false,
            ServerState::WaitingForClients => false,
            ServerState::WaitingForReady => false,
            _ => true,
        };
        if self.accepting && (frozen || self.finish_order.len() > 0) {
            return false;
        }
        self.has_distinct_ids() && self.has_distinct_names() && self.has_sound_sessions()
            && has_no_repeats(&self.finish_order)
    }
}

} // verus!
