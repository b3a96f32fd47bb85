//! Who is on the server: admitting sessions, seating overlays, and dropping
//! the sessions that are marked for removal.

use vstd::prelude::*;

use crate::car::Car;
use crate::client::{string_bytes, Client, ClientState, UserData};
use crate::error::AuthenticationError;
use crate::overlay::Overlay;
use crate::server::{
    client_wf, expected, ids_distinct, names_distinct, plain_name, Server,
};
use crate::text::{ascii, decimal, push_decimal, push_str, same_bytes, to_vec, trim, views};

verus! {

/// Whether a session of the list has the user name.
pub open spec fn name_taken(clients: Seq<Client>, name: String) -> bool {
    exists|i: int|
        0 <= i < clients.len() && plain_name((#[trigger] clients[i]).info.username) == plain_name(
            name,
        )
}

/// Whether no session of the list has the id.
pub open spec fn id_unused(clients: Seq<Client>, id: u8) -> bool {
    forall|i: int| 0 <= i < clients.len() ==> (#[trigger] clients[i]).id != id
}

/// Whether `id` is the id of the next session: the smallest that no session
/// has.
pub open spec fn is_next_session_id(clients: Seq<Client>, id: u8) -> bool {
    id_unused(clients, id) && forall|k: u8| k < id ==> !id_unused(clients, k)
}

/// The packet that tells of a car's removal: `Od:<client>-<car>`.
pub open spec fn despawn_packet(client_id: u8, car_id: u8) -> Seq<u8> {
    ascii("Od:") + decimal(client_id as nat) + seq![45u8] + decimal(car_id as nat)
}

/// The removal packets of the cars of one session, in the order of its cars.
pub open spec fn car_notices(client_id: u8, cars: Seq<(u8, Car)>) -> Seq<Seq<u8>> {
    Seq::new(cars.len(), |j: int| despawn_packet(client_id, cars[j].0))
}

/// The removal packets of the cars of all sessions that are marked for
/// removal, session by session.
pub open spec fn leaving_notices(clients: Seq<Client>) -> Seq<Seq<u8>>
    decreases clients.len(),
{
    if clients.len() == 0 {
        Seq::empty()
    } else {
        leaving_notices(clients.drop_last()) + (if clients.last().state
            == ClientState::Disconnect {
            car_notices(clients.last().id, clients.last().cars@)
        } else {
            Seq::empty()
        })
    }
}

/// The sessions that are not marked for removal, in order.
pub open spec fn staying(clients: Seq<Client>) -> Seq<Client>
    decreases clients.len(),
{
    if clients.len() == 0 {
        clients
    } else if clients.last().state == ClientState::Disconnect {
        staying(clients.drop_last())
    } else {
        staying(clients.drop_last()).push(clients.last())
    }
}

/// The sessions that are marked for removal, in order.
pub open spec fn leaving(clients: Seq<Client>) -> Seq<Client>
    decreases clients.len(),
{
    if clients.len() == 0 {
        clients
    } else if clients.last().state == ClientState::Disconnect {
        leaving(clients.drop_last()).push(clients.last())
    } else {
        leaving(clients.drop_last())
    }
}

/// Every session that stays was there before, and the order is kept: the
/// `k`-th staying session stands at a place of its own in the list, after the
/// places of those before it.
pub proof fn staying_is_a_selection(clients: Seq<Client>) -> (places: Seq<int>)
    ensures
        places.len() == staying(clients).len(),
        forall|k: int|
            0 <= k < places.len() ==> 0 <= #[trigger] places[k] < clients.len() && clients[places[k]]
                == staying(clients)[k] && clients[places[k]].state != ClientState::Disconnect,
        forall|k: int, m: int| 0 <= k < m < places.len() ==> places[k] < places[m],
    decreases clients.len(),
{
    if clients.len() == 0 {
        Seq::empty()
    } else {
        let front = staying_is_a_selection(clients.drop_last());
        if clients.last().state == ClientState::Disconnect {
            front
        } else {
            front.push(clients.len() - 1)
        }
    }
}

/// Whether an overlay that announced `name` can be seated at the session: the
/// name is the session's, and the session has no overlay yet.
pub open spec fn seat(c: Client, name: Seq<u8>) -> bool {
    c.overlay is None && c.name() == name
}

/// The first session at which an overlay that announced `name` can be
/// seated.
pub open spec fn seat_for(clients: Seq<Client>, name: Seq<u8>) -> Option<int>
    decreases clients.len(),
{
    if clients.len() == 0 {
        None
    } else if seat(clients[0], name) {
        Some(0)
    } else {
        match seat_for(clients.skip(1), name) {
            Some(i) => Some(i + 1),
            None => None,
        }
    }
}

/// `seat_for` finds the first place that offers a seat, and finds none only
/// where there is none.
pub proof fn seat_for_is_first(clients: Seq<Client>, name: Seq<u8>)
    ensures
        match seat_for(clients, name) {
            Some(at) => 0 <= at < clients.len() && seat(clients[at], name) && forall|k: int|
                0 <= k < at ==> !seat(#[trigger] clients[k], name),
            None => forall|k: int| 0 <= k < clients.len() ==> !seat(#[trigger] clients[k], name),
        },
    decreases clients.len(),
{
    if clients.len() > 0 && !seat(clients[0], name) {
        let rest = clients.skip(1);
        seat_for_is_first(rest, name);
        match seat_for(rest, name) {
            Some(at) => {
                assert forall|k: int| 0 <= k < at + 1 implies !seat(
                    #[trigger] clients[k],
                    name,
                ) by {
                    if k > 0 {
                        assert(rest[k - 1] == clients[k]);
                    }
                }
                assert(rest[at] == clients[at + 1]);
            },
            None => {
                assert forall|k: int| 0 <= k < clients.len() implies !seat(
                    #[trigger] clients[k],
                    name,
                ) by {
                    if k > 0 {
                        assert(rest[k - 1] == clients[k]);
                    }
                }
            },
        }
    }
}

/// The sessions and the waiting overlays after every waiting overlay, in
/// turn, was offered a seat. An overlay is seated at the first session that
/// has its name and no overlay yet; one that finds no seat goes on waiting.
pub open spec fn seated(
    clients: Seq<Client>,
    waiting: Seq<(Vec<u8>, Overlay)>,
) -> (Seq<Client>, Seq<(Vec<u8>, Overlay)>)
    decreases waiting.len(),
{
    if waiting.len() == 0 {
        (clients, waiting)
    } else {
        match seat_for(clients, waiting[0].0@) {
            Some(at) => seated(
                clients.update(at, Client { overlay: Some(waiting[0].1), ..clients[at] }),
                waiting.skip(1),
            ),
            None => {
                let rest = seated(clients, waiting.skip(1));
                (rest.0, seq![waiting[0]] + rest.1)
            },
        }
    }
}

/// Why a session that announces the user name is not admitted, if it is
/// not: the roster is closed; or the name is not expected or a live session
/// has it; or no id is left.
pub open spec fn refusal(s: Server, name: String) -> Option<AuthenticationError> {
    if !s.accepting {
        Some(AuthenticationError::Closed)
    } else if !expected(s.config.event.expected_clients, name) || name_taken(s.clients@, name) {
        Some(AuthenticationError::NotWhitelisted)
    } else if forall|k: u8| !id_unused(s.clients@, k) {
        Some(AuthenticationError::Full)
    } else {
        None
    }
}

/// What a sweep makes of the sessions: those marked for removal are gone,
/// and each of the others has been sent the removal packets of the cars that
/// went with them.
pub open spec fn swept(before: Seq<Client>, after: Seq<Client>) -> bool {
    let kept = staying(before);
    let notices = leaving_notices(before);
    &&& after.len() == kept.len()
    &&& forall|i: int|
        0 <= i < kept.len() ==> {
            &&& #[trigger] after[i] == Client { queue: after[i].queue, ..kept[i] }
            &&& views(after[i].queue@) == views(kept[i].queue@) + notices
        }
}

/// Builds the packet that tells of a car's removal.
pub fn despawn_notice(client_id: u8, car_id: u8) -> (r: Vec<u8>)
    ensures
        r@ == despawn_packet(client_id, car_id),
{
    let mut packet: Vec<u8> = Vec::new();
    push_str(&mut packet, "Od:");
    push_decimal(&mut packet, client_id as u64);
    packet.push(45);
    push_decimal(&mut packet, car_id as u64);
    assert(packet@ =~= despawn_packet(client_id, car_id));
    packet
}

impl Client {
    /// Queues copies of all the payloads, in order.
    pub fn queue_all(&mut self, payloads: &Vec<Vec<u8>>)
        ensures
            *final(self) == (Client { queue: final(self).queue, ..*old(self) }),
            views(final(self).queue@) == views(old(self).queue@) + views(payloads@),
    {
        let mut k: usize = 0;
        assert(views(payloads@).take(0) =~= Seq::<Seq<u8>>::empty());
        assert(views(self.queue@) + Seq::<Seq<u8>>::empty() =~= views(self.queue@));
        while k < payloads.len()
            invariant
                k <= payloads@.len(),
                *self == (Client { queue: self.queue, ..*old(self) }),
                views(self.queue@) == views(old(self).queue@) + views(payloads@).take(k as int),
            decreases payloads.len() - k,
        {
            let ghost before = views(self.queue@);
            self.queue_packet(to_vec(payloads[k].as_slice()));
            assert(views(self.queue@) =~= views(old(self).queue@) + views(payloads@).take(k + 1));
            k += 1;
        }
        assert(views(payloads@).take(k as int) =~= views(payloads@));
    }
}

impl Server {
    /// Whether the whitelist has the user name.
    pub fn is_expected(&self, name: &String) -> (r: bool)
        ensures
            r == expected(self.config.event.expected_clients, *name),
    {
        match &self.config.event.expected_clients {
            None => true,
            Some(list) => {
                let wanted = trim(string_bytes(name));
                let mut k: usize = 0;
                while k < list.len()
                    invariant
                        k <= list@.len(),
                        self.config.event.expected_clients == Some(*list),
                        wanted@ == plain_name(*name),
                        forall|m: int|
                            0 <= m < k ==> plain_name(#[trigger] list@[m]) != plain_name(*name),
                    decreases list.len() - k,
                {
                    if same_bytes(trim(string_bytes(&list[k])), wanted) {
                        assert(self.config.event.expected_clients->0 == *list);
                        assert(plain_name((*list)@[k as int]) == plain_name(*name));
                        return true;
                    }
                    k += 1;
                }
                false
            },
        }
    }

    /// Whether a live session has the user name.
    pub fn has_name(&self, name: &String) -> (r: bool)
        ensures
            r == name_taken(self.clients@, *name),
    {
        let wanted = trim(string_bytes(name));
        let mut i: usize = 0;
        while i < self.clients.len()
            invariant
                i <= self.clients@.len(),
                wanted@ == plain_name(*name),
                forall|m: int|
                    0 <= m < i ==> plain_name((#[trigger] self.clients@[m]).info.username)
                        != plain_name(*name),
            decreases self.clients.len() - i,
        {
            if same_bytes(trim(string_bytes(&self.clients[i].info.username)), wanted) {
                assert(plain_name(self.clients@[i as int].info.username) == plain_name(*name));
                return true;
            }
            i += 1;
        }
        false
    }

    /// The id for the next session; `None` where every id is taken.
    pub fn next_session_id(&self) -> (r: Option<u8>)
        ensures
            match r {
                Some(id) => is_next_session_id(self.clients@, id),
                None => forall|k: u8| !id_unused(self.clients@, k),
            },
    {
        let mut id: u8 = 0;
        loop
            invariant
                forall|k: u8| k < id ==> !id_unused(self.clients@, k),
            decreases 255 - id,
        {
            match self.find_client(id) {
                None => {
                    return Some(id);
                },
                Some(_) => {},
            }
            if id == 255 {
                return None;
            }
            id += 1;
        }
    }

    /// Admits an authenticated session and gives it the smallest free id, or
    /// refuses it and leaves the server as it was.
    #[verifier::rlimit(50)]
    pub fn join(&mut self, info: UserData, now: u64) -> (r: Result<u8, AuthenticationError>)
        requires
            old(self).wf(),
        ensures
            final(self).wf(),
            match r {
                Ok(id) => {
                    &&& refusal(*old(self), info.username) is None
                    &&& is_next_session_id(old(self).clients@, id)
                    &&& *final(self) == (Server { clients: final(self).clients, ..*old(self) })
                    &&& final(self).clients@.len() == old(self).clients@.len() + 1
                    &&& final(self).clients@.drop_last() == old(self).clients@
                    &&& Client::fresh(final(self).clients@.last(), id, info, now)
                },
                Err(e) => refusal(*old(self), info.username) == Some(e) && *final(self) == *old(
                    self,
                ),
            },
    {
        if !self.accepting {
            return Err(AuthenticationError::Closed);
        }
        if !self.is_expected(&info.username) || self.has_name(&info.username) {
            return Err(AuthenticationError::NotWhitelisted);
        }
        match self.next_session_id() {
            None => Err(AuthenticationError::Full),
            Some(id) => {
                let ghost name = info.username;
                let client = Client::new(id, info, now);
                self.clients.push(client);
                proof {
                    let before = old(self).clients@;
                    let after = self.clients@;
                    assert(after.drop_last() =~= before);
                    assert forall|i: int| 0 <= i < after.len() implies client_wf(
                        #[trigger] after[i],
                        self.checkpoints,
                    ) by {
                        if i < before.len() {
                            assert(client_wf(before[i], self.checkpoints));
                        }
                    }
                    assert forall|i: int| 0 <= i < after.len() implies expected(
                        self.config.event.expected_clients,
                        (#[trigger] after[i]).info.username,
                    ) by {
                        if i < before.len() {
                            assert(after[i] == before[i]);
                        }
                    }
                    assert forall|i: int|
                        0 <= i < after.len() && !(#[trigger] after[i]).finished
                            implies !self.finish_order@.contains(after[i].id) by {
                        if i < before.len() {
                            assert(after[i] == before[i]);
                        } else {
                            assert(self.finish_order@.len() == 0);
                        }
                    }
                    assert(ids_distinct(after)) by {
                        assert forall|i: int, j: int| 0 <= i < j < after.len() implies (
                        #[trigger] after[i]).id != (#[trigger] after[j]).id by {
                            assert(after[i] == before[i]);
                            if j < before.len() {
                                assert(after[j] == before[j]);
                            }
                        }
                    }
                    assert(names_distinct(after)) by {
                        assert forall|i: int, j: int| 0 <= i < j < after.len() implies plain_name(
                            (#[trigger] after[i]).info.username,
                        ) != plain_name((#[trigger] after[j]).info.username) by {
                            assert(after[i] == before[i]);
                            if j < before.len() {
                                assert(after[j] == before[j]);
                            }
                        }
                    }
                }
                Ok(id)
            },
        }
    }

    /// The removal packets of the cars of all sessions that are marked for
    /// removal.
    #[verifier::rlimit(50)]
    pub fn collect_notices(&self) -> (notices: Vec<Vec<u8>>)
        ensures
            views(notices@) == leaving_notices(self.clients@),
    {
        let mut notices: Vec<Vec<u8>> = Vec::new();
        let mut i: usize = 0;
        assert(self.clients@.take(0) =~= Seq::<Client>::empty());
        assert(views(notices@) =~= Seq::<Seq<u8>>::empty());
        while i < self.clients.len()
            invariant
                i <= self.clients@.len(),
                views(notices@) == leaving_notices(self.clients@.take(i as int)),
            decreases self.clients.len() - i,
        {
            let ghost base = views(notices@);
            let ghost next = self.clients@.take(i + 1);
            assert(next.drop_last() =~= self.clients@.take(i as int));
            assert(next.last() == self.clients@[i as int]);
            let gone = match self.clients[i].state {
                ClientState::Disconnect => true,
                ClientState::Connected => false,
            };
            if gone {
                let id = self.clients[i].id;
                let ghost all = car_notices(id, self.clients@[i as int].cars@);
                let mut j: usize = 0;
                assert(base + all.take(0) =~= base);
                while j < self.clients[i].cars.len()
                    invariant
                        i < self.clients@.len(),
                        j <= self.clients@[i as int].cars@.len(),
                        id == self.clients@[i as int].id,
                        all == car_notices(id, self.clients@[i as int].cars@),
                        views(notices@) == base + all.take(j as int),
                    decreases self.clients@[i as int].cars@.len() - j,
                {
                    let ghost so_far = views(notices@);
                    let notice = despawn_notice(id, self.clients[i].cars[j].0);
                    notices.push(notice);
                    assert(views(notices@) =~= so_far.push(notice@));
                    assert(all[j as int] == notice@);
                    assert(all.take(j + 1) =~= all.take(j as int).push(all[j as int]));
                    assert(views(notices@) =~= base + all.take(j + 1));
                    j += 1;
                }
                assert(all.take(j as int) =~= all);
            } else {
                assert(base + Seq::<Seq<u8>>::empty() =~= base);
            }
            i += 1;
        }
        assert(self.clients@.take(i as int) =~= self.clients@);
        notices
    }

    /// Drops the sessions that are marked for removal, and tells the others of
    /// the cars that go with them. Returns the dropped sessions as they were,
    /// with what was still queued for them.
    #[verifier::rlimit(50)]
    pub fn remove_disconnected(&mut self) -> (gone: Vec<Client>)
        requires
            old(self).wf(),
        ensures
            final(self).wf(),
            *final(self) == (Server { clients: final(self).clients, ..*old(self) }),
            swept(old(self).clients@, final(self).clients@),
            gone@ == leaving(old(self).clients@),
    {
        let mut gone: Vec<Client> = Vec::new();
        let notices = self.collect_notices();
        let ghost all = old(self).clients@;
        let ghost mut seen: int = 0;
        let mut at: usize = 0;
        assert(all.take(0) =~= Seq::<Client>::empty());
        assert(staying(all.take(0)) + all.skip(0) =~= all);
        assert(gone@ =~= leaving(all.take(0)));
        while at < self.clients.len()
            invariant
                *self == (Server { clients: self.clients, ..*old(self) }),
                all == old(self).clients@,
                0 <= seen <= all.len(),
                at == staying(all.take(seen)).len(),
                self.clients@ == staying(all.take(seen)) + all.skip(seen),
                gone@ == leaving(all.take(seen)),
            decreases self.clients.len() - at,
        {
            let leaves = match self.clients[at].state {
                ClientState::Disconnect => true,
                ClientState::Connected => false,
            };
            proof {
                assert(self.clients@[at as int] == all[seen]);
                assert(all.take(seen + 1).drop_last() =~= all.take(seen));
                assert(all.take(seen + 1).last() == all[seen]);
            }
            if leaves {
                let dropped = self.clients.remove(at);
                gone.push(dropped);
                assert(self.clients@ =~= staying(all.take(seen + 1)) + all.skip(seen + 1));
            } else {
                assert(self.clients@ =~= staying(all.take(seen + 1)) + all.skip(seen + 1));
                at += 1;
            }
            proof {
                seen = seen + 1;
            }
        }
        proof {
            assert(all.skip(seen).len() == 0);
            assert(seen == all.len());
            assert(all.take(seen) =~= all);
            assert(self.clients@ =~= staying(all));
        }
        let ghost kept = self.clients@;
        let mut i: usize = 0;
        while i < self.clients.len()
            invariant
                i <= self.clients@.len(),
                *self == (Server { clients: self.clients, ..*old(self) }),
                self.clients@.len() == kept.len(),
                views(notices@) == leaving_notices(all),
                forall|k: int|
                    0 <= k < i ==> {
                        &&& #[trigger] self.clients@[k] == Client {
                            queue: self.clients@[k].queue,
                            ..kept[k]
                        }
                        &&& views(self.clients@[k].queue@) == views(kept[k].queue@)
                            + leaving_notices(all)
                    },
                forall|k: int| i <= k < kept.len() ==> self.clients@[k] == kept[k],
            decreases self.clients.len() - i,
        {
            self.clients[i].queue_all(&notices);
            i += 1;
        }
        proof {
            let places = staying_is_a_selection(all);
            let after = self.clients@;
            assert forall|k: int| 0 <= k < after.len() implies client_wf(
                #[trigger] after[k],
                self.checkpoints,
            ) by {
                assert(client_wf(all[places[k]], self.checkpoints));
            }
            assert forall|k: int| 0 <= k < after.len() implies expected(
                self.config.event.expected_clients,
                (#[trigger] after[k]).info.username,
            ) by {
                assert(after[k].info == all[places[k]].info);
            }
            assert forall|k: int|
                0 <= k < after.len() && !(#[trigger] after[k]).finished
                    implies !self.finish_order@.contains(after[k].id) by {
                assert(!all[places[k]].finished);
            }
            assert(ids_distinct(after)) by {
                assert forall|k: int, m: int| 0 <= k < m < after.len() implies (
                #[trigger] after[k]).id != (#[trigger] after[m]).id by {
                    assert(all[places[k]].id != all[places[m]].id);
                }
            }
            assert(names_distinct(after)) by {
                assert forall|k: int, m: int| 0 <= k < m < after.len() implies plain_name(
                    (#[trigger] after[k]).info.username,
                ) != plain_name((#[trigger] after[m]).info.username) by {
                    assert(plain_name(all[places[k]].info.username) != plain_name(
                        all[places[m]].info.username,
                    ));
                }
            }
        }
        gone
    }

    /// The first session at which an overlay that announced `name` can be
    /// seated.
    pub fn find_seat(&self, name: &[u8]) -> (r: Option<usize>)
        ensures
            match r {
                Some(at) => seat_for(self.clients@, name@) == Some(at as int),
                None => seat_for(self.clients@, name@) is None,
            },
    {
        let mut i: usize = 0;
        while i < self.clients.len()
            invariant
                i <= self.clients@.len(),
                forall|k: int| 0 <= k < i ==> !seat(#[trigger] self.clients@[k], name@),
            decreases self.clients.len() - i,
        {
            if self.clients[i].overlay.is_none() && same_bytes(self.clients[i].get_name(), name) {
                proof {
                    seat_for_is_first(self.clients@, name@);
                    assert(seat(self.clients@[i as int], name@));
                }
                return Some(i);
            }
            i += 1;
        }
        proof {
            seat_for_is_first(self.clients@, name@);
        }
        None
    }

    /// Puts an overlay that has greeted on the waiting list.
    pub fn add_overlay(&mut self, name: Vec<u8>, overlay: Overlay)
        ensures
            *final(self) == (Server {
                unconnected_overlays: final(self).unconnected_overlays,
                ..*old(self)
            }),
            final(self).unconnected_overlays@ == old(self).unconnected_overlays@.push(
                (name, overlay),
            ),
    {
        self.unconnected_overlays.push((name, overlay));
    }

    /// Offers every waiting overlay, in turn, a seat at the session of its
    /// name.
    #[verifier::rlimit(50)]
    pub fn attach_overlays(&mut self)
        requires
            old(self).wf(),
        ensures
            final(self).wf(),
            *final(self) == (Server {
                clients: final(self).clients,
                unconnected_overlays: final(self).unconnected_overlays,
                ..*old(self)
            }),
            (final(self).clients@, final(self).unconnected_overlays@) == seated(
                old(self).clients@,
                old(self).unconnected_overlays@,
            ),
    {
        let mut p: usize = 0;
        let ghost goal = seated(old(self).clients@, old(self).unconnected_overlays@);
        assert(self.unconnected_overlays@.skip(0) =~= self.unconnected_overlays@);
        assert(self.unconnected_overlays@.take(0) + goal.1 =~= goal.1);
        while p < self.unconnected_overlays.len()
            invariant
                p <= self.unconnected_overlays@.len(),
                *self == (Server {
                    clients: self.clients,
                    unconnected_overlays: self.unconnected_overlays,
                    ..*old(self)
                }),
                crate::server::same_roster(old(self).clients@, self.clients@),
                goal.0 == seated(self.clients@, self.unconnected_overlays@.skip(p as int)).0,
                goal.1 == self.unconnected_overlays@.take(p as int) + seated(
                    self.clients@,
                    self.unconnected_overlays@.skip(p as int),
                ).1,
            decreases self.unconnected_overlays.len() - p,
        {
            let ghost waiting = self.unconnected_overlays@;
            let ghost rest = waiting.skip(p as int);
            let ghost clients = self.clients@;
            assert(rest[0] == waiting[p as int]);
            assert(rest.skip(1) =~= waiting.skip(p + 1));
            match self.find_seat(self.unconnected_overlays[p].0.as_slice()) {
                Some(at) => {
                    proof {
                        seat_for_is_first(clients, waiting[p as int].0@);
                    }
                    let (_, overlay) = self.unconnected_overlays.remove(p);
                    self.clients[at].overlay = Some(overlay);
                    assert(self.clients@ =~= clients.update(
                        at as int,
                        Client { overlay: Some(waiting[p as int].1), ..clients[at as int] },
                    ));
                    assert(self.unconnected_overlays@.skip(p as int) =~= rest.skip(1));
                    assert(self.unconnected_overlays@.take(p as int) =~= waiting.take(p as int));
                },
                None => {
                    let ghost after = seated(clients, rest.skip(1));
                    assert(waiting.take(p + 1) + after.1 =~= waiting.take(p as int) + (
                    seq![waiting[p as int]] + after.1));
                    p += 1;
                },
            }
        }
        proof {
            assert(self.unconnected_overlays@.skip(p as int).len() == 0);
            assert(self.unconnected_overlays@.take(p as int) =~= self.unconnected_overlays@);
            assert(self.unconnected_overlays@ + Seq::<(Vec<u8>, Overlay)>::empty()
                =~= self.unconnected_overlays@);
            Server::wf_same_roster(*old(self), *self);
        }
    }
}

} // verus!
