//! What the dashboard and the server tell each other, and the dashboard's
//! own bookkeeping: the list of players, ordered by id.

use vstd::prelude::*;

use crate::client::UserData;

verus! {

/// What the server tells the dashboard.
#[derive(Clone, Debug)]
pub enum ServerEvent {
    /// The sessions that are live now, each with its id.
    ClientListUpdate(Vec<(u8, UserData)>),
}

/// Whether the dashboard goes on.
#[derive(Clone, Copy, Debug, PartialEq, Eq, Structural)]
pub enum UpdateResult {
    Continue,
    Exit,
}

/// A key as the dashboard sees it.
#[derive(Clone, Copy, Debug, PartialEq, Eq, Structural)]
pub enum Key {
    Char(char),
    Other,
}

/// A key press: the key, and whether the control key was held.
#[derive(Clone, Copy, Debug, PartialEq, Eq, Structural)]
pub struct KeyPress {
    pub key: Key,
    pub control: bool,
}

/// The dashboard's view of the server.
#[derive(Clone, Debug)]
pub struct Communicator {
    /// The players, ordered by id.
    pub id_name_list: Vec<(u8, UserData)>,
}

/// `sorted` with `entry` put behind the last entry whose id is not above
/// its own.
pub open spec fn inserted(sorted: Seq<(u8, UserData)>, entry: (u8, UserData)) -> Seq<
    (u8, UserData),
>
    decreases sorted.len(),
{
    if sorted.len() == 0 {
        seq![entry]
    } else if sorted.last().0 <= entry.0 {
        sorted.push(entry)
    } else {
        inserted(sorted.drop_last(), entry).push(sorted.last())
    }
}

/// The list ordered by id, entries with the same id in the order in which
/// they came.
pub open spec fn by_id(list: Seq<(u8, UserData)>) -> Seq<(u8, UserData)>
    decreases list.len(),
{
    if list.len() == 0 {
        list
    } else {
        inserted(by_id(list.drop_last()), list.last())
    }
}

/// Whether the ids of the list never fall from one entry to the next.
pub open spec fn ordered(list: Seq<(u8, UserData)>) -> bool {
    forall|i: int, j: int| 0 <= i < j < list.len() ==> list[i].0 <= list[j].0
}

/// Putting an entry at the place where the entries above it begin is
/// `inserted`.
pub proof fn inserted_at(sorted: Seq<(u8, UserData)>, entry: (u8, UserData), at: int)
    requires
        0 <= at <= sorted.len(),
        forall|k: int| at <= k < sorted.len() ==> sorted[k].0 > entry.0,
        at > 0 ==> sorted[at - 1].0 <= entry.0,
    ensures
        inserted(sorted, entry) == sorted.insert(at, entry),
    decreases sorted.len(),
{
    if sorted.len() == 0 {
        assert(sorted.insert(0, entry) =~= seq![entry]);
    } else if at == sorted.len() {
        assert(sorted.insert(at, entry) =~= sorted.push(entry));
    } else {
        let front = sorted.drop_last();
        assert(sorted.last().0 > entry.0);
        assert forall|k: int| at <= k < front.len() implies front[k].0 > entry.0 by {
            assert(front[k] == sorted[k]);
        }
        inserted_at(front, entry, at);
        assert(front.insert(at, entry).push(sorted.last()) =~= sorted.insert(at, entry));
    }
}

/// Inserting into an ordered list gives an ordered list that holds one entry
/// more.
#[verifier::rlimit(50)]
pub proof fn inserted_is_ordered(sorted: Seq<(u8, UserData)>, entry: (u8, UserData))
    requires
        ordered(sorted),
    ensures
        ordered(inserted(sorted, entry)),
        inserted(sorted, entry).len() == sorted.len() + 1,
        forall|k: int|
            0 <= k < inserted(sorted, entry).len() ==> inserted(sorted, entry)[k].0 == entry.0
                || exists|m: int| 0 <= m < sorted.len() && sorted[m].0 == #[trigger] inserted(
                sorted,
                entry,
            )[k].0,
    decreases sorted.len(),
{
    let out = inserted(sorted, entry);
    if sorted.len() == 0 {
    } else if sorted.last().0 <= entry.0 {
        assert forall|k: int| 0 <= k < out.len() implies out[k].0 == entry.0 || exists|m: int|
            0 <= m < sorted.len() && sorted[m].0 == #[trigger] out[k].0 by {
            if k < sorted.len() {
                assert(sorted[k].0 == out[k].0);
            }
        }
    } else {
        let front = sorted.drop_last();
        assert(ordered(front)) by {
            assert forall|i: int, j: int| 0 <= i < j < front.len() implies front[i].0
                <= front[j].0 by {
                assert(sorted[i].0 <= sorted[j].0);
            }
        }
        inserted_is_ordered(front, entry);
        let inner = inserted(front, entry);
        assert forall|i: int, j: int| 0 <= i < j < out.len() implies out[i].0 <= out[j].0 by {
            if j == out.len() - 1 {
                assert(out[j] == sorted.last());
                assert(out[i] == inner[i]);
                if inner[i].0 != entry.0 {
                    let m = choose|m: int| 0 <= m < front.len() && front[m].0 == inner[i].0;
                    assert(sorted[m].0 <= sorted[sorted.len() - 1].0);
                }
            } else {
                assert(out[i] == inner[i] && out[j] == inner[j]);
            }
        }
        assert forall|k: int| 0 <= k < out.len() implies out[k].0 == entry.0 || exists|m: int|
            0 <= m < sorted.len() && sorted[m].0 == #[trigger] out[k].0 by {
            if k == out.len() - 1 {
                assert(sorted[sorted.len() - 1].0 == out[k].0);
            } else {
                assert(out[k] == inner[k]);
                if inner[k].0 != entry.0 {
                    let m = choose|m: int| 0 <= m < front.len() && front[m].0 == inner[k].0;
                    assert(sorted[m].0 == out[k].0);
                }
            }
        }
    }
}

/// A list ordered by id is ordered, and as long as the list it was made
/// from.
pub proof fn by_id_is_ordered(list: Seq<(u8, UserData)>)
    ensures
        ordered(by_id(list)),
        by_id(list).len() == list.len(),
    decreases list.len(),
{
    if list.len() > 0 {
        by_id_is_ordered(list.drop_last());
        inserted_is_ordered(by_id(list.drop_last()), list.last());
    }
}

/// Orders a list of players by id.
#[verifier::rlimit(50)]
pub fn sort_by_id(list: Vec<(u8, UserData)>) -> (out: Vec<(u8, UserData)>)
    ensures
        out@ == by_id(list@),
        ordered(out@),
        out@.len() == list@.len(),
{
    let mut list = list;
    let ghost all = list@;
    let mut out: Vec<(u8, UserData)> = Vec::new();
    let ghost mut done: int = 0;
    assert(all.take(0) =~= Seq::<(u8, UserData)>::empty());
    assert(all.skip(0) =~= all);
    while list.len() > 0
        invariant
            0 <= done <= all.len(),
            list@ == all.skip(done),
            out@ == by_id(all.take(done)),
        decreases list.len(),
    {
        let entry = list.remove(0);
        proof {
            assert(entry == all[done]);
            assert(list@ =~= all.skip(done + 1));
            assert(all.take(done + 1).drop_last() =~= all.take(done));
            assert(all.take(done + 1).last() == entry);
        }
        let mut at: usize = out.len();
        while at > 0 && out[at - 1].0 > entry.0
            invariant
                at <= out@.len(),
                forall|k: int| at <= k < out@.len() ==> out@[k].0 > entry.0,
            decreases at,
        {
            at -= 1;
        }
        proof {
            inserted_at(out@, entry, at as int);
        }
        out.insert(at, entry);
        proof {
            done = done + 1;
        }
    }
    proof {
        assert(all.take(done) =~= all);
        by_id_is_ordered(all);
    }
    out
}

impl Communicator {
    /// A dashboard that knows of no player yet.
    pub fn new() -> (c: Communicator)
        ensures
            c.id_name_list@.len() == 0,
    {
        Communicator { id_name_list: Vec::new() }
    }

    /// What a key press asks for: control and `c` leave the dashboard,
    /// anything else goes on.
    pub open spec fn asked(input: KeyPress) -> UpdateResult {
        if input.control && input.key == Key::Char('c') {
            UpdateResult::Exit
        } else {
            UpdateResult::Continue
        }
    }

    /// Handles a key press.
    pub fn handle_input(&mut self, input: KeyPress) -> (r: UpdateResult)
        ensures
            r == Communicator::asked(input),
            *final(self) == *old(self),
    {
        match input.key {
            Key::Char(c) => if input.control && c == 'c' {
                UpdateResult::Exit
            } else {
                UpdateResult::Continue
            },
            Key::Other => UpdateResult::Continue,
        }
    }

    /// The list that the dashboard shows after an event came, or none: the
    /// list of the event if one came, else the list as it was, ordered by
    /// id.
    pub open spec fn listed(before: Seq<(u8, UserData)>, event: Option<ServerEvent>) -> Seq<
        (u8, UserData),
    > {
        match event {
            Some(ServerEvent::ClientListUpdate(list)) => by_id(list@),
            None => by_id(before),
        }
    }

    /// Takes in the event that has come, if one has, and puts the list in
    /// order.
    pub fn tick(&mut self, event: Option<ServerEvent>) -> (r: UpdateResult)
        ensures
            r == UpdateResult::Continue,
            final(self).id_name_list@ == Communicator::listed(old(self).id_name_list@, event),
            ordered(final(self).id_name_list@),
    {
        let mut list: Vec<(u8, UserData)> = Vec::new();
        match event {
            Some(ServerEvent::ClientListUpdate(update)) => {
                list = update;
            },
            None => {
                let mut mine: Vec<(u8, UserData)> = Vec::new();
                std::mem::swap(&mut mine, &mut self.id_name_list);
                list = mine;
            },
        }
        self.id_name_list = sort_by_id(list);
        UpdateResult::Continue
    }
}

} // verus!
