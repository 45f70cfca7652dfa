//! The table of open connections.
//!
//! The supervisor gives every accepted connection a place of its own and hands each
//! event to the one connection it is for. Whatever happens to that connection, the
//! others are left exactly as they were.
use vstd::prelude::*;
use crate::connection::{react, Action, Command, ConnState, Connection, Event, Phase};

verus! {

/// The table as contracts see it: the place `i` holds the connection `i`, or nothing.
pub struct Table {
    pub slots: Seq<Option<ConnState>>,
    /// The largest payload that new connections accept and send.
    pub limit: nat,
}

/// A connection as it is when accepted.
pub open spec fn fresh(limit: nat) -> ConnState {
    ConnState { pending: Seq::empty(), limit, phase: Phase::Idle }
}

/// The place a new connection gets: the first free one, or a new one at the end.
pub open spec fn first_free(slots: Seq<Option<ConnState>>) -> nat
    decreases slots.len(),
{
    if slots.len() == 0 {
        0
    } else if first_free(slots.drop_last()) < slots.len() - 1 {
        first_free(slots.drop_last())
    } else if slots.last() is None {
        (slots.len() - 1) as nat
    } else {
        slots.len()
    }
}

/// The table after a connection has been accepted.
pub open spec fn accepted(table: Table) -> Table {
    let id = first_free(table.slots);
    Table {
        slots: if id < table.slots.len() {
            table.slots.update(id as int, Some(fresh(table.limit)))
        } else {
            table.slots.push(Some(fresh(table.limit)))
        },
        limit: table.limit,
    }
}

/// Whether the place `id` holds a connection.
pub open spec fn is_open(table: Table, id: usize) -> bool {
    id < table.slots.len() && table.slots[id as int] is Some
}

/// The table after `event` has been handed to the connection `id`: the connection has
/// reacted, and one that closed has left its place.
pub open spec fn delivered(table: Table, id: usize, event: Event) -> Table {
    if is_open(table, id) {
        let reaction = react(table.slots[id as int]->Some_0, event);
        Table {
            slots: table.slots.update(
                id as int,
                if reaction.command is Close {
                    None
                } else {
                    Some(reaction.state)
                },
            ),
            limit: table.limit,
        }
    } else {
        table
    }
}

/// What the owner of the connection `id` is to do after `event`, if there is such a
/// connection.
pub open spec fn command_for(table: Table, id: usize, event: Event) -> Option<Command> {
    if is_open(table, id) {
        Some(react(table.slots[id as int]->Some_0, event).command)
    } else {
        None
    }
}

/// The open connections of one listener.
pub struct Supervisor {
    slots: Vec<Option<Connection>>,
    max_frame_len: usize,
}

impl View for Supervisor {
    type V = Table;

    closed spec fn view(&self) -> Table {
        Table {
            slots: Seq::new(
                self.slots@.len(),
                |i: int|
                    match self.slots@[i] {
                        Some(c) => Some(c@),
                        None => None,
                    },
            ),
            limit: self.max_frame_len as nat,
        }
    }
}

impl Supervisor {
    /// A supervisor with no connection, whose connections will accept and send payloads
    /// of up to `max_frame_len` bytes.
    pub fn new(max_frame_len: usize) -> (s: Supervisor)
        ensures
            s@ == (Table { slots: Seq::empty(), limit: max_frame_len as nat }),
    {
        let s = Supervisor { slots: Vec::new(), max_frame_len };
        assert(s@.slots =~= Seq::empty());
        s
    }

    /// Whether the place `id` holds a connection.
    pub fn is_open(&self, id: usize) -> (b: bool)
        ensures
            b == is_open(self@, id),
    {
        id < self.slots.len() && self.slots[id].is_some()
    }

    /// Gives a new connection the first free place and returns that place. The
    /// connection starts by reading.
    pub fn accept(&mut self) -> (id: usize)
        ensures
            id == first_free(old(self)@.slots),
            final(self)@ == accepted(old(self)@),
    {
        let conn = Connection::new(self.max_frame_len);
        let mut i: usize = 0;
        while i < self.slots.len() && self.slots[i].is_some()
            invariant
                i <= self.slots@.len(),
                first_free(self@.slots.take(i as int)) == i,
                *self == *old(self),
            decreases self.slots.len() - i,
        {
            assert(self@.slots.take(i + 1).drop_last() =~= self@.slots.take(i as int));
            i += 1;
        }
        proof {
            lemma_first_free_prefix(self@.slots, i as int);
        }
        if i < self.slots.len() {
            self.slots[i] = Some(conn);
        } else {
            self.slots.push(Some(conn));
        }
        assert(self@.slots =~= accepted(old(self)@).slots);
        i
    }

    /// Hands `event` to the connection `id` and returns what its owner is to do next:
    /// `None` when there is no such connection. A connection that closes leaves the
    /// table. No other connection changes.
    pub fn deliver(&mut self, id: usize, event: Event) -> (action: Option<Action>)
        ensures
            final(self)@ == delivered(old(self)@, id, event),
            match command_for(old(self)@, id, event) {
                Some(command) => action matches Some(a) && a@ == command,
                None => action is None,
            },
    {
        if id >= self.slots.len() {
            return None;
        }
        let mut slot: Option<Connection> = None;
        core::mem::swap(&mut self.slots[id], &mut slot);
        match slot {
            None => {
                assert(self@.slots =~= old(self)@.slots);
                None
            },
            Some(mut conn) => {
                let action = conn.step(event);
                match action {
                    Action::Close(_) => {},
                    _ => {
                        self.slots[id] = Some(conn);
                    },
                }
                assert(self@.slots =~= delivered(old(self)@, id, event).slots);
                Some(action)
            },
        }
    }
}

/// The first free place of a table is where its first empty place is: every place
/// before it is taken, and within the table it is empty itself.
pub proof fn lemma_first_free(slots: Seq<Option<ConnState>>)
    ensures
        first_free(slots) <= slots.len(),
        forall|j: int| 0 <= j < first_free(slots) ==> (#[trigger] slots[j]) is Some,
        first_free(slots) < slots.len() ==> slots[first_free(slots) as int] is None,
    decreases slots.len(),
{
    if slots.len() > 0 {
        let front = slots.drop_last();
        lemma_first_free(front);
        assert forall|j: int| 0 <= j < first_free(slots) implies (#[trigger] slots[j]) is Some by {
            if j < front.len() {
                assert(front[j] is Some);
            }
        }
    }
}

/// A prefix that is full up to its end, followed by a free place or by nothing, fixes
/// the first free place of the whole table.
proof fn lemma_first_free_prefix(slots: Seq<Option<ConnState>>, i: int)
    requires
        0 <= i <= slots.len(),
        first_free(slots.take(i)) == i,
        i < slots.len() ==> slots[i] is None,
    ensures
        first_free(slots) == i,
    decreases slots.len() - i,
{
    if i == slots.len() {
        assert(slots.take(i) =~= slots);
    } else {
        lemma_first_free_from(slots, i, slots.len() as int);
        assert(slots.take(slots.len() as int) =~= slots);
    }
}

/// Once a prefix has a free place, longer prefixes have the same first free place.
proof fn lemma_first_free_from(slots: Seq<Option<ConnState>>, i: int, n: int)
    requires
        0 <= i < n <= slots.len(),
        first_free(slots.take(i)) == i,
        slots[i] is None,
    ensures
        first_free(slots.take(n)) == i,
    decreases n,
{
    assert(slots.take(n).drop_last() =~= slots.take(n - 1));
    if n - 1 > i {
        lemma_first_free_from(slots, i, n - 1);
    }
}

/// Whatever is handed to one connection, a frame that cannot be read included, every
/// other connection stays exactly as it was, and no place is added or removed.
pub proof fn lemma_others_untouched(table: Table, id: usize, event: Event, other: usize)
    requires
        other != id,
        other < table.slots.len(),
    ensures
        delivered(table, id, event).slots.len() == table.slots.len(),
        delivered(table, id, event).slots[other as int] == table.slots[other as int],
        delivered(table, id, event).limit == table.limit,
{
}

} // verus!
