//! The single owner of the shared cells.
//!
//! Every read and every change of the cells is an `Operation` handed to `Actor::handle`,
//! one at a time and in the order of arrival; the `Reply` is what goes back to the
//! requester. Nothing else can reach the cells, so no lock guards them.
use vstd::prelude::*;

verus! {

/// What a requester asks of the actor.
#[derive(Clone, Copy, Debug, PartialEq, Eq, Structural)]
pub enum Operation {
    /// Put `value` into the cell `slot`.
    Store { slot: usize, value: u32 },
    /// Read the cell `slot`.
    Load { slot: usize },
    /// Add one to the cell `slot`.
    Increment { slot: usize },
}

/// What the actor answers.
#[derive(Clone, Copy, Debug, PartialEq, Eq, Structural)]
pub enum Reply {
    /// The value was stored.
    Stored,
    /// The cell's value: as read, or as it is after the increment.
    Value(u32),
    /// The request could not be applied: no such cell, or the cell is at its maximum.
    /// The cells are as they were.
    Rejected,
    /// The actor no longer applies requests.
    Stopped,
}

/// Where the actor is in its life.
#[derive(Clone, Copy, Debug, PartialEq, Eq, Structural)]
pub enum Lifecycle {
    /// Requests are applied.
    Running,
    /// Shutdown has begun: what is still queued is answered `Stopped`.
    Draining,
    /// The actor has left its loop.
    Stopped,
}

/// The actor as contracts see it.
pub struct ActorState {
    pub cells: Seq<u32>,
    pub lifecycle: Lifecycle,
}

/// A state together with the reply that led to it.
pub struct Handled {
    pub state: ActorState,
    pub reply: Reply,
}

/// A state together with the replies that led to it, oldest first.
pub struct Served {
    pub state: ActorState,
    pub replies: Seq<Reply>,
}

/// Applies one operation to the cells of a running actor.
pub open spec fn apply(cells: Seq<u32>, op: Operation) -> (Seq<u32>, Reply) {
    match op {
        Operation::Store { slot, value } => if slot < cells.len() {
            (cells.update(slot as int, value), Reply::Stored)
        } else {
            (cells, Reply::Rejected)
        },
        Operation::Load { slot } => if slot < cells.len() {
            (cells, Reply::Value(cells[slot as int]))
        } else {
            (cells, Reply::Rejected)
        },
        Operation::Increment { slot } => if slot < cells.len() && cells[slot as int] < u32::MAX {
            let next = (cells[slot as int] + 1) as u32;
            (cells.update(slot as int, next), Reply::Value(next))
        } else {
            (cells, Reply::Rejected)
        },
    }
}

/// One request: applied while running, answered `Stopped` afterwards.
pub open spec fn handle(state: ActorState, op: Operation) -> Handled {
    if state.lifecycle == Lifecycle::Running {
        let (cells, reply) = apply(state.cells, op);
        Handled { state: ActorState { cells, lifecycle: state.lifecycle }, reply }
    } else {
        Handled { state, reply: Reply::Stopped }
    }
}

/// A queue of requests, handled from its front.
pub open spec fn serve(state: ActorState, ops: Seq<Operation>) -> Served
    decreases ops.len(),
{
    if ops.len() == 0 {
        Served { state, replies: Seq::empty() }
    } else {
        let before = serve(state, ops.drop_last());
        let last = handle(before.state, ops.last());
        Served { state: last.state, replies: before.replies.push(last.reply) }
    }
}

/// The owner of the cells.
pub struct Actor {
    cells: Vec<u32>,
    lifecycle: Lifecycle,
}

impl View for Actor {
    type V = ActorState;

    closed spec fn view(&self) -> ActorState {
        ActorState { cells: self.cells@, lifecycle: self.lifecycle }
    }
}

impl Actor {
    /// A running actor that owns `cells`.
    pub fn new(cells: Vec<u32>) -> (a: Actor)
        ensures
            a@ == (ActorState { cells: cells@, lifecycle: Lifecycle::Running }),
    {
        Actor { cells, lifecycle: Lifecycle::Running }
    }

    /// Where the actor is in its life.
    pub fn lifecycle(&self) -> (l: Lifecycle)
        ensures
            l == self@.lifecycle,
    {
        self.lifecycle
    }

    /// A copy of the cells as they are now.
    pub fn snapshot(&self) -> (cells: Vec<u32>)
        ensures
            cells@ == self@.cells,
    {
        self.cells.clone()
    }

    /// Handles one request and returns its one reply.
    ///
    /// A request that cannot be applied is answered `Rejected` and leaves the cells as
    /// they were; the next request finds the actor running as before.
    pub fn handle(&mut self, op: Operation) -> (reply: Reply)
        ensures
            final(self)@ == handle(old(self)@, op).state,
            reply == handle(old(self)@, op).reply,
    {
        match self.lifecycle {
            Lifecycle::Running => {},
            _ => {
                return Reply::Stopped;
            },
        }
        match op {
            Operation::Store { slot, value } => {
                if slot < self.cells.len() {
                    self.cells[slot] = value;
                    Reply::Stored
                } else {
                    Reply::Rejected
                }
            },
            Operation::Load { slot } => {
                if slot < self.cells.len() {
                    Reply::Value(self.cells[slot])
                } else {
                    Reply::Rejected
                }
            },
            Operation::Increment { slot } => {
                if slot < self.cells.len() && self.cells[slot] < u32::MAX {
                    let next: u32 = self.cells[slot] + 1;
                    self.cells[slot] = next;
                    Reply::Value(next)
                } else {
                    Reply::Rejected
                }
            },
        }
    }

    /// Handles a queue of requests from its front and returns one reply for each, in the
    /// order of the requests.
    pub fn handle_all(&mut self, ops: &[Operation]) -> (replies: Vec<Reply>)
        ensures
            final(self)@ == serve(old(self)@, ops@).state,
            replies@ == serve(old(self)@, ops@).replies,
    {
        let mut replies: Vec<Reply> = Vec::new();
        let mut i: usize = 0;
        while i < ops.len()
            invariant
                i <= ops@.len(),
                self@ == serve(old(self)@, ops@.take(i as int)).state,
                replies@ == serve(old(self)@, ops@.take(i as int)).replies,
            decreases ops.len() - i,
        {
            assert(ops@.take(i + 1).drop_last() =~= ops@.take(i as int));
            let reply: Reply = self.handle(ops[i]);
            replies.push(reply);
            i += 1;
        }
        assert(ops@.take(i as int) =~= ops@);
        replies
    }

    /// Begins shutdown: from now on every request is answered `Stopped`. An actor that
    /// has stopped stays stopped.
    pub fn begin_drain(&mut self)
        ensures
            final(self)@.cells == old(self)@.cells,
            final(self)@.lifecycle == (if old(self)@.lifecycle == Lifecycle::Running {
                Lifecycle::Draining
            } else {
                old(self)@.lifecycle
            }),
    {
        match self.lifecycle {
            Lifecycle::Running => {
                self.lifecycle = Lifecycle::Draining;
            },
            _ => {},
        }
    }

    /// Ends the actor's life: the queue has been answered and the loop is left.
    pub fn stop(&mut self)
        ensures
            final(self)@ == (ActorState { cells: old(self)@.cells, lifecycle: Lifecycle::Stopped }),
    {
        self.lifecycle = Lifecycle::Stopped;
    }
}

/// Whether every request of `ops` is an increment of the cell `slot`.
pub open spec fn all_increment(ops: Seq<Operation>, slot: usize) -> bool {
    forall|i: int| 0 <= i < ops.len() ==> #[trigger] ops[i] == (Operation::Increment { slot })
}

/// How many requests of `ops` add one to the cell `slot`.
pub open spec fn increments_of(ops: Seq<Operation>, slot: usize) -> nat
    decreases ops.len(),
{
    if ops.len() == 0 {
        0
    } else if ops.last() == (Operation::Increment { slot }) {
        increments_of(ops.drop_last(), slot) + 1
    } else {
        increments_of(ops.drop_last(), slot)
    }
}

/// Whether no request of `ops` stores into the cell `slot`.
pub open spec fn no_store_to(ops: Seq<Operation>, slot: usize) -> bool {
    forall|i: int|
        0 <= i < ops.len() ==> !(#[trigger] ops[i] matches Operation::Store { slot: s, .. } && s
            == slot)
}

/// Every request gets exactly one reply, at its own place in the order of arrival, and
/// that reply is the one the request earns in the state that the requests before it left.
pub proof fn lemma_one_reply_each(state: ActorState, ops: Seq<Operation>)
    ensures
        serve(state, ops).replies.len() == ops.len(),
        forall|i: int|
            0 <= i < ops.len() ==> #[trigger] serve(state, ops).replies[i] == handle(
                serve(state, ops.take(i)).state,
                ops[i],
            ).reply,
    decreases ops.len(),
{
    if ops.len() > 0 {
        let front = ops.drop_last();
        lemma_one_reply_each(state, front);
        assert forall|i: int| 0 <= i < ops.len() implies #[trigger] serve(state, ops).replies[i]
            == handle(serve(state, ops.take(i)).state, ops[i]).reply by {
            if i < front.len() {
                assert(front.take(i) =~= ops.take(i));
            } else {
                assert(ops.take(i) =~= front);
            }
        }
    }
}

/// Requests never change how many cells there are, nor the actor's place in its life.
pub proof fn lemma_serve_keeps_shape(state: ActorState, ops: Seq<Operation>)
    ensures
        serve(state, ops).state.cells.len() == state.cells.len(),
        serve(state, ops).state.lifecycle == state.lifecycle,
    decreases ops.len(),
{
    if ops.len() > 0 {
        lemma_serve_keeps_shape(state, ops.drop_last());
    }
}

/// N requests that each add one to a cell leave it N higher, in whatever order they
/// arrived: no update is lost, and the k-th of them is told the k-th value.
pub proof fn lemma_increments_add_up(state: ActorState, ops: Seq<Operation>, slot: usize)
    requires
        state.lifecycle == Lifecycle::Running,
        slot < state.cells.len(),
        state.cells[slot as int] + ops.len() <= u32::MAX,
        all_increment(ops, slot),
    ensures
        serve(state, ops).state == (ActorState {
            cells: state.cells.update(
                slot as int,
                (state.cells[slot as int] + ops.len()) as u32,
            ),
            lifecycle: Lifecycle::Running,
        }),
        serve(state, ops).replies == Seq::new(
            ops.len(),
            |k: int| Reply::Value((state.cells[slot as int] + k + 1) as u32),
        ),
    decreases ops.len(),
{
    let want = Seq::new(ops.len(), |k: int| Reply::Value((state.cells[slot as int] + k + 1) as u32));
    if ops.len() == 0 {
        assert(state.cells.update(slot as int, state.cells[slot as int]) =~= state.cells);
        assert(serve(state, ops).replies =~= want);
    } else {
        let front = ops.drop_last();
        lemma_increments_add_up(state, front, slot);
        let before = serve(state, front);
        assert(ops.last() == (Operation::Increment { slot }));
        let after = handle(before.state, ops.last());
        assert(after.state.cells =~= state.cells.update(
            slot as int,
            (state.cells[slot as int] + ops.len()) as u32,
        ));
        assert(serve(state, ops).replies =~= want);
    }
}

/// Increments are not lost among other traffic: whatever else is asked in between, and
/// in whatever order the requests arrive, a cell that nobody stores into ends as many
/// higher as there were increments of it.
pub proof fn lemma_increments_survive_traffic(state: ActorState, ops: Seq<Operation>, slot: usize)
    requires
        state.lifecycle == Lifecycle::Running,
        slot < state.cells.len(),
        no_store_to(ops, slot),
        state.cells[slot as int] + increments_of(ops, slot) <= u32::MAX,
    ensures
        serve(state, ops).state.cells[slot as int] == state.cells[slot as int] + increments_of(
            ops,
            slot,
        ),
    decreases ops.len(),
{
    if ops.len() > 0 {
        let front = ops.drop_last();
        assert forall|i: int| 0 <= i < front.len() implies !(#[trigger] front[i] matches Operation::Store {
            slot: s,
            ..
        } && s == slot) by {
            assert(front[i] == ops[i]);
        }
        lemma_increments_survive_traffic(state, front, slot);
        lemma_serve_keeps_shape(state, front);
        assert(ops.last() == ops[ops.len() - 1]);
    }
}

} // verus!
