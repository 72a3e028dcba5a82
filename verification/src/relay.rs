//! Relay: the life of one connection, and the pump that moves its bytes in
//! one direction.
//!
//! The code that owns the sockets performs the reads, writes and shutdowns
//! and says what happened; the functions here decide what follows.

use vstd::prelude::*;

use crate::error::ProxyError;

verus! {

/// Where a connection stands in its life.
#[derive(Debug, Clone, Copy, PartialEq, Eq, Structural)]
pub enum State {
    /// The first request is being read and the origin is being reached.
    Bootstrapping,
    /// Bytes flow in both directions.
    Relaying,
    /// One side has ended; the other side's write half is being shut down.
    Closing,
    /// The connection is gone: its id is free and it has no routing entry.
    Closed,
}

/// What happened to a connection.
#[derive(Debug, Clone, Copy, PartialEq, Eq, Structural)]
pub enum Event {
    /// The origin has been reached.
    Connected,
    /// The origin could not be reached.
    ConnectFailed,
    /// The first request could not be understood.
    BadRequest,
    /// One side has no more bytes to send.
    EndOfStream,
    /// A read or a write failed.
    IoFailed,
    /// The shutdown of the other side's write half is done.
    ShutdownDone,
}

/// What is to be done for a connection.
#[derive(Debug, Clone, Copy, PartialEq, Eq, Structural)]
pub enum Action {
    /// Nothing: the event does not concern the connection any more.
    Nothing,
    /// Start to pump bytes in both directions.
    StartRelay,
    /// Shut down the write half of the side that has not ended.
    ShutdownPeer,
    /// Free the connection's id and remove its routing entry.
    Teardown,
}

/// What a step of a connection's life gives.
#[derive(Debug, Clone, Copy, PartialEq, Eq, Structural)]
pub struct Outcome {
    pub state: State,
    pub action: Action,
    /// The failure that ended the connection, if one did.
    pub error: Option<ProxyError>,
}

/// How far a connection has come: its states in the order of its life.
pub open spec fn rank(state: State) -> nat {
    match state {
        State::Bootstrapping => 0,
        State::Relaying => 1,
        State::Closing => 2,
        State::Closed => 3,
    }
}

/// What follows when `event` happens to a connection in `state`.
///
/// While bootstrapping, reaching the origin starts the relay and anything
/// else ends the connection at once, with nothing sent. While relaying, the
/// end of either side starts the shutdown of the other. While closing, the
/// connection ends as soon as the shutdown is done or fails. Events that do
/// not belong to the state change nothing.
pub open spec fn next(state: State, event: Event) -> Outcome {
    match (state, event) {
        (State::Bootstrapping, Event::Connected) => Outcome {
            state: State::Relaying,
            action: Action::StartRelay,
            error: None,
        },
        (State::Bootstrapping, Event::ConnectFailed) => Outcome {
            state: State::Closed,
            action: Action::Teardown,
            error: Some(ProxyError::UpstreamUnreachable),
        },
        (State::Bootstrapping, Event::BadRequest) => Outcome {
            state: State::Closed,
            action: Action::Teardown,
            error: Some(ProxyError::MalformedRequest),
        },
        (State::Bootstrapping, Event::EndOfStream) => Outcome {
            state: State::Closed,
            action: Action::Teardown,
            error: None,
        },
        (State::Bootstrapping, Event::IoFailed) => Outcome {
            state: State::Closed,
            action: Action::Teardown,
            error: None,
        },
        (State::Relaying, Event::EndOfStream) => Outcome {
            state: State::Closing,
            action: Action::ShutdownPeer,
            error: None,
        },
        (State::Relaying, Event::IoFailed) => Outcome {
            state: State::Closing,
            action: Action::ShutdownPeer,
            error: None,
        },
        (State::Closing, Event::ShutdownDone) => Outcome {
            state: State::Closed,
            action: Action::Teardown,
            error: None,
        },
        (State::Closing, Event::IoFailed) => Outcome {
            state: State::Closed,
            action: Action::Teardown,
            error: None,
        },
        _ => Outcome { state, action: Action::Nothing, error: None },
    }
}

/// The state of a connection after the events `events`, in order.
pub open spec fn state_after(state: State, events: Seq<Event>) -> State
    decreases events.len(),
{
    if events.len() == 0 {
        state
    } else {
        next(state_after(state, events.drop_last()), events.last()).state
    }
}

/// How often the events `events` ask for a teardown.
pub open spec fn teardowns(state: State, events: Seq<Event>) -> nat
    decreases events.len(),
{
    if events.len() == 0 {
        0
    } else {
        let before = teardowns(state, events.drop_last());
        if next(state_after(state, events.drop_last()), events.last()).action
            == Action::Teardown {
            before + 1
        } else {
            before
        }
    }
}

/// A connection only moves forward in its life, and a closed connection
/// stays closed and asks for nothing.
pub proof fn lemma_forward(state: State, event: Event)
    ensures
        rank(next(state, event).state) >= rank(state),
        state == State::Closed ==> next(state, event).state == State::Closed && next(
            state,
            event,
        ).action == Action::Nothing,
{
}

/// The teardown is asked for exactly in the step in which a connection
/// becomes closed.
pub proof fn lemma_teardown_on_close(state: State, event: Event)
    ensures
        next(state, event).action == Action::Teardown <==> state != State::Closed && next(
            state,
            event,
        ).state == State::Closed,
{
}

/// Whatever happens to a connection, its id is freed at most once, and
/// exactly once if it ends up closed.
pub proof fn lemma_one_teardown(state: State, events: Seq<Event>)
    requires
        state != State::Closed,
    ensures
        teardowns(state, events) == if state_after(state, events) == State::Closed {
            1nat
        } else {
            0nat
        },
    decreases events.len(),
{
    if events.len() > 0 {
        lemma_one_teardown(state, events.drop_last());
        lemma_teardown_on_close(state_after(state, events.drop_last()), events.last());
        lemma_forward(state_after(state, events.drop_last()), events.last());
    }
}

/// Decides what follows when `event` happens to a connection in `state`.
pub fn step(state: State, event: Event) -> (r: Outcome)
    ensures
        r == next(state, event),
{
    match (state, event) {
        (State::Bootstrapping, Event::Connected) => Outcome {
            state: State::Relaying,
            action: Action::StartRelay,
            error: None,
        },
        (State::Bootstrapping, Event::ConnectFailed) => Outcome {
            state: State::Closed,
            action: Action::Teardown,
            error: Some(ProxyError::UpstreamUnreachable),
        },
        (State::Bootstrapping, Event::BadRequest) => Outcome {
            state: State::Closed,
            action: Action::Teardown,
            error: Some(ProxyError::MalformedRequest),
        },
        (State::Bootstrapping, Event::EndOfStream) | (State::Bootstrapping, Event::IoFailed) | (
            State::Closing,
            Event::ShutdownDone,
        ) | (State::Closing, Event::IoFailed) => Outcome {
            state: State::Closed,
            action: Action::Teardown,
            error: None,
        },
        (State::Relaying, Event::EndOfStream) | (State::Relaying, Event::IoFailed) => Outcome {
            state: State::Closing,
            action: Action::ShutdownPeer,
            error: None,
        },
        _ => Outcome { state, action: Action::Nothing, error: None },
    }
}

/// Where the pump of one direction stands.
#[derive(Debug, Clone, Copy, PartialEq, Eq, Structural)]
pub enum Pump {
    /// Nothing is pending: the next thing to do is a read.
    Reading,
    /// This many bytes have been read and are still to be written.
    Writing(usize),
    /// The direction has ended.
    Finished,
}

/// What a read or a write gave.
#[derive(Debug, Clone, Copy, PartialEq, Eq, Structural)]
pub enum Transfer {
    /// A read gave this many bytes; 0 is the end of the stream.
    Read(usize),
    /// A write took this many bytes.
    Wrote(usize),
    /// The read or the write failed.
    Failed,
}

/// The pump after a read or a write.
///
/// A read of some bytes makes them pending; a read of none ends the
/// direction. A write takes bytes off what is pending, and the next read
/// comes when nothing is pending any more. A write that takes nothing, or
/// more than was pending, ends the direction, and so does a failure. A
/// result that the pump did not wait for changes nothing.
pub open spec fn pump_next(pump: Pump, transfer: Transfer) -> Pump {
    match (pump, transfer) {
        (Pump::Finished, _) => Pump::Finished,
        (_, Transfer::Failed) => Pump::Finished,
        (Pump::Reading, Transfer::Read(n)) => if n == 0 {
            Pump::Finished
        } else {
            Pump::Writing(n)
        },
        (Pump::Writing(pending), Transfer::Wrote(n)) => if n == 0 || n > pending {
            Pump::Finished
        } else if n == pending {
            Pump::Reading
        } else {
            Pump::Writing((pending - n) as usize)
        },
        _ => pump,
    }
}

/// The bytes that are read and not yet written.
pub open spec fn pending(pump: Pump) -> nat {
    match pump {
        Pump::Writing(n) => n as nat,
        _ => 0,
    }
}

/// No byte is lost or made up while a direction runs: after a read the
/// bytes read are pending, and after a write that the pump waited for, what
/// was written and what is still pending make up what was pending before.
pub proof fn lemma_pump_keeps_bytes(pump: Pump, transfer: Transfer)
    requires
        pump_next(pump, transfer) != Pump::Finished,
    ensures
        match (pump, transfer) {
            (Pump::Reading, Transfer::Read(n)) => pending(pump_next(pump, transfer)) == n,
            (Pump::Writing(p), Transfer::Wrote(n)) => n + pending(pump_next(pump, transfer)) == p,
            _ => pump_next(pump, transfer) == pump,
        },
{
}

/// Decides how the pump of one direction goes on after a read or a write.
pub fn pump_step(pump: Pump, transfer: Transfer) -> (r: Pump)
    ensures
        r == pump_next(pump, transfer),
{
    match pump {
        Pump::Finished => Pump::Finished,
        Pump::Reading => match transfer {
            Transfer::Failed => Pump::Finished,
            Transfer::Read(n) => if n == 0 {
                Pump::Finished
            } else {
                Pump::Writing(n)
            },
            Transfer::Wrote(_) => pump,
        },
        Pump::Writing(pending) => match transfer {
            Transfer::Failed => Pump::Finished,
            Transfer::Wrote(n) => if n == 0 || n > pending {
                Pump::Finished
            } else if n == pending {
                Pump::Reading
            } else {
                Pump::Writing(pending - n)
            },
            Transfer::Read(_) => pump,
        },
    }
}

} // verus!
