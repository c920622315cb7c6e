//! The lifecycle of a connection, as a state machine on plain values.
//!
//! ```text
//! Connecting -> Open -> { Closing, Errored } -> Closed
//! ```
//!
//! The machine only decides; whoever owns the stream performs the reads and
//! writes and reports what happened as an `Event`.

use vstd::prelude::*;

verus! {

/// Where a connection stands in its life.
#[derive(Clone, Copy, Debug, PartialEq, Eq, Structural)]
pub enum ConnectionState {
    /// The handshake, or the accept, is still under way.
    Connecting,
    /// Both halves can be used.
    Open,
    /// The peer has shut down in good order: no further frame will arrive.
    Closing,
    /// A transport error or a protocol violation ended the connection.
    Errored,
    /// Both halves are released. Nothing more is permitted.
    Closed,
}

/// What the owner of the stream reports to the machine.
#[derive(Clone, Copy, Debug, PartialEq, Eq, Structural)]
pub enum Event {
    /// The handshake, or the accept, succeeded.
    Established,
    /// A read returned no bytes.
    EndOfStream,
    /// Connecting, reading or writing failed, or the framing was violated.
    Failure,
    /// The buffer was looked at after the end of the stream; `partial` says
    /// whether part of a frame was still held.
    BoundaryChecked { partial: bool },
    /// The owner released the halves.
    Released,
}

impl ConnectionState {
    /// How far along its life a connection in this state is.
    pub open spec fn rank(self) -> nat {
        match self {
            ConnectionState::Connecting => 0,
            ConnectionState::Open => 1,
            ConnectionState::Closing => 2,
            ConnectionState::Errored => 3,
            ConnectionState::Closed => 4,
        }
    }

    /// Whether bytes may still be read and written.
    pub open spec fn spec_is_open(self) -> bool {
        self == ConnectionState::Open
    }

    /// Whether the connection has ended, in good order or not.
    pub open spec fn spec_is_finished(self) -> bool {
        self == ConnectionState::Errored || self == ConnectionState::Closed
    }

    /// Whether bytes may still be read and written.
    pub fn is_open(&self) -> (b: bool)
        ensures
            b == self.spec_is_open(),
    {
        match self {
            ConnectionState::Open => true,
            _ => false,
        }
    }

    /// Whether the connection has ended, in good order or not.
    pub fn is_finished(&self) -> (b: bool)
        ensures
            b == self.spec_is_finished(),
    {
        match self {
            ConnectionState::Errored => true,
            ConnectionState::Closed => true,
            _ => false,
        }
    }
}

/// Whether `event` means anything in `state`.
pub open spec fn permitted(state: ConnectionState, event: Event) -> bool {
    match (state, event) {
        (ConnectionState::Connecting, Event::Established) => true,
        (ConnectionState::Connecting, Event::Failure) => true,
        (ConnectionState::Open, Event::EndOfStream) => true,
        (ConnectionState::Open, Event::Failure) => true,
        (ConnectionState::Closing, Event::BoundaryChecked { .. }) => true,
        (ConnectionState::Errored, Event::Released) => true,
        _ => false,
    }
}

/// The state after `event`. An event that is not permitted changes nothing.
pub open spec fn next_state(state: ConnectionState, event: Event) -> ConnectionState {
    match (state, event) {
        (ConnectionState::Connecting, Event::Established) => ConnectionState::Open,
        (ConnectionState::Connecting, Event::Failure) => ConnectionState::Errored,
        (ConnectionState::Open, Event::EndOfStream) => ConnectionState::Closing,
        (ConnectionState::Open, Event::Failure) => ConnectionState::Errored,
        (ConnectionState::Closing, Event::BoundaryChecked { partial }) => if partial {
            ConnectionState::Errored
        } else {
            ConnectionState::Closed
        },
        (ConnectionState::Errored, Event::Released) => ConnectionState::Closed,
        _ => state,
    }
}

/// Moves the machine by one event.
pub fn step(state: ConnectionState, event: Event) -> (next: ConnectionState)
    ensures
        next == next_state(state, event),
{
    match (state, event) {
        (ConnectionState::Connecting, Event::Established) => ConnectionState::Open,
        (ConnectionState::Connecting, Event::Failure) => ConnectionState::Errored,
        (ConnectionState::Open, Event::EndOfStream) => ConnectionState::Closing,
        (ConnectionState::Open, Event::Failure) => ConnectionState::Errored,
        (ConnectionState::Closing, Event::BoundaryChecked { partial }) => if partial {
            ConnectionState::Errored
        } else {
            ConnectionState::Closed
        },
        (ConnectionState::Errored, Event::Released) => ConnectionState::Closed,
        _ => state,
    }
}

/// Whether `event` means anything in `state`.
pub fn is_permitted(state: ConnectionState, event: Event) -> (b: bool)
    ensures
        b == permitted(state, event),
{
    match (state, event) {
        (ConnectionState::Connecting, Event::Established) => true,
        (ConnectionState::Connecting, Event::Failure) => true,
        (ConnectionState::Open, Event::EndOfStream) => true,
        (ConnectionState::Open, Event::Failure) => true,
        (ConnectionState::Closing, Event::BoundaryChecked { .. }) => true,
        (ConnectionState::Errored, Event::Released) => true,
        _ => false,
    }
}

/// The state after a run of events, taken in order.
pub open spec fn state_after(state: ConnectionState, events: Seq<Event>) -> ConnectionState
    decreases events.len(),
{
    if events.len() == 0 {
        state
    } else {
        state_after(next_state(state, events[0]), events.drop_first())
    }
}

/// A permitted event moves the connection forward, any other leaves it
/// where it is: no event moves it back.
pub proof fn lemma_step_moves_forward(state: ConnectionState, event: Event)
    ensures
        permitted(state, event) ==> next_state(state, event).rank() > state.rank(),
        !permitted(state, event) ==> next_state(state, event) == state,
{
}

/// No run of events moves a connection back, and none leads out of
/// `Closed`.
pub proof fn lemma_life_moves_forward(state: ConnectionState, events: Seq<Event>)
    ensures
        state_after(state, events).rank() >= state.rank(),
        state == ConnectionState::Closed ==> state_after(state, events) == ConnectionState::Closed,
    decreases events.len(),
{
    if events.len() != 0 {
        lemma_step_moves_forward(state, events[0]);
        lemma_life_moves_forward(next_state(state, events[0]), events.drop_first());
    }
}

/// Once a connection has left `Open` it is never open again.
pub proof fn lemma_never_reopens(state: ConnectionState, events: Seq<Event>)
    requires
        state.rank() > ConnectionState::Open.rank(),
    ensures
        !state_after(state, events).spec_is_open(),
{
    lemma_life_moves_forward(state, events);
}

/// What the acceptor learns from the transport.
#[derive(Clone, Copy, Debug, PartialEq, Eq, Structural)]
pub enum AcceptorEvent {
    /// The listening address could not be bound.
    BindFailed,
    /// A stream was accepted.
    Accepted,
    /// One attempt to accept failed.
    AcceptFailed,
}

/// What the acceptor does next.
#[derive(Clone, Copy, Debug, PartialEq, Eq, Structural)]
pub enum AcceptorAction {
    /// Give up: no connection is possible.
    Abort,
    /// Hand the stream to a read loop of its own and go on accepting.
    Serve,
    /// Go on accepting.
    Retry,
}

/// What the acceptor does on `event`: only a failed bind ends it.
pub open spec fn acceptor_rule(event: AcceptorEvent) -> AcceptorAction {
    match event {
        AcceptorEvent::BindFailed => AcceptorAction::Abort,
        AcceptorEvent::Accepted => AcceptorAction::Serve,
        AcceptorEvent::AcceptFailed => AcceptorAction::Retry,
    }
}

/// Decides what the acceptor does on `event`.
pub fn acceptor_action(event: AcceptorEvent) -> (action: AcceptorAction)
    ensures
        action == acceptor_rule(event),
{
    match event {
        AcceptorEvent::BindFailed => AcceptorAction::Abort,
        AcceptorEvent::Accepted => AcceptorAction::Serve,
        AcceptorEvent::AcceptFailed => AcceptorAction::Retry,
    }
}

} // verus!
