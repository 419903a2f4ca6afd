//! The handler of one connection: what to do next, given what just happened.
//!
//! A connection serves one request and is closed. Its handler goes through
//! five phases in order, never back: accepted, reading, routing, writing,
//! closed. The handler does no I/O. Whoever drives it performs the action it
//! names and reports the outcome as the next event.

use vstd::prelude::*;
use crate::request::{ParsedRequest, RequestView};
use crate::response::{bad_request_response, lemma_framed_is_framed, ResponseSpec, ResponseView};
use crate::router::{route, routed};

verus! {

/// The phase that a connection is in.
#[derive(Debug)]
pub enum Handler {
    /// The connection was accepted; nothing was read yet.
    Accepted,
    /// The request is being read.
    Reading,
    /// The request was read and waits to be routed.
    Routing(ParsedRequest),
    /// The response is being written.
    Writing,
    /// The connection is closed. No phase follows.
    Closed,
}

/// What happened since the last action was named.
#[derive(Debug)]
pub enum Event {
    /// Nothing that needs reporting: the action named last took no I/O.
    Continue,
    /// The request was read whole.
    Request(ParsedRequest),
    /// The body of the request could not be read; the client can still be
    /// told so.
    ClientError,
    /// The transport failed: the request could not be parsed far enough to
    /// frame an answer, or the response could not be written.
    TransportError,
    /// The response was written whole.
    Written,
}

/// What the driver is to do next.
#[derive(Debug)]
pub enum Action {
    /// Read one request, then report `Request`, `ClientError` or
    /// `TransportError`.
    Read,
    /// Nothing outside: report `Continue`, and the request is routed.
    Route,
    /// Write this response, then report `Written` or `TransportError`.
    Write(ResponseSpec),
    /// Close the connection. Nothing is left to report.
    Close,
}

/// A phase, as a mathematical value.
pub enum HandlerView {
    Accepted,
    Reading,
    Routing(RequestView),
    Writing,
    Closed,
}

/// An event, as a mathematical value.
pub enum EventView {
    Continue,
    Request(RequestView),
    ClientError,
    TransportError,
    Written,
}

/// An action, as a mathematical value.
pub enum ActionView {
    Read,
    Route,
    Write(ResponseView),
    Close,
}

impl View for Handler {
    type V = HandlerView;

    open spec fn view(&self) -> HandlerView {
        match self {
            Handler::Accepted => HandlerView::Accepted,
            Handler::Reading => HandlerView::Reading,
            Handler::Routing(request) => HandlerView::Routing(request@),
            Handler::Writing => HandlerView::Writing,
            Handler::Closed => HandlerView::Closed,
        }
    }
}

impl View for Event {
    type V = EventView;

    open spec fn view(&self) -> EventView {
        match self {
            Event::Continue => EventView::Continue,
            Event::Request(request) => EventView::Request(request@),
            Event::ClientError => EventView::ClientError,
            Event::TransportError => EventView::TransportError,
            Event::Written => EventView::Written,
        }
    }
}

impl View for Action {
    type V = ActionView;

    open spec fn view(&self) -> ActionView {
        match self {
            Action::Read => ActionView::Read,
            Action::Route => ActionView::Route,
            Action::Write(response) => ActionView::Write(response@),
            Action::Close => ActionView::Close,
        }
    }
}

/// The phase that follows `phase` on `event`, and the action that goes with
/// it.
///
/// | phase    | event          | next phase | action                      |
/// |----------|----------------|------------|-----------------------------|
/// | accepted | continue       | reading    | read                        |
/// | reading  | request        | routing    | route                       |
/// | reading  | client error   | writing    | write 400 `Bad Request`     |
/// | routing  | continue       | writing    | write the routed response   |
/// | writing  | written        | closed     | close                       |
/// | any      | anything else  | closed     | close                       |
///
/// The last row takes in every transport error, and every event that the
/// phase does not wait for: the connection is given up, and nothing is
/// written that was not owed.
pub open spec fn next(phase: HandlerView, event: EventView) -> (HandlerView, ActionView) {
    match (phase, event) {
        (HandlerView::Accepted, EventView::Continue) => (HandlerView::Reading, ActionView::Read),
        (HandlerView::Reading, EventView::Request(request)) => (
            HandlerView::Routing(request),
            ActionView::Route,
        ),
        (HandlerView::Reading, EventView::ClientError) => (
            HandlerView::Writing,
            ActionView::Write(bad_request_response()),
        ),
        (HandlerView::Routing(request), EventView::Continue) => (
            HandlerView::Writing,
            ActionView::Write(routed(request)),
        ),
        (HandlerView::Writing, EventView::Written) => (HandlerView::Closed, ActionView::Close),
        _ => (HandlerView::Closed, ActionView::Close),
    }
}

/// The place of a phase in the order of phases.
pub open spec fn rank(phase: HandlerView) -> nat {
    match phase {
        HandlerView::Accepted => 0,
        HandlerView::Reading => 1,
        HandlerView::Routing(_) => 2,
        HandlerView::Writing => 3,
        HandlerView::Closed => 4,
    }
}

impl Handler {
    /// The handler of a connection that was just accepted.
    pub fn new() -> (handler: Handler)
        ensures
            handler@ == HandlerView::Accepted,
    {
        Handler::Accepted
    }

    /// Whether the connection is closed.
    pub fn is_closed(&self) -> (closed: bool)
        ensures
            closed == (self@ is Closed),
    {
        match self {
            Handler::Closed => true,
            _ => false,
        }
    }

    /// Takes one event: gives the phase that follows and the action to
    /// perform.
    pub fn step(self, event: Event) -> (result: (Handler, Action))
        ensures
            (result.0@, result.1@) == next(self@, event@),
            result.1@ matches ActionView::Write(response) ==> response.is_framed(),
    {
        match (self, event) {
            (Handler::Accepted, Event::Continue) => (Handler::Reading, Action::Read),
            (Handler::Reading, Event::Request(request)) => (
                Handler::Routing(request),
                Action::Route,
            ),
            (Handler::Reading, Event::ClientError) => (
                Handler::Writing,
                Action::Write(ResponseSpec::bad_request()),
            ),
            (Handler::Routing(request), Event::Continue) => (
                Handler::Writing,
                Action::Write(route(request)),
            ),
            (Handler::Writing, Event::Written) => (Handler::Closed, Action::Close),
            _ => (Handler::Closed, Action::Close),
        }
    }
}

/// The phases come in order and never again: every step from a phase that is
/// not closed leads to a later phase, and a closed connection stays closed.
pub proof fn lemma_step_moves_forward(phase: HandlerView, event: EventView)
    ensures
        !(phase is Closed) ==> rank(next(phase, event).0) > rank(phase),
        phase is Closed ==> next(phase, event).0 is Closed,
{
}

/// Every connection is closed in the end: whatever the phase and whatever
/// happens, four steps lead to the closed phase.
pub proof fn lemma_closed_within_four_steps(
    phase: HandlerView,
    first: EventView,
    second: EventView,
    third: EventView,
    fourth: EventView,
)
    ensures
        next(next(next(next(phase, first).0, second).0, third).0, fourth).0 is Closed,
{
    let one = next(phase, first).0;
    let two = next(one, second).0;
    let three = next(two, third).0;
    lemma_step_moves_forward(phase, first);
    lemma_step_moves_forward(one, second);
    lemma_step_moves_forward(two, third);
    lemma_step_moves_forward(three, fourth);
}

/// The connection is closed exactly when the action is to close it, and a
/// transport error closes it from any phase.
pub proof fn lemma_close_means_closed(phase: HandlerView, event: EventView)
    ensures
        next(phase, event).0 is Closed <==> next(phase, event).1 is Close,
        next(phase, EventView::TransportError).0 is Closed,
{
}

/// Nothing is written but a framed response: whenever the action is to
/// write, the response to write carries the content length of its body and
/// says that the connection closes.
pub proof fn lemma_written_response_is_framed(phase: HandlerView, event: EventView)
    ensures
        next(phase, event).1 matches ActionView::Write(response) ==> response.is_framed(),
{
    match next(phase, event).1 {
        ActionView::Write(response) => {
            lemma_framed_is_framed(Seq::empty(), response.body, response.status);
        },
        _ => {},
    }
}

/// A request that is read is answered by its route: from acceptance, the
/// events of an undisturbed cycle lead through all five phases in order, and
/// what is written is the routed response to the request that was read.
pub proof fn lemma_undisturbed_cycle(request: RequestView)
    ensures
        next(HandlerView::Accepted, EventView::Continue) == (
            HandlerView::Reading,
            ActionView::Read,
        ),
        next(HandlerView::Reading, EventView::Request(request)) == (
            HandlerView::Routing(request),
            ActionView::Route,
        ),
        next(HandlerView::Routing(request), EventView::Continue) == (
            HandlerView::Writing,
            ActionView::Write(routed(request)),
        ),
        next(HandlerView::Writing, EventView::Written) == (
            HandlerView::Closed,
            ActionView::Close,
        ),
{
}

/// The phases of several connections after the one at `which` has taken
/// `event`. The others are where they were.
pub open spec fn stepped(connections: Seq<HandlerView>, which: int, event: EventView) -> Seq<
    HandlerView,
> {
    connections.update(which, next(connections[which], event).0)
}

/// Connections do not touch each other: whichever of two connections takes
/// its event first, both end in the same phases and each is given the same
/// action, made of nothing but its own phase and its own event.
pub proof fn lemma_connections_are_independent(
    connections: Seq<HandlerView>,
    one: int,
    event_of_one: EventView,
    other: int,
    event_of_other: EventView,
)
    requires
        0 <= one < connections.len(),
        0 <= other < connections.len(),
        one != other,
    ensures
        stepped(stepped(connections, one, event_of_one), other, event_of_other) == stepped(
            stepped(connections, other, event_of_other),
            one,
            event_of_one,
        ),
        next(stepped(connections, one, event_of_one)[other], event_of_other) == next(
            connections[other],
            event_of_other,
        ),
        next(stepped(connections, other, event_of_other)[one], event_of_one) == next(
            connections[one],
            event_of_one,
        ),
{
    assert(stepped(stepped(connections, one, event_of_one), other, event_of_other) =~= stepped(
        stepped(connections, other, event_of_other),
        one,
        event_of_one,
    ));
}

} // verus!
