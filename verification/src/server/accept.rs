//! The rules by which a server accepts connections and comes to its end.

use vstd::prelude::*;

verus! {

/// What a serving loop waits for.
pub enum AcceptEvent {
    /// A connection was accepted.
    Connection,
    /// The listener will give no more connections.
    ListenerClosed,
    /// The signal to shut down came.
    Shutdown,
    /// A connection that is being served has come to its end.
    ConnectionDone,
}

/// What is to be done.
#[derive(Debug, Clone, Copy, PartialEq, Eq, Structural)]
pub enum AcceptAction {
    /// Serve the connection that was accepted.
    Serve,
    /// Drop the connection that was accepted.
    Drop,
    /// Tell all open connections to shut down, accept no more and wait for them.
    NotifyAndDrain,
    /// Accept no more connections and wait for the open ones.
    Drain,
    /// Go on as before.
    Wait,
    /// Return: nothing is accepted any more and no connection is open.
    Return,
}

/// The state of a serving loop.
#[derive(Debug, Clone, Copy, PartialEq, Eq, Structural)]
pub struct AcceptLoop {
    has_handler: bool,
    accepting: bool,
    notified: bool,
    open: u64,
}

/// What an [`AcceptLoop`] knows.
pub struct AcceptState {
    /// Whether there is a handler to serve connections.
    pub has_handler: bool,
    /// Whether connections are accepted.
    pub accepting: bool,
    /// Whether the connections were told to shut down.
    pub notified: bool,
    /// The number of connections that are being served.
    pub open: nat,
}

impl View for AcceptLoop {
    type V = AcceptState;

    closed spec fn view(&self) -> AcceptState {
        AcceptState {
            has_handler: self.has_handler,
            accepting: self.accepting,
            notified: self.notified,
            open: self.open as nat,
        }
    }
}

impl AcceptState {
    /// Whether the loop is over.
    pub open spec fn is_over(self) -> bool {
        !self.accepting && self.open == 0
    }

    /// Whether an event can come in this state: there is something to accept only while
    /// connections are accepted, and something to end only while one is open.
    pub open spec fn can_see(self, event: AcceptEvent) -> bool {
        match event {
            AcceptEvent::Connection => self.accepting,
            AcceptEvent::ListenerClosed => self.accepting,
            AcceptEvent::Shutdown => self.accepting,
            AcceptEvent::ConnectionDone => self.open > 0,
        }
    }

    /// The state after an event.
    pub open spec fn after(self, event: AcceptEvent) -> AcceptState {
        match event {
            AcceptEvent::Connection => if self.has_handler {
                AcceptState { open: self.open + 1, ..self }
            } else {
                self
            },
            AcceptEvent::ListenerClosed => AcceptState { accepting: false, ..self },
            AcceptEvent::Shutdown => AcceptState { accepting: false, notified: true, ..self },
            AcceptEvent::ConnectionDone => AcceptState { open: (self.open - 1) as nat, ..self },
        }
    }

    /// What is to be done at an event.
    pub open spec fn action(self, event: AcceptEvent) -> AcceptAction {
        match event {
            AcceptEvent::Connection => if self.has_handler {
                AcceptAction::Serve
            } else {
                AcceptAction::Drop
            },
            AcceptEvent::ListenerClosed => if self.open == 0 {
                AcceptAction::Return
            } else {
                AcceptAction::Drain
            },
            AcceptEvent::Shutdown => if self.open == 0 {
                AcceptAction::Return
            } else {
                AcceptAction::NotifyAndDrain
            },
            AcceptEvent::ConnectionDone => if self.after(event).is_over() {
                AcceptAction::Return
            } else {
                AcceptAction::Wait
            },
        }
    }
}

impl AcceptLoop {
    /// The loop of a server that begins to accept connections.
    pub fn new(has_handler: bool) -> (r: Self)
        ensures
            r@ == (AcceptState { has_handler, accepting: true, notified: false, open: 0 }),
    {
        AcceptLoop { has_handler, accepting: true, notified: false, open: 0 }
    }

    /// Whether connections are accepted.
    pub fn is_accepting(&self) -> (r: bool)
        ensures
            r == self@.accepting,
    {
        self.accepting
    }

    /// Says what is to be done at an event.
    pub fn step(&mut self, event: AcceptEvent) -> (r: AcceptAction)
        requires
            old(self)@.can_see(event),
            old(self)@.open < u64::MAX,
        ensures
            r == old(self)@.action(event),
            final(self)@ == old(self)@.after(event),
    {
        match event {
            AcceptEvent::Connection => if self.has_handler {
                self.open = self.open + 1;
                AcceptAction::Serve
            } else {
                AcceptAction::Drop
            },
            AcceptEvent::ListenerClosed => {
                self.accepting = false;
                if self.open == 0 {
                    AcceptAction::Return
                } else {
                    AcceptAction::Drain
                }
            },
            AcceptEvent::Shutdown => {
                self.accepting = false;
                self.notified = true;
                if self.open == 0 {
                    AcceptAction::Return
                } else {
                    AcceptAction::NotifyAndDrain
                }
            },
            AcceptEvent::ConnectionDone => {
                self.open = self.open - 1;
                if !self.accepting && self.open == 0 {
                    AcceptAction::Return
                } else {
                    AcceptAction::Wait
                }
            },
        }
    }
}

/// A serving loop returns exactly when nothing is accepted any more and the last connection has
/// come to its end.
pub proof fn law_returns_when_drained(s: AcceptState, event: AcceptEvent)
    requires
        s.can_see(event),
        !s.is_over(),
    ensures
        s.action(event) == AcceptAction::Return <==> s.after(event).is_over(),
{
}

/// Once a loop has stopped accepting it never begins again: no connection can be accepted, and
/// the number of open ones only falls.
pub proof fn law_stops_for_good(s: AcceptState, event: AcceptEvent)
    requires
        s.can_see(event),
        !s.accepting,
    ensures
        !(event is Connection),
        !s.after(event).accepting,
        s.after(event).open < s.open,
        s.after(event).notified == s.notified,
{
}


/// What each event asks for: a connection is served exactly where there is a handler, and dropped
/// otherwise; the open connections are told to shut down at the signal, and only then; and without
/// the signal a closed listener lets them come to their end.
pub proof fn law_actions_follow_events(s: AcceptState, event: AcceptEvent)
    requires
        s.can_see(event),
    ensures
        s.action(event) == AcceptAction::Serve <==> event is Connection && s.has_handler,
        s.action(event) == AcceptAction::Drop <==> event is Connection && !s.has_handler,
        s.action(event) == AcceptAction::NotifyAndDrain <==> event is Shutdown && s.open > 0,
        s.action(event) == AcceptAction::Drain <==> event is ListenerClosed && s.open > 0,
        s.action(event) == AcceptAction::Wait <==> event is ConnectionDone && (s.accepting || s.open
            > 1),
{
}

/// The state after a list of events.
pub open spec fn after_all(s: AcceptState, events: Seq<AcceptEvent>) -> AcceptState
    decreases events.len(),
{
    if events.len() == 0 {
        s
    } else {
        after_all(s, events.drop_last()).after(events.last())
    }
}

/// Whether a list of events can come, in this order.
pub open spec fn can_see_all(s: AcceptState, events: Seq<AcceptEvent>) -> bool
    decreases events.len(),
{
    events.len() == 0 || (can_see_all(s, events.drop_last()) && after_all(
        s,
        events.drop_last(),
    ).can_see(events.last()))
}

/// How many connections were accepted.
pub open spec fn accepted(events: Seq<AcceptEvent>) -> int
    decreases events.len(),
{
    if events.len() == 0 {
        0
    } else {
        accepted(events.drop_last()) + if events.last() is Connection {
            1int
        } else {
            0int
        }
    }
}

/// How many connections came to their end.
pub open spec fn done(events: Seq<AcceptEvent>) -> int
    decreases events.len(),
{
    if events.len() == 0 {
        0
    } else {
        done(events.drop_last()) + if events.last() is ConnectionDone {
            1int
        } else {
            0int
        }
    }
}

/// Whatever happened since a server began to accept connections: those that were accepted and are
/// not done are open, if there is a handler to serve them; connections are accepted until the
/// listener is closed or the signal to shut down comes; and the connections were told to shut down
/// exactly where the signal came.
pub proof fn law_connections_are_counted(start: AcceptState, events: Seq<AcceptEvent>)
    requires
        start.accepting,
        !start.notified,
        start.open == 0,
        can_see_all(start, events),
    ensures
        ({
            let now = after_all(start, events);
            &&& now.has_handler == start.has_handler
            &&& now.open == if start.has_handler {
                accepted(events) - done(events)
            } else {
                0
            }
            &&& now.accepting <==> forall|i: int|
                0 <= i < events.len() ==> !((#[trigger] events[i]) is ListenerClosed)
                    && !(events[i] is Shutdown)
            &&& now.notified <==> exists|i: int|
                0 <= i < events.len() && (#[trigger] events[i]) is Shutdown
        }),
    decreases events.len(),
{
    if events.len() > 0 {
        let init = events.drop_last();
        law_connections_are_counted(start, init);
        let before = after_all(start, init);
        let last = events.len() - 1;
        assert(events[last] == events.last());
        assert forall|i: int| 0 <= i < init.len() implies #[trigger] events[i] == init[i] by {}
        if before.notified {
            let i = choose|i: int| 0 <= i < init.len() && (#[trigger] init[i]) is Shutdown;
            assert(events[i] is Shutdown);
        }
        if !before.accepting {
            let i = choose|i: int|
                0 <= i < init.len() && ((#[trigger] init[i]) is ListenerClosed
                    || init[i] is Shutdown);
            assert(events[i] is ListenerClosed || events[i] is Shutdown);
        }
        if after_all(start, events).accepting {
            assert forall|i: int| 0 <= i < events.len() implies !((
            #[trigger] events[i]) is ListenerClosed) && !(events[i] is Shutdown) by {
                if i < last {
                    assert(events[i] == init[i]);
                }
            }
        }
    }
}


/// What can happen: connections come, and the listener is closed or the server told to shut down,
/// only while connections are accepted; a connection comes to its end only while one is open.
pub proof fn law_what_can_happen(s: AcceptState, event: AcceptEvent)
    ensures
        event is ConnectionDone ==> (s.can_see(event) <==> s.open != 0),
        !(event is ConnectionDone) ==> (s.can_see(event) <==> s.accepting),
{
}

} // verus!
