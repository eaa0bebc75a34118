//! Configuration of the HTTP/2 transport, and the rules by which a connection is kept and closed.

use crate::server::interceptor::http2_framing::{DeframeConfig, DEFAULT_MAX_MESSAGE_SIZE};
use std::time::Duration;
use vstd::prelude::*;

verus! {

/// Configuration of the HTTP/2 transport.
///
/// A field that is `None` leaves the transport's default in place.
#[derive(Debug, Clone, Copy, PartialEq, Eq)]
pub struct Http2Config {
    /// The largest payload of a message that is accepted, in bytes. The default is 4 MB.
    pub max_message_size: Option<usize>,
    /// The number of streams that one connection may have at a time.
    pub max_concurrent_streams: Option<u32>,
    /// The flow control window of a connection at its beginning.
    pub initial_connection_window_size: Option<u32>,
    /// The flow control window of a stream at its beginning.
    pub initial_stream_window_size: Option<u32>,
    /// After how long without activity a PING is sent.
    pub keep_alive_interval: Option<Duration>,
    /// How long the answer to a PING may take.
    pub keep_alive_timeout: Option<Duration>,
    /// How long a connection may exist before it is told to go away.
    pub max_connection_age: Option<Duration>,
    /// How long calls may go on after that.
    pub max_connection_age_grace: Option<Duration>,
}

/// The configuration in which nothing is set.
pub open spec fn default_config() -> Http2Config {
    Http2Config {
        max_message_size: None,
        max_concurrent_streams: None,
        initial_connection_window_size: None,
        initial_stream_window_size: None,
        keep_alive_interval: None,
        keep_alive_timeout: None,
        max_connection_age: None,
        max_connection_age_grace: None,
    }
}

impl Default for Http2Config {
    fn default() -> (r: Self)
        ensures
            r == default_config(),
    {
        Http2Config {
            max_message_size: None,
            max_concurrent_streams: None,
            initial_connection_window_size: None,
            initial_stream_window_size: None,
            keep_alive_interval: None,
            keep_alive_timeout: None,
            max_connection_age: None,
            max_connection_age_grace: None,
        }
    }
}

impl Http2Config {
    /// A configuration in which nothing is set.
    pub fn builder() -> (r: Self)
        ensures
            r == default_config(),
    {
        Http2Config::default()
    }

    /// Sets the largest payload of a message that is accepted, in bytes.
    pub fn max_message_size(self, size: usize) -> (r: Self)
        ensures
            r == (Http2Config { max_message_size: Some(size), ..self }),
    {
        Http2Config { max_message_size: Some(size), ..self }
    }

    /// Sets the number of streams that one connection may have at a time.
    pub fn max_concurrent_streams(self, max: u32) -> (r: Self)
        ensures
            r == (Http2Config { max_concurrent_streams: Some(max), ..self }),
    {
        Http2Config { max_concurrent_streams: Some(max), ..self }
    }

    /// Sets the flow control window of a connection at its beginning.
    pub fn initial_connection_window_size(self, size: u32) -> (r: Self)
        ensures
            r == (Http2Config { initial_connection_window_size: Some(size), ..self }),
    {
        Http2Config { initial_connection_window_size: Some(size), ..self }
    }

    /// Sets the flow control window of a stream at its beginning.
    pub fn initial_stream_window_size(self, size: u32) -> (r: Self)
        ensures
            r == (Http2Config { initial_stream_window_size: Some(size), ..self }),
    {
        Http2Config { initial_stream_window_size: Some(size), ..self }
    }

    /// Sets after how long without activity a PING is sent, and how long its answer may take
    /// before the connection is closed.
    pub fn keep_alive(self, interval: Duration, timeout: Duration) -> (r: Self)
        ensures
            r == (Http2Config {
                keep_alive_interval: Some(interval),
                keep_alive_timeout: Some(timeout),
                ..self
            }),
    {
        Http2Config {
            keep_alive_interval: Some(interval),
            keep_alive_timeout: Some(timeout),
            ..self
        }
    }

    /// Sets how long a connection may exist before it is told to go away.
    pub fn max_connection_age(self, age: Duration) -> (r: Self)
        ensures
            r == (Http2Config { max_connection_age: Some(age), ..self }),
    {
        Http2Config { max_connection_age: Some(age), ..self }
    }

    /// Sets how long calls may go on after the connection was told to go away because of its age.
    /// Without it, they may go on until they are done. It has no effect without
    /// `max_connection_age`.
    pub fn max_connection_age_grace(self, grace: Duration) -> (r: Self)
        ensures
            r == (Http2Config { max_connection_age_grace: Some(grace), ..self }),
    {
        Http2Config { max_connection_age_grace: Some(grace), ..self }
    }

    /// The finished configuration.
    pub fn build(self) -> (r: Self)
        ensures
            r == self,
    {
        self
    }

    /// The configuration of the deframing layer.
    pub open spec fn spec_deframe_config(&self) -> DeframeConfig {
        DeframeConfig {
            max_message_size: match self.max_message_size {
                Some(n) => n,
                None => DEFAULT_MAX_MESSAGE_SIZE,
            },
        }
    }

    /// The configuration of the deframing layer.
    pub fn deframe_config(&self) -> (r: DeframeConfig)
        ensures
            r == self.spec_deframe_config(),
    {
        DeframeConfig {
            max_message_size: match self.max_message_size {
                Some(n) => n,
                None => DEFAULT_MAX_MESSAGE_SIZE,
            },
        }
    }
}

/// A listener with the configuration of its connections.
pub struct HyperTransport<L> {
    listener: L,
    config: Http2Config,
}

impl<L> HyperTransport<L> {
    /// The listener.
    pub closed spec fn spec_listener(&self) -> L {
        self.listener
    }

    /// The configuration.
    pub closed spec fn spec_config(&self) -> Http2Config {
        self.config
    }

    /// A transport with the default configuration.
    pub fn new(listener: L) -> (r: Self)
        ensures
            r.spec_listener() == listener,
            r.spec_config() == default_config(),
    {
        HyperTransport { listener, config: Http2Config::default() }
    }

    /// The same transport with another configuration, which all connections will have that are
    /// accepted from it.
    pub fn with_config(self, config: Http2Config) -> (r: Self)
        ensures
            r.spec_listener() == self.spec_listener(),
            r.spec_config() == config,
    {
        HyperTransport { listener: self.listener, config }
    }

    /// The listener.
    pub fn listener(&self) -> (r: &L)
        ensures
            *r == self.spec_listener(),
    {
        &self.listener
    }

    /// A connection that was accepted from this transport.
    pub fn connection<T>(&self, io: T) -> (r: HyperConnection<T>)
        ensures
            r.spec_io() == io,
            r.spec_config() == self.spec_config(),
    {
        HyperConnection { io, config: self.config }
    }
}

/// A connection with its configuration.
pub struct HyperConnection<T> {
    io: T,
    config: Http2Config,
}

impl<T> HyperConnection<T> {
    /// What is read and written.
    pub closed spec fn spec_io(&self) -> T {
        self.io
    }

    /// The configuration.
    pub closed spec fn spec_config(&self) -> Http2Config {
        self.config
    }

    /// What is read and written, and the configuration.
    pub fn into_parts(self) -> (r: (T, Http2Config))
        ensures
            r.0 == self.spec_io(),
            r.1 == self.spec_config(),
    {
        (self.io, self.config)
    }
}

/// What a connection that is being served waits for.
#[derive(Debug, Clone, Copy, PartialEq, Eq, Structural)]
pub enum ConnectionEvent {
    /// The connection has come to its end.
    Done,
    /// The server shuts down.
    Shutdown,
    /// The connection has reached its greatest age.
    AgeReached,
    /// The time is over that calls had after the connection was told to go away.
    GraceOver,
}

/// What is to be done with a connection.
#[derive(Debug, Clone, Copy, PartialEq, Eq)]
pub enum ConnectionAction {
    /// Send GOAWAY, let the calls go on, and start a timer for them where there is one.
    GoAway(Option<Duration>),
    /// Drop the connection.
    Close,
}

/// What a connection is still to be told.
#[derive(Debug, Clone, Copy, PartialEq, Eq, Structural)]
pub struct ConnectionState {
    /// Whether the timer of the greatest age runs.
    pub age_armed: bool,
    /// Whether the timer for calls that go on runs.
    pub grace_armed: bool,
    /// Whether the server may still say that it shuts down.
    pub shutdown_armed: bool,
}

/// The rules by which one connection is kept and closed.
#[derive(Debug, Clone, Copy, PartialEq, Eq)]
pub struct ConnectionLoop {
    config: Http2Config,
    state: ConnectionState,
}

impl ConnectionLoop {
    /// The configuration.
    pub closed spec fn spec_config(&self) -> Http2Config {
        self.config
    }

    /// What the connection is still to be told.
    pub closed spec fn spec_state(&self) -> ConnectionState {
        self.state
    }

    /// The loop of a connection that begins. `shutdown` says whether the server may tell it to
    /// shut down.
    pub fn new(config: Http2Config, shutdown: bool) -> (r: Self)
        ensures
            r.spec_config() == config,
            r.spec_state() == (ConnectionState {
                age_armed: config.max_connection_age is Some,
                grace_armed: false,
                shutdown_armed: shutdown,
            }),
    {
        ConnectionLoop {
            config,
            state: ConnectionState {
                age_armed: config.max_connection_age.is_some(),
                grace_armed: false,
                shutdown_armed: shutdown,
            },
        }
    }

    /// What the connection is still to be told.
    pub fn state(&self) -> (r: ConnectionState)
        ensures
            r == self.spec_state(),
    {
        self.state
    }

    /// Says what is to be done at an event.
    pub fn step(&mut self, event: ConnectionEvent) -> (r: ConnectionAction)
        requires
            can_see(old(self).spec_state(), event),
        ensures
            r == action_at(old(self).spec_config(), event),
            final(self).spec_config() == old(self).spec_config(),
            final(self).spec_state() == state_after(
                old(self).spec_config(),
                old(self).spec_state(),
                event,
            ),
    {
        match event {
            ConnectionEvent::Done => ConnectionAction::Close,
            ConnectionEvent::Shutdown => {
                self.state.shutdown_armed = false;
                ConnectionAction::GoAway(None)
            },
            ConnectionEvent::AgeReached => {
                self.state.age_armed = false;
                if self.config.max_connection_age_grace.is_some() {
                    self.state.grace_armed = true;
                }
                ConnectionAction::GoAway(self.config.max_connection_age_grace)
            },
            ConnectionEvent::GraceOver => ConnectionAction::Close,
        }
    }
}

/// Whether an event can come: a timer fires only while it runs, and the server says only once
/// that it shuts down.
pub open spec fn can_see(s: ConnectionState, event: ConnectionEvent) -> bool {
    match event {
        ConnectionEvent::Done => true,
        ConnectionEvent::Shutdown => s.shutdown_armed,
        ConnectionEvent::AgeReached => s.age_armed,
        ConnectionEvent::GraceOver => s.grace_armed,
    }
}

/// What is to be done at an event.
pub open spec fn action_at(config: Http2Config, event: ConnectionEvent) -> ConnectionAction {
    match event {
        ConnectionEvent::Done => ConnectionAction::Close,
        ConnectionEvent::Shutdown => ConnectionAction::GoAway(None),
        ConnectionEvent::AgeReached => ConnectionAction::GoAway(config.max_connection_age_grace),
        ConnectionEvent::GraceOver => ConnectionAction::Close,
    }
}

/// The state after an event.
pub open spec fn state_after(
    config: Http2Config,
    s: ConnectionState,
    event: ConnectionEvent,
) -> ConnectionState {
    match event {
        ConnectionEvent::Done => s,
        ConnectionEvent::Shutdown => ConnectionState { shutdown_armed: false, ..s },
        ConnectionEvent::AgeReached => ConnectionState {
            age_armed: false,
            grace_armed: s.grace_armed || config.max_connection_age_grace is Some,
            ..s
        },
        ConnectionEvent::GraceOver => s,
    }
}

/// The state of a connection after a list of events.
pub open spec fn state_after_all(
    config: Http2Config,
    shutdown: bool,
    events: Seq<ConnectionEvent>,
) -> ConnectionState
    decreases events.len(),
{
    if events.len() == 0 {
        ConnectionState {
            age_armed: config.max_connection_age is Some,
            grace_armed: false,
            shutdown_armed: shutdown,
        }
    } else {
        state_after(config, state_after_all(config, shutdown, events.drop_last()), events.last())
    }
}

/// Whether a list of events can come, in this order.
pub open spec fn can_see_all(
    config: Http2Config,
    shutdown: bool,
    events: Seq<ConnectionEvent>,
) -> bool
    decreases events.len(),
{
    events.len() == 0 || (can_see_all(config, shutdown, events.drop_last()) && can_see(
        state_after_all(config, shutdown, events.drop_last()),
        events.last(),
    ))
}

/// How often an event stands in a list.
pub open spec fn times(events: Seq<ConnectionEvent>, event: ConnectionEvent) -> nat
    decreases events.len(),
{
    if events.len() == 0 {
        0
    } else {
        times(events.drop_last(), event) + if events.last() == event {
            1nat
        } else {
            0nat
        }
    }
}

/// Whatever happens, a connection is told at most once to go away because of its age, and at most
/// once because the server shuts down; it is closed by force only where both the greatest age and
/// the grace are set, and only after it was told to go away because of its age.
pub proof fn law_goaway_and_grace(
    config: Http2Config,
    shutdown: bool,
    events: Seq<ConnectionEvent>,
)
    requires
        can_see_all(config, shutdown, events),
    ensures
        times(events, ConnectionEvent::AgeReached) <= 1,
        times(events, ConnectionEvent::Shutdown) <= 1,
        times(events, ConnectionEvent::AgeReached) > 0 ==> config.max_connection_age is Some,
        times(events, ConnectionEvent::Shutdown) > 0 ==> shutdown,
        times(events, ConnectionEvent::GraceOver) > 0 ==> {
            &&& config.max_connection_age is Some
            &&& config.max_connection_age_grace is Some
            &&& times(events, ConnectionEvent::AgeReached) == 1
        },
{
    lemma_events(config, shutdown, events);
}

proof fn lemma_events(config: Http2Config, shutdown: bool, events: Seq<ConnectionEvent>)
    requires
        can_see_all(config, shutdown, events),
    ensures
        ({
            let s = state_after_all(config, shutdown, events);
            let age = times(events, ConnectionEvent::AgeReached);
            let down = times(events, ConnectionEvent::Shutdown);
            &&& age <= 1
            &&& down <= 1
            &&& s.age_armed == (config.max_connection_age is Some && age == 0)
            &&& age == 1 ==> config.max_connection_age is Some
            &&& s.shutdown_armed == (shutdown && down == 0)
            &&& down == 1 ==> shutdown
            &&& s.grace_armed == (age == 1 && config.max_connection_age_grace is Some)
            &&& times(events, ConnectionEvent::GraceOver) > 0 ==> s.grace_armed
        }),
    decreases events.len(),
{
    if events.len() > 0 {
        lemma_events(config, shutdown, events.drop_last());
    }
}


/// The limit on messages is the one that was set, whatever else is set, and 4 MB where none was.
pub proof fn law_message_limit(config: Http2Config)
    ensures
        config.max_message_size matches Some(n) ==> config.spec_deframe_config().max_message_size
            == n,
        config.max_message_size is None ==> config.spec_deframe_config().max_message_size == 4
            * 1024 * 1024,
{
}

/// A connection is dropped only once it is done or its grace is over; it is told to go away
/// whenever the server shuts down, without a limit on its calls, and whenever it has reached its
/// age, with the grace that is set as the limit.
pub proof fn law_connection_actions(config: Http2Config, event: ConnectionEvent)
    ensures
        action_at(config, event) is Close <==> event == ConnectionEvent::Done || event
            == ConnectionEvent::GraceOver,
        event == ConnectionEvent::Shutdown ==> action_at(config, event)->GoAway_0 is None,
        event == ConnectionEvent::AgeReached ==> action_at(config, event)->GoAway_0
            == config.max_connection_age_grace,
{
}

/// What each event leaves to come: a shutdown ends only the waiting for one, so that a greatest age
/// and a grace still count; a greatest age that was reached is not reached again, and starts the
/// grace where one is set.
pub proof fn law_events_leave_the_rest(
    config: Http2Config,
    s: ConnectionState,
    event: ConnectionEvent,
)
    requires
        can_see(s, event),
    ensures
        ({
            let after = state_after(config, s, event);
            &&& after.shutdown_armed == (s.shutdown_armed && event != ConnectionEvent::Shutdown)
            &&& after.age_armed == (s.age_armed && event != ConnectionEvent::AgeReached)
            &&& after.grace_armed == (s.grace_armed || (event == ConnectionEvent::AgeReached
                && config.max_connection_age_grace is Some))
        }),
{
}


/// The default configuration sets nothing.
pub proof fn law_default_sets_nothing()
    ensures
        ({
            let c = default_config();
            &&& c.max_message_size is None && c.max_concurrent_streams is None
            &&& c.initial_connection_window_size is None && c.initial_stream_window_size is None
            &&& c.keep_alive_interval is None && c.keep_alive_timeout is None
            &&& c.max_connection_age is None && c.max_connection_age_grace is None
        }),
{
}

} // verus!
