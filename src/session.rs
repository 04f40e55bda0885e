//! One open channel view: its connection state machine, its pause and
//! shutdown flags, and the courier that its receive loop fills.
//!
//! The receive loop itself runs outside the library, on a thread of its own;
//! for each event it asks `Session::receive` what to do. Each connection
//! attempt gets a new generation number, so a loop left over from an earlier
//! connection is told to stop.
use crate::courier::{Courier, SendError};
use crate::text::{lower_of, lowercase};
use vstd::prelude::*;

verus! {

/// How many events a session's courier holds before it drops new ones.
pub const COURIER_CAPACITY: usize = 100;

/// The least time between two warnings about dropped events, in milliseconds.
pub const DROP_LOG_INTERVAL_MS: u64 = 5000;

/// A parsed chat message, as the renderer receives it.
pub struct ChatEvent {
    pub channel_id: String,
    pub sender: String,
    pub timestamp: String,
    pub text: String,
    /// The sender's display colour, already resolved to a `#RRGGBB` code.
    pub color: Option<String>,
}

/// The state of a session's connection.
pub enum ConnectionState {
    Disconnected,
    Connecting,
    Connected(String),
}

/// `ConnectionState` with the channel name as a sequence of characters.
pub enum LinkView {
    Disconnected,
    Connecting,
    Connected(Seq<char>),
}

impl View for ConnectionState {
    type V = LinkView;

    open spec fn view(&self) -> LinkView {
        match self {
            ConnectionState::Disconnected => LinkView::Disconnected,
            ConnectionState::Connecting => LinkView::Connecting,
            ConnectionState::Connected(c) => LinkView::Connected(c@),
        }
    }
}

/// What a session's receive loop does with an incoming event.
#[derive(PartialEq, Eq, Debug)]
pub enum ReceiveAction {
    /// The event was queued for delivery.
    Enqueued,
    /// The session is paused: the event was thrown away.
    Discarded,
    /// The courier is full: the event was thrown away. `log` says whether a
    /// warning is due now.
    Dropped { log: bool },
    /// The loop must end: the session is shutting down or disconnected, or
    /// the loop belongs to an earlier connection.
    Stop,
}

/// Why a connection attempt could not start.
pub enum ConnectError {
    /// The channel name is empty.
    EmptyChannel,
    /// The session already has a connection, or its last one is still being
    /// torn down.
    Busy,
    /// No open session has the id given.
    UnknownSession,
}

/// The abstract state of a session.
pub struct SessionView {
    pub id: Seq<char>,
    pub channel: Option<Seq<char>>,
    pub state: LinkView,
    pub paused: bool,
    pub shutdown: bool,
    /// The events queued in the courier, oldest first.
    pub queue: Seq<ChatEvent>,
    pub generation: u64,
    pub last_drop_log: Option<u64>,
    pub last_delivery: Option<u64>,
}

/// The invariant of a session: the courier stays within its capacity, and a
/// session that is connecting or connected knows its channel.
pub open spec fn session_inv(v: SessionView) -> bool {
    &&& v.queue.len() <= COURIER_CAPACITY
    &&& v.state !is Disconnected ==> v.channel is Some
    &&& v.state is Connected ==> v.channel == Some(v.state->Connected_0)
}

pub open spec fn next_generation(g: u64) -> u64 {
    if g == u64::MAX {
        0
    } else {
        (g + 1) as u64
    }
}

/// Whether a new connection may start.
pub open spec fn can_connect(v: SessionView) -> bool {
    v.state is Disconnected && !v.shutdown
}

/// The session once a connection to `channel` has started: a new generation,
/// the case-folded channel name, and a new, empty courier.
pub open spec fn connecting(v: SessionView, channel: Seq<char>) -> SessionView {
    SessionView {
        channel: Some(lower_of(channel)),
        state: LinkView::Connecting,
        queue: Seq::empty(),
        generation: next_generation(v.generation),
        last_drop_log: None,
        ..v
    }
}

/// Whether a warning about dropped events is due at time `now`.
pub open spec fn drop_log_due(v: SessionView, now: u64) -> bool {
    match v.last_drop_log {
        None => true,
        Some(t) => t <= now && now - t >= DROP_LOG_INTERVAL_MS,
    }
}

/// What the receive loop of generation `generation` does with an event that
/// comes at time `now`.
pub open spec fn receive_action(v: SessionView, generation: u64, now: u64) -> ReceiveAction {
    if generation != v.generation || v.shutdown || v.state is Disconnected {
        ReceiveAction::Stop
    } else if v.paused {
        ReceiveAction::Discarded
    } else if v.queue.len() >= COURIER_CAPACITY {
        ReceiveAction::Dropped { log: drop_log_due(v, now) }
    } else {
        ReceiveAction::Enqueued
    }
}

/// The session after the receive loop of generation `generation` has handled
/// `event` at time `now`.
pub open spec fn after_receive(v: SessionView, generation: u64, event: ChatEvent, now: u64) -> SessionView {
    match receive_action(v, generation, now) {
        ReceiveAction::Enqueued => SessionView { queue: v.queue.push(event), ..v },
        ReceiveAction::Dropped { log } => if log {
            SessionView { last_drop_log: Some(now), ..v }
        } else {
            v
        },
        _ => v,
    }
}

/// Whether a report from the loop of generation `generation` about the
/// attempt to join still concerns the session.
pub open spec fn join_pending(v: SessionView, generation: u64) -> bool {
    generation == v.generation && v.state is Connecting && !v.shutdown
}

/// The session once it has been asked to close: shutdown is signalled, the
/// connection is gone and nothing stays queued.
pub open spec fn closing(v: SessionView) -> SessionView {
    SessionView {
        channel: None,
        state: LinkView::Disconnected,
        shutdown: true,
        queue: Seq::empty(),
        ..v
    }
}

/// One open channel view.
pub struct Session {
    id: String,
    channel: Option<String>,
    state: ConnectionState,
    paused: bool,
    shutdown: bool,
    courier: Courier<ChatEvent>,
    generation: u64,
    last_drop_log: Option<u64>,
    last_delivery: Option<u64>,
}

pub open spec fn opt_view(o: Option<String>) -> Option<Seq<char>> {
    match o {
        Some(s) => Some(s@),
        None => None,
    }
}

impl View for Session {
    type V = SessionView;

    closed spec fn view(&self) -> SessionView {
        SessionView {
            id: self.id@,
            channel: opt_view(self.channel),
            state: self.state@,
            paused: self.paused,
            shutdown: self.shutdown,
            queue: self.courier@,
            generation: self.generation,
            last_drop_log: self.last_drop_log,
            last_delivery: self.last_delivery,
        }
    }
}

impl Session {
    /// The session's invariant; every operation keeps it.
    pub closed spec fn wf(&self) -> bool {
        &&& self.courier.wf()
        &&& self.courier.cap() == COURIER_CAPACITY
        &&& !self.courier.is_disconnected()
        &&& session_inv(self@)
    }

    /// What `wf` guarantees to callers: the courier stays within
    /// `COURIER_CAPACITY`, and a connecting or connected session knows its
    /// channel.
    pub proof fn lemma_wf(&self)
        requires
            self.wf(),
        ensures
            session_inv(self@),
    {
    }

    /// A disconnected session with an empty courier.
    pub fn new(id: String, paused: bool) -> (r: Session)
        ensures
            r.wf(),
            r@ == (SessionView {
                id: id@,
                channel: None,
                state: LinkView::Disconnected,
                paused,
                shutdown: false,
                queue: Seq::empty(),
                generation: 0,
                last_drop_log: None,
                last_delivery: None,
            }),
    {
        Session {
            id,
            channel: None,
            state: ConnectionState::Disconnected,
            paused,
            shutdown: false,
            courier: Courier::new(COURIER_CAPACITY),
            generation: 0,
            last_drop_log: None,
            last_delivery: None,
        }
    }

    pub fn id(&self) -> (r: &String)
        ensures
            r@ == self@.id,
    {
        &self.id
    }

    pub fn channel(&self) -> (r: Option<&String>)
        ensures
            r is None <==> self@.channel is None,
            r is Some ==> self@.channel == Some(r->Some_0@),
    {
        match &self.channel {
            Some(c) => Some(c),
            None => None,
        }
    }

    pub fn state(&self) -> (r: &ConnectionState)
        ensures
            r@ == self@.state,
    {
        &self.state
    }

    pub fn is_paused(&self) -> (r: bool)
        ensures
            r == self@.paused,
    {
        self.paused
    }

    pub fn is_shutting_down(&self) -> (r: bool)
        ensures
            r == self@.shutdown,
    {
        self.shutdown
    }

    pub fn generation(&self) -> (r: u64)
        ensures
            r == self@.generation,
    {
        self.generation
    }

    pub fn last_delivery(&self) -> (r: Option<u64>)
        ensures
            r == self@.last_delivery,
    {
        self.last_delivery
    }

    /// How many events are queued.
    pub fn queued(&self) -> (r: usize)
        ensures
            r == self@.queue.len(),
    {
        self.courier.len()
    }

    /// Starts a connection to `channel`, whose name is case-folded. Refused
    /// when the name is empty, or while a connection exists or is being torn
    /// down. On success the courier is replaced by an empty one and the new
    /// generation is returned; the receive loop started for this attempt
    /// passes it to every later call.
    pub fn begin_connect(&mut self, channel: &str) -> (r: Result<u64, ConnectError>)
        requires
            old(self).wf(),
        ensures
            final(self).wf(),
            channel@.len() == 0 ==> r == Err::<u64, ConnectError>(ConnectError::EmptyChannel)
                && final(self)@ == old(self)@,
            channel@.len() > 0 && !can_connect(old(self)@) ==> r == Err::<u64, ConnectError>(
                ConnectError::Busy,
            ) && final(self)@ == old(self)@,
            channel@.len() > 0 && can_connect(old(self)@) ==> r == Ok::<u64, ConnectError>(
                final(self)@.generation,
            ) && final(self)@ == connecting(old(self)@, channel@),
    {
        if channel.unicode_len() == 0 {
            return Err(ConnectError::EmptyChannel);
        }
        match self.state {
            ConnectionState::Disconnected => {},
            _ => {
                return Err(ConnectError::Busy);
            },
        }
        if self.shutdown {
            return Err(ConnectError::Busy);
        }
        let generation = if self.generation == u64::MAX {
            0
        } else {
            self.generation + 1
        };
        self.channel = Some(lowercase(channel));
        self.state = ConnectionState::Connecting;
        self.courier = Courier::new(COURIER_CAPACITY);
        self.generation = generation;
        self.last_drop_log = None;
        Ok(generation)
    }

    /// The loop of generation `generation` has joined its channel. Ignored
    /// (and `false` returned) unless that attempt is still pending.
    pub fn on_joined(&mut self, generation: u64) -> (r: bool)
        requires
            old(self).wf(),
        ensures
            final(self).wf(),
            r == join_pending(old(self)@, generation),
            r ==> final(self)@ == (SessionView {
                state: LinkView::Connected(old(self)@.channel->Some_0),
                ..old(self)@
            }),
            !r ==> final(self)@ == old(self)@,
    {
        if generation != self.generation || self.shutdown {
            return false;
        }
        match self.state {
            ConnectionState::Connecting => {},
            _ => {
                return false;
            },
        }
        match &self.channel {
            Some(c) => {
                self.state = ConnectionState::Connected(c.clone());
                true
            },
            None => false,
        }
    }

    /// The loop of generation `generation` could not join its channel: the
    /// session returns to its state before the attempt. Ignored (and `false`
    /// returned) unless that attempt is still pending.
    pub fn on_join_failed(&mut self, generation: u64) -> (r: bool)
        requires
            old(self).wf(),
        ensures
            final(self).wf(),
            r == join_pending(old(self)@, generation),
            r ==> final(self)@ == (SessionView {
                state: LinkView::Disconnected,
                channel: None,
                ..old(self)@
            }),
            !r ==> final(self)@ == old(self)@,
    {
        if generation != self.generation || self.shutdown {
            return false;
        }
        match self.state {
            ConnectionState::Connecting => {},
            _ => {
                return false;
            },
        }
        self.state = ConnectionState::Disconnected;
        self.channel = None;
        true
    }

    /// The stream of the loop of generation `generation` has ended. A
    /// connected session of that generation becomes disconnected; anything
    /// else is left as it is.
    pub fn on_stream_end(&mut self, generation: u64) -> (r: bool)
        requires
            old(self).wf(),
        ensures
            final(self).wf(),
            r == (generation == old(self)@.generation && old(self)@.state is Connected),
            r ==> final(self)@ == (SessionView { state: LinkView::Disconnected, ..old(self)@ }),
            !r ==> final(self)@ == old(self)@,
    {
        if generation != self.generation {
            return false;
        }
        match self.state {
            ConnectionState::Connected(_) => {
                self.state = ConnectionState::Disconnected;
                true
            },
            _ => false,
        }
    }

    /// Decides what the receive loop of generation `generation` does with an
    /// event that came at time `now` (milliseconds), and queues it where
    /// that is the decision. Never waits.
    pub fn receive(&mut self, generation: u64, event: ChatEvent, now: u64) -> (r: ReceiveAction)
        requires
            old(self).wf(),
        ensures
            final(self).wf(),
            r == receive_action(old(self)@, generation, now),
            final(self)@ == after_receive(old(self)@, generation, event, now),
    {
        if generation != self.generation || self.shutdown {
            return ReceiveAction::Stop;
        }
        match self.state {
            ConnectionState::Disconnected => {
                return ReceiveAction::Stop;
            },
            _ => {},
        }
        if self.paused {
            return ReceiveAction::Discarded;
        }
        match self.courier.try_send(event) {
            Ok(()) => ReceiveAction::Enqueued,
            Err(SendError::Full(_)) => {
                let log = match self.last_drop_log {
                    None => true,
                    Some(t) => t <= now && now - t >= DROP_LOG_INTERVAL_MS,
                };
                if log {
                    self.last_drop_log = Some(now);
                }
                ReceiveAction::Dropped { log }
            },
            Err(SendError::Disconnected(_)) => ReceiveAction::Stop,
        }
    }

    /// Stops or resumes the production of events.
    pub fn set_paused(&mut self, paused: bool)
        requires
            old(self).wf(),
        ensures
            final(self).wf(),
            final(self)@ == (SessionView { paused, ..old(self)@ }),
    {
        self.paused = paused;
    }

    /// Signals shutdown to the receive loop, forgets the connection and
    /// throws away what is queued; returns how many events went. The flag
    /// stays set until `finish_close`.
    pub fn begin_close(&mut self) -> (n: usize)
        requires
            old(self).wf(),
        ensures
            final(self).wf(),
            n == old(self)@.queue.len(),
            final(self)@ == closing(old(self)@),
    {
        self.shutdown = true;
        self.state = ConnectionState::Disconnected;
        self.channel = None;
        self.courier.discard_all()
    }

    /// Clears the shutdown flag once the receive loop has exited, or has been
    /// given up on, so that the session can connect again.
    pub fn finish_close(&mut self)
        requires
            old(self).wf(),
        ensures
            final(self).wf(),
            final(self)@ == (SessionView { shutdown: false, ..old(self)@ }),
    {
        self.shutdown = false;
    }

    /// Takes up to `max` of the oldest queued events for delivery at time
    /// `now`; where any are taken, `now` becomes the time of the last
    /// delivery.
    pub fn take_batch(&mut self, max: usize, now: u64) -> (r: Vec<ChatEvent>)
        requires
            old(self).wf(),
        ensures
            final(self).wf(),
            r@.len() == vstd::math::min(max as int, old(self)@.queue.len() as int),
            r@ == old(self)@.queue.take(r@.len() as int),
            final(self)@ == (SessionView {
                queue: old(self)@.queue.skip(r@.len() as int),
                last_delivery: if r@.len() > 0 {
                    Some(now)
                } else {
                    old(self)@.last_delivery
                },
                ..old(self)@
            }),
    {
        let batch = self.courier.drain_up_to(max);
        if batch.len() > 0 {
            self.last_delivery = Some(now);
        }
        batch
    }

    /// Throws away up to `max` of the oldest queued events.
    pub fn discard_up_to(&mut self, max: usize) -> (n: usize)
        requires
            old(self).wf(),
        ensures
            final(self).wf(),
            n == vstd::math::min(max as int, old(self)@.queue.len() as int),
            final(self)@ == (SessionView { queue: old(self)@.queue.skip(n as int), ..old(self)@ }),
    {
        self.courier.discard_up_to(max)
    }

    /// Throws away every queued event.
    pub fn discard_all(&mut self) -> (n: usize)
        requires
            old(self).wf(),
        ensures
            final(self).wf(),
            n == old(self)@.queue.len(),
            final(self)@ == (SessionView { queue: Seq::empty(), ..old(self)@ }),
    {
        self.courier.discard_all()
    }
}

} // verus!
