//! The session registry and the delivery scheduler.
//!
//! The registry owns every open session, keyed by a unique id, and knows
//! which one has the focus. Only the focused session produces events; the
//! others are paused. Every tick the scheduler hands a bounded batch of the
//! focused session's events to the renderer and throws away a bounded number
//! of events from every other session.
use crate::session::{
    after_receive, closing, connecting, can_connect, receive_action, join_pending, ChatEvent,
    ConnectError, LinkView, ReceiveAction, Session, SessionView, opt_view,
};
use vstd::prelude::*;

verus! {

/// The most events handed to the renderer in one tick.
pub const MAX_BATCH_SIZE: usize = 30;

/// The most events thrown away from one unfocused session in one tick.
pub const MAX_DRAIN_PER_TICK: usize = 50;

/// The least time between two deliveries to the renderer, in milliseconds.
pub const MIN_DELIVERY_INTERVAL_MS: u64 = 30;

/// The period of the scheduler's tick, in milliseconds.
pub const TICK_INTERVAL_MS: u64 = 50;

/// A batch of events of one session, oldest first, for the renderer.
pub struct Delivery {
    pub session_id: String,
    pub events: Vec<ChatEvent>,
}

/// The abstract state of a registry.
pub struct RegistryView {
    pub sessions: Seq<SessionView>,
    pub focus: Option<Seq<char>>,
}

/// Whether the `j`th session has the focus.
pub open spec fn has_focus(r: RegistryView, j: int) -> bool {
    r.focus == Some(r.sessions[j].id)
}

/// Whether some session has the id `id`.
pub open spec fn has_id(r: RegistryView, id: Seq<char>) -> bool {
    exists|j: int| 0 <= j < r.sessions.len() && #[trigger] r.sessions[j].id == id
}

/// The invariant of a registry: ids are unique, the focus names an open
/// session, and exactly the unfocused sessions are paused.
pub open spec fn registry_inv(r: RegistryView) -> bool {
    &&& forall|a: int, b: int|
        0 <= a < r.sessions.len() && 0 <= b < r.sessions.len() && a != b ==> #[trigger] r.sessions[a].id
            != #[trigger] r.sessions[b].id
    &&& r.focus is Some ==> has_id(r, r.focus->Some_0)
    &&& forall|j: int| 0 <= j < r.sessions.len() ==> #[trigger] r.sessions[j].paused == !has_focus(r, j)
}

/// Whether a session delivered less than the least interval before `now`.
pub open spec fn throttled(v: SessionView, now: u64) -> bool {
    match v.last_delivery {
        Some(t) => t <= now && now - t < MIN_DELIVERY_INTERVAL_MS,
        None => false,
    }
}

/// How many events the focused session hands over in a tick at `now`.
pub open spec fn batch_len(v: SessionView, now: u64) -> nat {
    if throttled(v, now) {
        0
    } else {
        vstd::math::min(MAX_BATCH_SIZE as int, v.queue.len() as int) as nat
    }
}

/// A session after a tick at `now`: the focused one hands over its batch,
/// any other one loses up to `MAX_DRAIN_PER_TICK` of its oldest events.
pub open spec fn after_tick(v: SessionView, focused: bool, now: u64) -> SessionView {
    if focused {
        let k = batch_len(v, now);
        SessionView {
            queue: v.queue.skip(k as int),
            last_delivery: if k > 0 {
                Some(now)
            } else {
                v.last_delivery
            },
            ..v
        }
    } else {
        SessionView {
            queue: v.queue.skip(vstd::math::min(MAX_DRAIN_PER_TICK as int, v.queue.len() as int)),
            ..v
        }
    }
}

/// A session once the focus has gone to `focus`: it is paused exactly when
/// unfocused, and an unfocused one keeps nothing queued.
pub open spec fn after_focus(v: SessionView, focus: Option<Seq<char>>) -> SessionView {
    if focus == Some(v.id) {
        SessionView { paused: false, ..v }
    } else {
        SessionView { paused: true, queue: Seq::empty(), ..v }
    }
}

/// The position of the session with id `id`.
pub open spec fn index_of(r: RegistryView, id: Seq<char>) -> int {
    choose|j: int| 0 <= j < r.sessions.len() && #[trigger] r.sessions[j].id == id
}

/// The session with id `id`.
pub open spec fn session_of(r: RegistryView, id: Seq<char>) -> SessionView {
    r.sessions[index_of(r, id)]
}

/// The registry with the session of id `id` replaced by `v`.
pub open spec fn with_session(r: RegistryView, id: Seq<char>, v: SessionView) -> RegistryView {
    RegistryView { sessions: r.sessions.update(index_of(r, id), v), ..r }
}

/// Where ids are unique, the session found at `j` is the one `index_of` names.
proof fn lemma_index_of(r: RegistryView, j: int)
    requires
        registry_inv(r),
        0 <= j < r.sessions.len(),
    ensures
        has_id(r, r.sessions[j].id),
        index_of(r, r.sessions[j].id) == j,
{
    let id = r.sessions[j].id;
    assert(r.sessions[j].id == id);
    let k = index_of(r, id);
    if k != j {
        assert(r.sessions[k].id != r.sessions[j].id);
    }
}

/// Replacing a session by one with the same id and pause flag keeps the
/// registry's invariant.
proof fn lemma_update_keeps_inv(r: RegistryView, j: int, v: SessionView)
    requires
        registry_inv(r),
        0 <= j < r.sessions.len(),
        v.id == r.sessions[j].id,
        v.paused == r.sessions[j].paused,
    ensures
        registry_inv(RegistryView { sessions: r.sessions.update(j, v), ..r }),
{
    let n = RegistryView { sessions: r.sessions.update(j, v), ..r };
    assert forall|a: int, b: int|
        0 <= a < n.sessions.len() && 0 <= b < n.sessions.len() && a != b implies #[trigger] n.sessions[a].id
        != #[trigger] n.sessions[b].id by {
        assert(n.sessions[a].id == r.sessions[a].id);
        assert(n.sessions[b].id == r.sessions[b].id);
    }
    if n.focus is Some {
        let f = n.focus->Some_0;
        let w = choose|k: int| 0 <= k < r.sessions.len() && #[trigger] r.sessions[k].id == f;
        assert(n.sessions[w].id == f);
    }
    assert forall|k: int| 0 <= k < n.sessions.len() implies #[trigger] n.sessions[k].paused
        == !has_focus(n, k) by {
        assert(n.sessions[k].id == r.sessions[k].id);
        assert(n.sessions[k].paused == r.sessions[k].paused);
    }
}

/// Every open session.
pub struct Registry {
    sessions: Vec<Session>,
    focus: Option<String>,
}

impl View for Registry {
    type V = RegistryView;

    closed spec fn view(&self) -> RegistryView {
        RegistryView {
            sessions: self.sessions@.map_values(|s: Session| s@),
            focus: opt_view(self.focus),
        }
    }
}

impl Registry {
    /// Every session is well formed, and the registry's invariant holds.
    pub closed spec fn wf(&self) -> bool {
        &&& forall|j: int| 0 <= j < self.sessions@.len() ==> (#[trigger] self.sessions@[j]).wf()
        &&& registry_inv(self@)
    }

    /// What `wf` guarantees to callers: ids are unique, the focus names an
    /// open session, exactly the unfocused sessions are paused, and every
    /// session keeps its own invariant.
    pub proof fn lemma_wf(&self)
        requires
            self.wf(),
        ensures
            registry_inv(self@),
            forall|j: int|
                0 <= j < self@.sessions.len() ==> crate::session::session_inv(
                    #[trigger] self@.sessions[j],
                ),
    {
        assert forall|j: int| 0 <= j < self@.sessions.len() implies crate::session::session_inv(
            #[trigger] self@.sessions[j],
        ) by {
            self.sessions@[j].lemma_wf();
        }
    }

    pub fn new() -> (r: Registry)
        ensures
            r.wf(),
            r@.sessions == Seq::<SessionView>::empty(),
            r@.focus is None,
    {
        let r = Registry { sessions: Vec::new(), focus: None };
        assert(r@.sessions =~= Seq::<SessionView>::empty());
        r
    }

    pub fn len(&self) -> (n: usize)
        ensures
            n == self@.sessions.len(),
    {
        self.sessions.len()
    }

    pub fn session(&self, j: usize) -> (r: &Session)
        requires
            j < self@.sessions.len(),
        ensures
            r@ == self@.sessions[j as int],
    {
        &self.sessions[j]
    }

    pub fn focus(&self) -> (r: Option<&String>)
        ensures
            r is None <==> self@.focus is None,
            r is Some ==> self@.focus == Some(r->Some_0@),
    {
        match &self.focus {
            Some(f) => Some(f),
            None => None,
        }
    }

    /// The position of the session with id `id`, if there is one.
    pub fn find(&self, id: &String) -> (r: Option<usize>)
        requires
            self.wf(),
        ensures
            r is Some ==> r->Some_0 < self@.sessions.len() && self@.sessions[r->Some_0 as int].id
                == id@,
            r is None ==> !has_id(self@, id@),
    {
        let mut j: usize = 0;
        while j < self.sessions.len()
            invariant
                j <= self.sessions@.len(),
                forall|k: int| 0 <= k < j ==> (#[trigger] self@.sessions[k]).id != id@,
            decreases self.sessions@.len() - j,
        {
            if self.sessions[j].id().eq(id) {
                return Some(j);
            }
            j = j + 1;
        }
        None
    }

    /// Opens a disconnected session with id `id`. It starts paused, as it
    /// does not have the focus. Refused, with `false`, where the id is taken.
    pub fn open(&mut self, id: String) -> (r: bool)
        requires
            old(self).wf(),
        ensures
            final(self).wf(),
            r == !has_id(old(self)@, id@),
            r ==> final(self)@ == (RegistryView {
                sessions: old(self)@.sessions.push(
                    SessionView {
                        id: id@,
                        channel: None,
                        state: LinkView::Disconnected,
                        paused: true,
                        shutdown: false,
                        queue: Seq::empty(),
                        generation: 0,
                        last_drop_log: None,
                        last_delivery: None,
                    },
                ),
                ..old(self)@
            }),
            !r ==> final(self)@ == old(self)@,
    {
        if self.find(&id).is_some() {
            return false;
        }
        let ghost id_view = id@;
        let s = Session::new(id, true);
        self.sessions.push(s);
        assert(self@.sessions =~= old(self)@.sessions.push(s@));
        proof {
            let r = self@;
            assert forall|a: int, b: int|
                0 <= a < r.sessions.len() && 0 <= b < r.sessions.len() && a != b implies #[trigger] r.sessions[a].id
                != #[trigger] r.sessions[b].id by {
                if a == r.sessions.len() - 1 {
                    assert(old(self)@.sessions[b].id == r.sessions[b].id);
                } else if b == r.sessions.len() - 1 {
                    assert(old(self)@.sessions[a].id == r.sessions[a].id);
                } else {
                    assert(old(self)@.sessions[a] == r.sessions[a]);
                    assert(old(self)@.sessions[b] == r.sessions[b]);
                }
            }
            if r.focus is Some {
                let f = r.focus->Some_0;
                let w = choose|j: int| 0 <= j < old(self)@.sessions.len() && #[trigger] old(self)@.sessions[j].id == f;
                assert(r.sessions[w].id == f);
            }
            assert forall|j: int| 0 <= j < r.sessions.len() implies #[trigger] r.sessions[j].paused
                == !has_focus(r, j) by {
                if j < r.sessions.len() - 1 {
                    assert(old(self)@.sessions[j] == r.sessions[j]);
                } else {
                    if r.focus is Some {
                        let f = r.focus->Some_0;
                        let w = choose|k: int| 0 <= k < old(self)@.sessions.len() && #[trigger] old(self)@.sessions[k].id == f;
                        assert(old(self)@.sessions[w].id == f);
                    }
                }
            }
        }
        true
    }

    /// Replacing the session at `j` by one with the same id and pause flag
    /// keeps the registry well formed.
    proof fn lemma_replaced(before: Registry, after: Registry, j: int)
        requires
            before.wf(),
            0 <= j < before.sessions@.len(),
            after.focus == before.focus,
            after.sessions@ == before.sessions@.update(j, after.sessions@[j]),
            after.sessions@[j].wf(),
            after.sessions@[j]@.id == before.sessions@[j]@.id,
            after.sessions@[j]@.paused == before.sessions@[j]@.paused,
        ensures
            after.wf(),
            after@ == with_session(before@, before@.sessions[j].id, after.sessions@[j]@),
            index_of(before@, before@.sessions[j].id) == j,
    {
        lemma_index_of(before@, j);
        assert(after@.sessions =~= before@.sessions.update(j, after.sessions@[j]@));
        lemma_update_keeps_inv(before@, j, after.sessions@[j]@);
        assert forall|k: int| 0 <= k < after.sessions@.len() implies (#[trigger] after.sessions@[k]).wf() by {
            if k != j {
                assert(after.sessions@[k] == before.sessions@[k]);
            }
        }
    }

    /// Starts a connection of session `id` to `channel`; see
    /// `Session::begin_connect`.
    pub fn connect(&mut self, id: &String, channel: &str) -> (r: Result<u64, ConnectError>)
        requires
            old(self).wf(),
        ensures
            final(self).wf(),
            !has_id(old(self)@, id@) ==> r == Err::<u64, ConnectError>(ConnectError::UnknownSession)
                && final(self)@ == old(self)@,
            has_id(old(self)@, id@) ==> {
                let v = session_of(old(self)@, id@);
                &&& channel@.len() == 0 ==> r == Err::<u64, ConnectError>(ConnectError::EmptyChannel)
                    && final(self)@ == old(self)@
                &&& channel@.len() > 0 && !can_connect(v) ==> r == Err::<u64, ConnectError>(
                    ConnectError::Busy,
                ) && final(self)@ == old(self)@
                &&& channel@.len() > 0 && can_connect(v) ==> r == Ok::<u64, ConnectError>(
                    connecting(v, channel@).generation,
                ) && final(self)@ == with_session(old(self)@, id@, connecting(v, channel@))
            },
    {
        let j = match self.find(id) {
            Some(j) => j,
            None => {
                return Err(ConnectError::UnknownSession);
            },
        };
        let r = self.sessions[j].begin_connect(channel);
        proof {
            Registry::lemma_replaced(*old(self), *self, j as int);
            if r is Err {
                assert(self@.sessions =~= old(self)@.sessions);
            }
        }
        r
    }

    /// Session `id`'s loop of generation `generation` has joined its channel;
    /// see `Session::on_joined`. `false` where no session has that id.
    pub fn joined(&mut self, id: &String, generation: u64) -> (r: bool)
        requires
            old(self).wf(),
        ensures
            final(self).wf(),
            !has_id(old(self)@, id@) ==> !r && final(self)@ == old(self)@,
            has_id(old(self)@, id@) ==> {
                let v = session_of(old(self)@, id@);
                &&& r == join_pending(v, generation)
                &&& r ==> final(self)@ == with_session(
                    old(self)@,
                    id@,
                    SessionView { state: LinkView::Connected(v.channel->Some_0), ..v },
                )
                &&& !r ==> final(self)@ == old(self)@
            },
    {
        let j = match self.find(id) {
            Some(j) => j,
            None => {
                return false;
            },
        };
        let r = self.sessions[j].on_joined(generation);
        proof {
            Registry::lemma_replaced(*old(self), *self, j as int);
            if !r {
                assert(self@.sessions =~= old(self)@.sessions);
            }
        }
        r
    }

    /// Session `id`'s loop of generation `generation` could not join; see
    /// `Session::on_join_failed`. `false` where no session has that id.
    pub fn join_failed(&mut self, id: &String, generation: u64) -> (r: bool)
        requires
            old(self).wf(),
        ensures
            final(self).wf(),
            !has_id(old(self)@, id@) ==> !r && final(self)@ == old(self)@,
            has_id(old(self)@, id@) ==> {
                let v = session_of(old(self)@, id@);
                &&& r == join_pending(v, generation)
                &&& r ==> final(self)@ == with_session(
                    old(self)@,
                    id@,
                    SessionView { state: LinkView::Disconnected, channel: None, ..v },
                )
                &&& !r ==> final(self)@ == old(self)@
            },
    {
        let j = match self.find(id) {
            Some(j) => j,
            None => {
                return false;
            },
        };
        let r = self.sessions[j].on_join_failed(generation);
        proof {
            Registry::lemma_replaced(*old(self), *self, j as int);
            if !r {
                assert(self@.sessions =~= old(self)@.sessions);
            }
        }
        r
    }

    /// The stream of session `id`'s loop of generation `generation` has
    /// ended; see `Session::on_stream_end`. `false` where no session has
    /// that id.
    pub fn stream_ended(&mut self, id: &String, generation: u64) -> (r: bool)
        requires
            old(self).wf(),
        ensures
            final(self).wf(),
            !has_id(old(self)@, id@) ==> !r && final(self)@ == old(self)@,
            has_id(old(self)@, id@) ==> {
                let v = session_of(old(self)@, id@);
                &&& r == (generation == v.generation && v.state is Connected)
                &&& r ==> final(self)@ == with_session(
                    old(self)@,
                    id@,
                    SessionView { state: LinkView::Disconnected, ..v },
                )
                &&& !r ==> final(self)@ == old(self)@
            },
    {
        let j = match self.find(id) {
            Some(j) => j,
            None => {
                return false;
            },
        };
        let r = self.sessions[j].on_stream_end(generation);
        proof {
            Registry::lemma_replaced(*old(self), *self, j as int);
            if !r {
                assert(self@.sessions =~= old(self)@.sessions);
            }
        }
        r
    }

    /// Hands an event that session `id`'s loop of generation `generation`
    /// received at `now` to that session; see `Session::receive`. A loop
    /// whose session is gone is told to stop.
    pub fn receive(&mut self, id: &String, generation: u64, event: ChatEvent, now: u64) -> (r:
        ReceiveAction)
        requires
            old(self).wf(),
        ensures
            final(self).wf(),
            !has_id(old(self)@, id@) ==> r == ReceiveAction::Stop && final(self)@ == old(self)@,
            has_id(old(self)@, id@) ==> {
                let v = session_of(old(self)@, id@);
                &&& r == receive_action(v, generation, now)
                &&& final(self)@ == with_session(
                    old(self)@,
                    id@,
                    after_receive(v, generation, event, now),
                )
            },
    {
        let j = match self.find(id) {
            Some(j) => j,
            None => {
                return ReceiveAction::Stop;
            },
        };
        let r = self.sessions[j].receive(generation, event, now);
        proof {
            Registry::lemma_replaced(*old(self), *self, j as int);
        }
        r
    }

    /// Starts the teardown of session `id`; see `Session::begin_close`.
    /// `false` where no session has that id.
    pub fn begin_close(&mut self, id: &String) -> (r: bool)
        requires
            old(self).wf(),
        ensures
            final(self).wf(),
            r == has_id(old(self)@, id@),
            !r ==> final(self)@ == old(self)@,
            r ==> final(self)@ == with_session(old(self)@, id@, closing(session_of(old(self)@, id@))),
    {
        let j = match self.find(id) {
            Some(j) => j,
            None => {
                return false;
            },
        };
        self.sessions[j].begin_close();
        proof {
            Registry::lemma_replaced(*old(self), *self, j as int);
        }
        true
    }

    /// Ends the teardown of session `id`, whose loop has exited or been
    /// given up on; see `Session::finish_close`. `false` where no session has
    /// that id.
    pub fn finish_close(&mut self, id: &String) -> (r: bool)
        requires
            old(self).wf(),
        ensures
            final(self).wf(),
            r == has_id(old(self)@, id@),
            !r ==> final(self)@ == old(self)@,
            r ==> final(self)@ == with_session(
                old(self)@,
                id@,
                SessionView { shutdown: false, ..session_of(old(self)@, id@) },
            ),
    {
        let j = match self.find(id) {
            Some(j) => j,
            None => {
                return false;
            },
        };
        self.sessions[j].finish_close();
        proof {
            Registry::lemma_replaced(*old(self), *self, j as int);
        }
        true
    }

    /// Closes session `id` for good: it leaves the registry, and the focus
    /// with it. Only a session whose teardown has begun can go; otherwise,
    /// or where no session has that id, nothing changes and `false` comes
    /// back.
    pub fn remove(&mut self, id: &String) -> (r: bool)
        requires
            old(self).wf(),
        ensures
            final(self).wf(),
            r == (has_id(old(self)@, id@) && session_of(old(self)@, id@).shutdown),
            !r ==> final(self)@ == old(self)@,
            r ==> final(self)@ == (RegistryView {
                sessions: old(self)@.sessions.remove(index_of(old(self)@, id@)),
                focus: if old(self)@.focus == Some(id@) {
                    None
                } else {
                    old(self)@.focus
                },
            }),
    {
        let j = match self.find(id) {
            Some(j) => j,
            None => {
                return false;
            },
        };
        proof {
            lemma_index_of(self@, j as int);
        }
        if !self.sessions[j].is_shutting_down() {
            return false;
        }
        let clear_focus = match &self.focus {
            Some(f) => f.eq(id),
            None => false,
        };
        let _gone = self.sessions.remove(j);
        if clear_focus {
            self.focus = None;
        }
        proof {
            let o = old(self)@;
            let n = self@;
            assert(n.sessions =~= o.sessions.remove(j as int));
            assert forall|k: int| 0 <= k < self.sessions@.len() implies (
            #[trigger] self.sessions@[k]).wf() by {
                if k < j {
                    assert(self.sessions@[k] == old(self).sessions@[k]);
                } else {
                    assert(self.sessions@[k] == old(self).sessions@[k + 1]);
                }
            }
            assert forall|a: int, b: int|
                0 <= a < n.sessions.len() && 0 <= b < n.sessions.len() && a != b implies #[trigger] n.sessions[a].id
                != #[trigger] n.sessions[b].id by {
                let a1 = if a < j { a } else { a + 1 };
                let b1 = if b < j { b } else { b + 1 };
                assert(n.sessions[a] == o.sessions[a1]);
                assert(n.sessions[b] == o.sessions[b1]);
            }
            if n.focus is Some {
                let f = n.focus->Some_0;
                let w = choose|k: int| 0 <= k < o.sessions.len() && #[trigger] o.sessions[k].id == f;
                assert(w != j);
                let w1 = if w < j { w } else { w - 1 };
                assert(n.sessions[w1] == o.sessions[w]);
                assert(n.sessions[w1].id == f);
            }
            assert forall|k: int| 0 <= k < n.sessions.len() implies #[trigger] n.sessions[k].paused
                == !has_focus(n, k) by {
                let k1 = if k < j { k } else { k + 1 };
                assert(n.sessions[k] == o.sessions[k1]);
                assert(o.sessions[k1].paused == !has_focus(o, k1));
                if clear_focus {
                    assert(o.sessions[k1].id != o.sessions[j as int].id);
                }
            }
        }
        true
    }

    /// Gives the focus to session `id`, or to none (also where no session
    /// has that id). At once every session without the focus is paused and
    /// loses all it had queued, and the focused one is resumed.
    pub fn set_focus(&mut self, id: Option<&String>)
        requires
            old(self).wf(),
        ensures
            final(self).wf(),
            final(self)@.focus == (match id {
                Some(i) => if has_id(old(self)@, i@) {
                    Some(i@)
                } else {
                    None
                },
                None => None,
            }),
            final(self)@.sessions.len() == old(self)@.sessions.len(),
            forall|j: int|
                0 <= j < old(self)@.sessions.len() ==> #[trigger] final(self)@.sessions[j]
                    == after_focus(old(self)@.sessions[j], final(self)@.focus),
    {
        let new_focus: Option<String> = match id {
            Some(i) => if self.find(i).is_some() {
                Some(i.clone())
            } else {
                None
            },
            None => None,
        };
        let ghost nf = opt_view(new_focus);
        let n = self.sessions.len();
        let mut j: usize = 0;
        while j < n
            invariant
                n == self.sessions@.len(),
                n == old(self).sessions@.len(),
                j <= n,
                self.focus == old(self).focus,
                nf == opt_view(new_focus),
                forall|k: int|
                    0 <= k < j ==> (#[trigger] self.sessions@[k]).wf() && self.sessions@[k]@
                        == after_focus(old(self).sessions@[k]@, nf),
                forall|k: int| j <= k < n ==> #[trigger] self.sessions@[k] == old(self).sessions@[k],
                forall|k: int| 0 <= k < n ==> (#[trigger] old(self).sessions@[k]).wf(),
            decreases n - j,
        {
            let focused = match &new_focus {
                Some(f) => self.sessions[j].id().eq(f),
                None => false,
            };
            if focused {
                self.sessions[j].set_paused(false);
            } else {
                self.sessions[j].set_paused(true);
                let _dropped = self.sessions[j].discard_all();
            }
            j = j + 1;
        }
        self.focus = new_focus;
        proof {
            let o = old(self)@;
            let r = self@;
            assert(r.sessions.len() == o.sessions.len());
            assert forall|k: int| 0 <= k < r.sessions.len() implies #[trigger] r.sessions[k]
                == after_focus(o.sessions[k], r.focus) by {}
            assert forall|a: int, b: int|
                0 <= a < r.sessions.len() && 0 <= b < r.sessions.len() && a != b implies #[trigger] r.sessions[a].id
                != #[trigger] r.sessions[b].id by {
                assert(r.sessions[a].id == o.sessions[a].id);
                assert(r.sessions[b].id == o.sessions[b].id);
            }
            if r.focus is Some {
                let f = r.focus->Some_0;
                let w = choose|k: int| 0 <= k < o.sessions.len() && #[trigger] o.sessions[k].id == f;
                assert(r.sessions[w].id == f);
            }
        }
    }

    /// One tick of the scheduler at time `now` (milliseconds). The focused
    /// session, unless it delivered less than `MIN_DELIVERY_INTERVAL_MS`
    /// ago, hands over up to `MAX_BATCH_SIZE` of its oldest events, which
    /// come back for the renderer when there are any. Every other session
    /// loses up to `MAX_DRAIN_PER_TICK` of its oldest events. Never waits.
    pub fn tick(&mut self, now: u64) -> (r: Option<Delivery>)
        requires
            old(self).wf(),
        ensures
            final(self).wf(),
            final(self)@.focus == old(self)@.focus,
            final(self)@.sessions.len() == old(self)@.sessions.len(),
            forall|j: int|
                0 <= j < old(self)@.sessions.len() ==> #[trigger] final(self)@.sessions[j] == after_tick(
                    old(self)@.sessions[j],
                    has_focus(old(self)@, j),
                    now,
                ),
            old(self)@.focus is None ==> r is None,
            forall|j: int|
                0 <= j < old(self)@.sessions.len() && #[trigger] has_focus(old(self)@, j) ==> {
                    let v = old(self)@.sessions[j];
                    &&& r is Some <==> batch_len(v, now) > 0
                    &&& r is Some ==> r->Some_0.session_id@ == v.id && r->Some_0.events@
                        == v.queue.take(batch_len(v, now) as int)
                },
    {
        let ghost o = old(self)@;
        let n = self.sessions.len();
        let mut out: Option<Delivery> = None;
        let ghost mut fk: int = 0;
        let mut j: usize = 0;
        while j < n
            invariant
                n == self.sessions@.len(),
                n == old(self).sessions@.len(),
                j <= n,
                o == old(self)@,
                self.focus == old(self).focus,
                registry_inv(o),
                forall|k: int|
                    0 <= k < j ==> (#[trigger] self.sessions@[k]).wf() && self.sessions@[k]@
                        == after_tick(o.sessions[k], has_focus(o, k), now),
                forall|k: int| j <= k < n ==> #[trigger] self.sessions@[k] == old(self).sessions@[k],
                forall|k: int| 0 <= k < n ==> (#[trigger] old(self).sessions@[k]).wf(),
                out is Some ==> 0 <= fk < j && has_focus(o, fk) && batch_len(o.sessions[fk], now) > 0
                    && out->Some_0.session_id@ == o.sessions[fk].id && out->Some_0.events@
                    == o.sessions[fk].queue.take(batch_len(o.sessions[fk], now) as int),
                out is None ==> forall|k: int|
                    0 <= k < j && #[trigger] has_focus(o, k) ==> batch_len(o.sessions[k], now) == 0,
            decreases n - j,
        {
            assert(self.sessions@[j as int]@ == o.sessions[j as int]);
            let focused = match &self.focus {
                Some(f) => self.sessions[j].id().eq(f),
                None => false,
            };
            if focused {
                let throttled = match self.sessions[j].last_delivery() {
                    Some(t) => t <= now && now - t < MIN_DELIVERY_INTERVAL_MS,
                    None => false,
                };
                if throttled {
                    assert(o.sessions[j as int].queue.skip(0) =~= o.sessions[j as int].queue);
                } else {
                    let batch = self.sessions[j].take_batch(MAX_BATCH_SIZE, now);
                    if batch.len() > 0 {
                        out = Some(Delivery { session_id: self.sessions[j].id().clone(), events: batch });
                        proof {
                            fk = j as int;
                        }
                    }
                }
            } else {
                let _dropped = self.sessions[j].discard_up_to(MAX_DRAIN_PER_TICK);
            }
            j = j + 1;
        }
        proof {
            let r = self@;
            assert forall|k: int| 0 <= k < r.sessions.len() implies #[trigger] r.sessions[k]
                == after_tick(o.sessions[k], has_focus(o, k), now) by {}
            assert forall|a: int, b: int|
                0 <= a < r.sessions.len() && 0 <= b < r.sessions.len() && a != b implies #[trigger] r.sessions[a].id
                != #[trigger] r.sessions[b].id by {
                assert(r.sessions[a].id == o.sessions[a].id);
                assert(r.sessions[b].id == o.sessions[b].id);
            }
            if r.focus is Some {
                let f = r.focus->Some_0;
                let w = choose|k: int| 0 <= k < o.sessions.len() && #[trigger] o.sessions[k].id == f;
                assert(r.sessions[w].id == f);
            }
            assert forall|k: int| 0 <= k < r.sessions.len() implies #[trigger] r.sessions[k].paused
                == !has_focus(r, k) by {
                assert(r.sessions[k].id == o.sessions[k].id);
                assert(r.sessions[k].paused == o.sessions[k].paused);
            }
            if o.focus is Some {
                let f = o.focus->Some_0;
                let w = choose|k: int| 0 <= k < o.sessions.len() && #[trigger] o.sessions[k].id == f;
                assert(has_focus(o, w));
            }
        }
        out
    }
}

/// Focus switch: once the focus has gone to `b`, every other session is
/// paused with nothing queued, and it stays so. Whatever event its receive
/// loop then hands over, at any time and of any generation, is not queued;
/// and no tick delivers from it or leaves anything queued in it.
pub proof fn lemma_focus_switch_silences(
    v: SessionView,
    b: Seq<char>,
    generation: u64,
    event: ChatEvent,
    now: u64,
)
    requires
        v.id != b,
    ensures
        ({
            let w = after_focus(v, Some(b));
            &&& w.paused
            &&& w.queue.len() == 0
            &&& receive_action(w, generation, now) != ReceiveAction::Enqueued
            &&& after_receive(w, generation, event, now).paused
            &&& after_receive(w, generation, event, now).queue.len() == 0
            &&& after_tick(w, false, now).paused
            &&& after_tick(w, false, now).queue.len() == 0
        }),
{
}

/// In a well-formed registry a session that does not have the focus is
/// paused, so the event its loop hands over is never queued.
pub proof fn lemma_unfocused_never_queues(
    r: RegistryView,
    j: int,
    generation: u64,
    event: ChatEvent,
    now: u64,
)
    requires
        registry_inv(r),
        0 <= j < r.sessions.len(),
        !has_focus(r, j),
    ensures
        receive_action(r.sessions[j], generation, now) != ReceiveAction::Enqueued,
        after_receive(r.sessions[j], generation, event, now).queue == r.sessions[j].queue,
{
}

/// Focus switch in a registry: when the focus goes from any session to
/// another one, `jb`, the session at `ja` is at once paused and empty, and
/// by `lemma_focus_switch_silences` stays so while `jb` keeps the focus.
pub proof fn lemma_switch_empties_old_session(r: RegistryView, ja: int, jb: int)
    requires
        registry_inv(r),
        0 <= ja < r.sessions.len(),
        0 <= jb < r.sessions.len(),
        ja != jb,
    ensures
        r.sessions[ja].id != r.sessions[jb].id,
        after_focus(r.sessions[ja], Some(r.sessions[jb].id)).paused,
        after_focus(r.sessions[ja], Some(r.sessions[jb].id)).queue.len() == 0,
{
    assert(r.sessions[ja].id != r.sessions[jb].id);
}

} // verus!
