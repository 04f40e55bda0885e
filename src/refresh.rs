//! Per-channel bookkeeping for the background refresh of emote catalogs.
//!
//! At most one refresh runs per channel, and two refresh attempts of one
//! channel are always at least `REFRESH_COOLDOWN_MS` apart, whether they
//! succeeded or not. Every attempt is recorded in a ghost log, over which
//! that spacing is part of the tracker's invariant.
use vstd::prelude::*;

verus! {

/// The least time between two refresh attempts of one channel, in
/// milliseconds.
pub const REFRESH_COOLDOWN_MS: u64 = 60_000;

/// How long a channel stays known after its last attempt, in milliseconds.
pub const IDLE_FORGET_MS: u64 = 3_600_000;

struct RefreshEntry {
    channel: String,
    in_progress: bool,
    last_attempt: Option<u64>,
}

/// What the tracker knows of one channel.
pub struct EntryView {
    pub channel: Seq<char>,
    pub in_progress: bool,
    pub last_attempt: Option<u64>,
}

/// The abstract state of the tracker. `floor` is the latest attempt time of
/// the channels it has forgotten; `attempts` lists every attempt made, as
/// channel and time, in order.
pub struct TrackerView {
    pub entries: Seq<EntryView>,
    pub floor: Option<u64>,
    pub attempts: Seq<(Seq<char>, u64)>,
}

pub open spec fn knows(v: TrackerView, c: Seq<char>) -> bool {
    exists|j: int| 0 <= j < v.entries.len() && #[trigger] v.entries[j].channel == c
}

pub open spec fn entry_index(v: TrackerView, c: Seq<char>) -> int {
    choose|j: int| 0 <= j < v.entries.len() && #[trigger] v.entries[j].channel == c
}

/// Whether the cooldown since `last` has run out at `now`.
pub open spec fn cooled(last: Option<u64>, now: u64) -> bool {
    match last {
        None => true,
        Some(t) => t <= now && now - t >= REFRESH_COOLDOWN_MS,
    }
}

/// Whether a refresh of `c` may start at `now`: none runs, and the cooldown
/// since the last attempt has run out.
pub open spec fn may_begin(v: TrackerView, c: Seq<char>, now: u64) -> bool {
    if knows(v, c) {
        let e = v.entries[entry_index(v, c)];
        !e.in_progress && cooled(e.last_attempt, now)
    } else {
        cooled(v.floor, now)
    }
}

/// The tracker once a refresh of `c` has started at `now`.
pub open spec fn began(v: TrackerView, c: Seq<char>, now: u64) -> TrackerView {
    let e = EntryView { channel: c, in_progress: true, last_attempt: Some(now) };
    TrackerView {
        entries: if knows(v, c) {
            v.entries.update(entry_index(v, c), e)
        } else {
            v.entries.push(e)
        },
        attempts: v.attempts.push((c, now)),
        ..v
    }
}

/// The later of an attempt time and `now`.
pub open spec fn later(last: Option<u64>, now: u64) -> Option<u64> {
    match last {
        Some(t) => if t >= now {
            Some(t)
        } else {
            Some(now)
        },
        None => Some(now),
    }
}

/// The tracker once the remote catalog call for `c` has come back at `now`,
/// well or not: the attempt time moves on to `now`.
pub open spec fn call_done(v: TrackerView, c: Seq<char>, now: u64) -> TrackerView {
    if knows(v, c) {
        let e = v.entries[entry_index(v, c)];
        TrackerView {
            entries: v.entries.update(
                entry_index(v, c),
                EntryView { last_attempt: later(e.last_attempt, now), ..e },
            ),
            ..v
        }
    } else {
        v
    }
}

/// The tracker once the refresh of `c` has finished.
pub open spec fn finished(v: TrackerView, c: Seq<char>) -> TrackerView {
    if knows(v, c) {
        let e = v.entries[entry_index(v, c)];
        TrackerView {
            entries: v.entries.update(entry_index(v, c), EntryView { in_progress: false, ..e }),
            ..v
        }
    } else {
        v
    }
}

/// Whether a channel's entry may be forgotten at `now`: no refresh runs and
/// its last attempt is at least `IDLE_FORGET_MS` old.
pub open spec fn idle(e: EntryView, now: u64) -> bool {
    !e.in_progress && match e.last_attempt {
        Some(t) => t <= now && now - t >= IDLE_FORGET_MS,
        None => true,
    }
}

/// The tracker's invariant: one entry per channel; attempts of one channel
/// are at least the cooldown apart; no attempt of a known channel is later
/// than its entry's attempt time, nor one of a forgotten channel later than
/// `floor`.
pub open spec fn tracker_inv(v: TrackerView) -> bool {
    &&& forall|a: int, b: int|
        0 <= a < v.entries.len() && 0 <= b < v.entries.len() && a != b ==> #[trigger] v.entries[a].channel
            != #[trigger] v.entries[b].channel
    &&& forall|i: int, j: int|
        0 <= i < j < v.attempts.len() && (#[trigger] v.attempts[i]).0 == (#[trigger] v.attempts[j]).0
            ==> v.attempts[i].1 + REFRESH_COOLDOWN_MS <= v.attempts[j].1
    &&& forall|i: int, k: int|
        0 <= i < v.attempts.len() && 0 <= k < v.entries.len() && (#[trigger] v.entries[k]).channel
            == (#[trigger] v.attempts[i]).0 ==> v.entries[k].last_attempt is Some
            && v.attempts[i].1 <= v.entries[k].last_attempt->Some_0
    &&& forall|i: int|
        0 <= i < v.attempts.len() && !knows(v, (#[trigger] v.attempts[i]).0) ==> v.floor is Some
            && v.attempts[i].1 <= v.floor->Some_0
}

/// The refresh state of every channel seen.
pub struct RefreshTracker {
    entries: Vec<RefreshEntry>,
    floor: Option<u64>,
    attempts: Ghost<Seq<(Seq<char>, u64)>>,
}

spec fn entry_view_of(e: RefreshEntry) -> EntryView {
    EntryView { channel: e.channel@, in_progress: e.in_progress, last_attempt: e.last_attempt }
}

impl View for RefreshTracker {
    type V = TrackerView;

    closed spec fn view(&self) -> TrackerView {
        TrackerView {
            entries: self.entries@.map_values(|e: RefreshEntry| entry_view_of(e)),
            floor: self.floor,
            attempts: self.attempts@,
        }
    }
}

proof fn lemma_entry_index(v: TrackerView, j: int)
    requires
        tracker_inv(v),
        0 <= j < v.entries.len(),
    ensures
        knows(v, v.entries[j].channel),
        entry_index(v, v.entries[j].channel) == j,
{
    let c = v.entries[j].channel;
    assert(v.entries[j].channel == c);
    let k = entry_index(v, c);
    if k != j {
        assert(v.entries[k].channel != v.entries[j].channel);
    }
}

impl RefreshTracker {
    pub open spec fn wf(&self) -> bool {
        tracker_inv(self@)
    }

    pub fn new() -> (r: RefreshTracker)
        ensures
            r.wf(),
            r@.entries == Seq::<EntryView>::empty(),
            r@.floor is None,
            r@.attempts == Seq::<(Seq<char>, u64)>::empty(),
    {
        let r = RefreshTracker { entries: Vec::new(), floor: None, attempts: Ghost(Seq::empty()) };
        assert(r@.entries =~= Seq::<EntryView>::empty());
        r
    }

    fn find(&self, c: &String) -> (r: Option<usize>)
        requires
            self.wf(),
        ensures
            r is Some ==> r->Some_0 < self@.entries.len() && entry_index(self@, c@) == r->Some_0
                && knows(self@, c@),
            r is None ==> !knows(self@, c@),
    {
        let mut j: usize = 0;
        while j < self.entries.len()
            invariant
                self.wf(),
                j <= self.entries@.len(),
                forall|k: int| 0 <= k < j ==> (#[trigger] self@.entries[k]).channel != c@,
            decreases self.entries@.len() - j,
        {
            if self.entries[j].channel.eq(c) {
                proof {
                    lemma_entry_index(self@, j as int);
                }
                return Some(j);
            }
            j = j + 1;
        }
        None
    }

    /// Whether a refresh of `c` is running.
    pub fn in_progress(&self, c: &String) -> (r: bool)
        requires
            self.wf(),
        ensures
            r == (knows(self@, c@) && self@.entries[entry_index(self@, c@)].in_progress),
    {
        match self.find(c) {
            Some(j) => self.entries[j].in_progress,
            None => false,
        }
    }

    /// Starts a refresh of `c` at `now` where one may start (see
    /// `may_begin`): it is marked as running and the attempt is recorded.
    /// Otherwise nothing changes and `false` comes back.
    pub fn try_begin(&mut self, c: &String, now: u64) -> (r: bool)
        requires
            old(self).wf(),
        ensures
            final(self).wf(),
            r == may_begin(old(self)@, c@, now),
            r ==> final(self)@ == began(old(self)@, c@, now),
            !r ==> final(self)@ == old(self)@,
    {
        let found = self.find(c);
        let last = match found {
            Some(j) => {
                if self.entries[j].in_progress {
                    return false;
                }
                self.entries[j].last_attempt
            },
            None => self.floor,
        };
        let cool = match last {
            None => true,
            Some(t) => t <= now && now - t >= REFRESH_COOLDOWN_MS,
        };
        if !cool {
            return false;
        }
        let ghost o = self@;
        let e = RefreshEntry { channel: c.clone(), in_progress: true, last_attempt: Some(now) };
        match found {
            Some(j) => {
                self.entries.set(j, e);
            },
            None => {
                self.entries.push(e);
            },
        }
        self.attempts = Ghost(self.attempts@.push((c@, now)));
        proof {
            let n = self@;
            let b = began(o, c@, now);
            assert(n.entries =~= b.entries);
            assert(n =~= b);
            let ne = n.entries;
            assert forall|a: int, bb: int|
                0 <= a < ne.len() && 0 <= bb < ne.len() && a != bb implies #[trigger] ne[a].channel
                != #[trigger] ne[bb].channel by {
                if found is None {
                    if a < o.entries.len() && bb < o.entries.len() {
                        assert(ne[a] == o.entries[a]);
                        assert(ne[bb] == o.entries[bb]);
                    } else if a < o.entries.len() {
                        assert(ne[a] == o.entries[a]);
                    } else {
                        assert(ne[bb] == o.entries[bb]);
                    }
                }
            }
            assert forall|i: int, j: int|
                0 <= i < j < n.attempts.len() && (#[trigger] n.attempts[i]).0 == (
                #[trigger] n.attempts[j]).0 implies n.attempts[i].1 + REFRESH_COOLDOWN_MS
                <= n.attempts[j].1 by {
                if j == n.attempts.len() - 1 {
                    assert(n.attempts[i] == o.attempts[i]);
                    if knows(o, c@) {
                        let k = entry_index(o, c@);
                        assert(o.entries[k].channel == o.attempts[i].0);
                    }
                } else {
                    assert(n.attempts[i] == o.attempts[i]);
                    assert(n.attempts[j] == o.attempts[j]);
                }
            }
            assert forall|i: int, k: int|
                0 <= i < n.attempts.len() && 0 <= k < ne.len() && (#[trigger] ne[k]).channel == (
                #[trigger] n.attempts[i]).0 implies ne[k].last_attempt is Some
                && n.attempts[i].1 <= ne[k].last_attempt->Some_0 by {
                if i < n.attempts.len() - 1 {
                    assert(n.attempts[i] == o.attempts[i]);
                    if ne[k].channel == c@ {
                        if knows(o, c@) {
                            let q = entry_index(o, c@);
                            assert(o.entries[q].channel == o.attempts[i].0);
                        }
                    } else {
                        assert(k < o.entries.len());
                        assert(ne[k] == o.entries[k]);
                    }
                } else {
                    if ne[k].channel != c@ {
                        assert(ne[k] == o.entries[k]);
                    }
                }
            }
            assert forall|i: int|
                0 <= i < n.attempts.len() && !knows(n, (#[trigger] n.attempts[i]).0) implies n.floor is Some
                && n.attempts[i].1 <= n.floor->Some_0 by {
                let ci = n.attempts[i].0;
                if i == n.attempts.len() - 1 {
                    let w = if found is Some { entry_index(o, c@) } else { o.entries.len() as int };
                    assert(ne[w].channel == c@);
                } else {
                    assert(n.attempts[i] == o.attempts[i]);
                    if knows(o, ci) {
                        let q = entry_index(o, ci);
                        if ci == c@ {
                            let w = if found is Some { entry_index(o, c@) } else { o.entries.len() as int };
                            assert(ne[w].channel == c@);
                        } else {
                            assert(ne[q] == o.entries[q]);
                        }
                    }
                }
            }
        }
        true
    }

    /// Records that the remote catalog call for `c` came back at `now`,
    /// whether it succeeded or not: the cooldown now runs from the later of
    /// `now` and the recorded attempt time.
    pub fn catalog_call_done(&mut self, c: &String, now: u64)
        requires
            old(self).wf(),
        ensures
            final(self).wf(),
            final(self)@ == call_done(old(self)@, c@, now),
    {
        let ghost o = self@;
        match self.find(c) {
            Some(j) => {
                let last = match self.entries[j].last_attempt {
                    Some(t) => if t >= now {
                        Some(t)
                    } else {
                        Some(now)
                    },
                    None => Some(now),
                };
                let e = RefreshEntry {
                    channel: c.clone(),
                    in_progress: self.entries[j].in_progress,
                    last_attempt: last,
                };
                self.entries.set(j, e);
                proof {
                    let n = self@;
                    assert(n.entries =~= call_done(o, c@, now).entries);
                    self.lemma_same_channels(o, j as int);
                    assert forall|i: int, k: int|
                        0 <= i < n.attempts.len() && 0 <= k < n.entries.len() && (
                        #[trigger] n.entries[k]).channel == (#[trigger] n.attempts[i]).0 implies n.entries[k].last_attempt is Some
                        && n.attempts[i].1 <= n.entries[k].last_attempt->Some_0 by {
                        assert(o.entries[k].channel == n.entries[k].channel);
                    }
                }
            },
            None => {},
        }
    }

    /// Records that the refresh of `c` has finished, however it went.
    pub fn finish(&mut self, c: &String)
        requires
            old(self).wf(),
        ensures
            final(self).wf(),
            final(self)@ == finished(old(self)@, c@),
    {
        let ghost o = self@;
        match self.find(c) {
            Some(j) => {
                let e = RefreshEntry {
                    channel: c.clone(),
                    in_progress: false,
                    last_attempt: self.entries[j].last_attempt,
                };
                self.entries.set(j, e);
                proof {
                    let n = self@;
                    assert(n.entries =~= finished(o, c@).entries);
                    self.lemma_same_channels(o, j as int);
                    assert forall|i: int, k: int|
                        0 <= i < n.attempts.len() && 0 <= k < n.entries.len() && (
                        #[trigger] n.entries[k]).channel == (#[trigger] n.attempts[i]).0 implies n.entries[k].last_attempt is Some
                        && n.attempts[i].1 <= n.entries[k].last_attempt->Some_0 by {
                        assert(o.entries[k].channel == n.entries[k].channel);
                    }
                }
            },
            None => {},
        }
    }

    /// Forgets the channels whose entry is idle at `now` (see `idle`) and
    /// returns their names, in order. A channel forgotten is not thereby
    /// freed from its cooldown.
    pub fn forget_idle(&mut self, now: u64) -> (r: Vec<String>)
        requires
            old(self).wf(),
        ensures
            final(self).wf(),
            final(self)@.entries == still_known(old(self)@.entries, now),
            final(self)@.attempts == old(self)@.attempts,
            final(self)@.floor == raised_floor(old(self)@.floor, old(self)@.entries, now),
            r@.map_values(|c: String| c@) == forgotten(old(self)@.entries, now),
    {
        let ghost o = self@;
        let mut rest: Vec<RefreshEntry> = Vec::new();
        std::mem::swap(&mut rest, &mut self.entries);
        let mut out: Vec<String> = Vec::new();
        let n = rest.len();
        let mut i: usize = 0;
        while rest.len() > 0
            invariant
                n == o.entries.len(),
                i + rest@.len() == n,
                rest@.map_values(|e: RefreshEntry| entry_view_of(e)) == o.entries.skip(i as int),
                self@.entries == still_known(o.entries.take(i as int), now),
                self@.attempts == o.attempts,
                out@.map_values(|c: String| c@) == forgotten(o.entries.take(i as int), now),
                self.floor == raised_floor(o.floor, o.entries.take(i as int), now),
                o.floor is Some ==> self.floor is Some && o.floor->Some_0 <= self.floor->Some_0,
                forall|j: int|
                    0 <= j < i && idle(#[trigger] o.entries[j], now) && o.entries[j].last_attempt is Some
                        ==> self.floor is Some && o.entries[j].last_attempt->Some_0
                        <= self.floor->Some_0,
            decreases rest@.len(),
        {
            let ghost before = rest@;
            let e = rest.remove(0);
            proof {
                assert forall|k: int| 0 <= k < rest@.len() implies #[trigger] entry_view_of(rest@[k])
                    == o.entries.skip(i + 1 as int)[k] by {
                    assert(rest@[k] == before[k + 1]);
                    assert(before.map_values(|e: RefreshEntry| entry_view_of(e))[k + 1]
                        == entry_view_of(before[k + 1]));
                }
                assert(rest@.map_values(|e: RefreshEntry| entry_view_of(e)) =~= o.entries.skip(
                    i + 1 as int,
                ));
                assert(o.entries.skip(i as int)[0] == entry_view_of(e));
                assert(o.entries[i as int] == entry_view_of(e));
                assert(o.entries.take(i + 1 as int).drop_last() =~= o.entries.take(i as int));
                assert(o.entries.take(i + 1 as int).last() == entry_view_of(e));
            }
            let is_idle = !e.in_progress && match e.last_attempt {
                Some(t) => t <= now && now - t >= IDLE_FORGET_MS,
                None => true,
            };
            if is_idle {
                match e.last_attempt {
                    Some(t) => {
                        self.floor = match self.floor {
                            Some(f) => if f >= t {
                                Some(f)
                            } else {
                                Some(t)
                            },
                            None => Some(t),
                        };
                    },
                    None => {},
                }
                out.push(e.channel);
                assert(out@.map_values(|c: String| c@) =~= forgotten(o.entries.take(i as int), now).push(
                    o.entries[i as int].channel,
                ));
            } else {
                self.entries.push(e);
                assert(self@.entries =~= still_known(o.entries.take(i as int), now).push(
                    o.entries[i as int],
                ));
            }
            i = i + 1;
        }
        proof {
            assert(o.entries.take(n as int) =~= o.entries);
            lemma_still_known(o.entries, now);
            let v = self@;
            assert forall|i: int, k: int|
                0 <= i < v.attempts.len() && 0 <= k < v.entries.len() && (
                #[trigger] v.entries[k]).channel == (#[trigger] v.attempts[i]).0 implies v.entries[k].last_attempt is Some
                && v.attempts[i].1 <= v.entries[k].last_attempt->Some_0 by {
                let j = choose|j: int| 0 <= j < o.entries.len() && #[trigger] v.entries[k] == o.entries[j];
                assert(o.entries[j].channel == o.attempts[i].0);
            }
            assert forall|i: int|
                0 <= i < v.attempts.len() && !knows(v, (#[trigger] v.attempts[i]).0) implies v.floor is Some
                && v.attempts[i].1 <= v.floor->Some_0 by {
                let c = v.attempts[i].0;
                if knows(o, c) {
                    let j = entry_index(o, c);
                    assert(o.entries[j].channel == c);
                    if !idle(o.entries[j], now) {
                        assert(v.entries.contains(o.entries[j]));
                        let w = choose|w: int| 0 <= w < v.entries.len() && v.entries[w] == o.entries[j];
                        assert(v.entries[w].channel == c);
                    }
                }
            }
        }
        out
    }

    /// When only the entry at `j` changed, and not its channel, the channels
    /// known are the same and stay unique.
    proof fn lemma_same_channels(&self, o: TrackerView, j: int)
        requires
            tracker_inv(o),
            0 <= j < o.entries.len(),
            self@.entries.len() == o.entries.len(),
            self@.floor == o.floor,
            self@.attempts == o.attempts,
            forall|k: int|
                0 <= k < o.entries.len() ==> (#[trigger] self@.entries[k]).channel
                    == o.entries[k].channel,
            forall|k: int| 0 <= k < o.entries.len() && k != j ==> #[trigger] self@.entries[k] == o.entries[k],
        ensures
            forall|c: Seq<char>| #[trigger] knows(self@, c) == knows(o, c),
            forall|a: int, b: int|
                0 <= a < self@.entries.len() && 0 <= b < self@.entries.len() && a != b
                    ==> #[trigger] self@.entries[a].channel != #[trigger] self@.entries[b].channel,
            forall|i: int|
                0 <= i < self@.attempts.len() && !knows(self@, (#[trigger] self@.attempts[i]).0)
                    ==> self@.floor is Some && self@.attempts[i].1 <= self@.floor->Some_0,
    {
        let n = self@;
        assert forall|c: Seq<char>| #[trigger] knows(n, c) == knows(o, c) by {
            if knows(o, c) {
                let w = entry_index(o, c);
                assert(n.entries[w].channel == c);
            }
            if knows(n, c) {
                let w = entry_index(n, c);
                assert(o.entries[w].channel == c);
            }
        }
        assert forall|a: int, b: int|
            0 <= a < n.entries.len() && 0 <= b < n.entries.len() && a != b implies #[trigger] n.entries[a].channel
            != #[trigger] n.entries[b].channel by {
            assert(n.entries[a].channel == o.entries[a].channel);
            assert(n.entries[b].channel == o.entries[b].channel);
        }
        assert forall|i: int|
            0 <= i < n.attempts.len() && !knows(n, (#[trigger] n.attempts[i]).0) implies n.floor is Some
            && n.attempts[i].1 <= n.floor->Some_0 by {
            assert(knows(n, n.attempts[i].0) == knows(o, o.attempts[i].0));
        }
    }
}

/// The entries that stay at `now`: those not idle, in order.
pub open spec fn still_known(es: Seq<EntryView>, now: u64) -> Seq<EntryView>
    decreases es.len(),
{
    if es.len() == 0 {
        es
    } else if idle(es.last(), now) {
        still_known(es.drop_last(), now)
    } else {
        still_known(es.drop_last(), now).push(es.last())
    }
}

/// The channels forgotten at `now`: those whose entry is idle, in order.
pub open spec fn forgotten(es: Seq<EntryView>, now: u64) -> Seq<Seq<char>>
    decreases es.len(),
{
    if es.len() == 0 {
        Seq::empty()
    } else if idle(es.last(), now) {
        forgotten(es.drop_last(), now).push(es.last().channel)
    } else {
        forgotten(es.drop_last(), now)
    }
}

/// The larger of `floor` and an attempt time, if any.
pub open spec fn raise(floor: Option<u64>, last: Option<u64>) -> Option<u64> {
    match last {
        None => floor,
        Some(t) => match floor {
            Some(f) => if f >= t {
                Some(f)
            } else {
                Some(t)
            },
            None => Some(t),
        },
    }
}

/// `floor` raised to the last attempt of every entry idle at `now`.
pub open spec fn raised_floor(floor: Option<u64>, es: Seq<EntryView>, now: u64) -> Option<u64>
    decreases es.len(),
{
    if es.len() == 0 {
        floor
    } else {
        let f = raised_floor(floor, es.drop_last(), now);
        if idle(es.last(), now) {
            raise(f, es.last().last_attempt)
        } else {
            f
        }
    }
}

proof fn lemma_still_known(es: Seq<EntryView>, now: u64)
    ensures
        forall|i: int|
            0 <= i < still_known(es, now).len() ==> exists|j: int|
                0 <= j < es.len() && #[trigger] still_known(es, now)[i] == es[j],
        forall|j: int|
            0 <= j < es.len() && !idle(#[trigger] es[j], now) ==> still_known(es, now).contains(es[j]),
        (forall|a: int, b: int|
            0 <= a < es.len() && 0 <= b < es.len() && a != b ==> #[trigger] es[a].channel
                != #[trigger] es[b].channel) ==> forall|a: int, b: int|
            0 <= a < still_known(es, now).len() && 0 <= b < still_known(es, now).len() && a != b
                ==> #[trigger] still_known(es, now)[a].channel != #[trigger] still_known(
                es,
                now,
            )[b].channel,
    decreases es.len(),
{
    if es.len() > 0 {
        let t = es.drop_last();
        lemma_still_known(t, now);
        let k = still_known(t, now);
        let n = still_known(es, now);
        assert forall|i: int| 0 <= i < n.len() implies exists|j: int|
            0 <= j < es.len() && #[trigger] n[i] == es[j] by {
            if i < k.len() {
                let j = choose|j: int| 0 <= j < t.len() && #[trigger] k[i] == t[j];
                assert(t[j] == es[j]);
                assert(n[i] == k[i]);
            } else {
                assert(n[i] == es[es.len() - 1]);
            }
        }
        assert forall|j: int| 0 <= j < es.len() && !idle(#[trigger] es[j], now) implies n.contains(
            es[j],
        ) by {
            if j < t.len() {
                assert(t[j] == es[j]);
                assert(k.contains(t[j]));
                let w = choose|w: int| 0 <= w < k.len() && k[w] == t[j];
                assert(n[w] == k[w]);
            } else {
                assert(n[n.len() - 1] == es[j]);
            }
        }
        if forall|a: int, b: int|
            0 <= a < es.len() && 0 <= b < es.len() && a != b ==> #[trigger] es[a].channel
                != #[trigger] es[b].channel {
            assert forall|a: int, b: int|
                0 <= a < t.len() && 0 <= b < t.len() && a != b implies #[trigger] t[a].channel
                != #[trigger] t[b].channel by {
                assert(t[a] == es[a]);
                assert(t[b] == es[b]);
            }
            assert forall|a: int, b: int|
                0 <= a < n.len() && 0 <= b < n.len() && a != b implies #[trigger] n[a].channel
                != #[trigger] n[b].channel by {
                if a < k.len() && b < k.len() {
                    assert(n[a] == k[a]);
                    assert(n[b] == k[b]);
                } else if a < k.len() {
                    let j = choose|j: int| 0 <= j < t.len() && #[trigger] k[a] == t[j];
                    assert(t[j] == es[j]);
                    assert(n[a] == k[a]);
                    assert(n[b] == es[es.len() - 1]);
                } else {
                    let j = choose|j: int| 0 <= j < t.len() && #[trigger] k[b] == t[j];
                    assert(t[j] == es[j]);
                    assert(n[b] == k[b]);
                    assert(n[a] == es[es.len() - 1]);
                }
            }
        }
    }
}

/// Cooldown: any two refresh attempts of one channel, as the tracker
/// records them, are at least `REFRESH_COOLDOWN_MS` apart, the later one
/// last.
pub proof fn lemma_attempts_spaced(t: &RefreshTracker, i: int, j: int)
    requires
        t.wf(),
        0 <= i < j < t@.attempts.len(),
        t@.attempts[i].0 == t@.attempts[j].0,
    ensures
        t@.attempts[j].1 - t@.attempts[i].1 >= REFRESH_COOLDOWN_MS,
{
    assert(t@.attempts[i].1 + REFRESH_COOLDOWN_MS <= t@.attempts[j].1);
}

/// Once a refresh of `c` has started at `t1`, no other one may start before
/// the cooldown has run out: neither while it runs, nor once it is over,
/// however late its catalog call came back.
pub proof fn lemma_one_refresh_per_cooldown(v: TrackerView, c: Seq<char>, t1: u64, t2: u64, t3: u64)
    requires
        tracker_inv(v),
        may_begin(v, c, t1),
        t2 < t1 + REFRESH_COOLDOWN_MS,
    ensures
        !may_begin(began(v, c, t1), c, t2),
        !may_begin(call_done(began(v, c, t1), c, t3), c, t2),
        !may_begin(finished(began(v, c, t1), c), c, t2),
        !may_begin(finished(call_done(began(v, c, t1), c, t3), c), c, t2),
{
    let b = began(v, c, t1);
    let w = if knows(v, c) { entry_index(v, c) } else { v.entries.len() as int };
    assert(b.entries[w].channel == c);
    assert(knows(b, c));
    let k = entry_index(b, c);
    assert(b.entries[k].channel == c);
    if k != w {
        if knows(v, c) {
            assert(v.entries[k].channel != v.entries[w].channel);
        } else {
            assert(v.entries[k].channel == c);
        }
    }
    assert(k == w);
    let d = call_done(b, c, t3);
    assert(d.entries[w].channel == c);
    assert(entry_index(d, c) == entry_index(b, c));
    let f1 = finished(b, c);
    assert(f1.entries[w].channel == c);
    let ki = entry_index(f1, c);
    assert(f1.entries[ki].channel == c);
    if ki != w {
        assert(f1.entries[ki] == b.entries[ki]);
        if knows(v, c) {
            assert(v.entries[ki].channel != v.entries[w].channel);
        } else {
            assert(v.entries[ki].channel == c);
        }
    }
    let f2 = finished(d, c);
    assert(f2.entries[w].channel == c);
    let kj = entry_index(f2, c);
    assert(f2.entries[kj].channel == c);
    if kj != w {
        assert(f2.entries[kj] == b.entries[kj]);
        if knows(v, c) {
            assert(v.entries[kj].channel != v.entries[w].channel);
        } else {
            assert(v.entries[kj].channel == c);
        }
    }
}

} // verus!
