//! The bounded working set of decoded media, evicting the least recently
//! used entry when a new one would not fit.
//!
//! Handles are opaque to the cache. A handle that leaves the cache, by
//! eviction, replacement or removal, is handed back to the caller, whose job
//! is to release its decoder and playback resources; by then no lookup can
//! return it any more.
use vstd::prelude::*;

verus! {

/// How many decoded media the cache holds by default.
pub const DEFAULT_MEDIA_CAPACITY: usize = 256;

/// The period of the sweep that drops entries whose file has gone, in
/// milliseconds.
pub const SWEEP_INTERVAL_MS: u64 = 30_000;

struct CacheEntry<H> {
    key: String,
    handle: H,
    last_access: u64,
}

/// One entry, as the contracts see it.
pub struct EntryView<H> {
    pub key: Seq<char>,
    pub handle: H,
    pub last_access: u64,
}

/// Whether some entry of `s` has key `key`.
pub open spec fn has_key<H>(s: Seq<EntryView<H>>, key: Seq<char>) -> bool {
    exists|i: int| 0 <= i < s.len() && #[trigger] s[i].key == key
}

/// The position of the entry with key `key`.
pub open spec fn key_index<H>(s: Seq<EntryView<H>>, key: Seq<char>) -> int {
    choose|i: int| 0 <= i < s.len() && #[trigger] s[i].key == key
}

/// The position of the least recently used entry: the one with the oldest
/// access time, the earliest of them on a tie.
pub open spec fn lru_index<H>(s: Seq<EntryView<H>>) -> int
    decreases s.len(),
{
    if s.len() <= 1 {
        0
    } else {
        let k = lru_index(s.drop_last());
        if s.last().last_access < s[k].last_access {
            s.len() - 1
        } else {
            k
        }
    }
}

proof fn lemma_lru_index<H>(s: Seq<EntryView<H>>)
    requires
        s.len() > 0,
    ensures
        0 <= lru_index(s) < s.len(),
        forall|i: int| 0 <= i < s.len() ==> s[lru_index(s)].last_access <= #[trigger] s[i].last_access,
    decreases s.len(),
{
    if s.len() > 1 {
        lemma_lru_index(s.drop_last());
        let k = lru_index(s.drop_last());
        assert forall|i: int| 0 <= i < s.len() implies s[lru_index(s)].last_access
            <= #[trigger] s[i].last_access by {
            if i < s.len() - 1 {
                assert(s[i] == s.drop_last()[i]);
            }
        }
    }
}

/// Keys are unique, and there are never more entries than the capacity.
pub open spec fn cache_inv<H>(s: Seq<EntryView<H>>, capacity: nat) -> bool {
    &&& 0 < capacity
    &&& s.len() <= capacity
    &&& forall|a: int, b: int|
        0 <= a < s.len() && 0 <= b < s.len() && a != b ==> #[trigger] s[a].key != #[trigger] s[b].key
}

/// A bounded cache of decoded media keyed by file path.
pub struct MediaCache<H> {
    entries: Vec<CacheEntry<H>>,
    capacity: usize,
}

spec fn entry_view<H>(e: CacheEntry<H>) -> EntryView<H> {
    EntryView { key: e.key@, handle: e.handle, last_access: e.last_access }
}

impl<H> View for MediaCache<H> {
    type V = Seq<EntryView<H>>;

    closed spec fn view(&self) -> Seq<EntryView<H>> {
        self.entries@.map_values(|e: CacheEntry<H>| entry_view(e))
    }
}

impl<H> MediaCache<H> {
    pub closed spec fn cap(&self) -> nat {
        self.capacity as nat
    }

    pub open spec fn wf(&self) -> bool {
        cache_inv(self@, self.cap())
    }

    /// An empty cache that holds at most `capacity` entries.
    pub fn new(capacity: usize) -> (r: MediaCache<H>)
        requires
            capacity > 0,
        ensures
            r.wf(),
            r.cap() == capacity,
            r@ == Seq::<EntryView<H>>::empty(),
    {
        let r = MediaCache { entries: Vec::new(), capacity };
        assert(r@ =~= Seq::<EntryView<H>>::empty());
        r
    }

    pub fn len(&self) -> (r: usize)
        ensures
            r == self@.len(),
    {
        self.entries.len()
    }

    pub fn capacity(&self) -> (r: usize)
        ensures
            r == self.cap(),
    {
        self.capacity
    }

    fn position(&self, key: &String) -> (r: Option<usize>)
        requires
            self.wf(),
        ensures
            r is Some ==> r->Some_0 < self@.len() && key_index(self@, key@) == r->Some_0
                && has_key(self@, key@),
            r is None ==> !has_key(self@, key@),
    {
        let mut j: usize = 0;
        while j < self.entries.len()
            invariant
                self.wf(),
                j <= self.entries@.len(),
                forall|k: int| 0 <= k < j ==> (#[trigger] self@[k]).key != key@,
            decreases self.entries@.len() - j,
        {
            if self.entries[j].key.eq(key) {
                proof {
                    let s = self@;
                    assert(s[j as int].key == key@);
                    let w = key_index(s, key@);
                    if w != j {
                        assert(s[w].key != s[j as int].key);
                    }
                }
                return Some(j);
            }
            j = j + 1;
        }
        None
    }

    /// Looks `key` up at time `now`. On a hit the entry's access time
    /// becomes `now` and its handle comes back; a miss changes nothing.
    pub fn get(&mut self, key: &String, now: u64) -> (r: Option<&H>)
        requires
            old(self).wf(),
        ensures
            final(self).wf(),
            final(self).cap() == old(self).cap(),
            !has_key(old(self)@, key@) ==> r is None && final(self)@ == old(self)@,
            has_key(old(self)@, key@) ==> {
                let i = key_index(old(self)@, key@);
                &&& r == Some(&old(self)@[i].handle)
                &&& final(self)@ == old(self)@.update(
                    i,
                    EntryView { last_access: now, ..old(self)@[i] },
                )
            },
    {
        match self.position(key) {
            None => None,
            Some(j) => {
                self.entries[j].last_access = now;
                proof {
                    let o = old(self)@;
                    let n = self@;
                    assert(n =~= o.update(j as int, EntryView { last_access: now, ..o[j as int] }));
                    assert forall|a: int, b: int|
                        0 <= a < n.len() && 0 <= b < n.len() && a != b implies #[trigger] n[a].key
                        != #[trigger] n[b].key by {
                        assert(n[a].key == o[a].key);
                        assert(n[b].key == o[b].key);
                    }
                }
                Some(&self.entries[j].handle)
            },
        }
    }

    /// Stores `handle` under `key` at time `now`. An entry with that key has
    /// its handle replaced, and the old handle comes back. Otherwise, where
    /// the cache is full, the least recently used entry is evicted first and
    /// its handle comes back; the new entry goes last.
    pub fn insert(&mut self, key: String, handle: H, now: u64) -> (r: Option<H>)
        requires
            old(self).wf(),
        ensures
            final(self).wf(),
            final(self).cap() == old(self).cap(),
            final(self)@.len() <= final(self).cap(),
            has_key(old(self)@, key@) ==> {
                let i = key_index(old(self)@, key@);
                &&& r == Some(old(self)@[i].handle)
                &&& final(self)@ == old(self)@.update(
                    i,
                    EntryView { key: key@, handle, last_access: now },
                )
            },
            !has_key(old(self)@, key@) && old(self)@.len() < old(self).cap() ==> r is None
                && final(self)@ == old(self)@.push(EntryView { key: key@, handle, last_access: now }),
            !has_key(old(self)@, key@) && old(self)@.len() >= old(self).cap() ==> {
                let v = lru_index(old(self)@);
                &&& r == Some(old(self)@[v].handle)
                &&& final(self)@ == old(self)@.remove(v).push(
                    EntryView { key: key@, handle, last_access: now },
                )
            },
    {
        let ghost o = self@;
        let ghost kv = key@;
        match self.position(&key) {
            Some(j) => {
                let mut e = CacheEntry { key, handle, last_access: now };
                self.entries.set_and_swap(j, &mut e);
                proof {
                    let n = self@;
                    assert(n =~= o.update(j as int, EntryView { key: kv, handle, last_access: now }));
                    assert forall|a: int, b: int|
                        0 <= a < n.len() && 0 <= b < n.len() && a != b implies #[trigger] n[a].key
                        != #[trigger] n[b].key by {
                        if a != j && b != j {
                            assert(n[a] == o[a]);
                            assert(n[b] == o[b]);
                        } else if a == j {
                            assert(n[b] == o[b]);
                        } else {
                            assert(n[a] == o[a]);
                        }
                    }
                }
                Some(e.handle)
            },
            None => {
                let mut evicted: Option<H> = None;
                if self.entries.len() >= self.capacity {
                    let v = self.lru_position();
                    let gone = self.entries.remove(v);
                    evicted = Some(gone.handle);
                    assert(self@ =~= o.remove(v as int));
                }
                let ghost mid = self@;
                self.entries.push(CacheEntry { key, handle, last_access: now });
                proof {
                    let n = self@;
                    assert(n =~= mid.push(EntryView { key: kv, handle, last_access: now }));
                    assert forall|a: int, b: int|
                        0 <= a < n.len() && 0 <= b < n.len() && a != b implies #[trigger] n[a].key
                        != #[trigger] n[b].key by {
                        if a < mid.len() && b < mid.len() {
                            assert(n[a] == mid[a]);
                            assert(n[b] == mid[b]);
                        }
                        if a < mid.len() {
                            let a1 = if o.len() > mid.len() && a >= lru_index(o) { a + 1 } else { a };
                            assert(mid[a] == o[a1]);
                        }
                        if b < mid.len() {
                            let b1 = if o.len() > mid.len() && b >= lru_index(o) { b + 1 } else { b };
                            assert(mid[b] == o[b1]);
                        }
                        if a < mid.len() && b < mid.len() {
                            let a1 = if o.len() > mid.len() && a >= lru_index(o) { a + 1 } else { a };
                            let b1 = if o.len() > mid.len() && b >= lru_index(o) { b + 1 } else { b };
                            assert(o[a1].key != o[b1].key);
                        }
                    }
                }
                evicted
            },
        }
    }

    /// The position of the least recently used entry.
    fn lru_position(&self) -> (r: usize)
        requires
            self@.len() > 0,
        ensures
            r == lru_index(self@),
            r < self@.len(),
    {
        let mut k: usize = 0;
        let mut j: usize = 1;
        while j < self.entries.len()
            invariant
                1 <= j <= self.entries@.len(),
                k == lru_index(self@.take(j as int)),
                k < j,
            decreases self.entries@.len() - j,
        {
            proof {
                let s = self@.take(j + 1 as int);
                assert(s.drop_last() =~= self@.take(j as int));
                assert(s[k as int] == self@[k as int]);
            }
            if self.entries[j].last_access < self.entries[k].last_access {
                k = j;
            }
            j = j + 1;
        }
        proof {
            assert(self@.take(self@.len() as int) =~= self@);
        }
        k
    }

    /// Takes the entry with key `key` out of the cache and hands back its
    /// handle, if there is one.
    pub fn remove(&mut self, key: &String) -> (r: Option<H>)
        requires
            old(self).wf(),
        ensures
            final(self).wf(),
            final(self).cap() == old(self).cap(),
            !has_key(old(self)@, key@) ==> r is None && final(self)@ == old(self)@,
            has_key(old(self)@, key@) ==> {
                let i = key_index(old(self)@, key@);
                &&& r == Some(old(self)@[i].handle)
                &&& final(self)@ == old(self)@.remove(i)
            },
    {
        let ghost o = self@;
        match self.position(key) {
            None => None,
            Some(j) => {
                let gone = self.entries.remove(j);
                proof {
                    let n = self@;
                    assert(n =~= o.remove(j as int));
                    assert forall|a: int, b: int|
                        0 <= a < n.len() && 0 <= b < n.len() && a != b implies #[trigger] n[a].key
                        != #[trigger] n[b].key by {
                        let a1 = if a >= j { a + 1 } else { a };
                        let b1 = if b >= j { b + 1 } else { b };
                        assert(n[a] == o[a1]);
                        assert(n[b] == o[b1]);
                    }
                }
                Some(gone.handle)
            },
        }
    }

    /// Takes out of the cache every entry whose key is in `gone` and hands
    /// back their handles, in cache order; the other entries stay, in
    /// order.
    pub fn remove_all(&mut self, gone: &Vec<String>) -> (r: Vec<H>)
        requires
            old(self).wf(),
        ensures
            final(self).wf(),
            final(self).cap() == old(self).cap(),
            final(self)@ == kept(old(self)@, gone@.map_values(|g: String| g@)),
            r@ == dropped(old(self)@, gone@.map_values(|g: String| g@)),
    {
        let ghost gv = gone@.map_values(|g: String| g@);
        let ghost o = self@;
        let mut rest: Vec<CacheEntry<H>> = Vec::new();
        std::mem::swap(&mut rest, &mut self.entries);
        let ghost all = rest@.map_values(|e: CacheEntry<H>| entry_view(e));
        assert(all == o);
        let mut out: Vec<H> = Vec::new();
        let mut i: usize = 0;
        let n = rest.len();
        while rest.len() > 0
            invariant
                n == o.len(),
                i + rest@.len() == n,
                gv == gone@.map_values(|g: String| g@),
                rest@.map_values(|e: CacheEntry<H>| entry_view(e)) == o.skip(i as int),
                self@ == kept(o.take(i as int), gv),
                out@ == dropped(o.take(i as int), gv),
                self.capacity == old(self).capacity,
            decreases rest@.len(),
        {
            let ghost before = rest@;
            let e = rest.remove(0);
            proof {
                assert forall|k: int| 0 <= k < rest@.len() implies #[trigger] entry_view(rest@[k])
                    == o.skip(i + 1 as int)[k] by {
                    assert(rest@[k] == before[k + 1]);
                    assert(before.map_values(|e: CacheEntry<H>| entry_view(e))[k + 1] == entry_view(before[k + 1]));
                }
                assert(o.take(i + 1 as int).drop_last() =~= o.take(i as int));
                assert(o.skip(i as int)[0] == entry_view(e));
                assert(o.take(i + 1 as int).last() == entry_view(e));
                assert(rest@.map_values(|e: CacheEntry<H>| entry_view(e)) =~= o.skip(i + 1 as int));
            }
            let mut hit = false;
            let mut j: usize = 0;
            while j < gone.len()
                invariant
                    j <= gone@.len(),
                    gv == gone@.map_values(|g: String| g@),
                    hit == exists|k: int| 0 <= k < j && #[trigger] gv[k] == e.key@,
                decreases gone@.len() - j,
            {
                assert(gv[j as int] == gone@[j as int]@);
                if gone[j].eq(&e.key) {
                    hit = true;
                }
                j = j + 1;
            }
            proof {
                if hit {
                    let k = choose|k: int| 0 <= k < gone@.len() && #[trigger] gv[k] == e.key@;
                    assert(gv.contains(e.key@));
                } else {
                    assert(!gv.contains(e.key@));
                }
            }
            if hit {
                out.push(e.handle);
            } else {
                self.entries.push(e);
                assert(self@ =~= kept(o.take(i as int), gv).push(entry_view(e)));
            }
            i = i + 1;
        }
        proof {
            assert(o.take(n as int) =~= o);
            lemma_kept_inv(o, self.cap(), gv);
        }
        out
    }

    /// The keys of all entries, in cache order; the periodic sweep checks
    /// each for a file on disk and removes the entries whose file is gone.
    pub fn keys(&self) -> (r: Vec<String>)
        ensures
            r@.len() == self@.len(),
            forall|i: int| 0 <= i < r@.len() ==> #[trigger] r@[i]@ == self@[i].key,
    {
        let mut out: Vec<String> = Vec::new();
        let mut j: usize = 0;
        while j < self.entries.len()
            invariant
                j <= self.entries@.len(),
                out@.len() == j,
                forall|i: int| 0 <= i < j ==> #[trigger] out@[i]@ == self@[i].key,
            decreases self.entries@.len() - j,
        {
            out.push(self.entries[j].key.clone());
            j = j + 1;
        }
        out
    }
}

/// The entries of `s` whose key is not in `gone`, in order.
pub open spec fn kept<H>(s: Seq<EntryView<H>>, gone: Seq<Seq<char>>) -> Seq<EntryView<H>>
    decreases s.len(),
{
    if s.len() == 0 {
        s
    } else if gone.contains(s.last().key) {
        kept(s.drop_last(), gone)
    } else {
        kept(s.drop_last(), gone).push(s.last())
    }
}

/// The handles of the entries of `s` whose key is in `gone`, in order.
pub open spec fn dropped<H>(s: Seq<EntryView<H>>, gone: Seq<Seq<char>>) -> Seq<H>
    decreases s.len(),
{
    if s.len() == 0 {
        Seq::empty()
    } else if gone.contains(s.last().key) {
        dropped(s.drop_last(), gone).push(s.last().handle)
    } else {
        dropped(s.drop_last(), gone)
    }
}

proof fn lemma_kept_inv<H>(s: Seq<EntryView<H>>, cap: nat, gone: Seq<Seq<char>>)
    requires
        cache_inv(s, cap),
    ensures
        kept(s, gone).len() <= s.len(),
        cache_inv(kept(s, gone), cap),
        forall|i: int|
            0 <= i < kept(s, gone).len() ==> exists|j: int|
                0 <= j < s.len() && #[trigger] kept(s, gone)[i] == s[j],
    decreases s.len(),
{
    if s.len() > 0 {
        let t = s.drop_last();
        assert forall|a: int, b: int|
            0 <= a < t.len() && 0 <= b < t.len() && a != b implies #[trigger] t[a].key
            != #[trigger] t[b].key by {
            assert(t[a] == s[a]);
            assert(t[b] == s[b]);
        }
        lemma_kept_inv(t, cap, gone);
        let k = kept(t, gone);
        assert forall|i: int| 0 <= i < k.len() implies exists|j: int|
            0 <= j < s.len() && #[trigger] k[i] == s[j] by {
            let j = choose|j: int| 0 <= j < t.len() && #[trigger] k[i] == t[j];
            assert(t[j] == s[j]);
        }
        if !gone.contains(s.last().key) {
            let n = k.push(s.last());
            assert forall|a: int, b: int|
                0 <= a < n.len() && 0 <= b < n.len() && a != b implies #[trigger] n[a].key
                != #[trigger] n[b].key by {
                if a == k.len() {
                    let j = choose|j: int| 0 <= j < t.len() && #[trigger] k[b] == t[j];
                    assert(t[j] == s[j]);
                    assert(n[b] == s[j]);
                } else if b == k.len() {
                    let j = choose|j: int| 0 <= j < t.len() && #[trigger] k[a] == t[j];
                    assert(t[j] == s[j]);
                    assert(n[a] == s[j]);
                } else {
                    assert(n[a] == k[a]);
                    assert(n[b] == k[b]);
                }
            }
            assert forall|i: int| 0 <= i < n.len() implies exists|j: int|
                0 <= j < s.len() && #[trigger] n[i] == s[j] by {
                if i == k.len() {
                    assert(n[i] == s[s.len() - 1]);
                } else {
                    let j = choose|j: int| 0 <= j < t.len() && #[trigger] k[i] == t[j];
                    assert(t[j] == s[j]);
                    assert(n[i] == s[j]);
                }
            }
        }
    }
}

/// Eviction bound: whatever was stored and looked up before, a cache that
/// holds at most its capacity still does after one more `insert`, however
/// full it was.
pub proof fn lemma_insert_keeps_bound<H>(s: Seq<EntryView<H>>, cap: nat, key: Seq<char>, h: H, now: u64)
    requires
        cache_inv(s, cap),
    ensures
        !has_key(s, key) && s.len() >= cap ==> s.remove(lru_index(s)).push(
            EntryView { key, handle: h, last_access: now },
        ).len() <= cap,
        !has_key(s, key) && s.len() < cap ==> s.push(EntryView { key, handle: h, last_access: now }).len()
            <= cap,
        has_key(s, key) ==> s.update(key_index(s, key), EntryView { key, handle: h, last_access: now }).len()
            <= cap,
{
    if s.len() > 0 {
        lemma_lru_index(s);
    }
    if has_key(s, key) {
        let i = key_index(s, key);
        assert(0 <= i < s.len());
    }
}

} // verus!
