//! The emote resource cache as its callers see it: catalog lookup with its
//! refresh trigger, the periodic clean-ups, and the matching of chat words
//! against a catalog.
use crate::catalog::{catalog_of, has_name, Catalog, EmoteView};
use crate::media_cache::{dropped, kept, MediaCache};
use crate::refresh::{
    began, call_done, finished, forgotten, may_begin, raised_floor, still_known, tracker_inv,
    RefreshTracker,
};
use crate::text::{split_words, words};
use vstd::prelude::*;

verus! {

/// The catalog of a channel, and whether a background refresh of it must be
/// started now.
pub struct EmoteLookup {
    pub catalog: Catalog,
    pub start_refresh: bool,
}

/// Looks up the emote catalog of channel `channel_id` at `now`, given the
/// file names of its cache directory (see `catalog_of`). Nothing here waits
/// on the network. Where no refresh of the channel runs and its cooldown has
/// run out, one is marked as running and `start_refresh` says so: the
/// caller then starts the worker.
pub fn get_emote_map(tracker: &mut RefreshTracker, channel_id: &String, files: &Vec<String>, now: u64) -> (r:
    EmoteLookup)
    requires
        old(tracker).wf(),
    ensures
        final(tracker).wf(),
        r.catalog.wf(),
        r.catalog@ == catalog_of(files@.map_values(|f: String| f@)),
        r.start_refresh == may_begin(old(tracker)@, channel_id@, now),
        r.start_refresh ==> final(tracker)@ == began(old(tracker)@, channel_id@, now),
        !r.start_refresh ==> final(tracker)@ == old(tracker)@,
{
    let catalog = Catalog::from_files(files);
    let start_refresh = tracker.try_begin(channel_id, now);
    EmoteLookup { catalog, start_refresh }
}

/// Lookup is idempotent: the catalog that `get_emote_map` returns depends on
/// the directory listing alone, and once a lookup has started a refresh at
/// `t1`, no lookup made before the cooldown has run out starts another,
/// whatever became of the first refresh meanwhile.
pub proof fn lemma_lookup_idempotent(
    v: crate::refresh::TrackerView,
    c: Seq<char>,
    t1: u64,
    t2: u64,
    t3: u64,
)
    requires
        tracker_inv(v),
        may_begin(v, c, t1),
        t2 < t1 + crate::refresh::REFRESH_COOLDOWN_MS,
    ensures
        !may_begin(began(v, c, t1), c, t2),
        !may_begin(call_done(began(v, c, t1), c, t3), c, t2),
        !may_begin(finished(call_done(began(v, c, t1), c, t3), c), c, t2),
{
    crate::refresh::lemma_one_refresh_per_cooldown(v, c, t1, t2, t3);
}

/// Forgets the refresh state of the channels idle at `now` and returns their
/// names, so that the caller can drop what else it keeps for them.
pub fn cleanup_emote_cache(tracker: &mut RefreshTracker, now: u64) -> (r: Vec<String>)
    requires
        old(tracker).wf(),
    ensures
        final(tracker).wf(),
        final(tracker)@.entries == still_known(old(tracker)@.entries, now),
        final(tracker)@.attempts == old(tracker)@.attempts,
        final(tracker)@.floor == raised_floor(old(tracker)@.floor, old(tracker)@.entries, now),
        r@.map_values(|c: String| c@) == forgotten(old(tracker)@.entries, now),
{
    tracker.forget_idle(now)
}

/// The periodic sweep of decoded media: drops the entries whose backing file
/// is gone (`gone` lists their keys) and hands back their handles, for the
/// caller to release.
pub fn cleanup_media_file_cache<H>(cache: &mut MediaCache<H>, gone: &Vec<String>) -> (r: Vec<H>)
    requires
        old(cache).wf(),
    ensures
        final(cache).wf(),
        final(cache).cap() == old(cache).cap(),
        final(cache)@ == kept(old(cache)@, gone@.map_values(|g: String| g@)),
        r@ == dropped(old(cache)@, gone@.map_values(|g: String| g@)),
{
    cache.remove_all(gone)
}

/// A piece of a chat message for the renderer: a plain word, or an emote.
pub enum Segment {
    Text(String),
    Emote { name: String, file_name: String, animated: bool },
}

pub enum SegmentView {
    Text(Seq<char>),
    Emote(EmoteView),
}

impl View for Segment {
    type V = SegmentView;

    open spec fn view(&self) -> SegmentView {
        match self {
            Segment::Text(w) => SegmentView::Text(w@),
            Segment::Emote { name, file_name, animated } => SegmentView::Emote(
                EmoteView { name: name@, file_name: file_name@, animated: *animated },
            ),
        }
    }
}

/// The position of the emote called `name` in `c`.
pub open spec fn name_index(c: Seq<EmoteView>, name: Seq<char>) -> int {
    choose|i: int| 0 <= i < c.len() && #[trigger] c[i].name == name
}

/// What a word becomes: the emote of that exact name, or the word itself.
pub open spec fn segment_of(w: Seq<char>, c: Seq<EmoteView>) -> SegmentView {
    if has_name(c, w) {
        SegmentView::Emote(c[name_index(c, w)])
    } else {
        SegmentView::Text(w)
    }
}

/// Splits a chat message into its words and matches each, exactly and case
/// included, against the catalog's emote names.
pub fn message_segments(text: &str, catalog: &Catalog) -> (r: Vec<Segment>)
    requires
        catalog.wf(),
    ensures
        r@.len() == words(text@).len(),
        forall|k: int| 0 <= k < r@.len() ==> #[trigger] r@[k]@ == segment_of(words(text@)[k], catalog@),
{
    let ws = split_words(text);
    let ghost wv = ws@.map_values(|w: String| w@);
    let mut out: Vec<Segment> = Vec::new();
    let mut i: usize = 0;
    while i < ws.len()
        invariant
            catalog.wf(),
            i <= ws@.len(),
            wv == ws@.map_values(|w: String| w@),
            wv == words(text@),
            out@.len() == i,
            forall|k: int| 0 <= k < i ==> #[trigger] out@[k]@ == segment_of(wv[k], catalog@),
        decreases ws@.len() - i,
    {
        let w = &ws[i];
        assert(wv[i as int] == w@);
        let seg = match catalog.position(w) {
            Some(j) => {
                proof {
                    let c = catalog@;
                    let q = name_index(c, w@);
                    assert(c[j as int].name == w@);
                    if q != j {
                        assert(c[q].name != c[j as int].name);
                    }
                }
                let e = catalog.at(j);
                Segment::Emote { name: e.name.clone(), file_name: e.file_name.clone(), animated: e.animated }
            },
            None => Segment::Text(w.clone()),
        };
        out.push(seg);
        i = i + 1;
    }
    out
}

} // verus!
