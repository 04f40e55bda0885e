use admiral::catalog::{emote_from_file, Catalog};
use admiral::downloads::{
    host_part, plan_downloads, resolve_asset, resolve_assets, select_best, ImageFile, RemoteEmote,
    DOWNLOAD_BATCH_SIZE, INTER_BATCH_DELAY_MS, INTER_DOWNLOAD_DELAY_MS,
};
use admiral::emotes::{
    cleanup_emote_cache, cleanup_media_file_cache, get_emote_map, message_segments, Segment,
};
use admiral::media_cache::MediaCache;
use admiral::refresh::{RefreshTracker, IDLE_FORGET_MS, REFRESH_COOLDOWN_MS};
use admiral::retry::{
    Outcome, RetryState, Step, MAX_RATE_LIMITED, MAX_RETRIES, RATE_LIMIT_BASE_DELAY_MS, RETRY_BASE_DELAY_MS,
};
use admiral::text::{blank, is_whitespace, split_words};

fn names(v: &[&str]) -> Vec<String> {
    v.iter().map(|s| s.to_string()).collect()
}

fn file(name: &str, format: &str) -> ImageFile {
    ImageFile { name: name.to_string(), format: format.to_string() }
}

fn remote(name: &str) -> RemoteEmote {
    RemoteEmote {
        name: name.to_string(),
        host_url: "//cdn.7tv.app/emote/abc".to_string(),
        files: vec![file("1x.gif", "GIF"), file("1x.webp", "WEBP"), file("2x.webp", "WEBP")],
    }
}

#[test]
fn catalog_reads_stems_and_extensions() {
    let c = Catalog::from_files(&names(&["KEKW.webp", "catJAM.GIF", "noext", ".hidden", "KEKW.gif", "a.b.png"]));
    assert_eq!(c.len(), 3);
    let k = c.get(&"KEKW".to_string()).unwrap();
    assert_eq!(k.file_name, "KEKW.webp");
    assert!(!k.animated);
    assert!(c.get(&"catJAM".to_string()).unwrap().animated);
    assert!(c.get(&"catjam".to_string()).is_none());
    assert_eq!(c.get(&"a.b".to_string()).unwrap().file_name, "a.b.png");
    assert!(emote_from_file("noext").is_none());
}

#[test]
fn lookup_is_idempotent_within_cooldown() {
    let mut t = RefreshTracker::new();
    let chan = "12345".to_string();
    let files = names(&["a.png", "b.gif"]);
    let first = get_emote_map(&mut t, &chan, &files, 1_000);
    assert!(first.start_refresh);
    let second = get_emote_map(&mut t, &chan, &files, 2_000);
    assert!(!second.start_refresh);
    assert_eq!(first.catalog.len(), second.catalog.len());
    for j in 0..first.catalog.len() {
        assert_eq!(first.catalog.at(j).name, second.catalog.at(j).name);
        assert_eq!(first.catalog.at(j).file_name, second.catalog.at(j).file_name);
    }
    t.catalog_call_done(&chan, 3_000);
    t.finish(&chan);
    assert!(!get_emote_map(&mut t, &chan, &files, 1_000 + REFRESH_COOLDOWN_MS).start_refresh);
    assert!(get_emote_map(&mut t, &chan, &files, 3_000 + REFRESH_COOLDOWN_MS).start_refresh);
}

#[test]
fn cooldown_spaces_attempts_even_after_failure() {
    let mut t = RefreshTracker::new();
    let chan = "c".to_string();
    assert!(t.try_begin(&chan, 0));
    assert!(t.in_progress(&chan));
    assert!(!t.try_begin(&chan, REFRESH_COOLDOWN_MS * 2));
    t.catalog_call_done(&chan, 10);
    t.finish(&chan);
    assert!(!t.in_progress(&chan));
    assert!(!t.try_begin(&chan, REFRESH_COOLDOWN_MS + 9));
    assert!(t.try_begin(&chan, REFRESH_COOLDOWN_MS + 10));
}

#[test]
fn idle_channels_are_forgotten_without_losing_cooldown() {
    let mut t = RefreshTracker::new();
    let a = "a".to_string();
    let b = "b".to_string();
    assert!(t.try_begin(&a, 0));
    t.finish(&a);
    assert!(t.try_begin(&b, IDLE_FORGET_MS));
    let gone = cleanup_emote_cache(&mut t, IDLE_FORGET_MS);
    assert_eq!(gone, vec!["a".to_string()]);
    assert!(t.in_progress(&b));
    assert!(t.try_begin(&a, IDLE_FORGET_MS + 1));
}

#[test]
fn select_best_prefers_small_still_images() {
    assert_eq!(select_best(&vec![]), None);
    let files = vec![file("1x.gif", "GIF"), file("2x.png", "PNG"), file("1x.webp", "WEBP"), file("1x.png", "PNG")];
    assert_eq!(select_best(&files), Some(2));
    let files = vec![file("2x.gif", "GIF"), file("1x.gif", "gif")];
    assert_eq!(select_best(&files), Some(1));
    let files = vec![file("4x.gif", "GIF"), file("3x.avif", "AVIF")];
    assert_eq!(select_best(&files), Some(1));
    let files = vec![file("3x.png", "PNG"), file("2x.png", "PNG"), file("10x.png", "PNG")];
    assert_eq!(select_best(&files), Some(1));
    let files = vec![file("1x.png", "PNG"), file("1x.webp", "WEBP"), file("1x.avif", "avif")];
    assert_eq!(select_best(&files), Some(2));
    let files = vec![file("big.png", "PNG"), file("12x.png", "PNG")];
    assert_eq!(select_best(&files), Some(1));
    let files = vec![file("1x.gif", "GIF"), file("4x.png", "PNG")];
    assert_eq!(select_best(&files), Some(1));
}

#[test]
fn host_part_strips_schemes() {
    assert_eq!(host_part("https://cdn.7tv.app/emote/1"), "cdn.7tv.app/emote/1");
    assert_eq!(host_part("//cdn.7tv.app/emote/1"), "cdn.7tv.app/emote/1");
    assert_eq!(host_part("http://http://x"), "x");
    assert_eq!(host_part("cdn"), "cdn");
}

#[test]
fn remote_emotes_become_assets() {
    let a = resolve_asset(&remote("KEKW")).unwrap();
    assert_eq!(a.name, "KEKW");
    assert_eq!(a.url, "https://cdn.7tv.app/emote/abc/1x.webp");
    assert_eq!(a.format, "webp");
    let mut blank_host = remote("x");
    blank_host.host_url = "  \t".to_string();
    assert!(resolve_asset(&blank_host).is_none());
    let mut no_files = remote("y");
    no_files.files = vec![];
    assert!(resolve_asset(&no_files).is_none());
    let all = resolve_assets(&vec![remote("a"), blank_host, remote("b")]);
    assert_eq!(all.len(), 2);
    assert_eq!(all[1].name, "b");
}

#[test]
fn missing_emotes_are_downloaded_with_pauses() {
    let assets = resolve_assets(&vec![remote("one"), remote("two"), remote("three")]);
    let local = Catalog::from_files(&names(&["two.webp"]));
    let jobs = plan_downloads("/cache", "foo", &assets, &local);
    assert_eq!(jobs.len(), 2);
    assert_eq!(jobs[0].name, "one");
    assert_eq!(jobs[0].path, "/cache/foo/one.webp");
    assert_eq!(jobs[0].delay_before_ms, 0);
    assert_eq!(jobs[1].name, "three");
    assert_eq!(jobs[1].path, "/cache/foo/three.webp");
    assert_eq!(jobs[1].delay_before_ms, INTER_DOWNLOAD_DELAY_MS);
    assert!(jobs.iter().all(|j| j.path.starts_with("/cache/foo/")));
}

#[test]
fn downloads_pause_longer_between_batches() {
    let many: Vec<RemoteEmote> = (0..DOWNLOAD_BATCH_SIZE + 2).map(|i| remote(&format!("e{}", i))).collect();
    let mut dup = many;
    dup.push(remote("e0"));
    let assets = resolve_assets(&dup);
    let jobs = plan_downloads("/r", "c", &assets, &Catalog::empty());
    assert_eq!(jobs.len(), DOWNLOAD_BATCH_SIZE + 2);
    assert_eq!(jobs[DOWNLOAD_BATCH_SIZE - 1].delay_before_ms, INTER_DOWNLOAD_DELAY_MS);
    assert_eq!(jobs[DOWNLOAD_BATCH_SIZE].delay_before_ms, INTER_BATCH_DELAY_MS);
    assert_eq!(jobs[DOWNLOAD_BATCH_SIZE + 1].delay_before_ms, INTER_DOWNLOAD_DELAY_MS);
}

#[test]
fn download_failing_every_time_gives_up_after_max_retries() {
    let mut st = RetryState::new();
    let mut retries = 0;
    loop {
        match st.on_outcome(Outcome::Failed) {
            Step::Retry { delay_ms } => {
                retries += 1;
                assert_eq!(delay_ms, RETRY_BASE_DELAY_MS * retries as u64);
            }
            Step::GiveUp => break,
            Step::Done => panic!("never succeeded"),
        }
    }
    assert_eq!(retries, MAX_RETRIES);
}

#[test]
fn rate_limit_then_success_costs_one_backoff() {
    let mut st = RetryState::new();
    match st.on_catalog_outcome(Outcome::RateLimited) {
        Step::Retry { delay_ms } => assert_eq!(delay_ms, RATE_LIMIT_BASE_DELAY_MS),
        _ => panic!("a rate limit is retried"),
    }
    assert!(matches!(st.on_catalog_outcome(Outcome::Success), Step::Done));
    assert_eq!(st.failures(), 0);
    assert_eq!(st.rate_limited(), 1);
}

#[test]
fn catalog_call_gives_up_on_first_ordinary_failure() {
    let mut st = RetryState::new();
    assert!(matches!(st.on_catalog_outcome(Outcome::Failed), Step::GiveUp));
    let mut st = RetryState::new();
    match st.on_catalog_outcome(Outcome::RateLimited) {
        Step::Retry { delay_ms } => assert_eq!(delay_ms, RATE_LIMIT_BASE_DELAY_MS),
        _ => panic!("a rate limit is retried"),
    }
    assert!(matches!(st.on_catalog_outcome(Outcome::Success), Step::Done));
    let mut st = RetryState::new();
    let mut waits = 0;
    while let Step::Retry { .. } = st.on_catalog_outcome(Outcome::RateLimited) {
        waits += 1;
    }
    assert_eq!(waits, MAX_RATE_LIMITED);
}

#[test]
fn rate_limits_do_not_use_up_the_retry_budget() {
    let mut st = RetryState::new();
    assert!(matches!(st.on_outcome(Outcome::Failed), Step::Retry { .. }));
    assert!(matches!(st.on_outcome(Outcome::Failed), Step::Retry { .. }));
    assert!(matches!(st.on_outcome(Outcome::RateLimited), Step::Retry { .. }));
    assert!(matches!(st.on_outcome(Outcome::Failed), Step::Retry { .. }));
    assert!(matches!(st.on_outcome(Outcome::Failed), Step::GiveUp));
}

#[test]
fn media_cache_never_exceeds_capacity() {
    let mut c: MediaCache<u32> = MediaCache::new(2);
    assert_eq!(c.insert("a".to_string(), 1, 10), None);
    assert_eq!(c.insert("b".to_string(), 2, 20), None);
    assert_eq!(c.get(&"a".to_string(), 30), Some(&1));
    assert_eq!(c.insert("c".to_string(), 3, 40), Some(2));
    assert_eq!(c.len(), 2);
    assert_eq!(c.get(&"b".to_string(), 50), None);
    assert_eq!(c.insert("a".to_string(), 9, 60), Some(1));
    for i in 0..100u32 {
        let _ = c.insert(format!("k{}", i), i, 100 + i as u64);
        assert!(c.len() <= 2);
    }
    assert_eq!(c.remove(&"k99".to_string()), Some(99));
    assert_eq!(c.keys(), vec!["k98".to_string()]);
}

#[test]
fn sweep_drops_entries_whose_file_is_gone() {
    let mut c: MediaCache<u32> = MediaCache::new(4);
    let _ = c.insert("/x/a.png".to_string(), 1, 0);
    let _ = c.insert("/x/b.png".to_string(), 2, 0);
    let _ = c.insert("/x/c.png".to_string(), 3, 0);
    let released = cleanup_media_file_cache(&mut c, &names(&["/x/c.png", "/x/a.png", "/x/zzz"]));
    assert_eq!(released, vec![1, 3]);
    assert_eq!(c.keys(), vec!["/x/b.png".to_string()]);
}

#[test]
fn words_and_segments() {
    assert_eq!(split_words("  hi\tthere \n KEKW "), names(&["hi", "there", "KEKW"]));
    assert!(split_words(" \u{a0} ").is_empty());
    assert!(blank(" \n\t"));
    assert!(!blank(" x "));
    let c = Catalog::from_files(&names(&["KEKW.webp", "catJAM.gif"]));
    let segs = message_segments("lol KEKW kekw catJAM", &c);
    assert_eq!(segs.len(), 4);
    assert!(matches!(&segs[0], Segment::Text(w) if w == "lol"));
    assert!(matches!(&segs[1], Segment::Emote { name, file_name, animated: false } if name == "KEKW" && file_name == "KEKW.webp"));
    assert!(matches!(&segs[2], Segment::Text(w) if w == "kekw"));
    assert!(matches!(&segs[3], Segment::Emote { animated: true, .. }));
}

#[test]
fn whitespace_matches_std_on_every_char() {
    for u in 0..=0x10FFFFu32 {
        if let Some(c) = char::from_u32(u) {
            assert_eq!(is_whitespace(c), c.is_whitespace(), "at U+{:04X}", u);
        }
    }
}
