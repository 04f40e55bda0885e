//! From a channel's remote emote catalog to the list of downloads that bring
//! its cache directory up to date.
//!
//! For each remote emote one encoding is chosen (`select_best`), its address
//! is built from the image host, and the emotes that the local catalog lacks
//! are downloaded one after the other: a short pause between two downloads
//! and a longer one between two batches keep the rate of requests low.
use crate::catalog::{animated_ext, has_name, is_animated_ext, Catalog, EmoteView};
use crate::text::{blank, is_blank, lower_of, lowercase};
use vstd::prelude::*;

verus! {

/// How many downloads make one batch.
pub const DOWNLOAD_BATCH_SIZE: usize = 20;

/// The pause before each download of a batch but the first, in
/// milliseconds.
pub const INTER_DOWNLOAD_DELAY_MS: u64 = 100;

/// The pause before the first download of each batch but the first, in
/// milliseconds.
pub const INTER_BATCH_DELAY_MS: u64 = 2000;

/// One encoding of an emote on the image host.
pub struct ImageFile {
    /// The file name on the host, such as `1x.webp`.
    pub name: String,
    /// The format, such as `WEBP`, `PNG` or `GIF`.
    pub format: String,
}

/// An emote as the remote catalog lists it.
pub struct RemoteEmote {
    pub name: String,
    /// The base address of the image host, with or without a scheme.
    pub host_url: String,
    pub files: Vec<ImageFile>,
}

/// An emote of the remote catalog, with the address of the encoding chosen
/// and its format in lower case.
pub struct RemoteAsset {
    pub name: String,
    pub url: String,
    pub format: String,
}

pub struct AssetView {
    pub name: Seq<char>,
    pub url: Seq<char>,
    pub format: Seq<char>,
}

impl View for RemoteAsset {
    type V = AssetView;

    open spec fn view(&self) -> AssetView {
        AssetView { name: self.name@, url: self.url@, format: self.format@ }
    }
}

/// One download: fetch `url`, after a pause of `delay_before_ms`, into the
/// file `path`.
pub struct DownloadJob {
    pub name: String,
    pub url: String,
    pub path: String,
    pub delay_before_ms: u64,
}

pub struct JobView {
    pub name: Seq<char>,
    pub url: Seq<char>,
    pub path: Seq<char>,
    pub delay_before_ms: u64,
}

impl View for DownloadJob {
    type V = JobView;

    open spec fn view(&self) -> JobView {
        JobView { name: self.name@, url: self.url@, path: self.path@, delay_before_ms: self.delay_before_ms }
    }
}

pub open spec fn is_digit(c: char) -> bool {
    '0' <= c && c <= '9'
}

pub open spec fn digit_of(c: char) -> nat {
    (c as u32 - '0' as u32) as nat
}

/// The scale that a file name starts with, such as 2 for `2x.webp`: one to
/// three digits and an `x`. A name without one counts as scale 1000, after
/// every real scale.
pub open spec fn scale_of(n: Seq<char>) -> nat {
    if n.len() >= 2 && is_digit(n[0]) && n[1] == 'x' {
        digit_of(n[0])
    } else if n.len() >= 3 && is_digit(n[0]) && is_digit(n[1]) && n[2] == 'x' {
        10 * digit_of(n[0]) + digit_of(n[1])
    } else if n.len() >= 4 && is_digit(n[0]) && is_digit(n[1]) && is_digit(n[2]) && n[3] == 'x' {
        100 * digit_of(n[0]) + 10 * digit_of(n[1]) + digit_of(n[2])
    } else {
        1000
    }
}

/// Whether `f` spells `word`, given in lower case, in any case of ASCII
/// letters.
pub open spec fn spells(f: Seq<char>, word: Seq<char>) -> bool {
    f.len() == word.len() && forall|i: int|
        0 <= i < f.len() ==> #[trigger] f[i] == word[i] || (('a' <= word[i] && word[i] <= 'z')
            && f[i] as u32 + 32 == word[i] as u32)
}

/// The place of a still format in the usual order of file size, smallest
/// first: AVIF, WebP, PNG, then any other.
pub open spec fn format_order(f: Seq<char>) -> nat {
    if spells(f, "avif"@) {
        0
    } else if spells(f, "webp"@) {
        1
    } else if spells(f, "png"@) {
        2
    } else {
        3
    }
}

/// How much an encoding is wanted, 0 the most: any still image before any
/// animation; then the smaller scale; then, at one scale, the format that is
/// usually smaller.
pub open spec fn rank(f: ImageFile) -> nat {
    (if is_animated_ext(f.format@) {
        100_000nat
    } else {
        0nat
    }) + 10 * scale_of(f.name@) + format_order(f.format@)
}

/// Whether `i` is the choice among `files`: the first of those most wanted.
pub open spec fn is_best(files: Seq<ImageFile>, i: int) -> bool {
    &&& 0 <= i < files.len()
    &&& forall|j: int| 0 <= j < files.len() ==> rank(#[trigger] files[j]) >= rank(files[i])
    &&& forall|j: int| 0 <= j < i ==> rank(#[trigger] files[j]) > rank(files[i])
}

/// The choice among `files`, none where there are none.
pub open spec fn best_index(files: Seq<ImageFile>) -> Option<int> {
    if files.len() == 0 {
        None
    } else {
        Some(choose|i: int| is_best(files, i))
    }
}

proof fn lemma_best_unique(files: Seq<ImageFile>, i: int)
    requires
        is_best(files, i),
    ensures
        best_index(files) == Some(i),
{
    let k = choose|k: int| is_best(files, k);
    assert(is_best(files, k));
    if k < i {
        assert(rank(files[k]) > rank(files[i]));
    } else if i < k {
        assert(rank(files[i]) > rank(files[k]));
    }
}

fn digit(c: char) -> (r: Option<u64>)
    ensures
        r is Some <==> is_digit(c),
        r is Some ==> r->Some_0 as nat == digit_of(c) && r->Some_0 < 10,
{
    if '0' <= c && c <= '9' {
        Some((c as u32 - '0' as u32) as u64)
    } else {
        None
    }
}

fn scale(name: &str) -> (r: u64)
    ensures
        r as nat == scale_of(name@),
{
    let n = name.unicode_len();
    if n >= 2 {
        if let Some(a) = digit(name.get_char(0)) {
            if name.get_char(1) == 'x' {
                return a;
            }
            if n >= 3 {
                if let Some(b) = digit(name.get_char(1)) {
                    if name.get_char(2) == 'x' {
                        return 10 * a + b;
                    }
                    if n >= 4 {
                        if let Some(c) = digit(name.get_char(2)) {
                            if name.get_char(3) == 'x' {
                                return 100 * a + 10 * b + c;
                            }
                        }
                    }
                }
            }
        }
    }
    1000
}

fn spells_word(f: &str, word: &str) -> (r: bool)
    ensures
        r == spells(f@, word@),
{
    let n = f.unicode_len();
    if n != word.unicode_len() {
        return false;
    }
    let mut i: usize = 0;
    while i < n
        invariant
            n == f@.len(),
            n == word@.len(),
            i <= n,
            forall|k: int|
                0 <= k < i ==> #[trigger] f@[k] == word@[k] || (('a' <= word@[k] && word@[k] <= 'z')
                    && f@[k] as u32 + 32 == word@[k] as u32),
        decreases n - i,
    {
        let a = f.get_char(i);
        let w = word.get_char(i);
        if !(a == w || ('a' <= w && w <= 'z' && a as u32 + 32 == w as u32)) {
            return false;
        }
        i = i + 1;
    }
    true
}

fn format_rank(f: &str) -> (r: u64)
    ensures
        r as nat == format_order(f@),
{
    if spells_word(f, "avif") {
        0
    } else if spells_word(f, "webp") {
        1
    } else if spells_word(f, "png") {
        2
    } else {
        3
    }
}

fn rank_of(f: &ImageFile) -> (r: u64)
    ensures
        r as nat == rank(*f),
{
    let anim: u64 = if animated_ext(f.format.as_str()) {
        100_000
    } else {
        0
    };
    anim + 10 * scale(f.name.as_str()) + format_rank(f.format.as_str())
}

/// Chooses the encoding to download among those a remote emote offers: a
/// still image where there is one, an animation only where there is none;
/// among those, the smallest scale, then the format usually smallest (see
/// `rank`); the earliest listed among equals.
pub fn select_best(files: &Vec<ImageFile>) -> (r: Option<usize>)
    ensures
        r is None <==> files@.len() == 0,
        r is Some ==> is_best(files@, r->Some_0 as int) && best_index(files@) == Some(
            r->Some_0 as int,
        ),
{
    if files.len() == 0 {
        return None;
    }
    let mut best: usize = 0;
    let mut best_rank = rank_of(&files[0]);
    let mut j: usize = 1;
    while j < files.len()
        invariant
            1 <= j <= files@.len(),
            best < j,
            best_rank as nat == rank(files@[best as int]),
            forall|k: int| 0 <= k < j ==> rank(#[trigger] files@[k]) >= rank(files@[best as int]),
            forall|k: int| 0 <= k < best ==> rank(#[trigger] files@[k]) > rank(files@[best as int]),
        decreases files@.len() - j,
    {
        let rk = rank_of(&files[j]);
        if rk < best_rank {
            best = j;
            best_rank = rk;
        }
        j = j + 1;
    }
    proof {
        lemma_best_unique(files@, best as int);
    }
    Some(best)
}

/// `s` with every leading copy of `p` taken off.
pub open spec fn strip_all(s: Seq<char>, p: Seq<char>) -> Seq<char>
    decreases s.len(),
{
    if p.len() > 0 && p.len() <= s.len() && s.take(p.len() as int) == p {
        strip_all(s.skip(p.len() as int), p)
    } else {
        s
    }
}

/// The host part of an image host's base address: without any leading
/// `https://`, then `http://`, then `//`.
pub open spec fn host_of(url: Seq<char>) -> Seq<char> {
    strip_all(strip_all(strip_all(url, "https://"@), "http://"@), "//"@)
}

fn starts_with(s: &str, p: &str) -> (r: bool)
    ensures
        r == (p@.len() <= s@.len() && s@.take(p@.len() as int) == p@),
{
    let n = s.unicode_len();
    let m = p.unicode_len();
    if m > n {
        return false;
    }
    let mut i: usize = 0;
    while i < m
        invariant
            n == s@.len(),
            m == p@.len(),
            m <= n,
            i <= m,
            forall|k: int| 0 <= k < i ==> s@[k] == p@[k],
        decreases m - i,
    {
        if s.get_char(i) != p.get_char(i) {
            assert(s@.take(m as int)[i as int] != p@[i as int]);
            return false;
        }
        i = i + 1;
    }
    assert(s@.take(m as int) =~= p@);
    true
}

/// Takes every leading copy of `p` off `s`, as `str::trim_start_matches`
/// does with a string pattern.
fn trim_start_all<'a>(s: &'a str, p: &str) -> (r: &'a str)
    requires
        p@.len() > 0,
    ensures
        r@ == strip_all(s@, p@),
{
    let m = p.unicode_len();
    let mut rest = s;
    while starts_with(rest, p)
        invariant
            m == p@.len(),
            m > 0,
            strip_all(rest@, p@) == strip_all(s@, p@),
        decreases rest@.len(),
    {
        let n = rest.unicode_len();
        rest = rest.substring_char(m, n);
    }
    rest
}

/// The host part of an image host's base address (see `host_of`).
pub fn host_part(url: &str) -> (r: String)
    ensures
        r@ == host_of(url@),
{
    proof {
        reveal_strlit("https://");
        reveal_strlit("http://");
        reveal_strlit("//");
    }
    let a = trim_start_all(url, "https://");
    let b = trim_start_all(a, "http://");
    let c = trim_start_all(b, "//");
    String::from_str(c)
}

/// What a remote emote becomes: none where its host is blank or it offers
/// no encoding; otherwise its name, the address `https://<host>/<file>` of
/// the chosen encoding, and that encoding's format in lower case.
pub open spec fn asset_of(e: RemoteEmote) -> Option<AssetView> {
    if is_blank(e.host_url@) {
        None
    } else {
        match best_index(e.files@) {
            None => None,
            Some(i) => Some(
                AssetView {
                    name: e.name@,
                    url: "https://"@ + host_of(e.host_url@) + "/"@ + e.files@[i].name@,
                    format: lower_of(e.files@[i].format@),
                },
            ),
        }
    }
}

/// The assets of a remote catalog, in its order, leaving out the emotes that
/// yield none.
pub open spec fn assets_of(es: Seq<RemoteEmote>) -> Seq<AssetView>
    decreases es.len(),
{
    if es.len() == 0 {
        Seq::empty()
    } else {
        match asset_of(es.last()) {
            Some(a) => assets_of(es.drop_last()).push(a),
            None => assets_of(es.drop_last()),
        }
    }
}

/// The asset of one remote emote (see `asset_of`).
pub fn resolve_asset(e: &RemoteEmote) -> (r: Option<RemoteAsset>)
    ensures
        r is None <==> asset_of(*e) is None,
        r is Some ==> asset_of(*e) == Some(r->Some_0@),
{
    if blank(e.host_url.as_str()) {
        return None;
    }
    match select_best(&e.files) {
        None => None,
        Some(i) => {
            let host = host_part(e.host_url.as_str());
            let mut url = String::from_str("https://");
            url.append(host.as_str());
            url.append("/");
            url.append(e.files[i].name.as_str());
            Some(
                RemoteAsset {
                    name: e.name.clone(),
                    url,
                    format: lowercase(e.files[i].format.as_str()),
                },
            )
        },
    }
}

/// The assets of a remote catalog (see `assets_of`).
pub fn resolve_assets(es: &Vec<RemoteEmote>) -> (r: Vec<RemoteAsset>)
    ensures
        r@.map_values(|a: RemoteAsset| a@) == assets_of(es@),
{
    let mut out: Vec<RemoteAsset> = Vec::new();
    let mut i: usize = 0;
    while i < es.len()
        invariant
            i <= es@.len(),
            out@.map_values(|a: RemoteAsset| a@) == assets_of(es@.take(i as int)),
        decreases es@.len() - i,
    {
        proof {
            assert(es@.take(i + 1 as int).drop_last() =~= es@.take(i as int));
        }
        match resolve_asset(&es[i]) {
            Some(a) => {
                out.push(a);
            },
            None => {},
        }
        proof {
            assert(out@.map_values(|a: RemoteAsset| a@) =~= assets_of(es@.take(i + 1 as int)));
        }
        i = i + 1;
    }
    assert(es@.take(es@.len() as int) =~= es@);
    out
}

/// Whether some asset of `m` is called `name`.
pub open spec fn planned(m: Seq<AssetView>, name: Seq<char>) -> bool {
    exists|i: int| 0 <= i < m.len() && #[trigger] m[i].name == name
}

/// The assets to download: those whose name the local catalog lacks, in
/// remote order, each name once.
pub open spec fn missing_of(assets: Seq<AssetView>, local: Seq<EmoteView>) -> Seq<AssetView>
    decreases assets.len(),
{
    if assets.len() == 0 {
        Seq::empty()
    } else {
        let m = missing_of(assets.drop_last(), local);
        let a = assets.last();
        if has_name(local, a.name) || planned(m, a.name) {
            m
        } else {
            m.push(a)
        }
    }
}

/// The pause before the `k`th download (from 0).
pub open spec fn delay_for(k: int) -> u64 {
    if k == 0 {
        0
    } else if k % (DOWNLOAD_BATCH_SIZE as int) == 0 {
        INTER_BATCH_DELAY_MS
    } else {
        INTER_DOWNLOAD_DELAY_MS
    }
}

/// Where an asset is stored: `<root>/<channel>/<name>.<format>`.
pub open spec fn asset_path(root: Seq<char>, channel: Seq<char>, a: AssetView) -> Seq<char> {
    root + "/"@ + channel + "/"@ + a.name + "."@ + a.format
}

/// The `k`th download of a plan for `a`.
pub open spec fn job_of(root: Seq<char>, channel: Seq<char>, a: AssetView, k: int) -> JobView {
    JobView { name: a.name, url: a.url, path: asset_path(root, channel, a), delay_before_ms: delay_for(k) }
}

fn is_planned(jobs: &Vec<DownloadJob>, name: &String) -> (r: bool)
    ensures
        r == exists|i: int| 0 <= i < jobs@.len() && #[trigger] jobs@[i].name@ == name@,
{
    let mut j: usize = 0;
    while j < jobs.len()
        invariant
            j <= jobs@.len(),
            forall|k: int| 0 <= k < j ==> (#[trigger] jobs@[k]).name@ != name@,
        decreases jobs@.len() - j,
    {
        if jobs[j].name.eq(name) {
            return true;
        }
        j = j + 1;
    }
    false
}

/// The downloads that bring the cache directory `<root>/<channel>` of a
/// channel up to date with its remote catalog: one per asset that the local
/// catalog lacks (see `missing_of`), in that order, each into
/// `asset_path`, and paused as `delay_for` says.
pub fn plan_downloads(root: &str, channel: &str, assets: &Vec<RemoteAsset>, local: &Catalog) -> (r:
    Vec<DownloadJob>)
    ensures
        ({
            let m = missing_of(assets@.map_values(|a: RemoteAsset| a@), local@);
            &&& r@.len() == m.len()
            &&& forall|k: int| 0 <= k < m.len() ==> #[trigger] r@[k]@ == job_of(root@, channel@, m[k], k)
        }),
{
    let ghost av = assets@.map_values(|a: RemoteAsset| a@);
    let mut jobs: Vec<DownloadJob> = Vec::new();
    let mut i: usize = 0;
    while i < assets.len()
        invariant
            i <= assets@.len(),
            av == assets@.map_values(|a: RemoteAsset| a@),
            jobs@.len() == missing_of(av.take(i as int), local@).len(),
            forall|k: int|
                0 <= k < jobs@.len() ==> #[trigger] jobs@[k]@ == job_of(
                    root@,
                    channel@,
                    missing_of(av.take(i as int), local@)[k],
                    k,
                ),
        decreases assets@.len() - i,
    {
        let ghost m0 = missing_of(av.take(i as int), local@);
        proof {
            assert(av.take(i + 1 as int).drop_last() =~= av.take(i as int));
            assert(av.take(i + 1 as int).last() == assets@[i as int]@);
        }
        let a = &assets[i];
        let known = local.position(&a.name).is_some();
        let seen = is_planned(&jobs, &a.name);
        proof {
            assert(seen == planned(m0, a.name@)) by {
                if seen {
                    let w = choose|w: int| 0 <= w < jobs@.len() && #[trigger] jobs@[w].name@ == a.name@;
                    assert(jobs@[w]@ == job_of(root@, channel@, m0[w], w));
                    assert(m0[w].name == a.name@);
                }
                if planned(m0, a.name@) {
                    let w = choose|w: int| 0 <= w < m0.len() && #[trigger] m0[w].name == a.name@;
                    assert(jobs@[w]@ == job_of(root@, channel@, m0[w], w));
                    assert(jobs@[w].name@ == a.name@);
                }
            }
        }
        if !known && !seen {
            let k = jobs.len();
            let delay = if k == 0 {
                0
            } else if k % DOWNLOAD_BATCH_SIZE == 0 {
                INTER_BATCH_DELAY_MS
            } else {
                INTER_DOWNLOAD_DELAY_MS
            };
            let mut path = String::from_str(root);
            path.append("/");
            path.append(channel);
            path.append("/");
            path.append(a.name.as_str());
            path.append(".");
            path.append(a.format.as_str());
            jobs.push(DownloadJob { name: a.name.clone(), url: a.url.clone(), path, delay_before_ms: delay });
            proof {
                let m1 = missing_of(av.take(i + 1 as int), local@);
                assert(m1 == m0.push(a@));
                assert forall|q: int| 0 <= q < jobs@.len() implies #[trigger] jobs@[q]@ == job_of(
                    root@,
                    channel@,
                    m1[q],
                    q,
                ) by {
                    if q < k {
                        assert(m1[q] == m0[q]);
                    }
                }
            }
        }
        i = i + 1;
    }
    proof {
        assert(av.take(assets@.len() as int) =~= av);
    }
    jobs
}

} // verus!
