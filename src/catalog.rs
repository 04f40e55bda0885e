//! A channel's emote catalog, read off the file names of its cache
//! directory: the file stem is the emote's name and the extension tells an
//! animation from a still image.
use vstd::prelude::*;

verus! {

/// One emote of a channel.
pub struct Emote {
    pub name: String,
    /// The name of its file in the channel's cache directory.
    pub file_name: String,
    pub animated: bool,
}

pub struct EmoteView {
    pub name: Seq<char>,
    pub file_name: Seq<char>,
    pub animated: bool,
}

impl View for Emote {
    type V = EmoteView;

    open spec fn view(&self) -> EmoteView {
        EmoteView { name: self.name@, file_name: self.file_name@, animated: self.animated }
    }
}

/// The index of the last `.` of `s`, or -1 where there is none.
pub open spec fn last_dot(s: Seq<char>) -> int
    decreases s.len(),
{
    if s.len() == 0 {
        -1
    } else if s.last() == '.' {
        s.len() - 1
    } else {
        last_dot(s.drop_last())
    }
}

/// Whether an extension names the animated format, `gif` in any case.
pub open spec fn is_animated_ext(e: Seq<char>) -> bool {
    &&& e.len() == 3
    &&& e[0] == 'g' || e[0] == 'G'
    &&& e[1] == 'i' || e[1] == 'I'
    &&& e[2] == 'f' || e[2] == 'F'
}

/// The emote that a file of the cache directory stands for: none where the
/// name has no `.` after a non-empty stem.
pub open spec fn emote_of_file(f: Seq<char>) -> Option<EmoteView> {
    let d = last_dot(f);
    if d <= 0 {
        None
    } else {
        Some(
            EmoteView {
                name: f.subrange(0, d),
                file_name: f,
                animated: is_animated_ext(f.subrange(d + 1, f.len() as int)),
            },
        )
    }
}

/// Whether some emote of `c` is called `name`.
pub open spec fn has_name(c: Seq<EmoteView>, name: Seq<char>) -> bool {
    exists|i: int| 0 <= i < c.len() && #[trigger] c[i].name == name
}

/// The catalog of a directory whose files are `files`, in listing order;
/// where two files have the same stem, the first one listed stands.
pub open spec fn catalog_of(files: Seq<Seq<char>>) -> Seq<EmoteView>
    decreases files.len(),
{
    if files.len() == 0 {
        Seq::empty()
    } else {
        let c = catalog_of(files.drop_last());
        match emote_of_file(files.last()) {
            Some(e) => if has_name(c, e.name) {
                c
            } else {
                c.push(e)
            },
            None => c,
        }
    }
}

/// Names in a catalog are unique.
pub open spec fn names_unique(c: Seq<EmoteView>) -> bool {
    forall|i: int, j: int|
        0 <= i < c.len() && 0 <= j < c.len() && i != j ==> #[trigger] c[i].name != #[trigger] c[j].name
}

proof fn lemma_catalog_unique(files: Seq<Seq<char>>)
    ensures
        names_unique(catalog_of(files)),
    decreases files.len(),
{
    if files.len() > 0 {
        lemma_catalog_unique(files.drop_last());
        let c = catalog_of(files.drop_last());
        match emote_of_file(files.last()) {
            Some(e) => {
                if !has_name(c, e.name) {
                    let n = c.push(e);
                    assert forall|i: int, j: int|
                        0 <= i < n.len() && 0 <= j < n.len() && i != j implies #[trigger] n[i].name
                        != #[trigger] n[j].name by {
                        if i == c.len() {
                            assert(c[j].name == n[j].name);
                        } else if j == c.len() {
                            assert(c[i].name == n[i].name);
                        }
                    }
                }
            },
            None => {},
        }
    }
}

/// The index of the last `.` of `s`, if any.
fn find_last_dot(s: &str) -> (r: Option<usize>)
    ensures
        r is None ==> last_dot(s@) == -1,
        r is Some ==> last_dot(s@) == r->Some_0 && r->Some_0 < s@.len(),
{
    let n = s.unicode_len();
    let mut i: usize = n;
    assert(s@.take(n as int) =~= s@);
    while i > 0
        invariant
            n == s@.len(),
            i <= n,
            last_dot(s@) == last_dot(s@.take(i as int)),
        decreases i,
    {
        let c = s.get_char(i - 1);
        proof {
            assert(s@.take(i as int).drop_last() =~= s@.take(i - 1));
        }
        if c == '.' {
            return Some(i - 1);
        }
        i = i - 1;
    }
    None
}

pub(crate) fn animated_ext(e: &str) -> (r: bool)
    ensures
        r == is_animated_ext(e@),
{
    if e.unicode_len() != 3 {
        return false;
    }
    let a = e.get_char(0);
    let b = e.get_char(1);
    let c = e.get_char(2);
    (a == 'g' || a == 'G') && (b == 'i' || b == 'I') && (c == 'f' || c == 'F')
}

/// The emote that a file of the cache directory stands for.
pub fn emote_from_file(f: &str) -> (r: Option<Emote>)
    ensures
        r is None <==> emote_of_file(f@) is None,
        r is Some ==> emote_of_file(f@) == Some(r->Some_0@),
{
    match find_last_dot(f) {
        None => None,
        Some(d) => {
            if d == 0 {
                return None;
            }
            let n = f.unicode_len();
            let stem = f.substring_char(0, d);
            let ext = f.substring_char(d + 1, n);
            Some(
                Emote {
                    name: String::from_str(stem),
                    file_name: String::from_str(f),
                    animated: animated_ext(ext),
                },
            )
        },
    }
}

/// The emotes of one channel, each name once.
pub struct Catalog {
    emotes: Vec<Emote>,
}

impl View for Catalog {
    type V = Seq<EmoteView>;

    closed spec fn view(&self) -> Seq<EmoteView> {
        self.emotes@.map_values(|e: Emote| e@)
    }
}

impl Catalog {
    pub open spec fn wf(&self) -> bool {
        names_unique(self@)
    }

    pub fn empty() -> (r: Catalog)
        ensures
            r.wf(),
            r@ == Seq::<EmoteView>::empty(),
    {
        let r = Catalog { emotes: Vec::new() };
        assert(r@ =~= Seq::<EmoteView>::empty());
        r
    }

    /// The catalog of a cache directory whose files are `files`, in listing
    /// order (see `catalog_of`).
    pub fn from_files(files: &Vec<String>) -> (r: Catalog)
        ensures
            r.wf(),
            r@ == catalog_of(files@.map_values(|f: String| f@)),
    {
        let ghost fs = files@.map_values(|f: String| f@);
        let mut c = Catalog::empty();
        let mut i: usize = 0;
        while i < files.len()
            invariant
                i <= files@.len(),
                fs == files@.map_values(|f: String| f@),
                c@ == catalog_of(fs.take(i as int)),
            decreases files@.len() - i,
        {
            proof {
                assert(fs.take(i + 1 as int).drop_last() =~= fs.take(i as int));
                assert(fs.take(i + 1 as int).last() == files@[i as int]@);
            }
            match emote_from_file(files[i].as_str()) {
                Some(e) => {
                    if c.position(&e.name).is_none() {
                        c.emotes.push(e);
                        assert(c@ =~= catalog_of(fs.take(i as int)).push(e@));
                    }
                },
                None => {},
            }
            i = i + 1;
        }
        proof {
            assert(fs.take(files@.len() as int) =~= fs);
            lemma_catalog_unique(fs);
        }
        c
    }

    /// Where the emote called `name` stands, if any. Names match exactly,
    /// case included.
    pub fn position(&self, name: &String) -> (r: Option<usize>)
        ensures
            r is Some ==> r->Some_0 < self@.len() && self@[r->Some_0 as int].name == name@,
            r is None ==> !has_name(self@, name@),
    {
        let mut j: usize = 0;
        while j < self.emotes.len()
            invariant
                j <= self.emotes@.len(),
                forall|k: int| 0 <= k < j ==> (#[trigger] self@[k]).name != name@,
            decreases self.emotes@.len() - j,
        {
            if self.emotes[j].name.eq(name) {
                return Some(j);
            }
            j = j + 1;
        }
        None
    }

    /// The emote called `name`, if any; names match exactly, case included.
    pub fn get(&self, name: &String) -> (r: Option<&Emote>)
        ensures
            r is Some ==> r->Some_0@.name == name@ && self@.contains(r->Some_0@),
            r is None ==> !has_name(self@, name@),
    {
        match self.position(name) {
            Some(j) => {
                assert(self@[j as int] == self.emotes@[j as int]@);
                Some(&self.emotes[j])
            },
            None => None,
        }
    }

    pub fn len(&self) -> (r: usize)
        ensures
            r == self@.len(),
    {
        self.emotes.len()
    }

    /// The emote at position `j`.
    pub fn at(&self, j: usize) -> (r: &Emote)
        requires
            j < self@.len(),
        ensures
            r@ == self@[j as int],
    {
        &self.emotes[j]
    }
}

} // verus!
