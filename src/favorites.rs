//! The favourite channels: a sorted list of names, some of them starred, and
//! an optional background colour. Reading and writing the file that holds
//! them is left to the caller; these functions change the list in memory.
use crate::text::{lower_of, lowercase};
use vstd::prelude::*;

verus! {

/// The favourite channels, their starred subset and the background colour.
pub struct Favorites {
    pub channels: Vec<String>,
    pub starred: Vec<String>,
    pub background_color: Option<String>,
}

/// The names of a list, as sequences of characters.
pub open spec fn names(v: Seq<String>) -> Seq<Seq<char>> {
    v.map_values(|s: String| s@)
}

/// Whether `a` comes before `b` or equals it, comparing character by
/// character.
pub open spec fn name_le(a: Seq<char>, b: Seq<char>) -> bool
    decreases a.len(),
{
    if a.len() == 0 {
        true
    } else if b.len() == 0 {
        false
    } else if a[0] != b[0] {
        (a[0] as u32) < (b[0] as u32)
    } else {
        name_le(a.drop_first(), b.drop_first())
    }
}

/// Whether a list of names is in ascending order.
pub open spec fn sorted_names(s: Seq<Seq<char>>) -> bool {
    forall|i: int, j: int| 0 <= i < j < s.len() ==> name_le(#[trigger] s[i], #[trigger] s[j])
}

/// `s` without any copy of `x`, in order.
pub open spec fn without(s: Seq<Seq<char>>, x: Seq<char>) -> Seq<Seq<char>>
    decreases s.len(),
{
    if s.len() == 0 {
        s
    } else if s.last() == x {
        without(s.drop_last(), x)
    } else {
        without(s.drop_last(), x).push(s.last())
    }
}

/// Relies on `slice::sort` on `String`s: the same names, in the order of
/// `Ord for String`, by bytes, which for UTF-8 is the order of characters.
#[verifier::external_body]
fn sort_names(v: &mut Vec<String>)
    ensures
        names(final(v)@).to_multiset() == names(old(v)@).to_multiset(),
        sorted_names(names(final(v)@)),
{
    v.sort();
}

fn contains_name(v: &Vec<String>, x: &String) -> (r: bool)
    ensures
        r == names(v@).contains(x@),
{
    let ghost nv = names(v@);
    let mut j: usize = 0;
    while j < v.len()
        invariant
            j <= v@.len(),
            nv == names(v@),
            forall|k: int| 0 <= k < j ==> nv[k] != x@,
        decreases v@.len() - j,
    {
        assert(nv[j as int] == v@[j as int]@);
        if v[j].eq(x) {
            return true;
        }
        j = j + 1;
    }
    false
}

fn remove_name(v: &Vec<String>, x: &String) -> (r: Vec<String>)
    ensures
        names(r@) == without(names(v@), x@),
{
    let ghost nv = names(v@);
    let mut out: Vec<String> = Vec::new();
    let mut j: usize = 0;
    while j < v.len()
        invariant
            j <= v@.len(),
            nv == names(v@),
            names(out@) == without(nv.take(j as int), x@),
        decreases v@.len() - j,
    {
        proof {
            assert(nv.take(j + 1 as int).drop_last() =~= nv.take(j as int));
            assert(nv.take(j + 1 as int).last() == v@[j as int]@);
        }
        if !v[j].eq(x) {
            out.push(v[j].clone());
            assert(names(out@) =~= without(nv.take(j as int), x@).push(v@[j as int]@));
        }
        j = j + 1;
    }
    assert(nv.take(v@.len() as int) =~= nv);
    out
}

impl Favorites {
    pub fn new() -> (r: Favorites)
        ensures
            r.channels@.len() == 0,
            r.starred@.len() == 0,
            r.background_color is None,
    {
        Favorites { channels: Vec::new(), starred: Vec::new(), background_color: None }
    }
}

/// Adds `channel`, case-folded, to the favourites, which are then sorted.
/// Returns `false`, and changes nothing, where it is there already.
pub fn add_favorite(favs: &mut Favorites, channel: &str) -> (r: bool)
    ensures
        r == !names(old(favs).channels@).contains(lower_of(channel@)),
        !r ==> *final(favs) == *old(favs),
        r ==> names(final(favs).channels@).to_multiset() == names(
            old(favs).channels@,
        ).to_multiset().insert(lower_of(channel@)) && sorted_names(names(final(favs).channels@))
            && final(favs).starred == old(favs).starred && final(favs).background_color == old(
            favs,
        ).background_color,
{
    let lower = lowercase(channel);
    if contains_name(&favs.channels, &lower) {
        return false;
    }
    let ghost before = names(favs.channels@);
    favs.channels.push(lower);
    proof {
        assert(names(favs.channels@) =~= before.push(lower_of(channel@)));
        before.to_multiset_ensures();
    }
    sort_names(&mut favs.channels);
    true
}

/// Takes `channel`, case-folded, out of the favourites and of the starred
/// ones.
pub fn remove_favorite(favs: &mut Favorites, channel: &str)
    ensures
        names(final(favs).channels@) == without(names(old(favs).channels@), lower_of(channel@)),
        names(final(favs).starred@) == without(names(old(favs).starred@), lower_of(channel@)),
        final(favs).background_color == old(favs).background_color,
{
    let lower = lowercase(channel);
    favs.channels = remove_name(&favs.channels, &lower);
    favs.starred = remove_name(&favs.starred, &lower);
}

/// Stars `channel`, case-folded, where it is a favourite and not starred,
/// keeping the starred ones sorted; unstars it where it is starred.
pub fn toggle_star(favs: &mut Favorites, channel: &str)
    ensures
        final(favs).channels == old(favs).channels,
        final(favs).background_color == old(favs).background_color,
        names(old(favs).starred@).contains(lower_of(channel@)) ==> names(final(favs).starred@)
            == without(names(old(favs).starred@), lower_of(channel@)),
        !names(old(favs).starred@).contains(lower_of(channel@)) && names(
            old(favs).channels@,
        ).contains(lower_of(channel@)) ==> names(final(favs).starred@).to_multiset() == names(
            old(favs).starred@,
        ).to_multiset().insert(lower_of(channel@)) && sorted_names(names(final(favs).starred@)),
        !names(old(favs).starred@).contains(lower_of(channel@)) && !names(
            old(favs).channels@,
        ).contains(lower_of(channel@)) ==> final(favs).starred == old(favs).starred,
{
    let lower = lowercase(channel);
    if contains_name(&favs.starred, &lower) {
        favs.starred = remove_name(&favs.starred, &lower);
    } else if contains_name(&favs.channels, &lower) {
        let ghost before = names(favs.starred@);
        favs.starred.push(lower);
        proof {
            assert(names(favs.starred@) =~= before.push(lower_of(channel@)));
            before.to_multiset_ensures();
        }
        sort_names(&mut favs.starred);
    }
}

/// Whether `channel`, case-folded, is starred.
pub fn is_starred(favs: &Favorites, channel: &str) -> (r: bool)
    ensures
        r == names(favs.starred@).contains(lower_of(channel@)),
{
    let lower = lowercase(channel);
    contains_name(&favs.starred, &lower)
}

/// The favourites in the order of display: the starred ones first, then the
/// others, each part in list order.
pub fn favorites_in_display_order(favs: &Favorites) -> (r: (Vec<String>, Vec<String>))
    ensures
        names(r.0@) == names(favs.channels@).filter(|c: Seq<char>| names(favs.starred@).contains(c)),
        names(r.1@) == names(favs.channels@).filter(|c: Seq<char>| !names(favs.starred@).contains(c)),
{
    let ghost nc = names(favs.channels@);
    let ghost ns = names(favs.starred@);
    let mut starred: Vec<String> = Vec::new();
    let mut regular: Vec<String> = Vec::new();
    let mut j: usize = 0;
    while j < favs.channels.len()
        invariant
            j <= favs.channels@.len(),
            nc == names(favs.channels@),
            ns == names(favs.starred@),
            names(starred@) == nc.take(j as int).filter(|c: Seq<char>| ns.contains(c)),
            names(regular@) == nc.take(j as int).filter(|c: Seq<char>| !ns.contains(c)),
        decreases favs.channels@.len() - j,
    {
        let c = &favs.channels[j];
        proof {
            assert(nc.take(j + 1 as int).drop_last() =~= nc.take(j as int));
            assert(nc.take(j + 1 as int).last() == c@);
            reveal(Seq::filter);
        }
        if contains_name(&favs.starred, c) {
            starred.push(c.clone());
            assert(names(starred@) =~= nc.take(j as int).filter(|c: Seq<char>| ns.contains(c)).push(c@));
        } else {
            regular.push(c.clone());
            assert(names(regular@) =~= nc.take(j as int).filter(|c: Seq<char>| !ns.contains(c)).push(
                c@,
            ));
        }
        j = j + 1;
    }
    assert(nc.take(favs.channels@.len() as int) =~= nc);
    (starred, regular)
}

/// Whether `c` is an ASCII hexadecimal digit.
pub open spec fn is_hex_digit(c: char) -> bool {
    ('0' <= c && c <= '9') || ('a' <= c && c <= 'f') || ('A' <= c && c <= 'F')
}

/// Whether `s` is a colour code `#RRGGBB`: a `#` and six hexadecimal digits.
pub open spec fn is_hex_color(s: Seq<char>) -> bool {
    &&& s.len() == 7
    &&& s[0] == '#'
    &&& forall|i: int| 1 <= i < 7 ==> is_hex_digit(#[trigger] s[i])
}

/// Whether `color` is a colour code `#RRGGBB`.
pub fn validate_hex_color(color: &str) -> (r: bool)
    ensures
        r == is_hex_color(color@),
{
    if color.unicode_len() != 7 || color.get_char(0) != '#' {
        return false;
    }
    let mut i: usize = 1;
    while i < 7
        invariant
            color@.len() == 7,
            1 <= i <= 7,
            forall|k: int| 1 <= k < i ==> is_hex_digit(#[trigger] color@[k]),
        decreases 7 - i,
    {
        let c = color.get_char(i);
        if !(('0' <= c && c <= '9') || ('a' <= c && c <= 'f') || ('A' <= c && c <= 'F')) {
            return false;
        }
        i = i + 1;
    }
    true
}

/// The value of a hexadecimal digit.
pub open spec fn hex_value(c: char) -> nat {
    if '0' <= c && c <= '9' {
        (c as u32 - '0' as u32) as nat
    } else if 'a' <= c && c <= 'f' {
        (c as u32 - 'a' as u32 + 10) as nat
    } else {
        (c as u32 - 'A' as u32 + 10) as nat
    }
}

/// The byte written by the two hexadecimal digits of `s` at `i`.
pub open spec fn hex_byte(s: Seq<char>, i: int) -> nat {
    16 * hex_value(s[i]) + hex_value(s[i + 1])
}

fn digit_value(c: char) -> (r: u8)
    requires
        is_hex_digit(c),
    ensures
        r as nat == hex_value(c),
        r < 16,
{
    if '0' <= c && c <= '9' {
        (c as u32 - '0' as u32) as u8
    } else if 'a' <= c && c <= 'f' {
        (c as u32 - 'a' as u32 + 10) as u8
    } else {
        (c as u32 - 'A' as u32 + 10) as u8
    }
}

/// The red, green and blue bytes of a colour code `#RRGGBB`; none where
/// `color` is not one.
pub fn parse_hex_color(color: &str) -> (r: Option<(u8, u8, u8)>)
    ensures
        r is None <==> !is_hex_color(color@),
        r is Some ==> r->Some_0.0 as nat == hex_byte(color@, 1) && r->Some_0.1 as nat == hex_byte(
            color@,
            3,
        ) && r->Some_0.2 as nat == hex_byte(color@, 5),
{
    if !validate_hex_color(color) {
        return None;
    }
    assert(is_hex_digit(color@[1]) && is_hex_digit(color@[2]) && is_hex_digit(color@[3]));
    assert(is_hex_digit(color@[4]) && is_hex_digit(color@[5]) && is_hex_digit(color@[6]));
    let r = 16 * digit_value(color.get_char(1)) + digit_value(color.get_char(2));
    let g = 16 * digit_value(color.get_char(3)) + digit_value(color.get_char(4));
    let b = 16 * digit_value(color.get_char(5)) + digit_value(color.get_char(6));
    Some((r, g, b))
}

} // verus!
