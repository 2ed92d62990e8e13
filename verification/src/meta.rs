//! Metadata extraction: tags are looked up case-insensitively in the
//! container's dictionary first, then in each stream's in order; the track
//! number is the leading integer of the first parseable `track` tag; a
//! missing title falls back to the file name with its extension stripped,
//! and a missing album or artist to the literal `Unknown`; the artist field
//! splits on `&` and `,` separators into several artists.
use vstd::prelude::*;

use crate::catalog::AlbumRef;
use crate::catalog::ArtistRef;
use crate::catalog::RefV;
use crate::catalog::Song;
use crate::catalog::SongV;
use crate::error::Error;
use crate::slug::sanitize;
use crate::slug::slug_of;
use crate::strs::eq_ignore_case;
use crate::strs::opt_view;
use crate::strs::str_eq_ignore_case;
use crate::urls::file_name;
use crate::urls::file_name_of;
use crate::urls::find_url;
use crate::urls::strip_base;
use crate::urls::url_of;
use vstd::string::StrSliceExecFns;
use vstd::string::StringExecFns;

verus! {

/// The view of one metadata dictionary.
pub open spec fn dict_view(d: Seq<(String, String)>) -> Seq<(Seq<char>, Seq<char>)> {
    d.map_values(|e: (String, String)| (e.0@, e.1@))
}

/// The view of a list of stream dictionaries.
pub open spec fn dicts_view(ds: Seq<Vec<(String, String)>>) -> Seq<Seq<(Seq<char>, Seq<char>)>> {
    ds.map_values(|d: Vec<(String, String)>| dict_view(d@))
}

/// The first value stored under a key, compared case-insensitively.
pub open spec fn first_tag(d: Seq<(Seq<char>, Seq<char>)>, key: Seq<char>) -> Option<Seq<char>>
    decreases d.len(),
{
    if d.len() == 0 {
        None
    } else if eq_ignore_case(d[0].0, key) {
        Some(d[0].1)
    } else {
        first_tag(d.drop_first(), key)
    }
}

/// The first stream dictionary that has the tag supplies it.
pub open spec fn first_stream_tag(ds: Seq<Seq<(Seq<char>, Seq<char>)>>, key: Seq<char>) -> Option<
    Seq<char>,
>
    decreases ds.len(),
{
    if ds.len() == 0 {
        None
    } else {
        match first_tag(ds[0], key) {
            Some(v) => Some(v),
            None => first_stream_tag(ds.drop_first(), key),
        }
    }
}

/// A tag is resolved from the container's dictionary first, then from the
/// streams in order.
pub open spec fn resolve_tag_v(
    cv: Seq<(Seq<char>, Seq<char>)>,
    sv: Seq<Seq<(Seq<char>, Seq<char>)>>,
    key: Seq<char>,
) -> Option<Seq<char>> {
    match first_tag(cv, key) {
        Some(v) => Some(v),
        None => first_stream_tag(sv, key),
    }
}

/// Looks a key up in one dictionary, case-insensitively.
fn find_tag(dict: &Vec<(String, String)>, key: &str) -> (r: Option<String>)
    ensures
        opt_view(r) == first_tag(dict_view(dict@), key@),
{
    let ghost dv = dict_view(dict@);
    let mut i: usize = 0;
    proof {
        assert(dv.skip(0) =~= dv);
    }
    while i < dict.len()
        invariant
            i <= dict@.len(),
            dv == dict_view(dict@),
            dv.len() == dict@.len(),
            first_tag(dv.skip(i as int), key@) == first_tag(dv, key@),
        decreases dict@.len() - i,
    {
        proof {
            assert(dv.skip(i as int)[0] == dv[i as int]);
            assert(dv.skip(i as int).drop_first() =~= dv.skip(i as int + 1));
        }
        if str_eq_ignore_case(dict[i].0.as_str(), key) {
            return Some(dict[i].1.clone());
        }
        i = i + 1;
    }
    proof {
        assert(dv.skip(dv.len() as int) =~= Seq::<(Seq<char>, Seq<char>)>::empty());
    }
    None
}

/// Resolves a tag from the container's dictionary, then the streams in order.
fn resolve_tag(
    container: &Vec<(String, String)>,
    streams: &Vec<Vec<(String, String)>>,
    key: &str,
) -> (r: Option<String>)
    ensures
        opt_view(r) == resolve_tag_v(dict_view(container@), dicts_view(streams@), key@),
{
    let ghost sv = dicts_view(streams@);
    if let Some(v) = find_tag(container, key) {
        return Some(v);
    }
    let mut i: usize = 0;
    proof {
        assert(sv.skip(0) =~= sv);
    }
    while i < streams.len()
        invariant
            i <= streams@.len(),
            first_tag(dict_view(container@), key@) is None,
            sv == dicts_view(streams@),
            sv.len() == streams@.len(),
            first_stream_tag(sv.skip(i as int), key@) == first_stream_tag(sv, key@),
        decreases streams@.len() - i,
    {
        proof {
            assert(sv.skip(i as int)[0] == sv[i as int]);
            assert(sv.skip(i as int).drop_first() =~= sv.skip(i as int + 1));
        }
        if let Some(v) = find_tag(&streams[i], key) {
            return Some(v);
        }
        i = i + 1;
    }
    proof {
        assert(sv.skip(sv.len() as int) =~= Seq::<Seq<(Seq<char>, Seq<char>)>>::empty());
    }
    None
}

/// A decimal digit.
pub open spec fn is_digit(c: char) -> bool {
    '0' <= c && c <= '9'
}

/// `i` is the first digit position of `s`.
pub open spec fn is_first_digit(s: Seq<char>, i: int) -> bool {
    0 <= i < s.len() && is_digit(s[i]) && (forall|j: int| 0 <= j < i ==> !is_digit(s[j]))
}

/// `s` holds a digit at all.
pub open spec fn has_digit(s: Seq<char>) -> bool {
    exists|i: int| 0 <= i < s.len() && is_digit(s[i])
}

/// The first digit position of `s`; meaningful only when one exists.
pub open spec fn first_digit(s: Seq<char>) -> int {
    choose|i: int| is_first_digit(s, i)
}

/// The end of the digit run starting at `i`.
pub open spec fn digit_run_end(s: Seq<char>, i: int) -> int
    decreases s.len() - i,
{
    if i < 0 || i >= s.len() {
        i
    } else if is_digit(s[i]) {
        digit_run_end(s, i + 1)
    } else {
        i
    }
}

/// The number written by a digit string.
pub open spec fn digits_val(s: Seq<char>) -> int
    decreases s.len(),
{
    if s.len() == 0 {
        0
    } else {
        digits_val(s.drop_last()) * 10 + (s.last() as int - 48)
    }
}

/// The track number carried by a tag: the value of the first digit run, with
/// zero and anything beyond `u32` discarded as absent.
pub open spec fn track_of(s: Seq<char>) -> Option<u32> {
    if has_digit(s) {
        let i = first_digit(s);
        let v = digits_val(s.subrange(i, digit_run_end(s, i)));
        if v == 0 || v > u32::MAX {
            None
        } else {
            Some(v as u32)
        }
    } else {
        None
    }
}

pub proof fn lemma_first_digit_exists(s: Seq<char>)
    requires
        has_digit(s),
    ensures
        is_first_digit(s, first_digit(s)),
    decreases s.len(),
{
    if s.len() > 0 {
        if is_digit(s[0]) {
            assert(is_first_digit(s, 0));
        } else {
            let q = s.drop_first();
            assert(has_digit(q)) by {
                let w = choose|i: int| 0 <= i < s.len() && is_digit(s[i]);
                assert(0 <= w - 1 < q.len() && q[w - 1] == s[w]);
            }
            lemma_first_digit_exists(q);
            let i = first_digit(q);
            assert(q[i] == s[i + 1]);
            assert forall|j: int| 0 <= j < i + 1 implies !is_digit(s[j]) by {
                if j > 0 {
                    assert(s[j] == q[j - 1]);
                }
            }
            assert(is_first_digit(s, i + 1));
        }
    }
}

/// The number written by digits is not negative.
proof fn lemma_digits_val_nonneg(s: Seq<char>)
    requires
        forall|j: int| 0 <= j < s.len() ==> is_digit(#[trigger] s[j]),
    ensures
        digits_val(s) >= 0,
    decreases s.len(),
{
    if s.len() > 0 {
        lemma_digits_val_nonneg(s.drop_last());
        assert(is_digit(s[s.len() - 1]));
        assert(digits_val(s.drop_last()) * 10 >= 0) by (nonlinear_arith)
            requires
                digits_val(s.drop_last()) >= 0,
        ;
    }
}

/// Extending a digit run never shrinks its value.
proof fn lemma_digits_val_grows(s: Seq<char>, more: Seq<char>)
    requires
        forall|j: int| 0 <= j < s.len() ==> is_digit(#[trigger] s[j]),
        forall|j: int| 0 <= j < more.len() ==> is_digit(#[trigger] more[j]),
    ensures
        digits_val(s + more) >= digits_val(s),
        digits_val(s) >= 0,
    decreases more.len(),
{
    lemma_digits_val_nonneg(s);
    if more.len() == 0 {
        assert(s + more =~= s);
    } else {
        let all = s + more;
        assert(all.drop_last() =~= s + more.drop_last());
        lemma_digits_val_grows(s, more.drop_last());
        assert(digits_val(all) == digits_val(all.drop_last()) * 10 + (all.last() as int - 48));
        assert(all.last() == more.last());
        assert(is_digit(more[more.len() - 1]));
        assert(digits_val(all.drop_last()) * 10 >= digits_val(all.drop_last())) by (nonlinear_arith)
            requires
                digits_val(all.drop_last()) >= 0,
        ;
    }
}

/// Parses the track number out of a tag: the leading integer of the first
/// digit run, with zero and anything beyond `u32` treated as absent.
pub fn parse_track(s: &str) -> (r: Option<u32>)
    ensures
        r == track_of(s@),
{
    let len = s.unicode_len();
    let mut i: usize = 0;
    while i < len
        invariant
            i <= len,
            len == s@.len(),
            forall|j: int| 0 <= j < i ==> !is_digit(s@[j]),
        decreases len - i,
    {
        let c = s.get_char(i);
        if c >= '0' && c <= '9' {
            proof {
                assert(is_first_digit(s@, i as int));
                assert(has_digit(s@));
                lemma_first_digit_exists(s@);
                assert(first_digit(s@) == i as int) by {
                    let w = first_digit(s@);
                    if w < i as int {
                        assert(!is_digit(s@[w]));
                    } else if w > i as int {
                        assert(!is_digit(s@[i as int]));
                    }
                }
            }
            let mut e: usize = i;
            let mut v: u64 = 0;
            let mut more = true;
            while more && e < len
                invariant
                    more ==> (e == i || (e < len ==> true)),
                    !more ==> (e == len || !is_digit(s@[e as int])),
                    i <= e <= len,
                    len == s@.len(),
                    forall|j: int| i <= j < e ==> is_digit(#[trigger] s@[j]),
                    digit_run_end(s@, i as int) == digit_run_end(s@, e as int),
                    v <= u32::MAX as u64 ==> v as int == digits_val(
                        s@.subrange(i as int, e as int),
                    ),
                    v > u32::MAX as u64 ==> digits_val(s@.subrange(i as int, e as int)) > u32::MAX,
                    v <= 0xF_FFFF_FFFFu64,
                decreases len - e + (if more { 1int } else { 0int }),
            {
                let c = s.get_char(e);
                if !(c >= '0' && c <= '9') {
                    more = false;
                } else {
                let d = (c as u32) - 48;
                proof {
                    let run = s@.subrange(i as int, e as int);
                    let run2 = s@.subrange(i as int, e as int + 1);
                    assert(run2.drop_last() =~= run);
                    assert(run2.last() == s@[e as int]);
                    assert forall|j: int| 0 <= j < run.len() implies is_digit(
                        #[trigger] run[j],
                    ) by {
                        assert(run[j] == s@[i + j]);
                    }
                    lemma_digits_val_grows(run, seq![s@[e as int]]);
                    assert(run + seq![s@[e as int]] =~= run2);
                    if v > u32::MAX as u64 {
                        assert(digits_val(run2) >= digits_val(run));
                    }
                }
                if v <= u32::MAX as u64 {
                    v = v * 10 + (d as u64);
                }
                e = e + 1;
                }
            }
            proof {
                assert(digit_run_end(s@, e as int) == e as int);
                assert(digit_run_end(s@, i as int) == e as int);
            }
            if v == 0 || v > u32::MAX as u64 {
                return None;
            }
            return Some(v as u32);
        }
        i = i + 1;
    }
    proof {
        assert(!has_digit(s@));
    }
    None
}

/// The title a file name yields: the text before the final dot, provided the
/// name has one with text on both sides; the extension itself holds no dot.
pub open spec fn title_from_file(file: Seq<char>) -> Option<Seq<char>> {
    if crate::urls::has_dot(file) && 1 <= crate::urls::last_dot(file)
        && crate::urls::last_dot(file) < file.len() - 1 {
        Some(file.subrange(0, crate::urls::last_dot(file)))
    } else {
        None
    }
}

/// Strips the extension from a file name, keeping the text before the final
/// dot; a name without both a non-empty stem and a non-empty extension has
/// no title to give.
pub fn strip_extension(file: &str) -> (r: Option<String>)
    ensures
        opt_view(r) == title_from_file(file@),
{
    let len = file.unicode_len();
    match crate::urls::find_last_dot(file) {
        Some(i) => {
            proof {
                crate::urls::lemma_last_dot_exists(file@);
                crate::urls::lemma_last_dot_unique(file@, i as int, crate::urls::last_dot(file@));
            }
            if i >= 1 && i < len - 1 {
                Some(String::from_str(file.substring_char(0, i)))
            } else {
                None
            }
        },
        None => None,
    }
}

/// The end of the run of spaces starting at `i`.
pub open spec fn space_end(s: Seq<char>, i: int) -> int
    decreases s.len() - i,
{
    if i < 0 {
        i
    } else if i >= s.len() {
        s.len() as int
    } else if s[i] == ' ' {
        space_end(s, i + 1)
    } else {
        i
    }
}

pub proof fn lemma_space_end_bounds(s: Seq<char>, i: int)
    requires
        0 <= i <= s.len(),
    ensures
        i <= space_end(s, i) <= s.len(),
    decreases s.len() - i,
{
    if i < s.len() && s[i] == ' ' {
        lemma_space_end_bounds(s, i + 1);
    }
}

/// The length of the artist separator starting at `i`, if one starts there:
/// spaces, an ampersand and at least one space; or spaces, a comma and at
/// least one space. Runs are taken whole.
pub open spec fn sep_len_at(s: Seq<char>, i: int) -> Option<int> {
    if 0 <= i < s.len() {
        let a = space_end(s, i);
        if a > i && a < s.len() && s[a] == '&' && space_end(s, a + 1) > a + 1 {
            Some(space_end(s, a + 1) - i)
        } else if a < s.len() && s[a] == ',' && space_end(s, a + 1) > a + 1 {
            Some(space_end(s, a + 1) - i)
        } else {
            None
        }
    } else {
        None
    }
}

/// The first separator at or after `from`, as a position and a length.
pub open spec fn next_sep_from(s: Seq<char>, from: int) -> Option<(int, int)>
    decreases s.len() - from,
{
    if from < 0 || from >= s.len() {
        None
    } else {
        match sep_len_at(s, from) {
            Some(l) => Some((from, l)),
            None => next_sep_from(s, from + 1),
        }
    }
}

/// The artist names written in a field, reading from `from`: the text up to
/// each separator, and the text after the last one.
pub open spec fn split_from(s: Seq<char>, from: int) -> Seq<Seq<char>>
    decreases s.len() - from,
{
    if 0 <= from <= s.len() {
        match next_sep_from(s, from) {
            Some((i, l)) => if from <= i && 2 <= l && i + l <= s.len() {
                seq![s.subrange(from, i)] + split_from(s, i + l)
            } else {
                seq![s.subrange(from, s.len() as int)]
            },
            None => seq![s.subrange(from, s.len() as int)],
        }
    } else {
        Seq::empty()
    }
}

/// The artist names written in a field.
pub open spec fn split_names(s: Seq<char>) -> Seq<Seq<char>> {
    split_from(s, 0)
}

/// The end of the run of spaces starting at `i`.
fn space_end_exec(s: &str, i: usize) -> (r: usize)
    requires
        i <= s@.len(),
    ensures
        r as int == space_end(s@, i as int),
        i <= r <= s@.len(),
{
    let len = s.unicode_len();
    let mut c = i;
    while c < len && s.get_char(c) == ' '
        invariant
            i <= c <= len,
            len == s@.len(),
            space_end(s@, i as int) == space_end(s@, c as int),
        decreases len - c,
    {
        c = c + 1;
    }
    c
}

/// The length of the artist separator starting at `p`, if one starts there.
fn sep_at(s: &str, p: usize) -> (r: Option<usize>)
    requires
        p < s@.len(),
    ensures
        match r {
            Some(l) => sep_len_at(s@, p as int) == Some(l as int) && 2 <= l && p + l <= s@.len(),
            None => sep_len_at(s@, p as int) is None,
        },
{
    let len = s.unicode_len();
    let a = space_end_exec(s, p);
    if a > p && a < len && s.get_char(a) == '&' {
        let b = space_end_exec(s, a + 1);
        if b > a + 1 {
            return Some(b - p);
        }
        return None;
    }
    if a < len && s.get_char(a) == ',' {
        let b = space_end_exec(s, a + 1);
        if b > a + 1 {
            return Some(b - p);
        }
    }
    None
}

/// Splits an artist field into the artist names it writes.
pub fn split_artists(s: &str) -> (r: Vec<String>)
    ensures
        r@.map_values(|x: String| x@) == split_names(s@),
        r@.len() >= 1,
{
    let len = s.unicode_len();
    let mut r: Vec<String> = Vec::new();
    let mut st: usize = 0;
    let mut p: usize = 0;
    proof {
        assert(r@.map_values(|x: String| x@) =~= Seq::<Seq<char>>::empty());
    }
    loop
        invariant
            st <= p <= len,
            len == s@.len(),
            r@.map_values(|x: String| x@) + split_from(s@, st as int) == split_names(s@),
            next_sep_from(s@, st as int) == next_sep_from(s@, p as int),
        decreases len - p,
    {
        if p == len {
            let tail = String::from_str(s.substring_char(st, len));
            r.push(tail);
            proof {
                assert(next_sep_from(s@, p as int) is None);
                assert(split_from(s@, st as int) =~= seq![s@.subrange(st as int, len as int)]);
                assert(r@.map_values(|x: String| x@) =~= split_names(s@));
            }
            return r;
        }
        match sep_at(s, p) {
            Some(l) => {
                let ghost r0 = r@;
                let tok = String::from_str(s.substring_char(st, p));
                r.push(tok);
                proof {
                    assert(next_sep_from(s@, p as int) == Some((p as int, l as int)));
                    assert(split_from(s@, st as int) =~= seq![s@.subrange(st as int, p as int)]
                        + split_from(s@, p as int + l as int));
                    assert(r@.map_values(|x: String| x@) =~= r0.map_values(|x: String| x@).push(
                        s@.subrange(st as int, p as int),
                    ));
                    assert(r0.map_values(|x: String| x@).push(s@.subrange(st as int, p as int))
                        + split_from(s@, p as int + l as int) =~= r0.map_values(|x: String| x@) + (
                    seq![s@.subrange(st as int, p as int)] + split_from(
                        s@,
                        p as int + l as int,
                    )));
                }
                st = p + l;
                p = st;
            },
            None => {
                proof {
                    assert(next_sep_from(s@, p as int) == next_sep_from(s@, p as int + 1));
                }
                p = p + 1;
            },
        }
    }
}

/// What is taken when a tag is missing.
pub open spec fn or_unknown(o: Option<Seq<char>>) -> Seq<char> {
    match o {
        Some(v) => v,
        None => "Unknown"@,
    }
}

/// The track number a dictionary yields.
pub open spec fn dict_track(d: Seq<(Seq<char>, Seq<char>)>) -> Option<u32> {
    match first_tag(d, "track"@) {
        Some(t) => track_of(t),
        None => None,
    }
}

/// The track number the first parseable stream tag yields.
pub open spec fn first_stream_track(ds: Seq<Seq<(Seq<char>, Seq<char>)>>) -> Option<u32>
    decreases ds.len(),
{
    if ds.len() == 0 {
        None
    } else {
        match dict_track(ds[0]) {
            Some(t) => Some(t),
            None => first_stream_track(ds.drop_first()),
        }
    }
}

/// The track number is resolved from the container first, then from the
/// streams in order, taking the first tag that parses.
pub open spec fn resolve_track_v(
    cv: Seq<(Seq<char>, Seq<char>)>,
    sv: Seq<Seq<(Seq<char>, Seq<char>)>>,
) -> Option<u32> {
    match dict_track(cv) {
        Some(t) => Some(t),
        None => first_stream_track(sv),
    }
}

/// The title a song gets: the resolved tag, else the file name with its
/// extension stripped, else the literal `Unknown`.
pub open spec fn resolved_title(
    cv: Seq<(Seq<char>, Seq<char>)>,
    sv: Seq<Seq<(Seq<char>, Seq<char>)>>,
    file: Seq<char>,
) -> Seq<char> {
    match resolve_tag_v(cv, sv, "title"@) {
        Some(t) => t,
        None => match title_from_file(file) {
            Some(t) => t,
            None => "Unknown"@,
        },
    }
}

/// The song a media file parses to, given its path and the metadata found in
/// its container and streams.
pub open spec fn song_parse_v(
    path: Seq<char>,
    base: Seq<char>,
    files_url: Seq<char>,
    cv: Seq<(Seq<char>, Seq<char>)>,
    sv: Seq<Seq<(Seq<char>, Seq<char>)>>,
) -> SongV {
    let title = resolved_title(cv, sv, file_name_of(path));
    SongV {
        name: title,
        unique_name: slug_of(title),
        album: RefV { name: or_unknown(resolve_tag_v(cv, sv, "album"@)), unique_name: Seq::empty() },
        artists: split_names(or_unknown(resolve_tag_v(cv, sv, "artist"@))).map_values(
            |n: Seq<char>| RefV { name: n, unique_name: Seq::empty() },
        ),
        track: resolve_track_v(cv, sv),
        cover_url: None,
        url: url_of(files_url, strip_base(path, base).unwrap()),
        path: path,
    }
}

impl Song {
    /// The title tag of one dictionary.
    pub fn find_title(dict: &Vec<(String, String)>) -> (r: Option<String>)
        ensures
            opt_view(r) == first_tag(dict_view(dict@), "title"@),
    {
        find_tag(dict, "title")
    }

    /// The album tag of one dictionary.
    pub fn find_album(dict: &Vec<(String, String)>) -> (r: Option<String>)
        ensures
            opt_view(r) == first_tag(dict_view(dict@), "album"@),
    {
        find_tag(dict, "album")
    }

    /// The artist tag of one dictionary.
    pub fn find_artist(dict: &Vec<(String, String)>) -> (r: Option<String>)
        ensures
            opt_view(r) == first_tag(dict_view(dict@), "artist"@),
    {
        find_tag(dict, "artist")
    }

    /// The track number one dictionary yields.
    pub fn find_track(dict: &Vec<(String, String)>) -> (r: Option<u32>)
        ensures
            r == dict_track(dict_view(dict@)),
    {
        match find_tag(dict, "track") {
            Some(t) => parse_track(t.as_str()),
            None => None,
        }
    }

    /// Parses a media file's metadata into a song: the title falls back to
    /// the file name and then to `Unknown`, the artist field is split into
    /// artist references, the album reference is not yet keyed, and the
    /// song's web address is derived from its path. A path outside the base
    /// directory is an indexing error.
    pub fn parse(
        path: &str,
        base: &str,
        files_url: &str,
        container: &Vec<(String, String)>,
        streams: &Vec<Vec<(String, String)>>,
    ) -> (r: Result<Song, Error>)
        ensures
            r is Ok <==> strip_base(path@, base@) is Some,
            r matches Ok(song) ==> song@ == song_parse_v(
                path@,
                base@,
                files_url@,
                dict_view(container@),
                dicts_view(streams@),
            ),
            r matches Err(e) ==> e matches Error::IndexingError { path: p, what } && opt_view(p)
                == Some(path@) && what@ == "formatting url"@,
    {
        let ghost cv = dict_view(container@);
        let ghost sv = dicts_view(streams@);
        let url = match find_url(path, base, files_url) {
            Ok(u) => u,
            Err(e) => {
                return Err(e);
            },
        };
        let title = match resolve_tag(container, streams, "title") {
            Some(t) => t,
            None => {
                let fname = file_name(path);
                match strip_extension(fname.as_str()) {
                    Some(t) => t,
                    None => String::from_str("Unknown"),
                }
            },
        };
        let track = Song::resolve_track(container, streams);
        let album_name = match resolve_tag(container, streams, "album") {
            Some(a) => a,
            None => String::from_str("Unknown"),
        };
        let artist_field = match resolve_tag(container, streams, "artist") {
            Some(a) => a,
            None => String::from_str("Unknown"),
        };
        let parts = split_artists(artist_field.as_str());
        let mut artists: Vec<ArtistRef> = Vec::new();
        let mut t: usize = 0;
        while t < parts.len()
            invariant
                t <= parts@.len(),
                artists@.len() == t,
                forall|j: int|
                    0 <= j < t ==> (#[trigger] artists@[j])@ == (RefV {
                        name: parts@[j]@,
                        unique_name: Seq::empty(),
                    }),
            decreases parts@.len() - t,
        {
            artists.push(ArtistRef { name: parts[t].clone(), unique_name: String::new() });
            t = t + 1;
        }
        let unique_name = sanitize(title.as_str());
        let song = Song {
            name: title,
            unique_name: unique_name,
            album: AlbumRef { name: album_name, unique_name: String::new() },
            artists: artists,
            track: track,
            cover_url: None,
            url: url,
            path: String::from_str(path),
        };
        proof {
            assert(crate::catalog::refs_view(song.artists@) =~= split_names(
                or_unknown(resolve_tag_v(cv, sv, "artist"@)),
            ).map_values(|n: Seq<char>| RefV { name: n, unique_name: Seq::empty() }));
            assert(song@ =~~= song_parse_v(path@, base@, files_url@, cv, sv));
        }
        Ok(song)
    }

    /// The track number resolved from the container, then the streams.
    pub fn resolve_track(
        container: &Vec<(String, String)>,
        streams: &Vec<Vec<(String, String)>>,
    ) -> (r: Option<u32>)
        ensures
            r == resolve_track_v(dict_view(container@), dicts_view(streams@)),
    {
        let ghost sv = dicts_view(streams@);
        if let Some(t) = Song::find_track(container) {
            return Some(t);
        }
        let mut i: usize = 0;
        proof {
            assert(sv.skip(0) =~= sv);
        }
        while i < streams.len()
            invariant
                i <= streams@.len(),
                dict_track(dict_view(container@)) is None,
                sv == dicts_view(streams@),
                sv.len() == streams@.len(),
                first_stream_track(sv.skip(i as int)) == first_stream_track(sv),
            decreases streams@.len() - i,
        {
            proof {
                assert(sv.skip(i as int)[0] == sv[i as int]);
                assert(sv.skip(i as int).drop_first() =~= sv.skip(i as int + 1));
            }
            if let Some(t) = Song::find_track(&streams[i]) {
                return Some(t);
            }
            i = i + 1;
        }
        proof {
            assert(sv.skip(sv.len() as int) =~= Seq::<Seq<(Seq<char>, Seq<char>)>>::empty());
        }
        None
    }
}

} // verus!
