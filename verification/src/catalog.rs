//! The catalog: artists, albums and songs, keyed by slugs, held in arenas and
//! cross-referenced by index. Every mutation is specified by a functional
//! model over the ghost views.
use vstd::prelude::*;

use crate::probe::has_key;
use crate::probe::idx_of;
use crate::probe::lemma_idx_of_unique;
use crate::probe::lemma_probe_bound;
use crate::probe::lemma_probe_first_k;
use crate::probe::probe_first;
use crate::probe::probe_k;
use crate::probe::probe_stop;
use crate::probe::unique_keys;
use crate::slug::key_at;
use crate::slug::make_key;
use crate::slug::sanitize;
use crate::slug::slug_of;
use crate::strs::opt_view;
use crate::strs::str_eq;

verus! {

/// A lightweight reference to an artist or album: display name and key.
#[derive(Debug, Clone)]
pub struct ArtistRef {
    pub name: String,
    pub unique_name: String,
}

/// A lightweight reference to an album.
#[derive(Debug, Clone)]
pub struct AlbumRef {
    pub name: String,
    pub unique_name: String,
}

/// A lightweight reference to a song.
#[derive(Debug, Clone)]
pub struct SongRef {
    pub name: String,
    pub unique_name: String,
}

/// A song: title, key, references to its album and artists, the optional
/// track number, the album cover it knows of, and where it lives.
#[derive(Debug, Clone)]
pub struct Song {
    pub name: String,
    pub unique_name: String,
    pub album: AlbumRef,
    pub artists: Vec<ArtistRef>,
    pub track: Option<u32>,
    pub cover_url: Option<String>,
    pub url: String,
    pub path: String,
}

/// An artist: display name, key, the albums it contributes to (as positions
/// in the catalog's album arena), and an optional cover.
#[derive(Debug)]
pub struct Artist {
    pub name: String,
    pub unique_name: String,
    pub albums: Vec<usize>,
    pub cover_url: Option<String>,
}

/// An album. Songs live in `song_arena`; `slots` is the sparse track-indexed
/// sequence (slot `i` holds the song with track `i + 1`), and `songs_by_name`
/// maps a song key to its arena position.
#[derive(Debug)]
pub struct Album {
    pub name: String,
    pub unique_name: String,
    pub artists: Vec<ArtistRef>,
    pub song_arena: Vec<Song>,
    pub slots: Vec<Option<usize>>,
    pub songs_by_name: Vec<(String, usize)>,
    pub cover_url: Option<String>,
    pub cover_rating: u32,
    pub has_tracks: bool,
    pub path: String,
}

/// The whole catalog.
#[derive(Debug)]
pub struct Index {
    pub artists: Vec<Artist>,
    pub artist_list: Vec<usize>,
    pub albums: Vec<Album>,
    pub album_list: Vec<usize>,
}

/// The ghost view of a reference.
#[verifier::ext_equal]
pub struct RefV {
    pub name: Seq<char>,
    pub unique_name: Seq<char>,
}

/// The ghost view of a song.
#[verifier::ext_equal]
pub struct SongV {
    pub name: Seq<char>,
    pub unique_name: Seq<char>,
    pub album: RefV,
    pub artists: Seq<RefV>,
    pub track: Option<u32>,
    pub cover_url: Option<Seq<char>>,
    pub url: Seq<char>,
    pub path: Seq<char>,
}

/// The ghost view of an artist.
#[verifier::ext_equal]
pub struct ArtistV {
    pub name: Seq<char>,
    pub unique_name: Seq<char>,
    pub albums: Seq<int>,
    pub cover_url: Option<Seq<char>>,
}

/// The ghost view of an album.
#[verifier::ext_equal]
pub struct AlbumV {
    pub name: Seq<char>,
    pub unique_name: Seq<char>,
    pub artists: Seq<RefV>,
    pub song_arena: Seq<SongV>,
    pub slots: Seq<Option<int>>,
    pub songs_by_name: Seq<(Seq<char>, int)>,
    pub cover_url: Option<Seq<char>>,
    pub cover_rating: u32,
    pub has_tracks: bool,
    pub path: Seq<char>,
}

/// The ghost view of the catalog.
#[verifier::ext_equal]
pub struct IndexV {
    pub artists: Seq<ArtistV>,
    pub artist_list: Seq<int>,
    pub albums: Seq<AlbumV>,
    pub album_list: Seq<int>,
}

impl View for ArtistRef {
    type V = RefV;

    open spec fn view(&self) -> RefV {
        RefV { name: self.name@, unique_name: self.unique_name@ }
    }
}

impl View for AlbumRef {
    type V = RefV;

    open spec fn view(&self) -> RefV {
        RefV { name: self.name@, unique_name: self.unique_name@ }
    }
}

impl View for SongRef {
    type V = RefV;

    open spec fn view(&self) -> RefV {
        RefV { name: self.name@, unique_name: self.unique_name@ }
    }
}

/// The views of a reference list.
pub open spec fn refs_view(v: Seq<ArtistRef>) -> Seq<RefV> {
    v.map_values(|r: ArtistRef| r@)
}

impl View for Song {
    type V = SongV;

    open spec fn view(&self) -> SongV {
        SongV {
            name: self.name@,
            unique_name: self.unique_name@,
            album: self.album@,
            artists: refs_view(self.artists@),
            track: self.track,
            cover_url: opt_view(self.cover_url),
            url: self.url@,
            path: self.path@,
        }
    }
}

impl View for Artist {
    type V = ArtistV;

    open spec fn view(&self) -> ArtistV {
        ArtistV {
            name: self.name@,
            unique_name: self.unique_name@,
            albums: self.albums@.map_values(|i: usize| i as int),
            cover_url: opt_view(self.cover_url),
        }
    }
}

impl View for Album {
    type V = AlbumV;

    open spec fn view(&self) -> AlbumV {
        AlbumV {
            name: self.name@,
            unique_name: self.unique_name@,
            artists: refs_view(self.artists@),
            song_arena: self.song_arena@.map_values(|s: Song| s@),
            slots: self.slots@.map_values(
                |o: Option<usize>|
                    match o {
                        Some(i) => Some(i as int),
                        None => None,
                    },
            ),
            songs_by_name: self.songs_by_name@.map_values(|e: (String, usize)| (e.0@, e.1 as int)),
            cover_url: opt_view(self.cover_url),
            cover_rating: self.cover_rating,
            has_tracks: self.has_tracks,
            path: self.path@,
        }
    }
}

impl View for Index {
    type V = IndexV;

    open spec fn view(&self) -> IndexV {
        IndexV {
            artists: self.artists@.map_values(|a: Artist| a@),
            artist_list: self.artist_list@.map_values(|i: usize| i as int),
            albums: self.albums@.map_values(|a: Album| a@),
            album_list: self.album_list@.map_values(|i: usize| i as int),
        }
    }
}

/// The `(key, display name)` pairs of the artists, what the probe sees.
pub open spec fn artist_entries(artists: Seq<ArtistV>) -> Seq<(Seq<char>, Seq<char>)> {
    artists.map_values(|a: ArtistV| (a.unique_name, a.name))
}

/// The `(key, display name)` pairs of the albums.
pub open spec fn album_entries(albums: Seq<AlbumV>) -> Seq<(Seq<char>, Seq<char>)> {
    albums.map_values(|a: AlbumV| (a.unique_name, a.name))
}

impl AlbumV {
    /// Every slot and every name entry points into the arena, name entries
    /// carry their song's own key, no key twice, and every slotted song
    /// carries the album's current cover.
    pub open spec fn wf(self) -> bool {
        &&& forall|y: int|
            0 <= y < self.slots.len() ==> (#[trigger] self.slots[y] matches Some(i) ==> 0 <= i
                < self.song_arena.len())
        &&& forall|e: int|
            0 <= e < self.songs_by_name.len() ==> 0 <= (#[trigger] self.songs_by_name[e]).1
                < self.song_arena.len() && self.songs_by_name[e].0
                == self.song_arena[self.songs_by_name[e].1].unique_name
        &&& forall|e1: int, e2: int|
            0 <= e1 < e2 < self.songs_by_name.len() ==> (#[trigger] self.songs_by_name[e1]).0 != (
            #[trigger] self.songs_by_name[e2]).0
        &&& self.covers_synced()
    }

    /// A song sitting in a slot knows the album's current cover.
    pub open spec fn covers_synced(self) -> bool {
        forall|y: int|
            0 <= y < self.slots.len() ==> (#[trigger] self.slots[y] matches Some(i) ==> (0 <= i
                < self.song_arena.len() ==> self.song_arena[i].cover_url == self.cover_url))
    }
}

impl IndexV {
    /// Keys are unique on both sides, and every back-reference from an artist
    /// names an existing album, at most once.
    pub open spec fn wf(self) -> bool {
        &&& unique_keys(artist_entries(self.artists))
        &&& unique_keys(album_entries(self.albums))
        &&& forall|a: int|
            0 <= a < self.artists.len() ==> (#[trigger] self.artists[a]).albums_wf(
                self.albums.len() as int,
            )
        &&& forall|b: int| 0 <= b < self.albums.len() ==> (#[trigger] self.albums[b]).wf()
    }
}

impl ArtistV {
    /// Album back-references point into the album arena and hold no repeats.
    pub open spec fn albums_wf(self, n_albums: int) -> bool {
        &&& forall|x: int| 0 <= x < self.albums.len() ==> 0 <= #[trigger] self.albums[x] < n_albums
        &&& forall|x: int, y: int|
            0 <= x < y < self.albums.len() ==> self.albums[x] != self.albums[y]
    }
}

/// A fresh artist: no albums, no cover.
pub open spec fn new_artist_v(name: Seq<char>, key: Seq<char>) -> ArtistV {
    ArtistV { name: name, unique_name: key, albums: Seq::empty(), cover_url: None }
}

/// What inserting an artist by display name does: probe for the first free or
/// matching key; a match leaves the catalog as it is, a free key adds a fresh
/// artist under it. Either way the key is handed back.
pub open spec fn insert_artist_v(artists: Seq<ArtistV>, name: Seq<char>) -> (Seq<ArtistV>, Seq<
    char,
>) {
    let es = artist_entries(artists);
    let key = key_at(slug_of(name), probe_k(es, name));
    if has_key(es, key) {
        (artists, key)
    } else {
        (artists.push(new_artist_v(name, key)), key)
    }
}

impl Index {
    /// An empty catalog.
    pub fn new() -> (r: Index)
        ensures
            r@.artists.len() == 0,
            r@.albums.len() == 0,
            r@.artist_list.len() == 0,
            r@.album_list.len() == 0,
            r@.wf(),
    {
        let r = Index { artists: Vec::new(), artist_list: Vec::new(), albums: Vec::new(), album_list: Vec::new() };
        proof {
            assert(r@.artists =~= Seq::<ArtistV>::empty());
            assert(r@.albums =~= Seq::<AlbumV>::empty());
            assert(r@.artist_list =~= Seq::<int>::empty());
            assert(r@.album_list =~= Seq::<int>::empty());
        }
        r
    }

    /// The position of the artist holding this key, if any.
    fn find_artist_idx(&self, key: &String) -> (r: Option<usize>)
        ensures
            match r {
                Some(i) => i < self.artists.len() && self@.artists[i as int].unique_name == key@,
                None => !has_key(artist_entries(self@.artists), key@),
            },
    {
        let mut i: usize = 0;
        while i < self.artists.len()
            invariant
                i <= self.artists.len(),
                forall|j: int| 0 <= j < i ==> self@.artists[j].unique_name != key@,
            decreases self.artists.len() - i,
        {
            if str_eq(self.artists[i].unique_name.as_str(), key.as_str()) {
                return Some(i);
            }
            i = i + 1;
        }
        proof {
            assert forall|j: int|
                0 <= j < artist_entries(self@.artists).len() implies #[trigger] artist_entries(
                self@.artists,
            )[j].0 != key@ by {
                assert(self@.artists[j].unique_name != key@);
            }
        }
        None
    }

    /// Returns the catalog key for this display name, creating the artist if
    /// no artist of that exact name is already in. The albums and the sorted
    /// lists are untouched.
    pub fn get_or_insert_artist(&mut self, name: &String) -> (r: String)
        requires
            old(self)@.wf(),
        ensures
            final(self)@.wf(),
            final(self)@.artists == insert_artist_v(old(self)@.artists, name@).0,
            r@ == insert_artist_v(old(self)@.artists, name@).1,
            final(self)@.albums == old(self)@.albums,
            final(self)@.artist_list == old(self)@.artist_list,
            final(self)@.album_list == old(self)@.album_list,
    {
        let ghost es0 = artist_entries(old(self)@.artists);
        let slug = sanitize(name.as_str());
        let mut k: usize = 0;
        let mut key = slug.clone();
        proof {
            assert(key@ == key_at(slug@, 0));
        }
        loop
            invariant
                *self == *old(self),
                self@.wf(),
                slug@ == slug_of(name@),
                key@ == key_at(slug@, k as nat),
                forall|j: nat| j < k as nat ==> !probe_stop(es0, name@, j),
                k <= self.artists.len(),
                es0 == artist_entries(self@.artists),
            decreases self.artists@.len() + 1 - k,
        {
            match self.find_artist_idx(&key) {
                None => {
                    proof {
                        assert(!has_key(es0, key@));
                        assert(probe_first(es0, name@, k as nat));
                        lemma_probe_first_k(es0, name@, k as nat);
                    }
                    let artist = Artist {
                        name: name.clone(),
                        unique_name: key.clone(),
                        albums: Vec::new(),
                        cover_url: None,
                    };
                    proof {
                        assert(artist@ =~~= new_artist_v(name@, key@));
                    }
                    self.artists.push(artist);
                    proof {
                        assert(self@.artists =~~= old(self)@.artists.push(
                            new_artist_v(name@, key@),
                        ));
                        let es1 = artist_entries(self@.artists);
                        assert forall|i: int, j: int|
                            0 <= i < j < es1.len() implies #[trigger] es1[i].0 != #[trigger] es1[j].0 by {
                            if j < es1.len() - 1 {
                                assert(es0[i].0 != es0[j].0);
                            } else {
                                assert(es1[j].0 == key@);
                                assert(es1[i].0 == es0[i].0);
                                assert(!has_key(es0, key@));
                            }
                        }
                        assert(final(self)@.wf());
                    }
                    return key;
                },
                Some(i) => {
                    let same = str_eq(self.artists[i].name.as_str(), name.as_str());
                    proof {
                        lemma_idx_of_unique(es0, key@, i as int);
                    }
                    if same {
                        proof {
                            assert(es0[idx_of(es0, key@)].1 == name@);
                            assert(probe_stop(es0, name@, k as nat));
                            assert(probe_first(es0, name@, k as nat));
                            lemma_probe_first_k(es0, name@, k as nat);
                            assert(has_key(es0, key@));
                        }
                        let r = self.artists[i].unique_name.clone();
                        return r;
                    }
                    proof {
                        assert(es0[idx_of(es0, key@)].1 != name@);
                        assert(!probe_stop(es0, name@, k as nat));
                        lemma_probe_bound(es0, name@, k as nat);
                    }
                    k = k + 1;
                    key = make_key(&slug, k);
                },
            }
        }
    }
}

/// Every incoming reference names an artist already in the catalog.
pub open spec fn refs_resolved(artists: Seq<ArtistV>, refs: Seq<RefV>) -> bool {
    forall|t: int|
        0 <= t < refs.len() ==> has_key(artist_entries(artists), (#[trigger] refs[t]).unique_name)
}

/// A fresh album: no songs, no cover, not yet tracked.
pub open spec fn new_album_v(
    name: Seq<char>,
    key: Seq<char>,
    artists: Seq<RefV>,
    path: Seq<char>,
) -> AlbumV {
    AlbumV {
        name: name,
        unique_name: key,
        artists: artists,
        song_arena: Seq::empty(),
        slots: Seq::empty(),
        songs_by_name: Seq::empty(),
        cover_url: None,
        cover_rating: 0,
        has_tracks: false,
        path: path,
    }
}

/// The album already lists a contributing artist under this key.
pub open spec fn album_has_artist(album: AlbumV, key: Seq<char>) -> bool {
    exists|m: int| 0 <= m < album.artists.len() && album.artists[m].unique_name == key
}

/// Adds one album position to an artist's back-references, at most once.
pub open spec fn artist_add_album(a: ArtistV, ai: int) -> ArtistV {
    if a.albums.contains(ai) {
        a
    } else {
        ArtistV { albums: a.albums.push(ai), ..a }
    }
}

/// Attaches one contributing artist to an existing album: a newcomer is
/// appended to the album's artist list and the album is linked back into the
/// artist; an artist already listed changes nothing.
pub open spec fn attach_one_v(ix: IndexV, ai: int, r: RefV) -> IndexV {
    if album_has_artist(ix.albums[ai], r.unique_name) {
        ix
    } else {
        let album2 = AlbumV { artists: ix.albums[ai].artists.push(r), ..ix.albums[ai] };
        let es = artist_entries(ix.artists);
        if has_key(es, r.unique_name) {
            let j = idx_of(es, r.unique_name);
            IndexV {
                albums: ix.albums.update(ai, album2),
                artists: ix.artists.update(j, artist_add_album(ix.artists[j], ai)),
                ..ix
            }
        } else {
            ix
        }
    }
}

/// Attaches a list of contributing artists, in order.
pub open spec fn attach_artists_v(ix: IndexV, ai: int, refs: Seq<RefV>) -> IndexV
    decreases refs.len(),
{
    if refs.len() == 0 {
        ix
    } else {
        attach_artists_v(attach_one_v(ix, ai, refs[0]), ai, refs.drop_first())
    }
}

/// Links a fresh album into each contributing artist's back-references.
pub open spec fn link_new_v(artists: Seq<ArtistV>, ai: int, refs: Seq<RefV>) -> Seq<ArtistV>
    decreases refs.len(),
{
    if refs.len() == 0 {
        artists
    } else {
        let es = artist_entries(artists);
        let next = if has_key(es, refs[0].unique_name) {
            artists.update(
                idx_of(es, refs[0].unique_name),
                artist_add_album(artists[idx_of(es, refs[0].unique_name)], ai),
            )
        } else {
            artists
        };
        link_new_v(next, ai, refs.drop_first())
    }
}

/// What inserting an album by display name does: probe as for artists; an
/// album found under the stopping key accretes the incoming artists, a free
/// key gets a fresh album linked into every incoming artist.
pub open spec fn insert_album_v(ix: IndexV, name: Seq<char>, refs: Seq<RefV>, path: Seq<char>) -> (
    IndexV,
    int,
) {
    let es = album_entries(ix.albums);
    let key = key_at(slug_of(name), probe_k(es, name));
    if has_key(es, key) {
        let ai = idx_of(es, key);
        (attach_artists_v(ix, ai, refs), ai)
    } else {
        let ai = ix.albums.len() as int;
        let ix2 = IndexV {
            albums: ix.albums.push(new_album_v(name, key, refs, path)),
            artists: link_new_v(ix.artists, ai, refs),
            ..ix
        };
        (ix2, ai)
    }
}

/// A copy of a reference whose view is the same.
pub(crate) fn clone_ref(r: &ArtistRef) -> (c: ArtistRef)
    ensures
        c@ == r@,
{
    ArtistRef { name: r.name.clone(), unique_name: r.unique_name.clone() }
}

/// A copy of a reference list whose views are the same.
pub(crate) fn clone_refs(v: &Vec<ArtistRef>) -> (c: Vec<ArtistRef>)
    ensures
        refs_view(c@) == refs_view(v@),
{
    let mut c: Vec<ArtistRef> = Vec::new();
    let mut t: usize = 0;
    while t < v.len()
        invariant
            t <= v@.len(),
            c@.len() == t,
            forall|j: int| 0 <= j < t ==> (#[trigger] c@[j])@ == v@[j]@,
        decreases v@.len() - t,
    {
        c.push(clone_ref(&v[t]));
        t = t + 1;
    }
    proof {
        assert(refs_view(c@) =~= refs_view(v@));
    }
    c
}

/// Whether a back-reference list holds this position.
fn vec_contains(v: &Vec<usize>, x: usize) -> (r: bool)
    ensures
        r == v@.map_values(|i: usize| i as int).contains(x as int),
{
    let ghost m = v@.map_values(|i: usize| i as int);
    let mut t: usize = 0;
    while t < v.len()
        invariant
            t <= v@.len(),
            m == v@.map_values(|i: usize| i as int),
            forall|j: int| 0 <= j < t ==> m[j] != x as int,
        decreases v@.len() - t,
    {
        if v[t] == x {
            proof {
                assert(m[t as int] == x as int);
            }
            return true;
        }
        t = t + 1;
    }
    proof {
        assert(!m.contains(x as int));
    }
    false
}

/// Whether the album already lists an artist under this key.
fn album_lists_artist(album: &Album, key: &String) -> (r: bool)
    ensures
        r == album_has_artist(album@, key@),
{
    let mut t: usize = 0;
    while t < album.artists.len()
        invariant
            t <= album.artists@.len(),
            forall|j: int| 0 <= j < t ==> album@.artists[j].unique_name != key@,
        decreases album.artists@.len() - t,
    {
        if str_eq(album.artists[t].unique_name.as_str(), key.as_str()) {
            proof {
                assert(album@.artists[t as int].unique_name == key@);
            }
            return true;
        }
        t = t + 1;
    }
    false
}

impl Index {
    /// The position of the album holding this key, if any.
    pub fn find_album_position(&self, key: &String) -> (r: Option<usize>)
        ensures
            match r {
                Some(i) => i < self.albums.len() && self@.albums[i as int].unique_name == key@
                    && has_key(album_entries(self@.albums), key@),
                None => !has_key(album_entries(self@.albums), key@),
            },
    {
        let mut i: usize = 0;
        while i < self.albums.len()
            invariant
                i <= self.albums.len(),
                forall|j: int| 0 <= j < i ==> self@.albums[j].unique_name != key@,
            decreases self.albums.len() - i,
        {
            if str_eq(self.albums[i].unique_name.as_str(), key.as_str()) {
                proof {
                    assert(album_entries(self@.albums)[i as int].0 == key@);
                }
                return Some(i);
            }
            i = i + 1;
        }
        proof {
            assert forall|j: int|
                0 <= j < album_entries(self@.albums).len() implies #[trigger] album_entries(
                self@.albums,
            )[j].0 != key@ by {
                assert(self@.albums[j].unique_name != key@);
            }
        }
        None
    }

    /// Accretes the incoming artists onto an existing album, in order.
    fn attach_refs(&mut self, ai: usize, refs: &Vec<ArtistRef>)
        requires
            old(self)@.wf(),
            ai < old(self)@.albums.len(),
            refs_resolved(old(self)@.artists, refs_view(refs@)),
        ensures
            final(self)@.wf(),
            final(self)@ == attach_artists_v(old(self)@, ai as int, refs_view(refs@)),
            final(self)@.albums.len() == old(self)@.albums.len(),
            artist_entries(final(self)@.artists) == artist_entries(old(self)@.artists),
            album_entries(final(self)@.albums) == album_entries(old(self)@.albums),
            final(self)@.artist_list == old(self)@.artist_list,
            final(self)@.album_list == old(self)@.album_list,
    {
        let ghost goal = attach_artists_v(old(self)@, ai as int, refs_view(refs@));
        let ghost rv = refs_view(refs@);
        let mut t: usize = 0;
        proof {
            assert(rv.skip(0) =~= rv);
        }
        while t < refs.len()
            invariant
                t <= rv.len(),
                rv.len() == refs@.len(),
                rv == refs_view(refs@),
                self@.wf(),
                refs_resolved(self@.artists, rv),
                ai < self@.albums.len(),
                self@.albums.len() == old(self)@.albums.len(),
                self@.artist_list == old(self)@.artist_list,
                self@.album_list == old(self)@.album_list,
                artist_entries(self@.artists) == artist_entries(old(self)@.artists),
                album_entries(self@.albums) == album_entries(old(self)@.albums),
                attach_artists_v(self@, ai as int, rv.skip(t as int)) == goal,
            decreases rv.len() - t,
        {
            let ghost pre = self@;
            proof {
                assert(rv.skip(t as int)[0] == rv[t as int]);
                assert(rv.skip(t as int).drop_first() =~= rv.skip(t as int + 1));
                assert(rv[t as int] == refs@[t as int]@);
            }
            let listed = album_lists_artist(&self.albums[ai], &refs[t].unique_name);
            if !listed {
                let r = clone_ref(&refs[t]);
                self.albums[ai].artists.push(r);
                let ghost mid = self@;
                proof {
                    assert(mid.albums[ai as int].artists =~= pre.albums[ai as int].artists.push(
                        rv[t as int],
                    ));
                }
                let j = match self.find_artist_idx(&refs[t].unique_name) {
                    Some(j) => j,
                    None => {
                        proof {
                            assert(has_key(
                                artist_entries(self@.artists),
                                rv[t as int].unique_name,
                            ));
                            assert(rv[t as int].unique_name == refs@[t as int].unique_name@);
                            assert(false);
                        }
                        0
                    },
                };
                let already = vec_contains(&self.artists[j].albums, ai);
                if !already {
                    self.artists[j].albums.push(ai);
                }
                proof {
                    let es = artist_entries(pre.artists);
                    lemma_idx_of_unique(es, rv[t as int].unique_name, j as int);
                    assert(self@.artists[j as int] =~= artist_add_album(
                        pre.artists[j as int],
                        ai as int,
                    ));
                    assert(self@ =~~= attach_one_v(pre, ai as int, rv[t as int]));
                    assert(artist_entries(self@.artists) =~= artist_entries(pre.artists));
                    assert(album_entries(self@.albums) =~= album_entries(pre.albums));
                    assert(self@.wf()) by {
                        let cur = self@;
                        assert forall|b: int| 0 <= b < cur.albums.len() implies (
                        #[trigger] cur.albums[b]).wf() by {
                            assert(pre.albums[b].wf());
                            if b == ai as int {
                                assert(cur.albums[b].song_arena == pre.albums[b].song_arena);
                                assert(cur.albums[b].slots == pre.albums[b].slots);
                                assert(cur.albums[b].songs_by_name == pre.albums[
                                    b].songs_by_name);
                                assert(cur.albums[b].cover_url == pre.albums[b].cover_url);
                            }
                        }
                        assert forall|a: int| 0 <= a < cur.artists.len() implies (
                        #[trigger] cur.artists[a]).albums_wf(cur.albums.len() as int) by {
                            assert(pre.artists[a].albums_wf(pre.albums.len() as int));
                        }
                    }
                }
            } else {
                proof {
                    assert(self@ =~~= attach_one_v(pre, ai as int, rv[t as int]));
                }
            }
            t = t + 1;
        }
        proof {
            assert(rv.skip(rv.len() as int) =~= Seq::<RefV>::empty());
            assert(attach_artists_v(self@, ai as int, rv.skip(rv.len() as int)) == self@);
        }
    }

    /// Returns the position of the album for this display name, creating and
    /// linking a fresh album when no album of that exact name is in, and
    /// accreting the incoming artists when one is. The artists named by the
    /// incoming references must already be in the catalog.
    pub fn get_or_insert_album(&mut self, name: &String, artists: &Vec<ArtistRef>, path: String) -> (ai:
        usize)
        requires
            old(self)@.wf(),
            refs_resolved(old(self)@.artists, refs_view(artists@)),
        ensures
            final(self)@.wf(),
            final(self)@ == insert_album_v(old(self)@, name@, refs_view(artists@), path@).0,
            ai as int == insert_album_v(old(self)@, name@, refs_view(artists@), path@).1,
            ai < final(self)@.albums.len(),
            artist_entries(final(self)@.artists) == artist_entries(old(self)@.artists),
            final(self)@.artist_list == old(self)@.artist_list,
            final(self)@.album_list == old(self)@.album_list,
    {
        let ghost es0 = album_entries(old(self)@.albums);
        let ghost rv = refs_view(artists@);
        let slug = sanitize(name.as_str());
        let mut k: usize = 0;
        let mut key = slug.clone();
        proof {
            assert(key@ == key_at(slug@, 0));
        }
        loop
            invariant
                *self == *old(self),
                self@.wf(),
                rv == refs_view(artists@),
                refs_resolved(self@.artists, rv),
                slug@ == slug_of(name@),
                key@ == key_at(slug@, k as nat),
                forall|j: nat| j < k as nat ==> !probe_stop(es0, name@, j),
                k <= self.albums.len(),
                es0 == album_entries(self@.albums),
            decreases self.albums@.len() + 1 - k,
        {
            match self.find_album_position(&key) {
                None => {
                    proof {
                        assert(!has_key(es0, key@));
                        assert(probe_first(es0, name@, k as nat));
                        lemma_probe_first_k(es0, name@, k as nat);
                    }
                    let ai = self.albums.len();
                    let album = Album {
                        name: name.clone(),
                        unique_name: key,
                        artists: clone_refs(artists),
                        song_arena: Vec::new(),
                        slots: Vec::new(),
                        songs_by_name: Vec::new(),
                        cover_url: None,
                        cover_rating: 0,
                        has_tracks: false,
                        path: path,
                    };
                    proof {
                        assert(album@ =~~= new_album_v(name@, key_at(slug@, k as nat), rv, album.path@));
                    }
                    self.albums.push(album);
                    let ghost pushed = self@;
                    proof {
                        assert(pushed.albums =~~= old(self)@.albums.push(
                            new_album_v(name@, key_at(slug@, k as nat), rv, path@),
                        ));
                        let es1 = album_entries(pushed.albums);
                        assert forall|i: int, j: int|
                            0 <= i < j < es1.len() implies #[trigger] es1[i].0
                            != #[trigger] es1[j].0 by {
                            if j < es1.len() - 1 {
                                assert(es0[i].0 != es0[j].0);
                            } else {
                                assert(es1[j].0 == key_at(slug@, k as nat));
                                assert(es1[i].0 == es0[i].0);
                            }
                        }
                        assert(pushed.wf()) by {
                            assert forall|b: int| 0 <= b < pushed.albums.len() implies (
                            #[trigger] pushed.albums[b]).wf() by {
                                if b < pushed.albums.len() - 1 {
                                    assert(old(self)@.albums[b].wf());
                                }
                            }
                            assert forall|a: int| 0 <= a < pushed.artists.len() implies (
                            #[trigger] pushed.artists[a]).albums_wf(
                                pushed.albums.len() as int,
                            ) by {
                                assert(old(self)@.artists[a].albums_wf(
                                    old(self)@.albums.len() as int,
                                ));
                            }
                        }
                    }
                    self.link_refs(ai, artists);
                    return ai;
                },
                Some(i) => {
                    let same = str_eq(self.albums[i].name.as_str(), name.as_str());
                    proof {
                        lemma_idx_of_unique(es0, key@, i as int);
                    }
                    if same {
                        proof {
                            assert(es0[idx_of(es0, key@)].1 == name@);
                            assert(probe_first(es0, name@, k as nat));
                            lemma_probe_first_k(es0, name@, k as nat);
                            assert(has_key(es0, key@));
                        }
                        self.attach_refs(i, artists);
                        return i;
                    }
                    proof {
                        assert(es0[idx_of(es0, key@)].1 != name@);
                        assert(!probe_stop(es0, name@, k as nat));
                        lemma_probe_bound(es0, name@, k as nat);
                    }
                    k = k + 1;
                    key = make_key(&slug, k);
                },
            }
        }
    }

    /// Links a fresh album (the last one) into each incoming artist.
    fn link_refs(&mut self, ai: usize, refs: &Vec<ArtistRef>)
        requires
            old(self)@.wf(),
            ai as int == old(self)@.albums.len() - 1,
            refs_resolved(old(self)@.artists, refs_view(refs@)),
        ensures
            final(self)@.wf(),
            final(self)@.artists == link_new_v(old(self)@.artists, ai as int, refs_view(refs@)),
            final(self)@.albums == old(self)@.albums,
            final(self)@.artist_list == old(self)@.artist_list,
            final(self)@.album_list == old(self)@.album_list,
            artist_entries(final(self)@.artists) == artist_entries(old(self)@.artists),
    {
        let ghost goal = link_new_v(old(self)@.artists, ai as int, refs_view(refs@));
        let ghost rv = refs_view(refs@);
        let mut t: usize = 0;
        proof {
            assert(rv.skip(0) =~= rv);
        }
        while t < refs.len()
            invariant
                t <= rv.len(),
                rv.len() == refs@.len(),
                rv == refs_view(refs@),
                self@.wf(),
                refs_resolved(self@.artists, rv),
                ai < self@.albums.len(),
                self@.albums == old(self)@.albums,
                self@.artist_list == old(self)@.artist_list,
                self@.album_list == old(self)@.album_list,
                artist_entries(self@.artists) == artist_entries(old(self)@.artists),
                link_new_v(self@.artists, ai as int, rv.skip(t as int)) == goal,
            decreases rv.len() - t,
        {
            let ghost pre = self@;
            proof {
                assert(rv.skip(t as int)[0] == rv[t as int]);
                assert(rv.skip(t as int).drop_first() =~= rv.skip(t as int + 1));
                assert(rv[t as int] == refs@[t as int]@);
            }
            let j = match self.find_artist_idx(&refs[t].unique_name) {
                Some(j) => j,
                None => {
                    proof {
                        assert(has_key(artist_entries(self@.artists), rv[t as int].unique_name));
                        assert(rv[t as int].unique_name == refs@[t as int].unique_name@);
                        assert(false);
                    }
                    0
                },
            };
            let already = vec_contains(&self.artists[j].albums, ai);
            if !already {
                self.artists[j].albums.push(ai);
            }
            proof {
                let es = artist_entries(pre.artists);
                lemma_idx_of_unique(es, rv[t as int].unique_name, j as int);
                assert(self@.artists[j as int] =~= artist_add_album(
                    pre.artists[j as int],
                    ai as int,
                ));
                assert(self@.artists =~~= pre.artists.update(
                    j as int,
                    artist_add_album(pre.artists[j as int], ai as int),
                ));
                assert(artist_entries(self@.artists) =~= artist_entries(pre.artists));
                assert(self@.wf()) by {
                    let cur = self@;
                    assert forall|a: int| 0 <= a < cur.artists.len() implies (
                    #[trigger] cur.artists[a]).albums_wf(cur.albums.len() as int) by {
                        assert(pre.artists[a].albums_wf(pre.albums.len() as int));
                    }
                }
            }
            t = t + 1;
        }
        proof {
            assert(rv.skip(rv.len() as int) =~= Seq::<RefV>::empty());
        }
    }
}

/// A copy of an optional string whose view is the same.
pub(crate) fn clone_opt_string(o: &Option<String>) -> (r: Option<String>)
    ensures
        opt_view(r) == opt_view(*o),
{
    match o {
        Some(s) => Some(s.clone()),
        None => None,
    }
}

/// A copy of a song whose view is the same.
pub(crate) fn clone_song(s: &Song) -> (c: Song)
    ensures
        c@ == s@,
{
    let c = Song {
        name: s.name.clone(),
        unique_name: s.unique_name.clone(),
        album: AlbumRef { name: s.album.name.clone(), unique_name: s.album.unique_name.clone() },
        artists: clone_refs(&s.artists),
        track: s.track,
        cover_url: clone_opt_string(&s.cover_url),
        url: s.url.clone(),
        path: s.path.clone(),
    };
    proof {
        assert(c@ =~~= s@);
    }
    c
}

/// Some name entry holds this song key.
pub open spec fn has_name_entry(by: Seq<(Seq<char>, int)>, key: Seq<char>) -> bool {
    exists|e: int| 0 <= e < by.len() && by[e].0 == key
}

/// The position of the name entry holding this song key.
pub open spec fn name_entry_at(by: Seq<(Seq<char>, int)>, key: Seq<char>) -> int {
    choose|e: int| 0 <= e < by.len() && by[e].0 == key
}

/// Points a song key at an arena position: the last writer wins, a fresh key
/// is appended.
pub open spec fn upsert_by_name(by: Seq<(Seq<char>, int)>, key: Seq<char>, i: int) -> Seq<
    (Seq<char>, int),
> {
    if has_name_entry(by, key) {
        by.update(name_entry_at(by, key), (key, i))
    } else {
        by.push((key, i))
    }
}

/// What placing a fully resolved song into its album does: the song learns
/// the album's current cover and joins the arena; a tracked song lands in
/// slot `track - 1`, growing the slots as needed and marking the album
/// tracked, an untracked song is appended after all slots; either way the
/// song is reachable under its key.
pub open spec fn place_song_v(album: AlbumV, song: SongV) -> AlbumV {
    let nsong = SongV { cover_url: album.cover_url, ..song };
    let ai = album.song_arena.len() as int;
    let arena2 = album.song_arena.push(nsong);
    let by2 = upsert_by_name(album.songs_by_name, song.unique_name, ai);
    match song.track {
        Some(t) => {
            let grown = if album.slots.len() < t as int {
                album.slots + Seq::new((t as int - album.slots.len()) as nat, |x: int| None::<int>)
            } else {
                album.slots
            };
            AlbumV {
                song_arena: arena2,
                slots: grown.update(t as int - 1, Some(ai)),
                songs_by_name: by2,
                has_tracks: true,
                ..album
            }
        },
        None => AlbumV {
            song_arena: arena2,
            slots: album.slots.push(Some(ai)),
            songs_by_name: by2,
            ..album
        },
    }
}

/// Resolves a list of artist references in order, inserting each display
/// name and keying the reference by what the insertion handed back.
pub open spec fn resolve_artists_v(artists: Seq<ArtistV>, refs: Seq<RefV>) -> (Seq<ArtistV>, Seq<
    RefV,
>)
    decreases refs.len(),
{
    if refs.len() == 0 {
        (artists, Seq::empty())
    } else {
        let (a1, key) = insert_artist_v(artists, refs[0].name);
        let (a2, rest) = resolve_artists_v(a1, refs.drop_first());
        (a2, seq![RefV { name: refs[0].name, unique_name: key }] + rest)
    }
}

/// What inserting a song does: its artists are resolved, its album is
/// resolved or created under the song's directory, the song takes the
/// album's key and cover, and is placed by track number.
pub open spec fn insert_song_v(ix: IndexV, song: SongV) -> (IndexV, int) {
    let (artists2, refs) = resolve_artists_v(ix.artists, song.artists);
    let ix1 = IndexV { artists: artists2, ..ix };
    let (ix2, ai) = insert_album_v(ix1, song.album.name, refs, crate::urls::parent_of(song.path));
    let album = ix2.albums[ai];
    let song2 = SongV {
        album: RefV { name: song.album.name, unique_name: album.unique_name },
        artists: refs,
        ..song
    };
    (IndexV { albums: ix2.albums.update(ai, place_song_v(album, song2)), ..ix2 }, ai)
}

/// After an insertion the returned key is in, and every key that was in
/// stays in.
proof fn lemma_insert_artist_has(artists: Seq<ArtistV>, name: Seq<char>)
    ensures
        has_key(artist_entries(insert_artist_v(artists, name).0), insert_artist_v(artists, name).1),
        forall|k: Seq<char>|
            has_key(artist_entries(artists), k) ==> has_key(
                artist_entries(#[trigger] insert_artist_v(artists, name).0),
                k,
            ),
{
    let es = artist_entries(artists);
    let key = key_at(slug_of(name), probe_k(es, name));
    if has_key(es, key) {
    } else {
        let a2 = insert_artist_v(artists, name).0;
        let es2 = artist_entries(a2);
        assert(es2.len() == es.len() + 1);
        assert(es2[es.len() as int].0 == key);
        assert(has_key(es2, key));
        assert forall|k: Seq<char>| has_key(es, k) implies has_key(es2, k) by {
            let i = choose|i: int| 0 <= i < es.len() && es[i].0 == k;
            assert(es2[i].0 == k);
        }
    }
}

/// The position of the name entry holding this song key, if any.
fn find_name_entry(album: &Album, key: &String) -> (r: Option<usize>)
    ensures
        match r {
            Some(e) => e < album.songs_by_name.len() && album@.songs_by_name[e as int].0 == key@
                && (forall|x: int| 0 <= x < e ==> album@.songs_by_name[x].0 != key@),
            None => !has_name_entry(album@.songs_by_name, key@),
        },
{
    let mut e: usize = 0;
    while e < album.songs_by_name.len()
        invariant
            e <= album.songs_by_name@.len(),
            forall|x: int| 0 <= x < e ==> album@.songs_by_name[x].0 != key@,
        decreases album.songs_by_name@.len() - e,
    {
        if str_eq(album.songs_by_name[e].0.as_str(), key.as_str()) {
            proof {
                assert(album@.songs_by_name[e as int].0 == key@);
            }
            return Some(e);
        }
        e = e + 1;
    }
    proof {
        assert forall|x: int|
            0 <= x < album@.songs_by_name.len() implies (#[trigger] album@.songs_by_name[x]).0
            != key@ by {}
    }
    None
}

impl Index {
    /// Inserts a song: resolves its artists, resolves or creates its album
    /// from the song's directory, copies the album's cover onto the song and
    /// places it by track number. Returns the album's position.
    pub fn insert_song(&mut self, song: Song) -> (ai: usize)
        requires
            old(self)@.wf(),
            song@.track matches Some(t) ==> t >= 1,
        ensures
            final(self)@.wf(),
            final(self)@ == insert_song_v(old(self)@, song@).0,
            ai as int == insert_song_v(old(self)@, song@).1,
            ai < final(self)@.albums.len(),
            final(self)@.artist_list == old(self)@.artist_list,
            final(self)@.album_list == old(self)@.album_list,
    {
        let ghost song0 = song@;
        let ghost rv0 = refs_view(song.artists@);
        let ghost resolved_pair = resolve_artists_v(old(self)@.artists, rv0);
        let mut song = song;
        let mut resolved: Vec<ArtistRef> = Vec::new();
        let mut t: usize = 0;
        proof {
            assert(rv0.skip(0) =~= rv0);
            assert(refs_view(resolved@) =~= Seq::<RefV>::empty());
        }
        while t < song.artists.len()
            invariant
                t <= song.artists@.len(),
                rv0 == refs_view(song.artists@),
                self@.wf(),
                self@.albums == old(self)@.albums,
                self@.artist_list == old(self)@.artist_list,
                self@.album_list == old(self)@.album_list,
                resolved@.len() == t,
                refs_resolved(self@.artists, refs_view(resolved@)),
                resolve_artists_v(self@.artists, rv0.skip(t as int)).0 == resolved_pair.0,
                refs_view(resolved@) + resolve_artists_v(self@.artists, rv0.skip(t as int)).1
                    == resolved_pair.1,
            decreases song.artists@.len() - t,
        {
            let ghost pre = self@.artists;
            let ghost res0 = resolved@;
            proof {
                assert(rv0.skip(t as int)[0] == rv0[t as int]);
                assert(rv0.skip(t as int).drop_first() =~= rv0.skip(t as int + 1));
                assert(rv0[t as int] == song.artists@[t as int]@);
            }
            let key = self.get_or_insert_artist(&song.artists[t].name);
            resolved.push(ArtistRef { name: song.artists[t].name.clone(), unique_name: key });
            proof {
                lemma_insert_artist_has(pre, rv0[t as int].name);
                let stepped = insert_artist_v(pre, rv0[t as int].name);
                let newref = RefV { name: rv0[t as int].name, unique_name: stepped.1 };
                assert(self@.artists == stepped.0);
                assert(refs_view(resolved@) =~= refs_view(res0).push(newref));
                let tail = resolve_artists_v(self@.artists, rv0.skip(t as int + 1)).1;
                assert(refs_view(res0) + (seq![newref] + tail) =~= refs_view(res0).push(newref)
                    + tail);
                assert(refs_resolved(self@.artists, refs_view(resolved@))) by {
                    assert forall|x: int|
                        0 <= x < refs_view(resolved@).len() implies has_key(
                        artist_entries(self@.artists),
                        (#[trigger] refs_view(resolved@)[x]).unique_name,
                    ) by {
                        if x < res0.len() {
                            assert(refs_view(resolved@)[x] == refs_view(res0)[x]);
                            assert(has_key(
                                artist_entries(pre),
                                refs_view(res0)[x].unique_name,
                            ));
                        } else {
                            assert(refs_view(resolved@)[x] == newref);
                        }
                    }
                }
            }
            t = t + 1;
        }
        proof {
            assert(rv0.skip(rv0.len() as int) =~= Seq::<RefV>::empty());
            assert(refs_view(resolved@) + Seq::<RefV>::empty() =~= refs_view(resolved@));
            assert(refs_view(resolved@) == resolved_pair.1);
            assert(self@.artists == resolved_pair.0);
        }
        song.artists = resolved;
        let parent = crate::urls::parent_dir(song.path.as_str());
        let ghost ix1 = IndexV { artists: resolved_pair.0, ..old(self)@ };
        proof {
            assert(self@ =~~= ix1);
        }
        let ai = self.get_or_insert_album(&song.album.name, &song.artists, parent);
        let ghost ix2 = insert_album_v(
            ix1,
            song0.album.name,
            resolved_pair.1,
            crate::urls::parent_of(song0.path),
        ).0;
        proof {
            assert(self@ == ix2);
        }
        let ghost albv = self@.albums[ai as int];
        let mut alb = self.albums.remove(ai);
        proof {
            assert(alb@ == albv);
        }
        song.album.unique_name = alb.unique_name.clone();
        song.cover_url = match &alb.cover_url {
            Some(u) => Some(u.clone()),
            None => None,
        };
        let ghost song2 = SongV {
            album: RefV { name: song0.album.name, unique_name: albv.unique_name },
            artists: resolved_pair.1,
            ..song0
        };
        proof {
            assert(song@ =~~= SongV { cover_url: albv.cover_url, ..song2 });
        }
        let sname = song.unique_name.clone();
        let entry = find_name_entry(&alb, &sname);
        let arena_idx = alb.song_arena.len();
        let track = song.track;
        alb.song_arena.push(song);
        proof {
            assert(alb@.song_arena =~= albv.song_arena.push(
                SongV { cover_url: albv.cover_url, ..song2 },
            ));
        }
        match track {
            Some(tr) => {
                alb.has_tracks = true;
                let tr_us = tr as usize;
                let ghost grown = if albv.slots.len() < tr as int {
                    albv.slots + Seq::new(
                        (tr as int - albv.slots.len()) as nat,
                        |x: int| None::<int>,
                    )
                } else {
                    albv.slots
                };
                if alb.slots.len() < tr_us {
                    while alb.slots.len() < tr_us
                        invariant
                            tr_us as int == tr as int,
                            albv.slots.len() <= alb@.slots.len() <= tr as int,
                            alb@.slots =~= albv.slots + Seq::new(
                                (alb@.slots.len() - albv.slots.len()) as nat,
                                |x: int| None::<int>,
                            ),
                            alb@.song_arena == albv.song_arena.push(
                                SongV { cover_url: albv.cover_url, ..song2 },
                            ),
                            alb@.songs_by_name == albv.songs_by_name,
                            alb@.name == albv.name,
                            alb@.unique_name == albv.unique_name,
                            alb@.artists == albv.artists,
                            alb@.cover_url == albv.cover_url,
                            alb@.cover_rating == albv.cover_rating,
                            alb@.has_tracks == true,
                            alb@.path == albv.path,
                        decreases tr_us - alb.slots@.len(),
                    {
                        let ghost sl0 = alb@.slots;
                        alb.slots.push(None);
                        proof {
                            assert(alb@.slots =~= sl0.push(None::<int>));
                            let delta = (sl0.len() + 1 - albv.slots.len()) as nat;
                            assert forall|x: int|
                                0 <= x < alb@.slots.len() implies alb@.slots[x] == (albv.slots
                                + Seq::new(delta, |y: int| None::<int>))[x] by {
                                if x < albv.slots.len() {
                                    assert(sl0[x] == albv.slots[x]);
                                } else if x < sl0.len() {
                                    assert(sl0[x] == None::<int>);
                                }
                            }
                            assert(alb@.slots =~= albv.slots + Seq::new(
                                delta,
                                |y: int| None::<int>,
                            ));
                            assert(alb@.slots =~= albv.slots + Seq::new(
                                (alb@.slots.len() - albv.slots.len()) as nat,
                                |y: int| None::<int>,
                            ));
                        }
                    }
                }
                proof {
                    assert(alb@.slots =~= grown);
                }
                alb.slots[tr_us - 1] = Some(arena_idx);
            },
            None => {
                alb.slots.push(Some(arena_idx));
            },
        }
        match entry {
            Some(e) => {
                alb.songs_by_name[e] = (sname, arena_idx);
                proof {
                    assert(name_entry_at(albv.songs_by_name, song2.unique_name) == e as int) by {
                        assert(albv.songs_by_name[e as int].0 == song2.unique_name);
                        let w = name_entry_at(albv.songs_by_name, song2.unique_name);
                        assert(has_name_entry(albv.songs_by_name, song2.unique_name));
                        assert(0 <= w < albv.songs_by_name.len() && albv.songs_by_name[w].0
                            == song2.unique_name);
                        if w != e as int {
                            assert(false);
                        }
                    }
                }
            },
            None => {
                alb.songs_by_name.push((sname, arena_idx));
            },
        }
        proof {
            let placed = place_song_v(albv, song2);
            assert(alb@.songs_by_name =~= placed.songs_by_name);
            assert(alb@.song_arena =~= placed.song_arena);
            assert(alb@.slots =~= placed.slots);
            assert(alb@ =~~= placed);
        }
        self.albums.insert(ai, alb);
        proof {
            assert(self@.albums =~= ix2.albums.update(ai as int, place_song_v(albv, song2)));
            assert(self@ =~~= insert_song_v(old(self)@, song0).0);
            assert(self@.wf()) by {
                let cur = self@;
                assert(ix2.wf());
                assert(cur.artists == ix2.artists);
                assert(album_entries(cur.albums) =~= album_entries(ix2.albums));
                assert(unique_keys(album_entries(cur.albums)));
                assert forall|b: int| 0 <= b < cur.albums.len() implies (
                #[trigger] cur.albums[b]).wf() by {
                    assert(ix2.albums[b].wf());
                    if b == ai as int {
                        lemma_place_song_wf(albv, song2);
                        assert(cur.albums[b] == place_song_v(albv, song2));
                    } else {
                        assert(cur.albums[b] == ix2.albums[b]);
                    }
                }
                assert forall|a: int| 0 <= a < cur.artists.len() implies (
                #[trigger] cur.artists[a]).albums_wf(cur.albums.len() as int) by {
                    assert(ix2.artists[a].albums_wf(ix2.albums.len() as int));
                }
            }
        }
        ai
    }
}

/// Placing a song keeps an album well formed.
proof fn lemma_place_song_wf(album: AlbumV, song: SongV)
    requires
        album.wf(),
        song.track matches Some(t) ==> t >= 1,
    ensures
        place_song_v(album, song).wf(),
{
    let placed = place_song_v(album, song);
    let nsong = SongV { cover_url: album.cover_url, ..song };
    let ai = album.song_arena.len() as int;
    let by2 = upsert_by_name(album.songs_by_name, song.unique_name, ai);
    assert forall|e1: int, e2: int| 0 <= e1 < e2 < by2.len() implies (#[trigger] by2[e1]).0 != (
    #[trigger] by2[e2]).0 by {
        if has_name_entry(album.songs_by_name, song.unique_name) {
            let w = name_entry_at(album.songs_by_name, song.unique_name);
            assert(album.songs_by_name[e1].0 != album.songs_by_name[e2].0);
        } else {
            if e2 < by2.len() - 1 || has_name_entry(album.songs_by_name, song.unique_name) {
                assert(album.songs_by_name[e1].0 != album.songs_by_name[e2].0);
            } else {
                assert(by2[e2].0 == song.unique_name);
                assert(by2[e1].0 == album.songs_by_name[e1].0);
                assert(!has_name_entry(album.songs_by_name, song.unique_name));
            }
        }
    }
    assert forall|e: int| 0 <= e < by2.len() implies 0 <= (#[trigger] by2[e]).1
        < placed.song_arena.len() && by2[e].0 == placed.song_arena[by2[e].1].unique_name by {
        if has_name_entry(album.songs_by_name, song.unique_name) {
            let w = name_entry_at(album.songs_by_name, song.unique_name);
            if e != w {
                assert(album.songs_by_name[e] == by2[e]);
            }
        } else {
            if e < by2.len() - 1 {
                assert(album.songs_by_name[e] == by2[e]);
            }
        }
    }
    match song.track {
        Some(t) => {
            let grown = if album.slots.len() < t as int {
                album.slots + Seq::new((t as int - album.slots.len()) as nat, |x: int| None::<int>)
            } else {
                album.slots
            };
            assert forall|y: int|
                0 <= y < placed.slots.len() implies (#[trigger] placed.slots[y] matches Some(i)
                ==> 0 <= i < placed.song_arena.len() && placed.song_arena[i].cover_url
                    == placed.cover_url) by {
                if y != t as int - 1 {
                    if y < album.slots.len() {
                        assert(grown[y] == album.slots[y]);
                        assert(album.slots[y] matches Some(i) ==> 0 <= i
                            < album.song_arena.len());
                    } else {
                        assert(grown[y] is None);
                    }
                }
            }
        },
        None => {
            assert forall|y: int|
                0 <= y < placed.slots.len() implies (#[trigger] placed.slots[y] matches Some(i)
                ==> 0 <= i < placed.song_arena.len() && placed.song_arena[i].cover_url
                    == placed.cover_url) by {
                if y < album.slots.len() {
                    assert(album.slots[y] matches Some(i) ==> 0 <= i < album.song_arena.len());
                }
            }
        },
    }
}

} // verus!
