//! The read-only views the API serves: plain projections of songs, albums
//! and artists, and the lookups by key. A lookup miss is a distinct
//! no-such-resource condition, signalled by `None`.
use vstd::prelude::*;

use crate::catalog::album_entries;
use crate::catalog::artist_entries;
use crate::catalog::clone_opt_string;
use crate::catalog::clone_refs;
use crate::catalog::refs_view;
use crate::catalog::Album;
use crate::catalog::AlbumRef;
use crate::catalog::AlbumV;
use crate::catalog::Artist;
use crate::catalog::ArtistRef;
use crate::catalog::ArtistV;
use crate::catalog::Index;
use crate::catalog::IndexV;
use crate::catalog::RefV;
use crate::catalog::Song;
use crate::catalog::SongRef;
use crate::catalog::SongV;
use crate::probe::has_key;
use crate::probe::idx_of;
use crate::probe::lemma_idx_of_unique;
use crate::strs::opt_view;
use crate::strs::str_eq;

verus! {

/// A song as the API serves it.
#[derive(Debug)]
pub struct SongJson {
    pub name: String,
    pub unique_name: String,
    pub album: AlbumRef,
    pub artists: Vec<ArtistRef>,
    pub track: Option<u32>,
    pub cover_url: Option<String>,
    pub url: String,
}

/// The ghost view of a served song.
#[verifier::ext_equal]
pub struct SongJsonV {
    pub name: Seq<char>,
    pub unique_name: Seq<char>,
    pub album: RefV,
    pub artists: Seq<RefV>,
    pub track: Option<u32>,
    pub cover_url: Option<Seq<char>>,
    pub url: Seq<char>,
}

impl View for SongJson {
    type V = SongJsonV;

    open spec fn view(&self) -> SongJsonV {
        SongJsonV {
            name: self.name@,
            unique_name: self.unique_name@,
            album: self.album@,
            artists: refs_view(self.artists@),
            track: self.track,
            cover_url: opt_view(self.cover_url),
            url: self.url@,
        }
    }
}

/// What a song projects to: everything but its file path.
pub open spec fn song_json_of(s: SongV) -> SongJsonV {
    SongJsonV {
        name: s.name,
        unique_name: s.unique_name,
        album: s.album,
        artists: s.artists,
        track: s.track,
        cover_url: s.cover_url,
        url: s.url,
    }
}

impl SongJson {
    /// Projects a song for serving, leaving its file path behind.
    pub fn from_song(song: &Song) -> (r: SongJson)
        ensures
            r@ == song_json_of(song@),
    {
        let r = SongJson {
            name: song.name.clone(),
            unique_name: song.unique_name.clone(),
            album: AlbumRef {
                name: song.album.name.clone(),
                unique_name: song.album.unique_name.clone(),
            },
            artists: clone_refs(&song.artists),
            track: song.track,
            cover_url: clone_opt_string(&song.cover_url),
            url: song.url.clone(),
        };
        proof {
            assert(r@ =~~= song_json_of(song@));
        }
        r
    }
}

/// An album as the API serves it: its slots become optional song references.
#[derive(Debug)]
pub struct AlbumJson {
    pub name: String,
    pub unique_name: String,
    pub artists: Vec<ArtistRef>,
    pub songs: Vec<Option<SongRef>>,
    pub cover_url: Option<String>,
    pub has_tracks: bool,
}

/// The ghost view of a served album.
#[verifier::ext_equal]
pub struct AlbumJsonV {
    pub name: Seq<char>,
    pub unique_name: Seq<char>,
    pub artists: Seq<RefV>,
    pub songs: Seq<Option<RefV>>,
    pub cover_url: Option<Seq<char>>,
    pub has_tracks: bool,
}

impl View for AlbumJson {
    type V = AlbumJsonV;

    open spec fn view(&self) -> AlbumJsonV {
        AlbumJsonV {
            name: self.name@,
            unique_name: self.unique_name@,
            artists: refs_view(self.artists@),
            songs: self.songs@.map_values(
                |o: Option<SongRef>|
                    match o {
                        Some(r) => Some(r@),
                        None => None,
                    },
            ),
            cover_url: opt_view(self.cover_url),
            has_tracks: self.has_tracks,
        }
    }
}

/// What an album projects to: each slot hands out its song's name and key.
pub open spec fn album_json_of(a: AlbumV) -> AlbumJsonV {
    AlbumJsonV {
        name: a.name,
        unique_name: a.unique_name,
        artists: a.artists,
        songs: a.slots.map_values(
            |o: Option<int>|
                match o {
                    Some(i) => if 0 <= i < a.song_arena.len() {
                        Some(
                            RefV {
                                name: a.song_arena[i].name,
                                unique_name: a.song_arena[i].unique_name,
                            },
                        )
                    } else {
                        None
                    },
                    None => None,
                },
        ),
        cover_url: a.cover_url,
        has_tracks: a.has_tracks,
    }
}

impl AlbumJson {
    /// Projects an album for serving.
    pub fn from_album(album: &Album) -> (r: AlbumJson)
        requires
            album@.wf(),
        ensures
            r@ == album_json_of(album@),
    {
        let ghost av = album@;
        let mut songs: Vec<Option<SongRef>> = Vec::new();
        let mut y: usize = 0;
        while y < album.slots.len()
            invariant
                y <= av.slots.len(),
                av == album@,
                av.wf(),
                songs@.len() == y,
                forall|z: int|
                    0 <= z < y ==> (match #[trigger] songs@[z] {
                        Some(r) => av.slots[z] matches Some(i) && 0 <= i < av.song_arena.len()
                            && r@ == (RefV {
                            name: av.song_arena[i].name,
                            unique_name: av.song_arena[i].unique_name,
                        }),
                        None => av.slots[z] is None,
                    }),
            decreases av.slots.len() - y,
        {
            match album.slots[y] {
                Some(i) => {
                    proof {
                        assert(av.slots[y as int] matches Some(ii) ==> 0 <= ii
                            < av.song_arena.len());
                    }
                    songs.push(
                        Some(
                            SongRef {
                                name: album.song_arena[i].name.clone(),
                                unique_name: album.song_arena[i].unique_name.clone(),
                            },
                        ),
                    );
                },
                None => {
                    songs.push(None);
                },
            }
            y = y + 1;
        }
        let r = AlbumJson {
            name: album.name.clone(),
            unique_name: album.unique_name.clone(),
            artists: clone_refs(&album.artists),
            songs: songs,
            cover_url: clone_opt_string(&album.cover_url),
            has_tracks: album.has_tracks,
        };
        proof {
            assert(r@.songs =~= album_json_of(av).songs);
            assert(r@ =~~= album_json_of(av));
        }
        r
    }
}

/// An artist as the API serves it: its album back-references become album
/// references.
#[derive(Debug)]
pub struct ArtistJson {
    pub name: String,
    pub unique_name: String,
    pub albums: Vec<AlbumRef>,
    pub cover_url: Option<String>,
}

/// The ghost view of a served artist.
#[verifier::ext_equal]
pub struct ArtistJsonV {
    pub name: Seq<char>,
    pub unique_name: Seq<char>,
    pub albums: Seq<RefV>,
    pub cover_url: Option<Seq<char>>,
}

impl View for ArtistJson {
    type V = ArtistJsonV;

    open spec fn view(&self) -> ArtistJsonV {
        ArtistJsonV {
            name: self.name@,
            unique_name: self.unique_name@,
            albums: self.albums@.map_values(|r: AlbumRef| r@),
            cover_url: opt_view(self.cover_url),
        }
    }
}

/// What an artist projects to, given the catalog's albums: each back-reference
/// hands out its album's name and key.
pub open spec fn artist_json_of(a: ArtistV, albums: Seq<AlbumV>) -> ArtistJsonV {
    ArtistJsonV {
        name: a.name,
        unique_name: a.unique_name,
        albums: a.albums.map_values(
            |i: int|
                if 0 <= i < albums.len() {
                    RefV { name: albums[i].name, unique_name: albums[i].unique_name }
                } else {
                    RefV { name: Seq::empty(), unique_name: Seq::empty() }
                },
        ),
        cover_url: a.cover_url,
    }
}

impl ArtistJson {
    /// Projects an artist for serving, resolving its album back-references
    /// against the catalog.
    pub fn from_artist(artist: &Artist, index: &Index) -> (r: ArtistJson)
        requires
            artist@.albums_wf(index@.albums.len() as int),
        ensures
            r@ == artist_json_of(artist@, index@.albums),
    {
        let ghost av = artist@;
        let mut albums: Vec<AlbumRef> = Vec::new();
        let mut x: usize = 0;
        while x < artist.albums.len()
            invariant
                x <= av.albums.len(),
                av == artist@,
                av.albums_wf(index@.albums.len() as int),
                albums@.len() == x,
                forall|z: int|
                    0 <= z < x ==> (#[trigger] albums@[z])@ == (RefV {
                        name: index@.albums[av.albums[z]].name,
                        unique_name: index@.albums[av.albums[z]].unique_name,
                    }),
            decreases av.albums.len() - x,
        {
            let i = artist.albums[x];
            proof {
                assert(av.albums[x as int] == i as int);
                assert(0 <= av.albums[x as int] < index@.albums.len());
            }
            albums.push(
                AlbumRef {
                    name: index.albums[i].name.clone(),
                    unique_name: index.albums[i].unique_name.clone(),
                },
            );
            x = x + 1;
        }
        let r = ArtistJson {
            name: artist.name.clone(),
            unique_name: artist.unique_name.clone(),
            albums: albums,
            cover_url: clone_opt_string(&artist.cover_url),
        };
        proof {
            assert(r@.albums =~= artist_json_of(av, index@.albums).albums);
            assert(r@ =~~= artist_json_of(av, index@.albums));
        }
        r
    }
}

impl IndexV {
    /// Every listed position points into its arena.
    pub open spec fn lists_wf(self) -> bool {
        &&& forall|p: int|
            0 <= p < self.artist_list.len() ==> 0 <= #[trigger] self.artist_list[p]
                < self.artists.len()
        &&& forall|p: int|
            0 <= p < self.album_list.len() ==> 0 <= #[trigger] self.album_list[p]
                < self.albums.len()
    }
}

impl Index {
    /// Serves all albums, in listing order.
    pub fn get_albums(&self) -> (r: Vec<AlbumJson>)
        requires
            self@.wf(),
            self@.lists_wf(),
        ensures
            r@.len() == self@.album_list.len(),
            forall|p: int|
                0 <= p < r@.len() ==> (#[trigger] r@[p])@ == album_json_of(
                    self@.albums[self@.album_list[p]],
                ),
    {
        let mut r: Vec<AlbumJson> = Vec::new();
        let mut p: usize = 0;
        while p < self.album_list.len()
            invariant
                p <= self@.album_list.len(),
                self@.wf(),
                self@.lists_wf(),
                r@.len() == p,
                forall|q: int|
                    0 <= q < p ==> (#[trigger] r@[q])@ == album_json_of(
                        self@.albums[self@.album_list[q]],
                    ),
            decreases self@.album_list.len() - p,
        {
            let b = self.album_list[p];
            proof {
                assert(self@.album_list[p as int] == b as int);
                assert(self@.albums[b as int].wf());
            }
            r.push(AlbumJson::from_album(&self.albums[b]));
            p = p + 1;
        }
        r
    }

    /// Serves all artists, in listing order.
    pub fn get_artists(&self) -> (r: Vec<ArtistJson>)
        requires
            self@.wf(),
            self@.lists_wf(),
        ensures
            r@.len() == self@.artist_list.len(),
            forall|p: int|
                0 <= p < r@.len() ==> (#[trigger] r@[p])@ == artist_json_of(
                    self@.artists[self@.artist_list[p]],
                    self@.albums,
                ),
    {
        let mut r: Vec<ArtistJson> = Vec::new();
        let mut p: usize = 0;
        while p < self.artist_list.len()
            invariant
                p <= self@.artist_list.len(),
                self@.wf(),
                self@.lists_wf(),
                r@.len() == p,
                forall|q: int|
                    0 <= q < p ==> (#[trigger] r@[q])@ == artist_json_of(
                        self@.artists[self@.artist_list[q]],
                        self@.albums,
                    ),
            decreases self@.artist_list.len() - p,
        {
            let a = self.artist_list[p];
            proof {
                assert(self@.artist_list[p as int] == a as int);
                assert(self@.artists[a as int].albums_wf(self@.albums.len() as int));
            }
            r.push(ArtistJson::from_artist(&self.artists[a], self));
            p = p + 1;
        }
        r
    }

    /// Serves one album by key, or the no-such-resource answer.
    pub fn get_album(&self, album_name: &String) -> (r: Option<AlbumJson>)
        requires
            self@.wf(),
        ensures
            r is Some <==> has_key(album_entries(self@.albums), album_name@),
            r matches Some(a) ==> a@ == album_json_of(
                self@.albums[idx_of(album_entries(self@.albums), album_name@)],
            ),
    {
        match self.find_album_position(album_name) {
            Some(i) => {
                proof {
                    lemma_idx_of_unique(album_entries(self@.albums), album_name@, i as int);
                    assert(self@.albums[i as int].wf());
                }
                Some(AlbumJson::from_album(&self.albums[i]))
            },
            None => None,
        }
    }

    /// Serves one artist by key, or the no-such-resource answer.
    pub fn get_artist(&self, artist_name: &String) -> (r: Option<ArtistJson>)
        requires
            self@.wf(),
        ensures
            r is Some <==> has_key(artist_entries(self@.artists), artist_name@),
            r matches Some(a) ==> a@ == artist_json_of(
                self@.artists[idx_of(artist_entries(self@.artists), artist_name@)],
                self@.albums,
            ),
    {
        let mut i: usize = 0;
        while i < self.artists.len()
            invariant
                i <= self.artists.len(),
                self@.wf(),
                forall|j: int| 0 <= j < i ==> self@.artists[j].unique_name != artist_name@,
            decreases self.artists.len() - i,
        {
            if str_eq(self.artists[i].unique_name.as_str(), artist_name.as_str()) {
                proof {
                    assert(artist_entries(self@.artists)[i as int].0 == artist_name@);
                    assert(has_key(artist_entries(self@.artists), artist_name@));
                    lemma_idx_of_unique(artist_entries(self@.artists), artist_name@, i as int);
                    assert(self@.artists[i as int].albums_wf(self@.albums.len() as int));
                }
                return Some(ArtistJson::from_artist(&self.artists[i], self));
            }
            i = i + 1;
        }
        proof {
            assert forall|j: int|
                0 <= j < artist_entries(self@.artists).len() implies #[trigger] artist_entries(
                self@.artists,
            )[j].0 != artist_name@ by {
                assert(self@.artists[j].unique_name != artist_name@);
            }
        }
        None
    }

    /// Serves one song by album key and song key, or the no-such-resource
    /// answer.
    pub fn get_song(&self, album_name: &String, song_name: &String) -> (r: Option<SongJson>)
        requires
            self@.wf(),
        ensures
            r is Some <==> (has_key(album_entries(self@.albums), album_name@)
                && crate::catalog::has_name_entry(
                self@.albums[idx_of(album_entries(self@.albums), album_name@)].songs_by_name,
                song_name@,
            )),
            r matches Some(s) ==> ({
                let album = self@.albums[idx_of(album_entries(self@.albums), album_name@)];
                s@ == song_json_of(
                    album.song_arena[album.songs_by_name[crate::catalog::name_entry_at(
                        album.songs_by_name,
                        song_name@,
                    )].1],
                )
            }),
    {
        let ai = match self.find_album_position(album_name) {
            Some(i) => i,
            None => {
                return None;
            },
        };
        proof {
            lemma_idx_of_unique(album_entries(self@.albums), album_name@, ai as int);
            assert(self@.albums[ai as int].wf());
        }
        let ghost av = self@.albums[ai as int];
        let album = &self.albums[ai];
        let mut e: usize = 0;
        while e < album.songs_by_name.len()
            invariant
                e <= av.songs_by_name.len(),
                av == album@,
                av.wf(),
                has_key(album_entries(self@.albums), album_name@),
                av == self@.albums[idx_of(album_entries(self@.albums), album_name@)],
                forall|x: int| 0 <= x < e ==> av.songs_by_name[x].0 != song_name@,
            decreases av.songs_by_name.len() - e,
        {
            if str_eq(album.songs_by_name[e].0.as_str(), song_name.as_str()) {
                proof {
                    assert(av.songs_by_name[e as int].0 == song_name@);
                    assert(crate::catalog::has_name_entry(av.songs_by_name, song_name@));
                    assert(crate::catalog::name_entry_at(av.songs_by_name, song_name@)
                        == e as int) by {
                        let w = crate::catalog::name_entry_at(av.songs_by_name, song_name@);
                        assert(0 <= w < av.songs_by_name.len() && av.songs_by_name[w].0
                            == song_name@);
                        if w != e as int {
                            assert(false);
                        }
                    }
                    assert(0 <= av.songs_by_name[e as int].1 < av.song_arena.len());
                }
                let si = album.songs_by_name[e].1;
                return Some(SongJson::from_song(&album.song_arena[si]));
            }
            e = e + 1;
        }
        proof {
            assert(!crate::catalog::has_name_entry(av.songs_by_name, song_name@));
        }
        None
    }
}

} // verus!
