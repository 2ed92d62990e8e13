//! The single pass over the directory tree. The walker classifies each path
//! against the configured pattern sets and threads a small state through the
//! visits: covers seen before any song of their directory wait in a buffer
//! that is flushed onto the album of the next song from that directory, and
//! a cover seen after a song of its directory goes straight onto that song's
//! album.
use vstd::prelude::*;

use crate::catalog::album_entries;
use crate::catalog::insert_song_v;
use crate::catalog::AlbumV;
use crate::catalog::Index;
use crate::catalog::IndexV;
use crate::catalog::Song;
use crate::catalog::SongV;
use crate::cover::cover_outcome;
use crate::error::Error;
use crate::probe::has_key;
use crate::probe::idx_of;
use crate::probe::lemma_idx_of_unique;
use crate::strs::opt_view;
use crate::urls::parent_dir;
use crate::urls::parent_of;
use crate::urls::paths_eq;
use regex::RegexSet;

verus! {

#[verifier::external_type_specification]
#[verifier::external_body]
pub struct ExRegexSet(RegexSet);

/// The patterns a compiled set holds: what `regex_set_new` put in, carried
/// opaquely by the `RegexSet` value.
pub uninterp spec fn patterns_of(set: RegexSet) -> Seq<Seq<char>>;

/// Whether these patterns compile at all; building a set succeeds exactly
/// when they do, and compilation depends on the pattern texts alone.
pub uninterp spec fn patterns_compile(patterns: Seq<Seq<char>>) -> bool;

/// Whether any of these patterns matches the path. Regex matching is a
/// function of the pattern texts and the path alone; which paths match is
/// the patterns' affair, so the answer carries a name and nothing more.
pub uninterp spec fn set_match(patterns: Seq<Seq<char>>, path: Seq<char>) -> bool;

/// Relies on `regex::RegexSet::new`: compiles a set of patterns, holding
/// exactly them, or reports why one of them does not compile; compilation
/// depends on the pattern texts alone.
#[verifier::external_body]
pub(crate) fn regex_set_new(patterns: &Vec<String>) -> (r: Result<RegexSet, Error>)
    ensures
        r matches Ok(s) ==> patterns_of(s) == patterns@.map_values(|p: String| p@),
        r is Ok <==> patterns_compile(patterns@.map_values(|p: String| p@)),
        r matches Err(e) ==> e matches Error::ConfigLoadError { .. },
{
    match RegexSet::new(patterns.iter()) {
        Ok(s) => Ok(s),
        Err(e) => Err(Error::ConfigLoadError { msg: e.to_string() }),
    }
}

/// Relies on `regex::RegexSet::is_match`: whether any pattern of the set
/// matches the path, a function of the set's patterns and the path alone.
#[verifier::external_body]
pub(crate) fn regex_set_matches(set: &RegexSet, s: &str) -> (r: bool)
    ensures
        r == set_match(patterns_of(*set), s@),
{
    set.is_match(s)
}

/// What a visited path is taken for.
#[derive(Debug, PartialEq, Eq, Structural, Clone, Copy)]
pub enum PathClass {
    Media,
    Cover,
    Other,
}

/// How the four match answers classify a path: a media match not excluded is
/// media; else a cover match not excluded is a cover; else the path is
/// skipped.
pub open spec fn classify_v(mi: bool, me: bool, ci: bool, ce: bool) -> PathClass {
    if mi && !me {
        PathClass::Media
    } else if ci && !ce {
        PathClass::Cover
    } else {
        PathClass::Other
    }
}

/// Decides a path's class from the four match answers.
pub fn classify_flags(mi: bool, me: bool, ci: bool, ce: bool) -> (r: PathClass)
    ensures
        r == classify_v(mi, me, ci, ce),
{
    if mi && !me {
        PathClass::Media
    } else if ci && !ce {
        PathClass::Cover
    } else {
        PathClass::Other
    }
}

/// The state threaded through the walk.
pub struct WalkState {
    pub previous_parent: Option<String>,
    pub previous_song_parent: Option<String>,
    pub previous_album: Option<String>,
    pub found_covers: Vec<String>,
}

impl WalkState {
    /// The buffered cover paths.
    pub open spec fn covers(self) -> Seq<Seq<char>> {
        self.found_covers@.map_values(|p: String| p@)
    }

    /// When a song's directory is remembered, so is its album, and that album
    /// is in the catalog.
    pub open spec fn valid(self, ix: IndexV) -> bool {
        self.previous_song_parent is Some ==> (opt_view(self.previous_album) matches Some(key)
            && has_key(album_entries(ix.albums), key))
    }

    /// A fresh walk: nothing seen yet.
    pub fn new() -> (s: WalkState)
        ensures
            s.previous_parent is None,
            s.previous_song_parent is None,
            s.previous_album is None,
            s.covers() == Seq::<Seq<char>>::empty(),
    {
        let s = WalkState {
            previous_parent: None,
            previous_song_parent: None,
            previous_album: None,
            found_covers: Vec::new(),
        };
        proof {
            assert(s.covers() =~= Seq::<Seq<char>>::empty());
        }
        s
    }

    /// Steps into a visited path: a change of directory empties the cover
    /// buffer, since a loose cover only ever belongs to an album whose songs
    /// live beside it.
    pub fn enter(&mut self, path: &str)
        ensures
            opt_view(final(self).previous_parent) == Some(parent_of(path@)),
            final(self).previous_song_parent == old(self).previous_song_parent,
            final(self).previous_album == old(self).previous_album,
            final(self).covers() == (if opt_view(old(self).previous_parent) == Some(
                parent_of(path@),
            ) {
                old(self).covers()
            } else {
                Seq::<Seq<char>>::empty()
            }),
    {
        let parent = parent_dir(path);
        let parent_opt = Some(parent);
        if !paths_eq(&self.previous_parent, &parent_opt) {
            self.found_covers.clear();
            proof {
                assert(self.covers() =~= Seq::<Seq<char>>::empty());
            }
        }
        self.previous_parent = parent_opt;
    }
}

/// What flushing buffered covers onto an album does: each cover is offered in
/// the order found, stopping at the first that errs.
pub open spec fn flush_covers_v(
    album: AlbumV,
    covers: Seq<Seq<char>>,
    base: Seq<char>,
    files_url: Seq<char>,
) -> (AlbumV, bool)
    decreases covers.len(),
{
    if covers.len() == 0 {
        (album, true)
    } else {
        let step = cover_outcome(album, covers[0], base, files_url);
        if step.1 {
            flush_covers_v(step.0, covers.drop_first(), base, files_url)
        } else {
            (step.0, false)
        }
    }
}

/// What visiting a media file does: the song is inserted, then every
/// buffered cover is offered to its album, in the order found.
pub open spec fn visit_media_v(
    ix: IndexV,
    covers: Seq<Seq<char>>,
    song: SongV,
    base: Seq<char>,
    files_url: Seq<char>,
) -> (IndexV, int, bool) {
    let (ix1, ai) = insert_song_v(ix, song);
    let flushed = flush_covers_v(ix1.albums[ai], covers, base, files_url);
    (IndexV { albums: ix1.albums.update(ai, flushed.0), ..ix1 }, ai, flushed.1)
}

impl Index {
    /// Visits a media file: inserts its song, remembers its directory and
    /// album, and flushes the buffered covers onto that album.
    pub fn visit_media(
        &mut self,
        state: &mut WalkState,
        song: Song,
        base: &str,
        files_url: &str,
    ) -> (r: Result<(), Error>)
        requires
            old(self)@.wf(),
            song@.track matches Some(t) ==> t >= 1,
        ensures
            final(self)@.wf(),
            final(self)@ == visit_media_v(
                old(self)@,
                old(state).covers(),
                song@,
                base@,
                files_url@,
            ).0,
            r is Ok <==> visit_media_v(old(self)@, old(state).covers(), song@, base@, files_url@).2,
            final(state).covers() == Seq::<Seq<char>>::empty(),
            opt_view(final(state).previous_song_parent) == Some(parent_of(song@.path)),
            opt_view(final(state).previous_album) == Some(
                final(self)@.albums[visit_media_v(
                    old(self)@,
                    old(state).covers(),
                    song@,
                    base@,
                    files_url@,
                ).1].unique_name,
            ),
            final(state).previous_parent == old(state).previous_parent,
            final(state).valid(final(self)@),
            final(self)@.artist_list == old(self)@.artist_list,
            final(self)@.album_list == old(self)@.album_list,
            r matches Err(e) ==> e matches Error::IndexingError { .. },
    {
        let ghost songv = song@;
        let ghost cv = old(state).covers();
        let parent = parent_dir(song.path.as_str());
        let ai = self.insert_song(song);
        let ghost ix1 = insert_song_v(old(self)@, songv).0;
        let ghost alb_start = ix1.albums[ai as int];
        state.previous_song_parent = Some(parent);
        state.previous_album = Some(self.albums[ai].unique_name.clone());
        let mut covers: Vec<String> = Vec::new();
        core::mem::swap(&mut covers, &mut state.found_covers);
        proof {
            assert(state.covers() =~= Seq::<Seq<char>>::empty());
            assert(covers@.map_values(|p: String| p@) == cv);
            assert(self@.albums =~= ix1.albums.update(ai as int, alb_start));
            assert(cv.skip(0) =~= cv);
            assert(album_entries(self@.albums)[ai as int].0 == alb_start.unique_name);
            assert(has_key(album_entries(self@.albums), alb_start.unique_name));
        }
        let mut t: usize = 0;
        while t < covers.len()
            invariant
                t <= cv.len(),
                cv == covers@.map_values(|p: String| p@),
                cv.len() == covers@.len(),
                self@.wf(),
                ai < self@.albums.len(),
                ai < ix1.albums.len(),
                visit_media_v(old(self)@, old(state).covers(), songv, base@, files_url@)
                    == visit_media_v(old(self)@, cv, songv, base@, files_url@),
                songv == song@,
                ix1 == insert_song_v(old(self)@, songv).0,
                ai as int == insert_song_v(old(self)@, songv).1,
                alb_start == ix1.albums[ai as int],
                self@.albums == ix1.albums.update(ai as int, self@.albums[ai as int]),
                self@.artists == ix1.artists,
                self@.artist_list == ix1.artist_list,
                self@.album_list == ix1.album_list,
                self@.albums[ai as int].unique_name == alb_start.unique_name,
                has_key(album_entries(self@.albums), alb_start.unique_name),
                state.covers() == Seq::<Seq<char>>::empty(),
                opt_view(state.previous_song_parent) == Some(parent_of(songv.path)),
                opt_view(state.previous_album) == Some(alb_start.unique_name),
                state.previous_parent == old(state).previous_parent,
                self@.artist_list == old(self)@.artist_list,
                self@.album_list == old(self)@.album_list,
                flush_covers_v(self@.albums[ai as int], cv.skip(t as int), base@, files_url@)
                    == flush_covers_v(alb_start, cv, base@, files_url@),
            decreases cv.len() - t,
        {
            let ghost albcur = self@.albums[ai as int];
            proof {
                assert(cv.skip(t as int)[0] == cv[t as int]);
                assert(cv.skip(t as int).drop_first() =~= cv.skip(t as int + 1));
                assert(cv[t as int] == covers@[t as int]@);
            }
            let res = self.insert_cover_at(ai, covers[t].as_str(), base, files_url);
            proof {
                assert(self@.albums =~= ix1.albums.update(ai as int, self@.albums[ai as int]));
                assert(self@.albums[ai as int].unique_name == albcur.unique_name);
                assert(album_entries(self@.albums)[ai as int].0 == alb_start.unique_name);
                assert(has_key(album_entries(self@.albums), alb_start.unique_name));
            }
            match res {
                Ok(_) => {},
                Err(e) => {
                    proof {
                        let step = cover_outcome(albcur, cv[t as int], base@, files_url@);
                        assert(!step.1);
                        assert(step.0 == albcur);
                        assert(self@.albums[ai as int] == albcur);
                        assert(flush_covers_v(albcur, cv.skip(t as int), base@, files_url@) == (
                        albcur,
                        false,
                        ));
                        assert(self@ =~~= visit_media_v(old(self)@, cv, songv, base@, files_url@).0);
                    }
                    return Err(e);
                },
            }
            t = t + 1;
        }
        proof {
            assert(cv.skip(cv.len() as int) =~= Seq::<Seq<char>>::empty());
            assert(flush_covers_v(self@.albums[ai as int], cv.skip(cv.len() as int), base@, files_url@)
                == (self@.albums[ai as int], true));
            assert(self@ =~~= visit_media_v(old(self)@, cv, songv, base@, files_url@).0);
        }
        Ok(())
    }

    /// Visits a cover file: a cover lying beside the songs of the album seen
    /// last goes straight onto that album; any other cover waits in the
    /// buffer for a song of its own directory.
    pub fn visit_cover(
        &mut self,
        state: &mut WalkState,
        path: &String,
        base: &str,
        files_url: &str,
    ) -> (r: Result<(), Error>)
        requires
            old(self)@.wf(),
            old(state).valid(old(self)@),
        ensures
            final(self)@.wf(),
            final(state).valid(final(self)@),
            final(state).previous_parent == old(state).previous_parent,
            final(state).previous_song_parent == old(state).previous_song_parent,
            final(state).previous_album == old(state).previous_album,
            ({
                let same = opt_view(old(state).previous_song_parent) == Some(parent_of(path@));
                if same {
                    let key = opt_view(old(state).previous_album).unwrap();
                    let ai = idx_of(album_entries(old(self)@.albums), key);
                    &&& final(self)@.albums == old(self)@.albums.update(
                        ai,
                        cover_outcome(old(self)@.albums[ai], path@, base@, files_url@).0,
                    )
                    &&& final(self)@.artists == old(self)@.artists
                    &&& final(self)@.artist_list == old(self)@.artist_list
                    &&& final(self)@.album_list == old(self)@.album_list
                    &&& final(state).covers() == old(state).covers()
                    &&& (r is Ok <==> cover_outcome(
                        old(self)@.albums[ai],
                        path@,
                        base@,
                        files_url@,
                    ).1)
                } else {
                    &&& final(self)@ == old(self)@
                    &&& final(state).covers() == old(state).covers().push(path@)
                    &&& r is Ok
                }
            }),
    {
        let parent = parent_dir(path.as_str());
        let parent_opt = Some(parent);
        if paths_eq(&state.previous_song_parent, &parent_opt) {
            let key = match &state.previous_album {
                Some(k) => k.clone(),
                None => {
                    proof {
                        assert(false);
                    }
                    String::new()
                },
            };
            let ai = match self.find_album_position(&key) {
                Some(ai) => ai,
                None => {
                    proof {
                        assert(false);
                    }
                    0
                },
            };
            proof {
                lemma_idx_of_unique(album_entries(self@.albums), key@, ai as int);
            }
            let r = self.insert_cover_at(ai, path.as_str(), base, files_url);
            proof {
                assert(album_entries(self@.albums) =~= album_entries(old(self)@.albums));
            }
            r
        } else {
            self.found_covers_push(state, path)
        }
    }

    /// Buffers one cover path.
    fn found_covers_push(&mut self, state: &mut WalkState, path: &String) -> (r: Result<(), Error>)
        ensures
            *final(self) == *old(self),
            final(state).previous_parent == old(state).previous_parent,
            final(state).previous_song_parent == old(state).previous_song_parent,
            final(state).previous_album == old(state).previous_album,
            final(state).covers() == old(state).covers().push(path@),
            r is Ok,
    {
        state.found_covers.push(path.clone());
        proof {
            assert(final(state).covers() =~= old(state).covers().push(path@));
        }
        Ok(())
    }

}

} // verus!
