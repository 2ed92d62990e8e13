//! Album covers: rating candidate files by name, attaching the best-rated
//! cover with write-through to every slotted song, and repairing the row
//! padding of a decoded video frame used as a fallback cover.
use vstd::prelude::*;

use crate::catalog::Album;
use crate::catalog::AlbumV;
use crate::catalog::Index;
use crate::catalog::SongV;
use crate::error::Error;
use crate::strs::has_substring;
use crate::strs::opt_view;
use crate::strs::contains_sub;
use crate::urls::file_name;
use crate::urls::file_name_of;
use crate::urls::find_url;
use crate::urls::strip_base;
use crate::urls::url_of;
use vstd::string::StringExecFns;

verus! {

/// How fit a candidate file is as a cover, judged by its file name alone:
/// one for being there, one hundred more for saying `cover`, twenty more for
/// saying `small`.
pub open spec fn rate_of(file: Seq<char>) -> int {
    1 + (if has_substring(file, "cover"@) {
        100int
    } else {
        0int
    }) + (if has_substring(file, "small"@) {
        20int
    } else {
        0int
    })
}

/// Some slot points at arena position `i`.
pub open spec fn slot_points(slots: Seq<Option<int>>, i: int) -> bool {
    exists|y: int| 0 <= y < slots.len() && slots[y] == Some(i)
}

/// What attaching a rated cover does: a strictly better rating replaces the
/// album's cover and rewrites the cover of every slotted song; anything else
/// changes nothing.
pub open spec fn insert_cover_v(album: AlbumV, url: Seq<char>, rating: u32) -> AlbumV {
    if rating > album.cover_rating {
        AlbumV {
            cover_url: Some(url),
            cover_rating: rating,
            song_arena: Seq::new(
                album.song_arena.len(),
                |i: int|
                    if slot_points(album.slots, i) {
                        SongV { cover_url: Some(url), ..album.song_arena[i] }
                    } else {
                        album.song_arena[i]
                    },
            ),
            ..album
        }
    } else {
        album
    }
}

/// What offering a cover file to an album does, and whether it goes through:
/// a path with no file name, or one outside the base directory whose rating
/// would have won, is an error that leaves the album alone; a rating that
/// does not beat the current one is accepted and changes nothing.
pub open spec fn cover_outcome(
    album: AlbumV,
    path: Seq<char>,
    base: Seq<char>,
    files_url: Seq<char>,
) -> (AlbumV, bool) {
    if file_name_of(path).len() == 0 {
        (album, false)
    } else {
        let rating = rate_of(file_name_of(path));
        if rating > album.cover_rating {
            match strip_base(path, base) {
                None => (album, false),
                Some(rest) => (insert_cover_v(album, url_of(files_url, rest), rating as u32), true),
            }
        } else {
            (album, true)
        }
    }
}

impl Index {
    /// Rates a candidate cover file by its file name; a path with no file
    /// name is an indexing error.
    pub fn rate_cover(path: &str) -> (r: Result<u32, Error>)
        ensures
            r is Ok <==> file_name_of(path@).len() > 0,
            r matches Ok(v) ==> v as int == rate_of(file_name_of(path@)),
            r matches Err(e) ==> e matches Error::IndexingError { path: p, what } && opt_view(p)
                == Some(path@) && what@ == "rating cover"@,
    {
        let name = file_name(path);
        if name.as_str().unicode_len() == 0 {
            return Err(
                Error::IndexingError {
                    path: Some(String::from_str(path)),
                    what: String::from_str("rating cover"),
                },
            );
        }
        let mut v: u32 = 1;
        if contains_sub(name.as_str(), "cover") {
            v = v + 100;
        }
        if contains_sub(name.as_str(), "small") {
            v = v + 20;
        }
        Ok(v)
    }

    /// Offers a cover file to an album: rates it, and when it strictly beats
    /// the current cover, stores its web address and rewrites every slotted
    /// song's cover.
    pub fn insert_cover(album: &mut Album, path: &str, base: &str, files_url: &str) -> (r: Result<
        (),
        Error,
    >)
        requires
            old(album)@.wf(),
        ensures
            final(album)@.wf(),
            final(album)@ == cover_outcome(old(album)@, path@, base@, files_url@).0,
            r is Ok <==> cover_outcome(old(album)@, path@, base@, files_url@).1,
            r matches Err(e) ==> e matches Error::IndexingError { path: p, what: _ } && opt_view(p)
                == Some(path@),
    {
        let ghost alb0 = old(album)@;
        let rating = match Index::rate_cover(path) {
            Ok(v) => v,
            Err(e) => {
                return Err(e);
            },
        };
        if rating > album.cover_rating {
            let url = match find_url(path, base, files_url) {
                Ok(u) => u,
                Err(e) => {
                    return Err(e);
                },
            };
            let ghost urlv = url@;
            album.cover_url = Some(url.clone());
            album.cover_rating = rating;
            let ghost slots0 = album@.slots;
            let ghost arena0 = album@.song_arena;
            let mut y: usize = 0;
            while y < album.slots.len()
                invariant
                    y <= slots0.len(),
                    url@ == urlv,
                    album@.slots == slots0,
                    album@.cover_url == Some(urlv),
                    album@.cover_rating == rating,
                    album@.name == alb0.name,
                    album@.unique_name == alb0.unique_name,
                    album@.artists == alb0.artists,
                    album@.songs_by_name == alb0.songs_by_name,
                    album@.has_tracks == alb0.has_tracks,
                    album@.path == alb0.path,
                    slots0 == alb0.slots,
                    arena0 == alb0.song_arena,
                    alb0.wf(),
                    album@.song_arena =~= Seq::new(
                        arena0.len(),
                        |i: int|
                            if points_upto(slots0, i, y as int) {
                                SongV { cover_url: Some(urlv), ..arena0[i] }
                            } else {
                                arena0[i]
                            },
                    ),
                decreases slots0.len() - y,
            {
                let ghost pre = album@.song_arena;
                match album.slots[y] {
                    Some(j) => {
                        proof {
                            assert(slots0[y as int] == Some(j as int));
                            assert(alb0.slots[y as int] matches Some(jj) ==> 0 <= jj
                                < alb0.song_arena.len());
                            assert(j < arena0.len());
                            assert(album@.song_arena.len() == arena0.len());
                            assert(album.song_arena@.len() == arena0.len());
                        }
                        let mut updated = crate::catalog::clone_song(&album.song_arena[j]);
                        updated.cover_url = Some(url.clone());
                        album.song_arena[j] = updated;
                        proof {
                            assert(album.song_arena@[j as int]@ =~~= SongV {
                                cover_url: Some(urlv),
                                ..pre[j as int]
                            });
                            assert(album@.song_arena =~~= pre.update(
                                j as int,
                                SongV { cover_url: Some(urlv), ..pre[j as int] },
                            ));
                            assert forall|i: int| 0 <= i < arena0.len() implies album@.song_arena[i]
                                == (if points_upto(slots0, i, y as int + 1) {
                                SongV { cover_url: Some(urlv), ..arena0[i] }
                            } else {
                                arena0[i]
                            }) by {
                                if i == j as int {
                                    assert(points_upto(slots0, i, y as int + 1));
                                } else {
                                    assert(points_upto(slots0, i, y as int + 1) == points_upto(
                                        slots0,
                                        i,
                                        y as int,
                                    ));
                                }
                            }
                        }
                    },
                    None => {
                        proof {
                            assert forall|i: int| 0 <= i < arena0.len() implies points_upto(
                                slots0,
                                i,
                                y as int + 1,
                            ) == points_upto(slots0, i, y as int) by {}
                            assert(album@.song_arena =~= Seq::new(
                                arena0.len(),
                                |i: int|
                                    if points_upto(slots0, i, y as int + 1) {
                                        SongV { cover_url: Some(urlv), ..arena0[i] }
                                    } else {
                                        arena0[i]
                                    },
                            ));
                        }
                    },
                }
                y = y + 1;
            }
            proof {
                assert forall|i: int| 0 <= i < arena0.len() implies points_upto(
                    slots0,
                    i,
                    slots0.len() as int,
                ) == slot_points(slots0, i) by {}
                assert(album@ =~~= insert_cover_v(alb0, urlv, rating));
                lemma_insert_cover_wf(alb0, urlv, rating);
            }
            Ok(())
        } else {
            proof {
                assert(rating as int == rate_of(file_name_of(path@)));
            }
            Ok(())
        }
    }

    /// Offers a cover file to the album at a catalog position.
    pub fn insert_cover_at(&mut self, ai: usize, path: &str, base: &str, files_url: &str) -> (r:
        Result<(), Error>)
        requires
            old(self)@.wf(),
            ai < old(self)@.albums.len(),
        ensures
            final(self)@.wf(),
            final(self)@.albums == old(self)@.albums.update(
                ai as int,
                cover_outcome(old(self)@.albums[ai as int], path@, base@, files_url@).0,
            ),
            final(self)@.artists == old(self)@.artists,
            final(self)@.artist_list == old(self)@.artist_list,
            final(self)@.album_list == old(self)@.album_list,
            r is Ok <==> cover_outcome(old(self)@.albums[ai as int], path@, base@, files_url@).1,
            r matches Err(e) ==> e matches Error::IndexingError { path: p, what: _ } && opt_view(p)
                == Some(path@),
    {
        let ghost albv = self@.albums[ai as int];
        let mut alb = self.albums.remove(ai);
        let r = Index::insert_cover(&mut alb, path, base, files_url);
        self.albums.insert(ai, alb);
        proof {
            let outcome = cover_outcome(albv, path@, base@, files_url@).0;
            assert(self@.albums =~= old(self)@.albums.update(ai as int, outcome));
            assert(self@.wf()) by {
                let cur = self@;
                assert(crate::catalog::album_entries(cur.albums) =~= crate::catalog::album_entries(
                    old(self)@.albums,
                ));
                assert forall|b: int| 0 <= b < cur.albums.len() implies (
                #[trigger] cur.albums[b]).wf() by {
                    assert(old(self)@.albums[b].wf());
                    if b != ai as int {
                        assert(cur.albums[b] == old(self)@.albums[b]);
                    }
                }
                assert forall|a: int| 0 <= a < cur.artists.len() implies (
                #[trigger] cur.artists[a]).albums_wf(cur.albums.len() as int) by {
                    assert(old(self)@.artists[a].albums_wf(old(self)@.albums.len() as int));
                }
            }
        }
        r
    }

    /// The paths of an album's slotted songs, in slot order.
    pub fn album_song_paths(&self, ai: usize) -> (r: Vec<String>)
        requires
            self@.wf(),
            ai < self@.albums.len(),
        ensures
            r@.map_values(|p: String| p@) == slot_paths(
                self@.albums[ai as int].slots,
                self@.albums[ai as int].song_arena,
            ),
    {
        let ghost albv = self@.albums[ai as int];
        let album = &self.albums[ai];
        let mut r: Vec<String> = Vec::new();
        let ghost goal = slot_paths(albv.slots, albv.song_arena);
        let mut y: usize = 0;
        proof {
            assert(albv.slots.skip(0) =~= albv.slots);
            assert(r@.map_values(|p: String| p@) =~= Seq::<Seq<char>>::empty());
        }
        while y < album.slots.len()
            invariant
                y <= albv.slots.len(),
                albv == self@.albums[ai as int],
                ai < self@.albums.len(),
                album == &self.albums[ai as int],
                albv.wf(),
                r@.map_values(|p: String| p@) + slot_paths(
                    albv.slots.skip(y as int),
                    albv.song_arena,
                ) == goal,
            decreases albv.slots.len() - y,
        {
            let ghost rs0 = r@;
            proof {
                assert(albv.slots.skip(y as int)[0] == albv.slots[y as int]);
                assert(albv.slots.skip(y as int).drop_first() =~= albv.slots.skip(y as int + 1));
            }
            match album.slots[y] {
                Some(j) => {
                    proof {
                        assert(albv.slots[y as int] matches Some(jj) ==> 0 <= jj
                            < albv.song_arena.len());
                    }
                    r.push(album.song_arena[j].path.clone());
                    proof {
                        assert(r@.map_values(|p: String| p@) =~= rs0.map_values(
                            |p: String| p@,
                        ).push(albv.song_arena[j as int].path));
                        assert(rs0.map_values(|p: String| p@).push(
                            albv.song_arena[j as int].path,
                        ) + slot_paths(albv.slots.skip(y as int + 1), albv.song_arena)
                            =~= rs0.map_values(|p: String| p@) + (seq![
                            albv.song_arena[j as int].path,
                        ] + slot_paths(albv.slots.skip(y as int + 1), albv.song_arena)));
                    }
                },
                None => {
                },
            }
            y = y + 1;
        }
        proof {
            assert(albv.slots.skip(albv.slots.len() as int) =~= Seq::<Option<int>>::empty());
            assert(r@.map_values(|p: String| p@) + Seq::<Seq<char>>::empty() =~= r@.map_values(
                |p: String| p@,
            ));
        }
        r
    }

    /// Whether the album at a catalog position still lacks a cover.
    pub fn album_cover_missing(&self, ai: usize) -> (r: bool)
        requires
            ai < self@.albums.len(),
        ensures
            r == (self@.albums[ai as int].cover_url is None),
    {
        match &self.albums[ai].cover_url {
            Some(_) => false,
            None => true,
        }
    }
}

/// Some slot before position `y` points at arena position `i`.
pub open spec fn points_upto(slots: Seq<Option<int>>, i: int, y: int) -> bool {
    exists|z: int| 0 <= z < y && z < slots.len() && slots[z] == Some(i)
}

/// The paths of the slotted songs, in slot order.
pub open spec fn slot_paths(slots: Seq<Option<int>>, arena: Seq<SongV>) -> Seq<Seq<char>>
    decreases slots.len(),
{
    if slots.len() == 0 {
        Seq::empty()
    } else {
        let rest = slot_paths(slots.drop_first(), arena);
        match slots[0] {
            Some(i) => seq![arena[i].path] + rest,
            None => rest,
        }
    }
}

/// Attaching a cover keeps an album well formed.
pub proof fn lemma_insert_cover_wf(album: AlbumV, url: Seq<char>, rating: u32)
    requires
        album.wf(),
    ensures
        insert_cover_v(album, url, rating).wf(),
{
    let placed = insert_cover_v(album, url, rating);
    if rating > album.cover_rating {
        assert forall|e: int| 0 <= e < placed.songs_by_name.len() implies 0 <= (
        #[trigger] placed.songs_by_name[e]).1 < placed.song_arena.len()
            && placed.songs_by_name[e].0 == placed.song_arena[placed.songs_by_name[e].1].unique_name by {
            assert(album.songs_by_name[e].0 == album.song_arena[album.songs_by_name[e].1].unique_name);
        }
        assert forall|y: int|
            0 <= y < placed.slots.len() implies (#[trigger] placed.slots[y] matches Some(i) ==> 0
            <= i < placed.song_arena.len() && (0 <= i < placed.song_arena.len()
            ==> placed.song_arena[i].cover_url == placed.cover_url)) by {
            assert(album.slots[y] matches Some(i) ==> 0 <= i < album.song_arena.len());
            match placed.slots[y] {
                Some(i) => {
                    assert(slot_points(album.slots, i));
                },
                None => {},
            }
        }
    }
}

/// How much padding each pixel row of a decoded frame carries, in pixels.
pub open spec fn row_pad(len: int, width: int, height: int) -> int {
    if height > 0 {
        (len - 4 * width * height) / (4 * height)
    } else {
        0
    }
}

/// The frame's pixel bytes with the per-row padding stripped: byte `k` of
/// the result is byte `k % (4 * width)` of row `k / (4 * width)` of the
/// padded buffer.
pub open spec fn fitted(data: Seq<u8>, width: int, height: int) -> Seq<u8> {
    if width > 0 {
        let row = 4 * width;
        let stride = row + 4 * row_pad(data.len() as int, width, height);
        Seq::new((row * height) as nat, |k: int| data[(k / row) * stride + (k % row)])
    } else {
        Seq::empty()
    }
}

/// Strips the per-row padding from a decoded frame buffer: the buffer holds
/// `height` rows of `4 * width` pixel bytes each, the excess length spread
/// evenly over the rows as trailing padding; each row's pixel bytes are
/// copied and its padding dropped.
pub fn fit_frame(data: &Vec<u8>, width: u32, height: u32) -> (r: Vec<u8>)
    requires
        4 * (width as int) * (height as int) <= data@.len(),
        height == 0 ==> data@.len() == 0,
    ensures
        r@ == fitted(data@, width as int, height as int),
{
    let ghost len = data@.len() as int;
    let n = data.len();
    let w = width as usize;
    let h = height as usize;
    if h == 0 || w == 0 {
        let r: Vec<u8> = Vec::new();
        proof {
            if w == 0 {
                assert(fitted(data@, width as int, height as int) =~= Seq::<u8>::empty());
            } else {
                assert(data@.len() == 0);
                assert(4 * (width as int) * (height as int) == 0);
                assert(fitted(data@, width as int, height as int) =~= Seq::<u8>::empty());
            }
        }
        return r;
    }
    proof {
        assert(n == data@.len());
        assert(4 * (w as int) * (h as int) <= len);
        assert(4 * (w as int) <= 4 * (w as int) * (h as int)) by (nonlinear_arith)
            requires
                w >= 1,
                h >= 1,
        ;
    }
    let row = 4 * w;
    proof {
        assert(row as int * h as int == 4 * (w as int) * (h as int)) by (nonlinear_arith)
            requires
                row as int == 4 * (w as int),
        ;
    }
    let total = row * h;
    let extra = n - total;
    let eh = extra / h;
    let off = eh / 4;
    proof {
        vstd::arithmetic::div_mod::lemma_fundamental_div_mod(extra as int, h as int);
        vstd::arithmetic::div_mod::lemma_mod_bound(extra as int, h as int);
        vstd::arithmetic::div_mod::lemma_fundamental_div_mod(eh as int, 4int);
        vstd::arithmetic::div_mod::lemma_mod_bound(eh as int, 4int);
        assert(4 * (off as int) <= eh as int);
        assert(h as int * (extra as int / h as int) <= extra as int);
        assert(h as int * (4 * off as int) <= h as int * (eh as int)) by (nonlinear_arith)
            requires
                4 * (off as int) <= eh as int,
                h as int >= 1,
                off as int >= 0,
        ;
        assert(4 * (off as int) <= eh as int);
        assert(4 * off <= usize::MAX as int);
    }
    let stride = row + 4 * off;
    proof {
        assert(h as int * (stride as int) == h as int * (row as int) + h as int * (4
            * off as int)) by (nonlinear_arith)
            requires
                stride as int == row as int + 4 * (off as int),
        ;
        assert(h as int * (row as int) == total as int) by (nonlinear_arith)
            requires
                total as int == row as int * h as int,
        ;
        assert(h as int * stride as int <= len);
        vstd::arithmetic::div_mod::lemma_div_denominator(extra as int, h as int, 4int);
        assert(h as int * 4 == 4 * (h as int));
        assert(off as int == (extra as int) / (4 * h as int));
        assert(off as int == row_pad(len, width as int, height as int));
        assert(stride as int == 4 * (width as int) + 4 * row_pad(
            len,
            width as int,
            height as int,
        ));
    }
    let mut r: Vec<u8> = Vec::new();
    let mut y: usize = 0;
    while y < h
        invariant
            y <= h,
            h >= 1,
            w >= 1,
            row == 4 * w,
            data@.len() <= usize::MAX,
            h as int * stride as int <= data@.len(),
            row <= stride,
            r@.len() == y as int * row as int,
            forall|yy: int, x: int|
                0 <= yy < y && 0 <= x < row ==> #[trigger] r@[yy * row + x] == data@[yy
                    * stride + x],
        decreases h - y,
    {
        let mut x: usize = 0;
        proof {
            assert(y as int * stride as int + stride as int == (y as int + 1) * stride as int)
                by (nonlinear_arith);
            assert((y as int + 1) * stride as int <= h as int * stride as int)
                by (nonlinear_arith)
                requires
                    y as int + 1 <= h as int,
                    stride as int >= 0,
            ;
            assert(y as int * row as int + row as int == (y as int + 1) * row as int)
                by (nonlinear_arith);
            assert(y as int * stride as int >= 0) by (nonlinear_arith)
                requires
                    y as int >= 0,
                    stride as int >= 0,
            ;
            assert(y as int * row as int <= y as int * stride as int) by (nonlinear_arith)
                requires
                    y as int >= 0,
                    row as int <= stride as int,
            ;
        }
        while x < row
            invariant
                x <= row,
                y < h,
                row <= stride,
                row >= 1,
                data@.len() <= usize::MAX,
                h as int * stride as int <= data@.len(),
                y as int * stride as int + stride as int <= h as int * stride as int,
                y as int * stride as int >= 0,
                y as int * row as int >= 0,
                y as int * row as int <= y as int * stride as int,
                r@.len() == y as int * row as int + x as int,
                forall|yy: int, xx: int|
                    0 <= yy < y && 0 <= xx < row ==> #[trigger] r@[yy * row + xx] == data@[yy
                        * stride + xx],
                forall|xx: int|
                    0 <= xx < x ==> #[trigger] r@[y as int * row as int + xx] == data@[y as int
                        * stride as int + xx],
            decreases row - x,
        {
            let ghost rpre = r@;
            let b = data[y * stride + x];
            r.push(b);
            proof {
                assert forall|yy: int, xx: int|
                    0 <= yy < y && 0 <= xx < row implies #[trigger] r@[yy * row + xx] == data@[yy
                        * stride + xx] by {
                    assert(yy * row as int + xx < y as int * row as int) by (nonlinear_arith)
                        requires
                            0 <= yy <= y as int - 1,
                            0 <= xx < row as int,
                            row as int >= 1,
                    ;
                    assert(r@[yy * row + xx] == rpre[yy * row + xx]);
                }
            }
            x = x + 1;
        }
        y = y + 1;
    }
    proof {
        let rowi = row as int;
        let stridei = stride as int;
        let spec_r = fitted(data@, width as int, height as int);
        assert(r@.len() == spec_r.len()) by (nonlinear_arith)
            requires
                r@.len() == h as int * rowi,
                spec_r.len() == rowi * (height as int),
                h as int == height as int,
        ;
        assert forall|k: int| 0 <= k < r@.len() implies r@[k] == spec_r[k] by {
            let yy = k / rowi;
            let xx = k % rowi;
            vstd::arithmetic::div_mod::lemma_fundamental_div_mod(k, rowi);
            vstd::arithmetic::div_mod::lemma_mod_bound(k, rowi);
            assert(0 <= xx < rowi);
            assert(k == yy * rowi + xx);
            assert(0 <= yy < h as int) by (nonlinear_arith)
                requires
                    k == yy * rowi + xx,
                    0 <= k < h as int * rowi,
                    0 <= xx < rowi,
                    rowi >= 1,
            ;
            assert(r@[yy * rowi + xx] == data@[yy * stridei + xx]);
            assert(spec_r[k] == data@[(k / rowi) * stridei + (k % rowi)]);
        }
        assert(r@ =~= spec_r);
    }
    r
}

} // verus!
