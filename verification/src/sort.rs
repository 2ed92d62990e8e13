//! The deterministic listing order: after a build, artists and albums are
//! listed as index lists sorted by their keys.
use vstd::prelude::*;

use crate::catalog::AlbumV;
use crate::catalog::ArtistV;
use crate::catalog::Index;
use crate::strs::lemma_str_le_total;
use crate::strs::lemma_str_le_trans;
use crate::strs::str_le;
use crate::strs::str_le_spec;
use vstd::set_lib::lemma_int_range;
use vstd::set_lib::lemma_len_subset;
use vstd::set_lib::lemma_subset_equality;
use vstd::set_lib::set_int_range;

verus! {

/// `list` lists each position of `keys` exactly once, ordered by key.
pub open spec fn sorted_by_keys(list: Seq<int>, keys: Seq<Seq<char>>) -> bool {
    &&& list.len() == keys.len()
    &&& forall|p: int| 0 <= p < list.len() ==> 0 <= #[trigger] list[p] < keys.len()
    &&& list.no_duplicates()
    &&& forall|p: int, q: int|
        0 <= p < q < list.len() ==> str_le_spec(keys[list[p]], keys[list[q]])
}

/// The keys of the artists, in arena order.
pub open spec fn artist_keys(artists: Seq<ArtistV>) -> Seq<Seq<char>> {
    artists.map_values(|a: ArtistV| a.unique_name)
}

/// The keys of the albums, in arena order.
pub open spec fn album_keys(albums: Seq<AlbumV>) -> Seq<Seq<char>> {
    albums.map_values(|a: AlbumV| a.unique_name)
}

/// A sorted index list lists every position.
pub proof fn lemma_sorted_lists_all(list: Seq<int>, keys: Seq<Seq<char>>)
    requires
        sorted_by_keys(list, keys),
    ensures
        forall|i: int| 0 <= i < keys.len() ==> list.contains(i),
{
    let range = set_int_range(0, keys.len() as int);
    lemma_int_range(0, keys.len() as int);
    list.unique_seq_to_set();
    assert(list.to_set().subset_of(range)) by {
        assert forall|x: int| list.to_set().contains(x) implies range.contains(x) by {
            let p = choose|p: int| 0 <= p < list.len() && list[p] == x;
            assert(0 <= list[p] < keys.len());
        }
    }
    lemma_len_subset(list.to_set(), range);
    lemma_subset_equality(list.to_set(), range);
    assert forall|i: int| 0 <= i < keys.len() implies list.contains(i) by {
        assert(range.contains(i));
        assert(list.to_set().contains(i));
    }
}

/// Sorts the positions of `keys` by key, stably from the left.
fn sort_keys(keys: &Vec<String>) -> (r: Vec<usize>)
    ensures
        sorted_by_keys(
            r@.map_values(|i: usize| i as int),
            keys@.map_values(|k: String| k@),
        ),
{
    let ghost kv = keys@.map_values(|k: String| k@);
    let mut r: Vec<usize> = Vec::new();
    let mut i: usize = 0;
    while i < keys.len()
        invariant
            i <= keys@.len(),
            kv == keys@.map_values(|k: String| k@),
            kv.len() == keys@.len(),
            r@.len() == i,
            forall|p: int| 0 <= p < r@.len() ==> (#[trigger] r@[p]) < i,
            r@.map_values(|x: usize| x as int).no_duplicates(),
            forall|p: int, q: int|
                0 <= p < q < r@.len() ==> str_le_spec(kv[r@[p] as int], kv[r@[q] as int]),
        decreases keys@.len() - i,
    {
        let ghost r0 = r@;
        let mut p: usize = 0;
        while p < r.len() && str_le(keys[r[p]].as_str(), keys[i].as_str())
            invariant
                r@ == r0,
                i < kv.len(),
                kv == keys@.map_values(|k: String| k@),
                kv.len() == keys@.len(),
                p <= r@.len(),
                forall|q: int| 0 <= q < r@.len() ==> (#[trigger] r@[q]) < i,
                forall|q: int| 0 <= q < p ==> str_le_spec(kv[r@[q] as int], kv[i as int]),
            decreases r@.len() - p,
        {
            p = p + 1;
        }
        proof {
            if p < r@.len() {
                lemma_str_le_total(kv[r@[p as int] as int], kv[i as int]);
            }
        }
        r.insert(p, i);
        proof {
            assert(r@ =~= r0.insert(p as int, i));
            let m = r@.map_values(|x: usize| x as int);
            let m0 = r0.map_values(|x: usize| x as int);
            assert(m.no_duplicates()) by {
                assert forall|a: int, b: int| 0 <= a < b < m.len() implies m[a] != m[b] by {
                    if a != p && b != p {
                        let a0 = if a < p {
                            a
                        } else {
                            a - 1
                        };
                        let b0 = if b < p {
                            b
                        } else {
                            b - 1
                        };
                        assert(m[a] == m0[a0] && m[b] == m0[b0]);
                        assert(m0[a0] != m0[b0]);
                    } else {
                        assert(r0[if a == p {
                            b - 1
                        } else {
                            a
                        }] < i);
                    }
                }
            }
            assert forall|a: int, b: int|
                0 <= a < b < r@.len() implies str_le_spec(
                kv[r@[a] as int],
                kv[r@[b] as int],
            ) by {
                if a != p && b != p {
                    let a0 = if a < p {
                        a
                    } else {
                        a - 1
                    };
                    let b0 = if b < p {
                        b
                    } else {
                        b - 1
                    };
                    assert(r@[a] == r0[a0] && r@[b] == r0[b0]);
                } else if a == p {
                    let b0 = b - 1;
                    assert(r@[b] == r0[b0]);
                    if p < r0.len() {
                        assert(str_le_spec(kv[i as int], kv[r0[p as int] as int]));
                        if b0 > p {
                            lemma_str_le_trans(
                                kv[i as int],
                                kv[r0[p as int] as int],
                                kv[r0[b0] as int],
                            );
                        }
                    }
                } else {
                    assert(r@[a] == r0[a as int]);
                    assert(str_le_spec(kv[r0[a as int] as int], kv[i as int]));
                }
            }
        }
        i = i + 1;
    }
    r
}

impl Index {
    /// Freezes the listing order: fills the artist and album lists with every
    /// catalog position, sorted by key. The entities themselves are untouched.
    pub fn finish(&mut self)
        requires
            old(self)@.wf(),
        ensures
            final(self)@.wf(),
            final(self)@.artists == old(self)@.artists,
            final(self)@.albums == old(self)@.albums,
            sorted_by_keys(final(self)@.artist_list, artist_keys(final(self)@.artists)),
            sorted_by_keys(final(self)@.album_list, album_keys(final(self)@.albums)),
    {
        let mut artist_names: Vec<String> = Vec::new();
        let mut i: usize = 0;
        while i < self.artists.len()
            invariant
                *self == *old(self),
                i <= self.artists@.len(),
                artist_names@.len() == i,
                forall|j: int| 0 <= j < i ==> (#[trigger] artist_names@[j])@ == self@.artists[
                    j].unique_name,
            decreases self.artists@.len() - i,
        {
            artist_names.push(self.artists[i].unique_name.clone());
            i = i + 1;
        }
        proof {
            assert(artist_names@.map_values(|k: String| k@) =~= artist_keys(self@.artists));
        }
        let sorted_artists = sort_keys(&artist_names);
        self.artist_list = sorted_artists;
        let mut album_names: Vec<String> = Vec::new();
        let mut b: usize = 0;
        while b < self.albums.len()
            invariant
                self.artists == old(self).artists,
                self.albums == old(self).albums,
                b <= self.albums@.len(),
                album_names@.len() == b,
                forall|j: int| 0 <= j < b ==> (#[trigger] album_names@[j])@ == self@.albums[
                    j].unique_name,
            decreases self.albums@.len() - b,
        {
            album_names.push(self.albums[b].unique_name.clone());
            b = b + 1;
        }
        proof {
            assert(album_names@.map_values(|k: String| k@) =~= album_keys(self@.albums));
        }
        let sorted_albums = sort_keys(&album_names);
        self.album_list = sorted_albums;
        proof {
            assert(self@.artists =~= old(self)@.artists);
            assert(self@.albums =~= old(self)@.albums);
        }
    }
}

} // verus!
