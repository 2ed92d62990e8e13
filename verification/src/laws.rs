//! The catalog's standing laws, each proved once and for all over the
//! functional models that the mutating operations are specified by.
use vstd::prelude::*;

use crate::catalog::artist_entries;
use crate::catalog::insert_artist_v;
use crate::catalog::new_artist_v;
use crate::catalog::place_song_v;
use crate::catalog::AlbumV;
use crate::catalog::ArtistV;
use crate::catalog::SongV;
use crate::cover::cover_outcome;
use crate::cover::insert_cover_v;
use crate::cover::rate_of;
use crate::cover::slot_points;
use crate::probe::has_key;
use crate::probe::idx_of;
use crate::probe::lemma_idx_of_unique;
use crate::probe::lemma_probe_exists;
use crate::probe::lemma_probe_first_k;
use crate::probe::probe_first;
use crate::probe::probe_stop;
use crate::probe::unique_keys;
use crate::slug::key_at;
use crate::slug::slug_of;
use crate::urls::file_name_of;
use crate::urls::strip_base;
use crate::urls::url_of;

verus! {

/// Law: inserting the same artist display name twice yields one artist with
/// one key — the second insertion returns the same key and leaves the
/// catalog's artists exactly as the first insertion left them.
pub proof fn lemma_insert_artist_idempotent(artists: Seq<ArtistV>, name: Seq<char>)
    requires
        unique_keys(artist_entries(artists)),
    ensures
        insert_artist_v(insert_artist_v(artists, name).0, name).0 == insert_artist_v(
            artists,
            name,
        ).0,
        insert_artist_v(insert_artist_v(artists, name).0, name).1 == insert_artist_v(
            artists,
            name,
        ).1,
{
    let es0 = artist_entries(artists);
    lemma_probe_exists(es0, name);
    let k = choose|k: nat| #[trigger] probe_first(es0, name, k) && k <= es0.len();
    lemma_probe_first_k(es0, name, k);
    let key = key_at(slug_of(name), k);
    if has_key(es0, key) {
    } else {
        let a1 = artists.push(new_artist_v(name, key));
        assert(insert_artist_v(artists, name).0 == a1);
        let es1 = artist_entries(a1);
        assert(es1 =~= es0.push((key, name)));
        assert(unique_keys(es1)) by {
            assert forall|i: int, j: int|
                0 <= i < j < es1.len() implies #[trigger] es1[i].0 != #[trigger] es1[j].0 by {
                if j < es1.len() - 1 {
                    assert(es0[i].0 != es0[j].0);
                } else {
                    assert(es1[j].0 == key);
                    assert(es1[i].0 == es0[i].0);
                }
            }
        }
        assert(probe_stop(es1, name, k)) by {
            assert(es1[es0.len() as int].0 == key);
            assert(has_key(es1, key));
            lemma_idx_of_unique(es1, key, es0.len() as int);
            assert(es1[idx_of(es1, key)].1 == name);
        }
        assert forall|j: nat| j < k implies !probe_stop(es1, name, j) by {
            assert(!probe_stop(es0, name, j));
            let kj = key_at(slug_of(name), j);
            assert(has_key(es0, kj));
            let i0 = idx_of(es0, kj);
            assert(0 <= i0 < es0.len() && es0[i0].0 == kj);
            assert(kj != key);
            assert(es1[i0].0 == kj);
            assert(has_key(es1, kj));
            lemma_idx_of_unique(es1, kj, i0);
            assert(es1[idx_of(es1, kj)].1 == es0[i0].1);
            assert(es0[idx_of(es0, kj)].1 != name);
        }
        assert(probe_first(es1, name, k));
        lemma_probe_first_k(es1, name, k);
        assert(has_key(es1, key));
    }
}

/// Law: two songs without a track number, placed one after the other, land
/// after every existing slot, next to each other and in insertion order,
/// with everything that was in the album before them untouched.
pub proof fn lemma_untracked_append_order(album: AlbumV, s1: SongV, s2: SongV)
    requires
        s1.track is None,
        s2.track is None,
    ensures
        ({
            let a1 = place_song_v(album, s1);
            let a2 = place_song_v(a1, s2);
            let n = album.slots.len() as int;
            let m = album.song_arena.len() as int;
            &&& a2.slots.len() == n + 2
            &&& forall|y: int| 0 <= y < n ==> a2.slots[y] == album.slots[y]
            &&& a2.slots[n] == Some(m)
            &&& a2.slots[n + 1] == Some(m + 1)
            &&& a2.song_arena[m].name == s1.name
            &&& a2.song_arena[m].unique_name == s1.unique_name
            &&& a2.song_arena[m + 1].name == s2.name
            &&& a2.song_arena[m + 1].unique_name == s2.unique_name
        }),
{
    let a1 = place_song_v(album, s1);
    let a2 = place_song_v(a1, s2);
    assert(a1.slots == album.slots.push(Some(album.song_arena.len() as int)));
    assert(a2.slots == a1.slots.push(Some(a1.song_arena.len() as int)));
}

/// Law: cover attachment is monotone in the rating and writes through. The
/// rating only ever grows, to the best rating seen; the stored cover is the
/// one that last strictly beat the rating before it; and after any
/// attachment every slotted song carries the album's current cover.
pub proof fn lemma_cover_rating_monotonic(
    album: AlbumV,
    u1: Seq<char>,
    r1: u32,
    u2: Seq<char>,
    r2: u32,
)
    requires
        album.wf(),
    ensures
        ({
            let a1 = insert_cover_v(album, u1, r1);
            let a2 = insert_cover_v(a1, u2, r2);
            &&& a1.cover_rating == (if r1 > album.cover_rating {
                r1
            } else {
                album.cover_rating
            })
            &&& a2.cover_rating == (if r2 > a1.cover_rating {
                r2
            } else {
                a1.cover_rating
            })
            &&& a2.cover_url == (if r2 > a1.cover_rating {
                Some(u2)
            } else if r1 > album.cover_rating {
                Some(u1)
            } else {
                album.cover_url
            })
            &&& a2.wf()
            &&& forall|i: int|
                slot_points(a2.slots, i) ==> 0 <= i < a2.song_arena.len()
                    && (#[trigger] a2.song_arena[i]).cover_url == a2.cover_url
        }),
{
    let a1 = insert_cover_v(album, u1, r1);
    let a2 = insert_cover_v(a1, u2, r2);
    crate::cover::lemma_insert_cover_wf(album, u1, r1);
    crate::cover::lemma_insert_cover_wf(a1, u2, r2);
    assert forall|i: int| slot_points(a2.slots, i) implies 0 <= i < a2.song_arena.len() && (
    #[trigger] a2.song_arena[i]).cover_url == a2.cover_url by {
        let y = choose|y: int| 0 <= y < a2.slots.len() && a2.slots[y] == Some(i);
        assert(a2.slots[y] matches Some(ii) ==> 0 <= ii < a2.song_arena.len() && (0 <= ii
            < a2.song_arena.len() ==> a2.song_arena[ii].cover_url == a2.cover_url));
    }
}

/// Law: when a display name's slug and its numbered keys up to `n - 1` are
/// all held by differently-named artists, the next insertion takes the first
/// free key, `slug-n`, and adds a fresh artist under it.
pub proof fn lemma_collision_suffixes(artists: Seq<ArtistV>, name: Seq<char>)
    requires
        unique_keys(artist_entries(artists)),
        forall|j: int|
            0 <= j < artists.len() ==> (#[trigger] artists[j]).unique_name == key_at(
                slug_of(name),
                j as nat,
            ) && artists[j].name != name,
    ensures
        insert_artist_v(artists, name).1 == key_at(slug_of(name), artists.len()),
        insert_artist_v(artists, name).0 == artists.push(
            new_artist_v(name, key_at(slug_of(name), artists.len())),
        ),
{
    let es = artist_entries(artists);
    let slug = slug_of(name);
    let n = artists.len();
    assert forall|j: nat| j < n implies !probe_stop(es, name, j) by {
        assert(es[j as int].0 == key_at(slug, j));
        assert(has_key(es, key_at(slug, j)));
        lemma_idx_of_unique(es, key_at(slug, j), j as int);
        assert(es[idx_of(es, key_at(slug, j))].1 == artists[j as int].name);
    }
    assert(!has_key(es, key_at(slug, n))) by {
        if has_key(es, key_at(slug, n)) {
            let i = choose|i: int| 0 <= i < es.len() && es[i].0 == key_at(slug, n);
            assert(es[i].0 == key_at(slug, i as nat));
            crate::slug::lemma_key_at_injective(slug, i as nat, n);
        }
    }
    assert(probe_stop(es, name, n));
    assert(probe_first(es, name, n));
    lemma_probe_first_k(es, name, n);
}

/// Law: a song with track number `t` lands in slot `t - 1`, growing the slot
/// list only as far as needed, leaving every other slot as it was, and
/// marking the album tracked.
pub proof fn lemma_track_placement(album: AlbumV, song: SongV, t: u32)
    requires
        song.track == Some(t),
        t >= 1,
    ensures
        ({
            let placed = place_song_v(album, song);
            let m = album.song_arena.len() as int;
            &&& placed.slots.len() == (if album.slots.len() < t as int {
                t as int
            } else {
                album.slots.len() as int
            })
            &&& placed.slots[t as int - 1] == Some(m)
            &&& placed.song_arena[m].name == song.name
            &&& placed.song_arena[m].unique_name == song.unique_name
            &&& placed.has_tracks
            &&& forall|y: int|
                0 <= y < placed.slots.len() && y != t as int - 1 ==> placed.slots[y] == (if y
                    < album.slots.len() {
                    album.slots[y]
                } else {
                    None
                })
        }),
{
}

/// Law: a cover whose rating strictly beats the album's current one is
/// stored — its web address becomes the album's cover, its rating the
/// album's rating, and every slotted song is rewritten to it; songs never
/// recompute their cover lazily. Stated for a cover path with a file name
/// that lies inside the base directory; a path outside it is an indexing
/// error that leaves the album unchanged, as `cover_outcome` says.
pub proof fn lemma_winning_cover_stored(
    album: AlbumV,
    path: Seq<char>,
    base: Seq<char>,
    files_url: Seq<char>,
)
    requires
        album.wf(),
        file_name_of(path).len() > 0,
        rate_of(file_name_of(path)) > album.cover_rating,
        strip_base(path, base) is Some,
    ensures
        ({
            let placed = cover_outcome(album, path, base, files_url).0;
            let url = url_of(files_url, strip_base(path, base).unwrap());
            &&& cover_outcome(album, path, base, files_url).1
            &&& placed.cover_url == Some(url)
            &&& placed.cover_rating as int == rate_of(file_name_of(path))
            &&& placed.wf()
            &&& forall|i: int|
                slot_points(placed.slots, i) ==> 0 <= i < placed.song_arena.len()
                    && (#[trigger] placed.song_arena[i]).cover_url == placed.cover_url
        }),
{
    let rating = rate_of(file_name_of(path));
    let url = url_of(files_url, strip_base(path, base).unwrap());
    let placed = insert_cover_v(album, url, rating as u32);
    crate::cover::lemma_insert_cover_wf(album, url, rating as u32);
    assert forall|i: int| slot_points(placed.slots, i) implies 0 <= i < placed.song_arena.len()
        && (#[trigger] placed.song_arena[i]).cover_url == placed.cover_url by {
        let y = choose|y: int| 0 <= y < placed.slots.len() && placed.slots[y] == Some(i);
        assert(placed.slots[y] matches Some(ii) ==> 0 <= ii < placed.song_arena.len() && (0 <= ii
            < placed.song_arena.len() ==> placed.song_arena[ii].cover_url == placed.cover_url));
    }
}

} // verus!
