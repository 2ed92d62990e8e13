use music_server::catalog::{Index, Song, AlbumRef, ArtistRef};

fn song(title: &str, album: &str, artist: &str, track: Option<u32>, path: &str) -> Song {
    Song {
        name: title.to_string(),
        unique_name: music_server::sanitize(title),
        album: AlbumRef { name: album.to_string(), unique_name: String::new() },
        artists: vec![ArtistRef { name: artist.to_string(), unique_name: String::new() }],
        track,
        cover_url: None,
        url: format!("/cdn/files/{}", title),
        path: path.to_string(),
    }
}

#[test]
fn idempotent_artist_reinsertion() {
    let mut index = Index::new();
    let k1 = index.get_or_insert_artist(&"Beyonce".to_string());
    let k2 = index.get_or_insert_artist(&"Beyonce".to_string());
    assert_eq!(k1, "beyonce");
    assert_eq!(k2, "beyonce");
    assert_eq!(index.artists.len(), 1);
}

#[test]
fn slug_collision_disambiguation() {
    let mut index = Index::new();
    let k1 = index.get_or_insert_artist(&"Beyonce".to_string());
    let k2 = index.get_or_insert_artist(&"BEYONCE".to_string());
    let k3 = index.get_or_insert_artist(&"BeYoNcE".to_string());
    assert_eq!(k1, "beyonce");
    assert_eq!(k2, "beyonce-1");
    assert_eq!(k3, "beyonce-2");
    assert_eq!(index.artists.len(), 3);
    // re-inserting a colliding name finds its own entry again
    let again = index.get_or_insert_artist(&"BEYONCE".to_string());
    assert_eq!(again, "beyonce-1");
    assert_eq!(index.artists.len(), 3);
}

#[test]
fn track_placement() {
    let mut index = Index::new();
    let ai = index.insert_song(song("Two", "Album", "A", Some(2), "/m/al/02.mp3"));
    let ai2 = index.insert_song(song("One", "Album", "A", Some(1), "/m/al/01.mp3"));
    assert_eq!(ai, ai2);
    let album = &index.albums[ai];
    assert!(album.slots.len() >= 2);
    assert!(album.has_tracks);
    let s0 = album.slots[0].expect("slot 0 filled");
    let s1 = album.slots[1].expect("slot 1 filled");
    assert_eq!(album.song_arena[s0].name, "One");
    assert_eq!(album.song_arena[s1].name, "Two");
}

#[test]
fn untracked_append_order() {
    let mut index = Index::new();
    let ai = index.insert_song(song("T", "Album", "A", Some(1), "/m/al/t.mp3"));
    index.insert_song(song("First", "Album", "A", None, "/m/al/a.mp3"));
    index.insert_song(song("Second", "Album", "A", None, "/m/al/b.mp3"));
    let album = &index.albums[ai];
    assert_eq!(album.slots.len(), 3);
    let a = album.slots[1].expect("first untracked");
    let b = album.slots[2].expect("second untracked");
    assert_eq!(album.song_arena[a].name, "First");
    assert_eq!(album.song_arena[b].name, "Second");
}

#[test]
fn last_writer_wins_on_track() {
    let mut index = Index::new();
    let ai = index.insert_song(song("Old", "Album", "A", Some(1), "/m/al/old.mp3"));
    index.insert_song(song("New", "Album", "A", Some(1), "/m/al/new.mp3"));
    let album = &index.albums[ai];
    assert_eq!(album.slots.len(), 1);
    let s = album.slots[0].expect("slot filled");
    assert_eq!(album.song_arena[s].name, "New");
    // the earlier song is still reachable by name
    assert!(album.songs_by_name.iter().any(|(k, i)| k == "old" && album.song_arena[*i].name == "Old"));
}

#[test]
fn album_accretes_artists() {
    let mut index = Index::new();
    let ai = index.insert_song(song("S1", "Album", "A", None, "/m/al/s1.mp3"));
    index.insert_song(song("S2", "Album", "B", None, "/m/al/s2.mp3"));
    let album = &index.albums[ai];
    let names: Vec<&str> = album.artists.iter().map(|r| r.name.as_str()).collect();
    assert_eq!(names, vec!["A", "B"]);
    // both artists index the album back
    for artist in &index.artists {
        assert!(artist.albums.contains(&ai));
    }
}

#[test]
fn cover_rating_monotonicity() {
    let mut index = Index::new();
    let ai = index.insert_song(song("S", "Album", "A", Some(1), "/m/al/s.mp3"));
    index.insert_song(song("U", "Album", "A", None, "/m/al/u.mp3"));
    // a plain image rates 1
    index.insert_cover_at(ai, "/m/al/folder.jpg", "/m", "/cdn/files").unwrap();
    assert_eq!(index.albums[ai].cover_rating, 1);
    assert_eq!(index.albums[ai].cover_url.as_deref(), Some("/cdn/files/al/folder.jpg"));
    // a cover-small image rates 121 and replaces it
    index.insert_cover_at(ai, "/m/al/cover-small.jpg", "/m", "/cdn/files").unwrap();
    assert_eq!(index.albums[ai].cover_rating, 121);
    assert_eq!(index.albums[ai].cover_url.as_deref(), Some("/cdn/files/al/cover-small.jpg"));
    // a cover image rates 101 and is not better
    index.insert_cover_at(ai, "/m/al/cover.jpg", "/m", "/cdn/files").unwrap();
    assert_eq!(index.albums[ai].cover_rating, 121);
    assert_eq!(index.albums[ai].cover_url.as_deref(), Some("/cdn/files/al/cover-small.jpg"));
    // every slotted song carries the best cover
    let album = &index.albums[ai];
    for slot in &album.slots {
        if let Some(i) = slot {
            assert_eq!(album.song_arena[*i].cover_url, album.cover_url);
        }
    }
}

#[test]
fn sorted_listing() {
    let mut index = Index::new();
    index.insert_song(song("S1", "ZetaAlbum", "Zeta", None, "/m/z/s1.mp3"));
    index.insert_song(song("S2", "AlphaAlbum", "Alpha", None, "/m/a/s2.mp3"));
    index.finish();
    let names: Vec<&str> = index
        .artist_list
        .iter()
        .map(|i| index.artists[*i].unique_name.as_str())
        .collect();
    assert_eq!(names, vec!["alpha", "zeta"]);
    let albums: Vec<&str> = index
        .album_list
        .iter()
        .map(|i| index.albums[*i].unique_name.as_str())
        .collect();
    assert_eq!(albums, vec!["alphaalbum", "zetaalbum"]);
}

#[test]
fn lookups_by_key() {
    let mut index = Index::new();
    let mut s = song("My Song", "My Album", "Me", Some(1), "/m/al/my.mp3");
    s.artists.push(ArtistRef { name: "You".to_string(), unique_name: String::new() });
    index.insert_song(s);
    index.finish();
    let album = index.get_album(&"my-album".to_string()).expect("album is in");
    assert_eq!(album.name, "My Album");
    assert_eq!(album.artists.len(), 2);
    let artist = index.get_artist(&"me".to_string()).expect("artist is in");
    assert_eq!(artist.name, "Me");
    assert_eq!(artist.albums.len(), 1);
    assert_eq!(artist.albums[0].unique_name, "my-album");
    let s = index
        .get_song(&"my-album".to_string(), &"my-song".to_string())
        .expect("song is in");
    assert_eq!(s.name, "My Song");
    assert_eq!(s.track, Some(1));
    assert!(index.get_album(&"nothing".to_string()).is_none());
    assert!(index.get_artist(&"nobody".to_string()).is_none());
    assert!(index.get_song(&"my-album".to_string(), &"nothing".to_string()).is_none());
    assert!(index.get_song(&"nothing".to_string(), &"my-song".to_string()).is_none());
}

#[test]
fn song_json_projection() {
    let mut index = Index::new();
    let ai = index.insert_song(song("S", "Album", "A", Some(1), "/m/al/s.mp3"));
    let album = &index.albums[ai];
    let i = album.slots[0].unwrap();
    let json = music_server::json::SongJson::from_song(&album.song_arena[i]);
    assert_eq!(json.name, "S");
    assert_eq!(json.unique_name, "s");
    assert_eq!(json.album.unique_name, "album");
    assert_eq!(json.track, Some(1));
}

#[test]
fn album_json_keeps_empty_slots() {
    let mut index = Index::new();
    let ai = index.insert_song(song("Three", "Album", "A", Some(3), "/m/al/3.mp3"));
    let json = music_server::json::AlbumJson::from_album(&index.albums[ai]);
    assert_eq!(json.songs.len(), 3);
    assert!(json.songs[0].is_none());
    assert!(json.songs[1].is_none());
    assert_eq!(json.songs[2].as_ref().unwrap().name, "Three");
    assert!(json.has_tracks);
}
