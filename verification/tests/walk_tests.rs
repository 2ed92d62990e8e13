use music_server::catalog::{AlbumRef, ArtistRef, Index, Song};
use music_server::config::{default_bindings, default_cover_include_patterns, default_media_include_patterns, Config, ConfigGeneral};
use music_server::walk::{PathClass, WalkState};

fn song(title: &str, path: &str) -> Song {
    Song {
        name: title.to_string(),
        unique_name: music_server::sanitize(title),
        album: AlbumRef { name: "Album".to_string(), unique_name: String::new() },
        artists: vec![ArtistRef { name: "A".to_string(), unique_name: String::new() }],
        track: None,
        cover_url: None,
        url: String::new(),
        path: path.to_string(),
    }
}

#[test]
fn cover_after_song_attaches() {
    let mut index = Index::new();
    let mut state = WalkState::new();
    state.enter("/m/al/01.mp3");
    index
        .visit_media(&mut state, song("One", "/m/al/01.mp3"), "/m", "/cdn/files")
        .unwrap();
    state.enter("/m/al/cover.jpg");
    index
        .visit_cover(&mut state, &"/m/al/cover.jpg".to_string(), "/m", "/cdn/files")
        .unwrap();
    assert_eq!(index.albums[0].cover_url.as_deref(), Some("/cdn/files/al/cover.jpg"));
    // the song knows the cover too
    let i = index.albums[0].slots[0].unwrap();
    assert_eq!(
        index.albums[0].song_arena[i].cover_url.as_deref(),
        Some("/cdn/files/al/cover.jpg")
    );
}

#[test]
fn cover_before_song_is_flushed() {
    let mut index = Index::new();
    let mut state = WalkState::new();
    state.enter("/m/al/cover.jpg");
    index
        .visit_cover(&mut state, &"/m/al/cover.jpg".to_string(), "/m", "/cdn/files")
        .unwrap();
    assert!(index.albums.is_empty());
    state.enter("/m/al/song.mp3");
    index
        .visit_media(&mut state, song("Song", "/m/al/song.mp3"), "/m", "/cdn/files")
        .unwrap();
    assert_eq!(index.albums[0].cover_url.as_deref(), Some("/cdn/files/al/cover.jpg"));
}

#[test]
fn unrelated_cover_is_never_attached() {
    let mut index = Index::new();
    let mut state = WalkState::new();
    // a cover in a directory with no songs is only buffered ...
    state.enter("/m/art/cover.jpg");
    index
        .visit_cover(&mut state, &"/m/art/cover.jpg".to_string(), "/m", "/cdn/files")
        .unwrap();
    // ... and the buffer empties when the walk leaves the directory
    state.enter("/m/al/song.mp3");
    index
        .visit_media(&mut state, song("Song", "/m/al/song.mp3"), "/m", "/cdn/files")
        .unwrap();
    assert_eq!(index.albums[0].cover_url, None);
}

#[test]
fn losing_cover_leaves_song_covers_alone() {
    let mut index = Index::new();
    let mut state = WalkState::new();
    state.enter("/m/al/01.mp3");
    index
        .visit_media(&mut state, song("One", "/m/al/01.mp3"), "/m", "/cdn/files")
        .unwrap();
    state.enter("/m/al/cover-small.jpg");
    index
        .visit_cover(&mut state, &"/m/al/cover-small.jpg".to_string(), "/m", "/cdn/files")
        .unwrap();
    state.enter("/m/al/folder.jpg");
    index
        .visit_cover(&mut state, &"/m/al/folder.jpg".to_string(), "/m", "/cdn/files")
        .unwrap();
    assert_eq!(
        index.albums[0].cover_url.as_deref(),
        Some("/cdn/files/al/cover-small.jpg")
    );
}

#[test]
fn classification_against_real_patterns() {
    let general = ConfigGeneral {
        base_dir: "/m".to_string(),
        media_include_patterns: default_media_include_patterns(),
        media_exclude_patterns: vec![".*skip.*".to_string()],
        cover_include_patterns: default_cover_include_patterns(),
        cover_exclude_patterns: vec![],
        bindings: vec![],
    };
    let config = Config::from_general(general).unwrap();
    assert_eq!(config.classify("/m/al/song.mp3"), PathClass::Media);
    assert_eq!(config.classify("/m/al/song.flac"), PathClass::Media);
    assert_eq!(config.classify("/m/al/skip-song.mp3"), PathClass::Other);
    assert_eq!(config.classify("/m/al/cover.jpg"), PathClass::Cover);
    assert_eq!(config.classify("/m/al/notes.txt"), PathClass::Other);
}

#[test]
fn bad_pattern_is_a_config_error() {
    let general = ConfigGeneral {
        base_dir: "/m".to_string(),
        media_include_patterns: vec!["(".to_string()],
        media_exclude_patterns: vec![],
        cover_include_patterns: vec![],
        cover_exclude_patterns: vec![],
        bindings: vec![],
    };
    assert!(matches!(
        Config::from_general(general),
        Err(music_server::error::Error::ConfigLoadError { .. })
    ));
}

#[test]
fn default_configuration_values() {
    assert_eq!(
        default_media_include_patterns(),
        vec![".*\\.flac$".to_string(), ".*\\.mp3$".to_string(), ".*\\.ogg$".to_string()]
    );
    assert_eq!(
        default_cover_include_patterns(),
        vec![".*\\.jpg$".to_string(), ".*\\.png$".to_string()]
    );
    assert_eq!(default_bindings(), vec!["127.0.0.1:8980".to_string()]);
}

#[test]
fn song_paths_in_slot_order() {
    let mut index = Index::new();
    let mut s2 = song("Two", "/m/al/2.mp3");
    s2.track = Some(2);
    let mut s1 = song("One", "/m/al/1.mp3");
    s1.track = Some(1);
    let ai = index.insert_song(s2);
    index.insert_song(s1);
    assert_eq!(
        index.album_song_paths(ai),
        vec!["/m/al/1.mp3".to_string(), "/m/al/2.mp3".to_string()]
    );
    assert!(index.album_cover_missing(ai));
}
