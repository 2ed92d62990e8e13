use music_server::catalog::Song;
use music_server::meta::{parse_track, split_artists, strip_extension};

fn dict(entries: &[(&str, &str)]) -> Vec<(String, String)> {
    entries.iter().map(|(k, v)| (k.to_string(), v.to_string())).collect()
}

#[test]
fn title_fallback() {
    let song = Song::parse("/m/Track07.flac", "/m", "/cdn/files", &vec![], &vec![]).unwrap();
    assert_eq!(song.name, "Track07");
    assert_eq!(song.unique_name, "track07");
    assert_eq!(song.album.name, "Unknown");
    assert_eq!(song.artists.len(), 1);
    assert_eq!(song.artists[0].name, "Unknown");
    assert_eq!(song.track, None);
}

#[test]
fn multi_artist_split() {
    let parts = split_artists("A & B, C");
    assert_eq!(parts, vec!["A".to_string(), "B".to_string(), "C".to_string()]);
}

#[test]
fn artist_split_needs_spacing() {
    assert_eq!(split_artists("AC&DC"), vec!["AC&DC".to_string()]);
    assert_eq!(split_artists("a,b"), vec!["a,b".to_string()]);
    assert_eq!(split_artists("a , b"), vec!["a".to_string(), "b".to_string()]);
    assert_eq!(split_artists(""), vec!["".to_string()]);
}

#[test]
fn parse_track_patterns() {
    assert_eq!(parse_track("3"), Some(3));
    assert_eq!(parse_track("3/12"), Some(3));
    assert_eq!(parse_track("track 7"), Some(7));
    assert_eq!(parse_track("0"), None);
    assert_eq!(parse_track("abc"), None);
    assert_eq!(parse_track(""), None);
    assert_eq!(parse_track("99999999999999999999"), None);
    assert_eq!(parse_track("4294967295"), Some(u32::MAX));
    assert_eq!(parse_track("4294967296"), None);
}

#[test]
fn tag_lookup_is_case_insensitive() {
    let d = dict(&[("TITLE", "Loud"), ("Artist", "Quiet")]);
    assert_eq!(Song::find_title(&d), Some("Loud".to_string()));
    assert_eq!(Song::find_artist(&d), Some("Quiet".to_string()));
    assert_eq!(Song::find_album(&d), None);
}

#[test]
fn container_beats_streams() {
    let container = dict(&[("title", "FromContainer")]);
    let streams = vec![dict(&[("title", "FromStream"), ("album", "StreamAlbum")])];
    let song = Song::parse("/m/x.mp3", "/m", "/cdn/files", &container, &streams).unwrap();
    assert_eq!(song.name, "FromContainer");
    assert_eq!(song.album.name, "StreamAlbum");
}

#[test]
fn unparseable_track_falls_through() {
    let container = dict(&[("track", "abc")]);
    let streams = vec![dict(&[("track", "5/10")])];
    assert_eq!(Song::resolve_track(&container, &streams), Some(5));
}

#[test]
fn strip_extension_cases() {
    assert_eq!(strip_extension("Track07.flac"), Some("Track07".to_string()));
    assert_eq!(strip_extension("a.b.c"), Some("a.b".to_string()));
    assert_eq!(strip_extension("noext"), None);
    assert_eq!(strip_extension(".hidden"), None);
    assert_eq!(strip_extension("dot."), None);
}

#[test]
fn parse_outside_base_is_an_error() {
    let r = Song::parse("/elsewhere/x.mp3", "/m", "/cdn/files", &vec![], &vec![]);
    assert!(matches!(
        r,
        Err(music_server::error::Error::IndexingError { .. })
    ));
}

#[test]
fn parse_builds_url_and_artists() {
    let container = dict(&[("title", "T"), ("artist", "A & B"), ("track", "2")]);
    let song = Song::parse("/m/al/t.mp3", "/m", "/cdn/files", &container, &vec![]).unwrap();
    assert_eq!(song.url, "/cdn/files/al/t.mp3");
    assert_eq!(song.track, Some(2));
    let names: Vec<&str> = song.artists.iter().map(|r| r.name.as_str()).collect();
    assert_eq!(names, vec!["A", "B"]);
    assert_eq!(song.path, "/m/al/t.mp3");
}
