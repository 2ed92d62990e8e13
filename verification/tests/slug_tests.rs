use music_server::sanitize;
use music_server::slug::{make_key, usize_string};

#[test]
fn sanitize_replaces_and_lowers() {
    assert_eq!(sanitize("Hello World!"), "hello-world-");
    assert_eq!(sanitize("Track07"), "track07");
    assert_eq!(sanitize("ABCxyz09"), "abcxyz09");
    assert_eq!(sanitize(""), "");
    assert_eq!(sanitize("a b/c_d"), "a-b-c-d");
}

#[test]
fn sanitize_maps_non_ascii_away() {
    assert_eq!(sanitize("Beyonc\u{e9}"), "beyonc-");
}

#[test]
fn decimal_rendering() {
    assert_eq!(usize_string(0), "0");
    assert_eq!(usize_string(7), "7");
    assert_eq!(usize_string(1203), "1203");
}

#[test]
fn key_suffixes() {
    assert_eq!(make_key(&"beyonce".to_string(), 0), "beyonce");
    assert_eq!(make_key(&"beyonce".to_string(), 1), "beyonce-1");
    assert_eq!(make_key(&"beyonce".to_string(), 12), "beyonce-12");
}
