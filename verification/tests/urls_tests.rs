use music_server::catalog::Index;
use music_server::cover::fit_frame;
use music_server::error::{Error, JsonError};
use music_server::urls::{file_name, find_url, make_cover_path, parent_dir, paths_eq};

#[test]
fn url_percent_encodes() {
    let u = find_url("/m/My Song#1.mp3", "/m", "/cdn/files").unwrap();
    assert_eq!(u, "/cdn/files/My%20Song%231.mp3");
}

#[test]
fn url_keeps_safe_bytes() {
    let u = find_url("/m/a-b_c.d+e/f.mp3", "/m", "/cdn/files").unwrap();
    assert_eq!(u, "/cdn/files/a-b_c.d+e/f.mp3");
}

#[test]
fn url_outside_base_fails() {
    let r = find_url("/elsewhere/x.mp3", "/m", "/cdn/files");
    match r {
        Err(Error::IndexingError { path, what }) => {
            assert_eq!(path.as_deref(), Some("/elsewhere/x.mp3"));
            assert_eq!(what, "formatting url");
        },
        _ => panic!("expected an indexing error"),
    }
}

#[test]
fn parent_and_file_name() {
    assert_eq!(parent_dir("/m/al/x.mp3"), "/m/al");
    assert_eq!(file_name("/m/al/x.mp3"), "x.mp3");
    assert_eq!(parent_dir("plain"), "");
    assert_eq!(file_name("plain"), "plain");
    assert_eq!(file_name("/m/al/"), "");
}

#[test]
fn paths_eq_cases() {
    assert!(paths_eq(&None, &None));
    assert!(!paths_eq(&Some("/a".to_string()), &None));
    assert!(!paths_eq(&None, &Some("/a".to_string())));
    assert!(paths_eq(&Some("/a".to_string()), &Some("/a".to_string())));
    assert!(!paths_eq(&Some("/a".to_string()), &Some("/b".to_string())));
}

#[test]
fn cover_path_lands_beside_song() {
    assert_eq!(
        make_cover_path("/m/al/song.flac"),
        "/m/al/song.flac-ms1-cover-small-generated.jpg"
    );
}

#[test]
fn rate_cover_by_name() {
    assert_eq!(Index::rate_cover("/m/al/folder.jpg").unwrap(), 1);
    assert_eq!(Index::rate_cover("/m/al/cover.jpg").unwrap(), 101);
    assert_eq!(Index::rate_cover("/m/al/small.jpg").unwrap(), 21);
    assert_eq!(Index::rate_cover("/m/al/cover-small.jpg").unwrap(), 121);
    assert!(matches!(
        Index::rate_cover("/m/al/"),
        Err(Error::IndexingError { .. })
    ));
}

#[test]
fn fit_frame_strips_row_padding() {
    // two rows of two pixels, each row padded by one extra pixel's worth
    let width = 2u32;
    let height = 2u32;
    let data: Vec<u8> = vec![
        1, 1, 1, 1, 2, 2, 2, 2, 9, 9, 9, 9, // row 0: two pixels, then padding
        3, 3, 3, 3, 4, 4, 4, 4, 9, 9, 9, 9, // row 1: two pixels, then padding
    ];
    let fitted = fit_frame(&data, width, height);
    assert_eq!(fitted, vec![1, 1, 1, 1, 2, 2, 2, 2, 3, 3, 3, 3, 4, 4, 4, 4]);
}

#[test]
fn fit_frame_identity_without_padding() {
    let data: Vec<u8> = (0..16).collect();
    let fitted = fit_frame(&data, 2, 2);
    assert_eq!(fitted, data);
}

#[test]
fn error_presentation() {
    let e = Error::NoSuchResource;
    assert_eq!(e.status_code(), 404);
    assert_eq!(e.handle(), Some(JsonError::NoSuchResource));
    assert_eq!(e.log(), "No such resource");
    let e = Error::UriSegmentError;
    assert_eq!(e.status_code(), 400);
    assert_eq!(e.handle(), None);
    let e = Error::FilesLimiterError;
    assert_eq!(e.status_code(), 404);
    assert_eq!(e.handle(), None);
    let e = Error::IndexingError { path: Some("/m/x".to_string()), what: "probing media file".to_string() };
    assert_eq!(e.status_code(), 500);
    assert_eq!(e.handle(), Some(JsonError::InternalServerError));
    assert_eq!(e.log(), "Indexing Error at /m/x: probing media file");
    let e = Error::ConfigLoadError { msg: "bad".to_string() };
    assert_eq!(e.log(), "Error loading config: bad");
}
