use music_tags::dto::{AlbumMetadata, ImageFile, Metadata, MusicFile, TrackMetadata};
use music_tags::pool::collect_results;
use music_tags::scan::{
    assert_unicode_path, is_audio_file_name, is_image_file_name, scan_dir,
    sorted_by_track_number, DirEntryInfo, ScanError,
};

fn tags(title: &str, track: u32, album: &str) -> Metadata {
    Metadata {
        title: title.to_string(),
        track,
        artist: None,
        album: album.to_string(),
        album_artist: "Band".to_string(),
        year: 2010,
    }
}

fn audio(name: &str, track: u32, album: &str) -> DirEntryInfo {
    DirEntryInfo {
        name: name.to_string(),
        unicode_name: Some(name.to_string()),
        is_dir: false,
        tags: Some(tags(name, track, album)),
    }
}

fn plain(name: &str, is_dir: bool) -> DirEntryInfo {
    DirEntryInfo {
        name: name.to_string(),
        unicode_name: Some(name.to_string()),
        is_dir,
        tags: None,
    }
}

fn names(files: &[MusicFile]) -> Vec<String> {
    files.iter().map(|f| f.file_path.clone()).collect()
}

#[test]
fn audio_names_are_mp3_case_sensitive() {
    assert!(is_audio_file_name("song.mp3"));
    assert!(is_audio_file_name(".mp3"));
    assert!(!is_audio_file_name("song.MP3"));
    assert!(!is_audio_file_name("song.mp3.bak"));
    assert!(!is_audio_file_name("mp3"));
}

#[test]
fn image_names_go_by_last_segment() {
    assert!(is_image_file_name("cover.jpg"));
    assert!(is_image_file_name("cover.jpeg"));
    assert!(is_image_file_name("a.b.png"));
    assert!(is_image_file_name("png"));
    assert!(!is_image_file_name("xpng"));
    assert!(!is_image_file_name("cover.PNG"));
    assert!(!is_image_file_name("cover.png.txt"));
}

#[test]
fn tracks_follow_their_numbers() {
    let items = vec![
        (3, MusicFile { file_path: "c.mp3".to_string(), metadata: TrackMetadata { title: "c".to_string(), artist: None } }),
        (1, MusicFile { file_path: "a.mp3".to_string(), metadata: TrackMetadata { title: "a".to_string(), artist: None } }),
        (2, MusicFile { file_path: "b.mp3".to_string(), metadata: TrackMetadata { title: "b".to_string(), artist: None } }),
    ];
    let sorted = sorted_by_track_number(items);
    assert_eq!(names(&sorted), vec!["a.mp3", "b.mp3", "c.mp3"]);
}

#[test]
fn equal_track_numbers_keep_their_order() {
    let f = |n: &str| MusicFile {
        file_path: n.to_string(),
        metadata: TrackMetadata { title: n.to_string(), artist: None },
    };
    let sorted = sorted_by_track_number(vec![(2, f("x")), (1, f("y")), (2, f("z")), (1, f("w"))]);
    assert_eq!(names(&sorted), vec!["y", "w", "x", "z"]);
}

#[test]
fn empty_track_list_stays_empty() {
    assert!(sorted_by_track_number(vec![]).is_empty());
}

#[test]
fn directory_with_tracks_images_and_subdirectory() {
    let entries = vec![
        audio("3.mp3", 0, "First"),
        plain("cover.jpg", false),
        plain("sub", true),
        audio("1.mp3", 3, "Second"),
        plain("notes.txt", false),
        audio("2.mp3", 4, "Third"),
    ];
    let probe = scan_dir(Some("./A".to_string()), entries).unwrap();
    assert_eq!(probe.subdirs, vec![2]);
    let dir = probe.music_dir.unwrap();
    assert_eq!(dir.path, "./A");
    assert_eq!(
        dir.metadata,
        AlbumMetadata { album: "First".to_string(), album_artist: "Band".to_string(), year: 2010 }
    );
    assert_eq!(names(&dir.music_files), vec!["3.mp3", "1.mp3", "2.mp3"]);
    assert_eq!(
        dir.image_files,
        vec![ImageFile { file_path: "cover.jpg".to_string(), use_as_cover: false }]
    );
}

#[test]
fn tracks_are_ordered_by_their_hints() {
    let entries = vec![audio("c.mp3", 3, "X"), audio("a.mp3", 1, "X"), audio("b.mp3", 2, "X")];
    let dir = scan_dir(Some("d".to_string()), entries).unwrap().music_dir.unwrap();
    assert_eq!(names(&dir.music_files), vec!["a.mp3", "b.mp3", "c.mp3"]);
}

#[test]
fn directory_of_images_only_gives_no_album() {
    let entries = vec![plain("a.png", false), plain("b.png", false)];
    let probe = scan_dir(Some("./B".to_string()), entries).unwrap();
    assert!(probe.music_dir.is_none());
    assert!(probe.subdirs.is_empty());
}

#[test]
fn root_with_subdirectories_only_gives_no_album() {
    let entries = vec![plain("A", true), plain("B", true)];
    let probe = scan_dir(Some(".".to_string()), entries).unwrap();
    assert!(probe.music_dir.is_none());
    assert_eq!(probe.subdirs, vec![0, 1]);
}

#[test]
fn nested_directory_with_one_track() {
    let probe = scan_dir(Some("./A/sub".to_string()), vec![audio("x.mp3", 0, "Sub")]).unwrap();
    let dir = probe.music_dir.unwrap();
    assert_eq!(dir.music_files.len(), 1);
    assert!(dir.image_files.is_empty());
    assert!(probe.subdirs.is_empty());
}

#[test]
fn empty_directory_gives_nothing() {
    let probe = scan_dir(Some("e".to_string()), vec![]).unwrap();
    assert!(probe.music_dir.is_none());
    assert!(probe.subdirs.is_empty());
}

#[test]
fn non_unicode_file_name_is_an_error() {
    let mut bad = plain("b\u{fffd}.jpg", false);
    bad.unicode_name = None;
    let mut other = plain("c\u{fffd}.txt", false);
    other.unicode_name = None;
    let entries = vec![audio("a.mp3", 0, "X"), other, bad];
    assert_eq!(scan_dir(Some("d".to_string()), entries), Err(ScanError::NonUnicodeName { index: 2 }));
}

#[test]
fn non_unicode_path_is_an_error_only_for_an_album() {
    assert_eq!(
        scan_dir(None, vec![audio("a.mp3", 0, "X")]),
        Err(ScanError::NonUnicodePath)
    );
    assert!(scan_dir(None, vec![plain("a.png", false)]).unwrap().music_dir.is_none());
}

#[test]
fn unicode_check_passes_text_through() {
    assert_eq!(assert_unicode_path(Some("x".to_string()), 4), Ok("x".to_string()));
    assert_eq!(assert_unicode_path(None, 4), Err(ScanError::NonUnicodeName { index: 4 }));
}

#[test]
fn tree_scenario_gives_albums_for_a_and_its_subdirectory() {
    let root = scan_dir(Some(".".to_string()), vec![plain("A", true), plain("B", true)]).unwrap();
    let a = scan_dir(
        Some("./A".to_string()),
        vec![audio("1.mp3", 0, "A"), audio("2.mp3", 1, "A"), plain("f.jpg", false), audio("3.mp3", 3, "A"), plain("sub", true)],
    )
    .unwrap();
    let b = scan_dir(Some("./B".to_string()), vec![plain("x.png", false), plain("y.png", false)]).unwrap();
    let sub = scan_dir(Some("./A/sub".to_string()), vec![audio("s.mp3", 0, "Sub")]).unwrap();
    assert_eq!(root.subdirs, vec![0, 1]);
    assert_eq!(a.subdirs, vec![4]);
    let found: Vec<_> = [root, a, b, sub]
        .into_iter()
        .filter_map(|p| p.music_dir)
        .map(Ok)
        .collect();
    let dirs = collect_results(found).unwrap();
    assert_eq!(dirs.len(), 2);
    assert_eq!(dirs[0].path, "./A");
    assert_eq!(dirs[0].music_files.len(), 3);
    assert_eq!(dirs[0].image_files.len(), 1);
    assert_eq!(dirs[1].path, "./A/sub");
    assert_eq!(dirs[1].music_files.len(), 1);
    assert!(dirs[1].image_files.is_empty());
}
