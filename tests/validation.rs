use music_tags::dto::{
    get_option_str, validate, AlbumMetadata, ImageFile, Metadata, MusicDir, MusicFile,
    TrackMetadata, ValidationError,
};

fn track(file: &str, title: &str) -> MusicFile {
    MusicFile {
        file_path: file.to_string(),
        metadata: TrackMetadata { title: title.to_string(), artist: None },
    }
}

fn dir(path: &str, files: &[&str]) -> MusicDir {
    MusicDir {
        path: path.to_string(),
        metadata: AlbumMetadata {
            album: "Album".to_string(),
            album_artist: "Artist".to_string(),
            year: 2001,
        },
        music_files: files.iter().map(|f| track(f, f)).collect(),
        image_files: vec![ImageFile { file_path: "cover.jpg".to_string(), use_as_cover: false }],
    }
}

fn scanned() -> Vec<MusicDir> {
    vec![dir("./A", &["1.mp3", "2.mp3", "3.mp3"]), dir("./A/sub", &["x.mp3"])]
}

#[test]
fn unchanged_collection_is_accepted() {
    assert_eq!(validate(&scanned(), &scanned()), Ok(()));
}

#[test]
fn removed_directory_is_refused_for_count() {
    let mut edited = scanned();
    edited.pop();
    assert_eq!(validate(&scanned(), &edited), Err(ValidationError::CountChanged));
}

#[test]
fn added_directory_is_refused_for_count() {
    let mut edited = scanned();
    edited.push(dir("./C", &["c.mp3"]));
    assert_eq!(validate(&scanned(), &edited), Err(ValidationError::CountChanged));
}

#[test]
fn renamed_directory_is_refused_for_paths() {
    let mut edited = scanned();
    edited[1].path = "./A/other".to_string();
    assert_eq!(validate(&scanned(), &edited), Err(ValidationError::PathsChanged));
}

#[test]
fn reordered_and_retitled_collection_is_accepted() {
    let mut edited = scanned();
    edited.reverse();
    edited[1].music_files.reverse();
    edited[1].music_files[0].metadata.title = "New title".to_string();
    edited[1].music_files[0].metadata.artist = Some("Someone".to_string());
    edited[1].metadata.album = "Other album".to_string();
    edited[1].metadata.year = 1999;
    edited[1].image_files[0].use_as_cover = true;
    assert_eq!(validate(&scanned(), &edited), Ok(()));
}

#[test]
fn renamed_file_is_refused_naming_its_directory() {
    let mut edited = scanned();
    edited[0].music_files[1].file_path = "two.mp3".to_string();
    assert_eq!(
        validate(&scanned(), &edited),
        Err(ValidationError::FilesChanged { directory: "./A".to_string() })
    );
}

#[test]
fn removed_file_is_refused_naming_its_directory() {
    let mut edited = scanned();
    edited[1].music_files.clear();
    assert_eq!(
        validate(&scanned(), &edited),
        Err(ValidationError::FilesChanged { directory: "./A/sub".to_string() })
    );
}

#[test]
fn empty_collections_are_accepted() {
    assert_eq!(validate(&[], &[]), Ok(()));
}

#[test]
fn metadata_splits_into_track_and_album() {
    let m = Metadata {
        title: "T".to_string(),
        track: 7,
        artist: Some("A".to_string()),
        album: "Al".to_string(),
        album_artist: "AA".to_string(),
        year: 1990,
    };
    let (n, t, a) = m.into_track_and_metadatas();
    assert_eq!(n, 7);
    assert_eq!(t, TrackMetadata { title: "T".to_string(), artist: Some("A".to_string()) });
    assert_eq!(
        a,
        AlbumMetadata { album: "Al".to_string(), album_artist: "AA".to_string(), year: 1990 }
    );
}

#[test]
fn option_str_gives_text_or_empty() {
    assert_eq!(get_option_str(&Some("abc".to_string())), "abc");
    assert_eq!(get_option_str(&None), "");
}
