use music_tags::dto::{AlbumMetadata, ImageFile, Metadata, MusicDir, MusicFile, TrackMetadata};
use music_tags::pool::{after_timeout, collect_results, pool_size, WorkerStep};
use music_tags::tags::{cover_image, effective_artist, metadata_for_track, resolve_year};

fn album() -> AlbumMetadata {
    AlbumMetadata { album: "Al".to_string(), album_artist: "AA".to_string(), year: 2005 }
}

fn music_dir(path: &str) -> MusicDir {
    MusicDir { path: path.to_string(), metadata: album(), music_files: vec![], image_files: vec![] }
}

#[test]
fn pool_size_falls_back_to_one() {
    assert_eq!(pool_size(Some(8)), 8);
    assert_eq!(pool_size(None), 1);
    assert_eq!(pool_size(Some(0)), 1);
}

#[test]
fn worker_exits_only_when_all_are_idle() {
    assert_eq!(after_timeout(4, 4), WorkerStep::Exit);
    assert_eq!(after_timeout(3, 4), WorkerStep::Retry);
    assert_eq!(after_timeout(1, 1), WorkerStep::Exit);
}

#[test]
fn results_are_gathered_in_order() {
    let r = collect_results(vec![Ok(music_dir("a")), Ok(music_dir("b"))]).unwrap();
    assert_eq!(r, vec![music_dir("a"), music_dir("b")]);
    assert_eq!(collect_results(vec![]), Ok(vec![]));
}

#[test]
fn first_failure_aborts_the_scan() {
    let r = collect_results(vec![
        Ok(music_dir("a")),
        Err("first".to_string()),
        Ok(music_dir("b")),
        Err("second".to_string()),
    ]);
    assert_eq!(r, Err("first".to_string()));
}

#[test]
fn year_comes_from_first_present_timestamp() {
    assert_eq!(resolve_year(Some(1999), Some(2000), None, None, 2024), 1999);
    assert_eq!(resolve_year(None, None, Some(1980), Some(1970), 2024), 1980);
    assert_eq!(resolve_year(None, None, None, Some(1970), 2024), 1970);
    assert_eq!(resolve_year(None, None, None, None, 2024), 2024);
}

#[test]
fn empty_or_missing_artist_falls_back_on_album_artist() {
    let mut m = Metadata {
        title: "T".to_string(),
        track: 1,
        artist: Some("Solo".to_string()),
        album: "Al".to_string(),
        album_artist: "Band".to_string(),
        year: 2000,
    };
    assert_eq!(effective_artist(&m), "Solo");
    m.artist = Some(String::new());
    assert_eq!(effective_artist(&m), "Band");
    m.artist = None;
    assert_eq!(effective_artist(&m), "Band");
}

#[test]
fn position_gives_track_number_from_one() {
    let file = MusicFile {
        file_path: "x.mp3".to_string(),
        metadata: TrackMetadata { title: "X".to_string(), artist: None },
    };
    let m = metadata_for_track(&album(), file, 0);
    assert_eq!(
        m,
        Metadata {
            title: "X".to_string(),
            track: 1,
            artist: None,
            album: "Al".to_string(),
            album_artist: "AA".to_string(),
            year: 2005,
        }
    );
}

#[test]
fn first_chosen_image_is_the_cover() {
    let img = |n: &str, c: bool| ImageFile { file_path: n.to_string(), use_as_cover: c };
    assert_eq!(cover_image(&vec![img("a.jpg", false), img("b.png", true), img("c.png", true)]), Some("b.png".to_string()));
    assert_eq!(cover_image(&vec![img("a.jpg", false)]), None);
    assert_eq!(cover_image(&vec![]), None);
}
