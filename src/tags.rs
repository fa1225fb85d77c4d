use crate::dto::{AlbumMetadata, ImageFile, Metadata, MusicFile};
use vstd::prelude::*;

verus! {

/// The year of an album: the first of the tag's year, release date, original
/// release date and recording date that is present, else the current year.
pub open spec fn year_of(
    year: Option<i32>,
    released: Option<i32>,
    original_released: Option<i32>,
    recorded: Option<i32>,
    current_year: i32,
) -> u32 {
    let y = match year {
        Some(y) => y,
        None => match released {
            Some(y) => y,
            None => match original_released {
                Some(y) => y,
                None => match recorded {
                    Some(y) => y,
                    None => current_year,
                },
            },
        },
    };
    y as u32
}

/// Resolves the year of a file from its tag's timestamps, falling back on the
/// current year.
pub fn resolve_year(
    year: Option<i32>,
    released: Option<i32>,
    original_released: Option<i32>,
    recorded: Option<i32>,
    current_year: i32,
) -> (r: u32)
    ensures
        r == year_of(year, released, original_released, recorded, current_year),
{
    let y: i32 = match year {
        Some(y) => y,
        None => match released {
            Some(y) => y,
            None => match original_released {
                Some(y) => y,
                None => match recorded {
                    Some(y) => y,
                    None => current_year,
                },
            },
        },
    };
    y as u32
}

/// The artist written to a file: the track's own artist, unless it is absent
/// or empty, then the album artist.
pub open spec fn artist_of(metadata: Metadata) -> Seq<char> {
    match metadata.artist {
        Some(a) => if a@.len() > 0 {
            a@
        } else {
            metadata.album_artist@
        },
        None => metadata.album_artist@,
    }
}

/// The artist to write to a file's tag.
pub fn effective_artist(metadata: &Metadata) -> (r: &str)
    ensures
        r@ == artist_of(*metadata),
{
    match &metadata.artist {
        Some(a) => {
            if a.as_str().unicode_len() > 0 {
                a.as_str()
            } else {
                metadata.album_artist.as_str()
            }
        },
        None => metadata.album_artist.as_str(),
    }
}

/// The metadata written to the file at `index` in its directory's track list:
/// its position gives its track number, counted from one.
pub fn metadata_for_track(album: &AlbumMetadata, file: MusicFile, index: usize) -> (r: Metadata)
    requires
        index < u32::MAX,
    ensures
        r.track == index + 1,
        r.title == file.metadata.title,
        r.artist == file.metadata.artist,
        r.album == album.album,
        r.album_artist == album.album_artist,
        r.year == album.year,
{
    Metadata {
        track: (index as u32) + 1,
        title: file.metadata.title,
        artist: file.metadata.artist,
        album: album.album.clone(),
        album_artist: album.album_artist.clone(),
        year: album.year,
    }
}

/// `k` is the position of the first image chosen as cover.
pub open spec fn is_first_cover(images: Seq<ImageFile>, k: int) -> bool {
    &&& 0 <= k < images.len()
    &&& images[k].use_as_cover
    &&& forall|j: int| 0 <= j < k ==> !(#[trigger] images[j]).use_as_cover
}

/// The file name of the first image chosen as cover, if any.
pub fn cover_image(images: &Vec<ImageFile>) -> (r: Option<String>)
    ensures
        match r {
            Some(name) => exists|k: int| is_first_cover(images@, k) && name == (#[trigger] images@[k]).file_path,
            None => forall|j: int| 0 <= j < images@.len() ==> !(#[trigger] images@[j]).use_as_cover,
        },
{
    let mut i: usize = 0;
    while i < images.len()
        invariant
            i <= images@.len(),
            forall|j: int| 0 <= j < i ==> !(#[trigger] images@[j]).use_as_cover,
        decreases images@.len() - i,
    {
        if images[i].use_as_cover {
            let name = images[i].file_path.clone();
            assert(is_first_cover(images@, i as int));
            return Some(name);
        }
        i = i + 1;
    }
    None
}

} // verus!
