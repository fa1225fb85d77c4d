use vstd::prelude::*;

verus! {

/// Per-track facet of the metadata: what may differ between tracks of one album.
#[derive(Debug, Clone, PartialEq, Eq)]
pub struct TrackMetadata {
    pub title: String,
    pub artist: Option<String>,
}

/// Per-directory facet of the metadata, shared by every track of the album.
#[derive(Debug, Clone, PartialEq, Eq)]
pub struct AlbumMetadata {
    pub album: String,
    pub album_artist: String,
    pub year: u32,
}

/// Everything read from, or written to, the tag of one audio file.
#[derive(Debug, Clone, PartialEq, Eq)]
pub struct Metadata {
    pub title: String,
    pub track: u32,
    pub artist: Option<String>,
    pub album: String,
    pub album_artist: String,
    pub year: u32,
}

/// One audio file of a directory, by its bare file name.
#[derive(Debug, Clone, PartialEq, Eq)]
pub struct MusicFile {
    pub file_path: String,
    pub metadata: TrackMetadata,
}

/// One image of a directory, by its bare file name, and whether it is chosen
/// as the cover embedded into every track of the directory.
#[derive(Debug, Clone, PartialEq, Eq)]
pub struct ImageFile {
    pub file_path: String,
    pub use_as_cover: bool,
}

/// A directory holding at least one audio file: the album it stands for, its
/// tracks in track order, and its candidate cover images.
#[derive(Debug, Clone, PartialEq, Eq)]
pub struct MusicDir {
    pub path: String,
    pub metadata: AlbumMetadata,
    pub music_files: Vec<MusicFile>,
    pub image_files: Vec<ImageFile>,
}

/// Why an edited collection of directories was refused.
#[derive(Debug, Clone, PartialEq, Eq)]
pub enum ValidationError {
    /// The edited collection has more or fewer directories than the scanned one.
    CountChanged,
    /// The set of directory paths differs from the scanned one.
    PathsChanged,
    /// The set of audio file names of this directory differs from the scanned one.
    FilesChanged { directory: String },
}

impl Metadata {
    /// Splits the metadata of one file into its track number, its per-track
    /// part and its per-album part.
    pub fn into_track_and_metadatas(self) -> (r: (u32, TrackMetadata, AlbumMetadata))
        ensures
            r.0 == self.track,
            r.1.title == self.title,
            r.1.artist == self.artist,
            r.2.album == self.album,
            r.2.album_artist == self.album_artist,
            r.2.year == self.year,
    {
        let Metadata { title, track, artist, album, album_artist, year } = self;
        (track, TrackMetadata { title, artist }, AlbumMetadata { album, album_artist, year })
    }
}

/// The text of an optional string, the empty text when it is absent.
pub open spec fn option_text(val: Option<String>) -> Seq<char> {
    match val {
        Some(v) => v@,
        None => Seq::empty(),
    }
}

/// The text of an optional string, or the empty string.
pub fn get_option_str(val: &Option<String>) -> (r: &str)
    ensures
        r@ == option_text(*val),
{
    match val {
        Some(v) => v.as_str(),
        None => {
            proof {
                reveal_strlit("");
            }
            ""
        },
    }
}

/// The set of directory paths of a collection.
pub open spec fn path_set(dirs: Seq<MusicDir>) -> Set<Seq<char>> {
    Set::new(|p: Seq<char>| exists|i: int| 0 <= i < dirs.len() && dirs[i].path@ == p)
}

/// The set of audio file names of a directory.
pub open spec fn file_path_set(dir: MusicDir) -> Set<Seq<char>> {
    Set::new(
        |p: Seq<char>|
            exists|i: int| 0 <= i < dir.music_files@.len() && dir.music_files@[i].file_path@ == p,
    )
}

/// `k` is the position of the first directory of `dirs` whose path is `p`.
pub open spec fn is_first_with_path(dirs: Seq<MusicDir>, p: Seq<char>, k: int) -> bool {
    &&& 0 <= k < dirs.len()
    &&& dirs[k].path@ == p
    &&& forall|j: int| 0 <= j < k ==> dirs[j].path@ != p
}

/// The first directory of `edited` with the path of `dir` holds the same set of
/// audio file names as `dir`.
pub open spec fn files_kept(dir: MusicDir, edited: Seq<MusicDir>) -> bool {
    forall|k: int|
        is_first_with_path(edited, dir.path@, k) ==> file_path_set(edited[k]) == file_path_set(dir)
}

/// `k` is the position of the first directory of `previous` whose audio file
/// names were changed in `edited`.
pub open spec fn is_first_changed(previous: Seq<MusicDir>, edited: Seq<MusicDir>, k: int) -> bool {
    &&& 0 <= k < previous.len()
    &&& !files_kept(previous[k], edited)
    &&& forall|j: int| 0 <= j < k ==> files_kept(#[trigger] previous[j], edited)
}

/// What checking `edited` against `previous` gives.
pub open spec fn validation_holds(
    previous: Seq<MusicDir>,
    edited: Seq<MusicDir>,
    r: Result<(), ValidationError>,
) -> bool {
    match r {
        Err(ValidationError::CountChanged) => previous.len() != edited.len(),
        Err(ValidationError::PathsChanged) => {
            &&& previous.len() == edited.len()
            &&& path_set(previous) != path_set(edited)
        },
        Err(ValidationError::FilesChanged { directory }) => {
            &&& previous.len() == edited.len()
            &&& path_set(previous) == path_set(edited)
            &&& exists|k: int|
                is_first_changed(previous, edited, k) && directory@ == (#[trigger] previous[k]).path@
        },
        Ok(()) => {
            &&& previous.len() == edited.len()
            &&& path_set(previous) == path_set(edited)
            &&& forall|k: int| 0 <= k < previous.len() ==> files_kept(#[trigger] previous[k], edited)
        },
    }
}

/// The position of the first directory of `dirs` whose path is `p`, if any.
fn find_path(dirs: &[MusicDir], p: &String) -> (r: Option<usize>)
    ensures
        match r {
            Some(k) => is_first_with_path(dirs@, p@, k as int),
            None => forall|i: int| 0 <= i < dirs@.len() ==> dirs@[i].path@ != p@,
        },
{
    let mut i: usize = 0;
    while i < dirs.len()
        invariant
            i <= dirs@.len(),
            forall|j: int| 0 <= j < i ==> dirs@[j].path@ != p@,
        decreases dirs@.len() - i,
    {
        if dirs[i].path == *p {
            return Some(i);
        }
        i = i + 1;
    }
    None
}

/// Every path of `a` is a path of `b`.
fn paths_within(a: &[MusicDir], b: &[MusicDir]) -> (r: bool)
    ensures
        r == path_set(a@).subset_of(path_set(b@)),
{
    let mut i: usize = 0;
    while i < a.len()
        invariant
            i <= a@.len(),
            forall|j: int| 0 <= j < i ==> path_set(b@).contains(#[trigger] a@[j].path@),
        decreases a@.len() - i,
    {
        match find_path(b, &a[i].path) {
            Some(k) => {
                assert(path_set(b@).contains(b@[k as int].path@));
            },
            None => {
                assert(path_set(a@).contains(a@[i as int].path@));
                assert(!path_set(b@).contains(a@[i as int].path@));
                return false;
            },
        }
        i = i + 1;
    }
    assert forall|p: Seq<char>| path_set(a@).contains(p) implies path_set(b@).contains(p) by {
        let j = choose|j: int| 0 <= j < a@.len() && a@[j].path@ == p;
    }
    true
}

/// Whether the file names of `files` include `p`.
fn has_file(files: &Vec<MusicFile>, p: &String) -> (r: bool)
    ensures
        r == exists|i: int| 0 <= i < files@.len() && files@[i].file_path@ == p@,
{
    let mut i: usize = 0;
    while i < files.len()
        invariant
            i <= files@.len(),
            forall|j: int| 0 <= j < i ==> files@[j].file_path@ != p@,
        decreases files@.len() - i,
    {
        if files[i].file_path == *p {
            return true;
        }
        i = i + 1;
    }
    false
}

/// Every audio file name of `a` is one of `b`.
fn files_within(a: &MusicDir, b: &MusicDir) -> (r: bool)
    ensures
        r == file_path_set(*a).subset_of(file_path_set(*b)),
{
    let mut i: usize = 0;
    while i < a.music_files.len()
        invariant
            i <= a.music_files@.len(),
            forall|j: int|
                0 <= j < i ==> file_path_set(*b).contains(#[trigger] a.music_files@[j].file_path@),
        decreases a.music_files@.len() - i,
    {
        if !has_file(&b.music_files, &a.music_files[i].file_path) {
            assert(file_path_set(*a).contains(a.music_files@[i as int].file_path@));
            return false;
        }
        i = i + 1;
    }
    assert forall|p: Seq<char>| file_path_set(*a).contains(p) implies file_path_set(*b).contains(
        p,
    ) by {
        let j = choose|j: int| 0 <= j < a.music_files@.len() && a.music_files@[j].file_path@ == p;
    }
    true
}

/// Checks an edited collection of directories against the scanned one: the
/// same number of directories, the same set of paths, and for each scanned
/// directory the same set of audio file names in the edited directory of that
/// path. Order, metadata values and cover choices may change freely. The rules
/// are checked in that order, and for the files the scanned directories in
/// their order.
pub fn validate(previous_dirs: &[MusicDir], res: &[MusicDir]) -> (r: Result<(), ValidationError>)
    ensures
        validation_holds(previous_dirs@, res@, r),
{
    if res.len() != previous_dirs.len() {
        return Err(ValidationError::CountChanged);
    }
    let within = paths_within(res, previous_dirs);
    let covers = paths_within(previous_dirs, res);
    if !(within && covers) {
        proof {
            if path_set(previous_dirs@) == path_set(res@) {
                assert(path_set(res@).subset_of(path_set(previous_dirs@)));
                assert(path_set(previous_dirs@).subset_of(path_set(res@)));
            }
        }
        return Err(ValidationError::PathsChanged);
    }
    assert(path_set(previous_dirs@) =~= path_set(res@));
    let mut i: usize = 0;
    while i < previous_dirs.len()
        invariant
            i <= previous_dirs@.len(),
            previous_dirs@.len() == res@.len(),
            path_set(previous_dirs@) == path_set(res@),
            forall|j: int| 0 <= j < i ==> files_kept(#[trigger] previous_dirs@[j], res@),
        decreases previous_dirs@.len() - i,
    {
        let music_dir = &previous_dirs[i];
        assert(path_set(previous_dirs@).contains(music_dir.path@));
        let k = match find_path(res, &music_dir.path) {
            Some(k) => k,
            None => {
                proof {
                    let w = choose|w: int| 0 <= w < res@.len() && res@[w].path@ == music_dir.path@;
                    assert(res@[w].path@ == music_dir.path@);
                }
                return Err(ValidationError::PathsChanged);
            },
        };
        proof {
            assert forall|m: int| is_first_with_path(res@, music_dir.path@, m) implies m
                == k as int by {
                if m < k {
                } else if m > k {
                }
            }
        }
        let a = files_within(music_dir, &res[k]);
        let b = files_within(&res[k], music_dir);
        if !(a && b) {
            proof {
                if file_path_set(res@[k as int]) == file_path_set(*music_dir) {
                    assert(file_path_set(res@[k as int]).subset_of(file_path_set(*music_dir)));
                }
                assert(!files_kept(previous_dirs@[i as int], res@));
                assert(is_first_changed(previous_dirs@, res@, i as int));
            }
            let directory = music_dir.path.clone();
            assert(is_first_changed(previous_dirs@, res@, i as int) && directory@
                == previous_dirs@[i as int].path@);
            return Err(ValidationError::FilesChanged { directory });
        }
        assert(file_path_set(res@[k as int]) =~= file_path_set(*music_dir));
        i = i + 1;
    }
    Ok(())
}

/// No two directories of the collection share a path, as in a scan result.
pub open spec fn distinct_paths(dirs: Seq<MusicDir>) -> bool {
    forall|i: int, j: int|
        0 <= i < dirs.len() && 0 <= j < dirs.len() && i != j ==> dirs[i].path@ != dirs[j].path@
}

/// `edited` holds, at each position, a directory of the path of the directory
/// of `previous` at that position.
pub open spec fn same_paths_in_place(previous: Seq<MusicDir>, edited: Seq<MusicDir>) -> bool {
    &&& previous.len() == edited.len()
    &&& forall|i: int| 0 <= i < previous.len() ==> (#[trigger] edited[i]).path@ == previous[i].path@
}

proof fn lemma_first_with_path_in_place(previous: Seq<MusicDir>, edited: Seq<MusicDir>, k: int, m: int)
    requires
        distinct_paths(previous),
        same_paths_in_place(previous, edited),
        0 <= k < previous.len(),
        is_first_with_path(edited, previous[k].path@, m),
    ensures
        m == k,
{
    assert(edited[m].path@ == previous[m].path@);
}

proof fn lemma_path_sets_in_place(previous: Seq<MusicDir>, edited: Seq<MusicDir>)
    requires
        same_paths_in_place(previous, edited),
    ensures
        path_set(previous) == path_set(edited),
{
    assert forall|p: Seq<char>| path_set(previous).contains(p) implies path_set(edited).contains(p) by {
        let i = choose|i: int| 0 <= i < previous.len() && previous[i].path@ == p;
        assert(edited[i].path@ == p);
    }
    assert forall|p: Seq<char>| path_set(edited).contains(p) implies path_set(previous).contains(p) by {
        let i = choose|i: int| 0 <= i < edited.len() && edited[i].path@ == p;
        assert(edited[i].path@ == previous[i].path@);
    }
    assert(path_set(previous) =~= path_set(edited));
}

/// An edited collection with a directory removed, added or renamed is always
/// refused, for its count of directories or for its set of paths.
pub proof fn lemma_changed_directories_refused(
    previous: Seq<MusicDir>,
    edited: Seq<MusicDir>,
    r: Result<(), ValidationError>,
)
    requires
        previous.len() != edited.len() || path_set(previous) != path_set(edited),
        validation_holds(previous, edited, r),
    ensures
        r == Err::<(), ValidationError>(ValidationError::CountChanged) || r == Err::<
            (),
            ValidationError,
        >(ValidationError::PathsChanged),
{
}

/// An edited collection that keeps every directory and, in each, the set of
/// audio file names, is accepted whatever it did to the order of the tracks
/// and to the metadata values.
pub proof fn lemma_reordered_and_retitled_accepted(
    previous: Seq<MusicDir>,
    edited: Seq<MusicDir>,
    r: Result<(), ValidationError>,
)
    requires
        distinct_paths(previous),
        same_paths_in_place(previous, edited),
        forall|i: int|
            0 <= i < previous.len() ==> file_path_set(#[trigger] edited[i]) == file_path_set(
                previous[i],
            ),
        validation_holds(previous, edited, r),
    ensures
        r is Ok,
{
    lemma_path_sets_in_place(previous, edited);
    assert forall|k: int| 0 <= k < previous.len() implies files_kept(#[trigger] previous[k], edited) by {
        assert forall|m: int| is_first_with_path(edited, previous[k].path@, m) implies file_path_set(
            edited[m],
        ) == file_path_set(previous[k]) by {
            lemma_first_with_path_in_place(previous, edited, k, m);
        }
    }
}

/// An edited collection in which the audio file names of exactly one
/// directory changed (a file renamed) is refused for that directory's files,
/// naming that directory.
pub proof fn lemma_renamed_file_refused(
    previous: Seq<MusicDir>,
    edited: Seq<MusicDir>,
    c: int,
    r: Result<(), ValidationError>,
)
    requires
        distinct_paths(previous),
        same_paths_in_place(previous, edited),
        0 <= c < previous.len(),
        file_path_set(edited[c]) != file_path_set(previous[c]),
        forall|i: int|
            0 <= i < previous.len() && i != c ==> file_path_set(#[trigger] edited[i])
                == file_path_set(previous[i]),
        validation_holds(previous, edited, r),
    ensures
        match r {
            Err(ValidationError::FilesChanged { directory }) => directory@ == previous[c].path@,
            _ => false,
        },
{
    lemma_path_sets_in_place(previous, edited);
    assert(is_first_with_path(edited, previous[c].path@, c));
    assert(!files_kept(previous[c], edited));
    assert forall|k: int| 0 <= k < previous.len() && k != c implies files_kept(
        #[trigger] previous[k],
        edited,
    ) by {
        assert forall|m: int| is_first_with_path(edited, previous[k].path@, m) implies file_path_set(
            edited[m],
        ) == file_path_set(previous[k]) by {
            lemma_first_with_path_in_place(previous, edited, k, m);
        }
    }
    match r {
        Err(ValidationError::FilesChanged { directory }) => {
            let k = choose|k: int|
                is_first_changed(previous, edited, k) && directory@ == (#[trigger] previous[k]).path@;
            assert(k == c);
        },
        _ => {},
    }
}

} // verus!
