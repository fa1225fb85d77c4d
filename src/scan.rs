use crate::dto::{AlbumMetadata, ImageFile, Metadata, MusicDir, MusicFile, TrackMetadata};
use vstd::prelude::*;
use vstd::string::*;

verus! {

/// `s` ends with `suffix`.
pub open spec fn ends_with(s: Seq<char>, suffix: Seq<char>) -> bool {
    &&& suffix.len() <= s.len()
    &&& s.subrange(s.len() - suffix.len(), s.len() as int) == suffix
}

/// The part of `s` after its last dot (all of `s` where it has no dot) is `e`,
/// for an `e` without dots.
pub open spec fn has_last_segment(s: Seq<char>, e: Seq<char>) -> bool {
    &&& ends_with(s, e)
    &&& (s.len() == e.len() || s[s.len() - e.len() - 1] == '.')
}

/// A file name of an audio file: it ends in `.mp3`, case counting.
pub open spec fn is_audio_name(s: Seq<char>) -> bool {
    ends_with(s, seq!['.', 'm', 'p', '3'])
}

/// A file name of an image: its last dot-segment is `jpeg`, `jpg` or `png`.
pub open spec fn is_image_name(s: Seq<char>) -> bool {
    ||| has_last_segment(s, seq!['j', 'p', 'e', 'g'])
    ||| has_last_segment(s, seq!['j', 'p', 'g'])
    ||| has_last_segment(s, seq!['p', 'n', 'g'])
}

fn has_suffix(s: &str, suffix: &str) -> (r: bool)
    ensures
        r == ends_with(s@, suffix@),
{
    let n = s.unicode_len();
    let m = suffix.unicode_len();
    if m > n {
        return false;
    }
    let mut i: usize = 0;
    while i < m
        invariant
            n == s@.len(),
            m == suffix@.len(),
            m <= n,
            i <= m,
            forall|j: int| 0 <= j < i ==> s@[n - m + j] == suffix@[j],
        decreases m - i,
    {
        if s.get_char(n - m + i) != suffix.get_char(i) {
            assert(s@.subrange(n - m, n as int)[i as int] != suffix@[i as int]);
            return false;
        }
        i = i + 1;
    }
    assert(s@.subrange(n - m, n as int) =~= suffix@);
    true
}

fn last_segment_is(s: &str, e: &str) -> (r: bool)
    ensures
        r == (ends_with(s@, e@) && (s@.len() == e@.len() || s@[s@.len() - e@.len() - 1] == '.')),
{
    if !has_suffix(s, e) {
        return false;
    }
    let n = s.unicode_len();
    let m = e.unicode_len();
    n == m || s.get_char(n - m - 1) == '.'
}

/// Whether `name` is the file name of an audio file.
pub fn is_audio_file_name(name: &str) -> (r: bool)
    ensures
        r == is_audio_name(name@),
{
    proof {
        reveal_strlit(".mp3");
    }
    assert(".mp3"@ =~= seq!['.', 'm', 'p', '3']);
    has_suffix(name, ".mp3")
}

/// Whether `name` is the file name of an image.
pub fn is_image_file_name(name: &str) -> (r: bool)
    ensures
        r == is_image_name(name@),
{
    proof {
        reveal_strlit("jpeg");
        reveal_strlit("jpg");
        reveal_strlit("png");
    }
    assert("jpeg"@ =~= seq!['j', 'p', 'e', 'g']);
    assert("jpg"@ =~= seq!['j', 'p', 'g']);
    assert("png"@ =~= seq!['p', 'n', 'g']);
    last_segment_is(name, "jpeg") || last_segment_is(name, "jpg") || last_segment_is(name, "png")
}

/// No name is both the name of an audio file and of an image.
pub proof fn lemma_audio_is_not_image(s: Seq<char>)
    ensures
        !(is_audio_name(s) && is_image_name(s)),
{
    if is_audio_name(s) {
        assert(s.subrange(s.len() - 4, s.len() as int)[3] == s[s.len() - 1]);
        if has_last_segment(s, seq!['j', 'p', 'e', 'g']) {
            assert(s.subrange(s.len() - 4, s.len() as int)[3] == s[s.len() - 1]);
        }
        if has_last_segment(s, seq!['j', 'p', 'g']) {
            assert(s.subrange(s.len() - 3, s.len() as int)[2] == s[s.len() - 1]);
        }
        if has_last_segment(s, seq!['p', 'n', 'g']) {
            assert(s.subrange(s.len() - 3, s.len() as int)[2] == s[s.len() - 1]);
        }
    }
}

/// Some position of `perm` holds `k`.
pub open spec fn is_placed(perm: Seq<int>, k: int) -> bool {
    exists|a: int| 0 <= a < perm.len() && perm[a] == k
}

/// `perm` places the items of `input` into `output`, ordered by key, items of
/// equal key in their order in `input`.
pub open spec fn is_stable_order(
    input: Seq<(u32, MusicFile)>,
    output: Seq<MusicFile>,
    perm: Seq<int>,
) -> bool {
    &&& perm.len() == input.len()
    &&& output.len() == input.len()
    &&& forall|a: int| 0 <= a < perm.len() ==> 0 <= #[trigger] perm[a] < input.len()
    &&& forall|a: int| 0 <= a < perm.len() ==> output[a] == input[#[trigger] perm[a]].1
    &&& forall|k: int| 0 <= k < input.len() ==> #[trigger] is_placed(perm, k)
    &&& forall|a: int, b: int|
        0 <= a < b < perm.len() ==> #[trigger] input[perm[a]].0 < #[trigger] input[perm[b]].0 || (
        input[perm[a]].0 == input[perm[b]].0 && perm[a] < perm[b])
}

/// `output` is `input` sorted by key, stably, with the keys dropped.
pub open spec fn is_stably_sorted(input: Seq<(u32, MusicFile)>, output: Seq<MusicFile>) -> bool {
    exists|perm: Seq<int>| is_stable_order(input, output, perm)
}

/// Orders the audio files of a directory by their track number, files of the
/// same number in the order given, and drops the numbers.
pub fn sorted_by_track_number(music_files_with_tracks: Vec<(u32, MusicFile)>) -> (r: Vec<MusicFile>)
    ensures
        is_stably_sorted(music_files_with_tracks@, r@),
{
    let ghost input = music_files_with_tracks@;
    let ghost n = input.len();
    let total = music_files_with_tracks.len();
    let mut rest = music_files_with_tracks;
    let mut keys: Vec<u32> = Vec::new();
    let mut files: Vec<MusicFile> = Vec::new();
    let ghost mut perm: Seq<int> = Seq::empty();
    let mut i: usize = 0;
    while rest.len() > 0
        invariant
            n == input.len(),
            n == total,
            i <= n,
            rest@ == input.subrange(i as int, n as int),
            keys@.len() == i,
            files@.len() == i,
            perm.len() == i,
            forall|a: int| 0 <= a < i ==> 0 <= #[trigger] perm[a] < i,
            forall|a: int| 0 <= a < i ==> keys@[a] == input[#[trigger] perm[a]].0,
            forall|a: int| 0 <= a < i ==> files@[a] == input[#[trigger] perm[a]].1,
            forall|k: int| 0 <= k < i ==> #[trigger] is_placed(perm, k),
            forall|a: int, b: int|
                0 <= a < b < i ==> #[trigger] keys@[a] < #[trigger] keys@[b] || (keys@[a]
                    == keys@[b] && perm[a] < perm[b]),
        decreases rest@.len(),
    {
        let (key, file) = rest.remove(0);
        assert((key, file) == input[i as int]);
        let mut p: usize = 0;
        while p < keys.len() && keys[p] <= key
            invariant
                p <= keys@.len(),
                forall|q: int| 0 <= q < p ==> keys@[q] <= key,
            decreases keys@.len() - p,
        {
            p = p + 1;
        }
        let ghost old_keys = keys@;
        let ghost old_files = files@;
        let ghost old_perm = perm;
        assert(forall|q: int| p <= q < i ==> keys@[q] > key) by {
            assert forall|q: int| p <= q < i implies keys@[q] > key by {
                if q > p {
                    assert(keys@[p as int] <= keys@[q]);
                }
            }
        }
        keys.insert(p, key);
        files.insert(p, file);
        proof {
            perm = old_perm.insert(p as int, i as int);
            assert forall|a: int| 0 <= a < i + 1 implies 0 <= #[trigger] perm[a] < i + 1
                && keys@[a] == input[perm[a]].0 && files@[a] == input[perm[a]].1 by {
                if a < p {
                    assert(perm[a] == old_perm[a]);
                } else if a > p {
                    assert(perm[a] == old_perm[a - 1]);
                }
            }
            assert forall|k: int| 0 <= k < i + 1 implies #[trigger] is_placed(perm, k) by {
                if k == i {
                    assert(perm[p as int] == k);
                } else {
                    assert(is_placed(old_perm, k));
                    let a0 = choose|a: int| 0 <= a < old_perm.len() && old_perm[a] == k;
                    if a0 < p {
                        assert(perm[a0] == k);
                    } else {
                        assert(perm[a0 + 1] == k);
                    }
                }
            }
            assert forall|a: int, b: int| 0 <= a < b < i + 1 implies #[trigger] keys@[a]
                < #[trigger] keys@[b] || (keys@[a] == keys@[b] && perm[a] < perm[b]) by {
                if a < p && b < p {
                    assert(keys@[a] == old_keys[a] && keys@[b] == old_keys[b]);
                } else if a < p && b == p {
                    assert(keys@[a] == old_keys[a]);
                } else if a < p && b > p {
                    assert(keys@[a] == old_keys[a] && keys@[b] == old_keys[b - 1]);
                } else if a == p {
                    assert(keys@[b] == old_keys[b - 1]);
                } else {
                    assert(keys@[a] == old_keys[a - 1] && keys@[b] == old_keys[b - 1]);
                }
            }
        }
        i = i + 1;
    }
    proof {
        assert forall|a: int, b: int| 0 <= a < b < perm.len() implies #[trigger] input[perm[a]].0
            < #[trigger] input[perm[b]].0 || (input[perm[a]].0 == input[perm[b]].0 && perm[a]
            < perm[b]) by {
            assert(keys@[a] < keys@[b] || (keys@[a] == keys@[b] && perm[a] < perm[b]));
        }
        assert(is_stable_order(input, files@, perm));
    }
    files
}

/// One entry of a directory, as read from the file system.
#[derive(Debug, Clone, PartialEq, Eq)]
pub struct DirEntryInfo {
    /// The file name, with what is not valid Unicode replaced.
    pub name: String,
    /// The exact file name, where it is valid Unicode.
    pub unicode_name: Option<String>,
    /// The entry is a directory.
    pub is_dir: bool,
    /// The metadata read from the file's tag, for an audio file; its track
    /// number is the provisional one, the entry's position.
    pub tags: Option<Metadata>,
}

/// What probing one directory found: its album, if it holds audio files, and
/// the positions of its subdirectories among its entries.
#[derive(Debug, Clone, PartialEq, Eq)]
pub struct DirProbe {
    pub music_dir: Option<MusicDir>,
    pub subdirs: Vec<usize>,
}

/// Why probing a directory failed.
#[derive(Debug, Clone, PartialEq, Eq)]
pub enum ScanError {
    /// The name of the audio file or image at this position is not valid Unicode.
    NonUnicodeName { index: usize },
    /// The path of a directory holding audio files is not valid Unicode.
    NonUnicodePath,
}

/// The entry names an audio file or an image.
pub open spec fn qualifies(e: DirEntryInfo) -> bool {
    is_audio_name(e.name@) || is_image_name(e.name@)
}

/// Tags were read for exactly the audio files.
pub open spec fn tags_given(es: Seq<DirEntryInfo>) -> bool {
    forall|i: int| 0 <= i < es.len() ==> (#[trigger] es[i]).tags.is_some() == is_audio_name(es[i].name@)
}

/// The position of the first audio file or image whose name is not valid Unicode.
pub open spec fn first_bad(es: Seq<DirEntryInfo>) -> Option<int>
    decreases es.len(),
{
    if es.len() == 0 {
        None
    } else {
        match first_bad(es.drop_last()) {
            Some(k) => Some(k),
            None => if qualifies(es.last()) && es.last().unicode_name is None {
                Some(es.len() - 1)
            } else {
                None
            },
        }
    }
}

/// The album part of a tag.
pub open spec fn album_part(m: Metadata) -> AlbumMetadata {
    AlbumMetadata { album: m.album, album_artist: m.album_artist, year: m.year }
}

/// The album metadata of the first audio file, if there is one.
pub open spec fn album_of(es: Seq<DirEntryInfo>) -> Option<AlbumMetadata>
    decreases es.len(),
{
    if es.len() == 0 {
        None
    } else {
        match album_of(es.drop_last()) {
            Some(a) => Some(a),
            None => if is_audio_name(es.last().name@) {
                Some(album_part(es.last().tags->Some_0))
            } else {
                None
            },
        }
    }
}

/// The audio files, in the order of the entries, each with its track number.
pub open spec fn audio_items(es: Seq<DirEntryInfo>) -> Seq<(u32, MusicFile)>
    decreases es.len(),
{
    if es.len() == 0 {
        Seq::empty()
    } else if is_audio_name(es.last().name@) {
        let m = es.last().tags->Some_0;
        audio_items(es.drop_last()).push(
            (
                m.track,
                MusicFile {
                    file_path: es.last().unicode_name->Some_0,
                    metadata: TrackMetadata { title: m.title, artist: m.artist },
                },
            ),
        )
    } else {
        audio_items(es.drop_last())
    }
}

/// The images, in the order of the entries, none chosen as cover.
pub open spec fn image_items(es: Seq<DirEntryInfo>) -> Seq<ImageFile>
    decreases es.len(),
{
    if es.len() == 0 {
        Seq::empty()
    } else if is_image_name(es.last().name@) {
        image_items(es.drop_last()).push(
            ImageFile { file_path: es.last().unicode_name->Some_0, use_as_cover: false },
        )
    } else {
        image_items(es.drop_last())
    }
}

/// The positions of the subdirectories, in order.
pub open spec fn subdir_indices(es: Seq<DirEntryInfo>) -> Seq<usize>
    decreases es.len(),
{
    if es.len() == 0 {
        Seq::empty()
    } else if es.last().is_dir {
        subdir_indices(es.drop_last()).push((es.len() - 1) as usize)
    } else {
        subdir_indices(es.drop_last())
    }
}

proof fn lemma_first_bad_extends(es: Seq<DirEntryInfo>, k: int)
    requires
        0 <= k <= es.len(),
        first_bad(es.subrange(0, k)) is Some,
    ensures
        first_bad(es) == first_bad(es.subrange(0, k)),
    decreases es.len() - k,
{
    if k == es.len() {
        assert(es.subrange(0, k) =~= es);
    } else {
        assert(es.subrange(0, k + 1).drop_last() =~= es.subrange(0, k));
        lemma_first_bad_extends(es, k + 1);
    }
}

/// A directory has an album exactly when one of its entries is an audio file.
pub proof fn lemma_album_iff_audio(es: Seq<DirEntryInfo>)
    ensures
        album_of(es) is Some <==> exists|i: int| 0 <= i < es.len() && is_audio_name(#[trigger] es[i].name@),
    decreases es.len(),
{
    if es.len() > 0 {
        lemma_album_iff_audio(es.drop_last());
        if album_of(es.drop_last()) is Some {
            let i = choose|i: int| 0 <= i < es.drop_last().len() && is_audio_name(#[trigger] es.drop_last()[i].name@);
            assert(is_audio_name(es[i].name@));
        }
        if exists|i: int| 0 <= i < es.len() && is_audio_name(#[trigger] es[i].name@) {
            let i = choose|i: int| 0 <= i < es.len() && is_audio_name(#[trigger] es[i].name@);
            if i < es.len() - 1 {
                assert(is_audio_name(es.drop_last()[i].name@));
            }
        }
    }
}

/// The text of a file name that must be valid Unicode, or the error that names
/// the entry's position.
pub fn assert_unicode_path(path: Option<String>, index: usize) -> (r: Result<String, ScanError>)
    ensures
        match path {
            Some(p) => r == Ok::<String, ScanError>(p),
            None => r == Err::<String, ScanError>(ScanError::NonUnicodeName { index }),
        },
{
    match path {
        Some(p) => Ok(p),
        None => Err(ScanError::NonUnicodeName { index }),
    }
}

/// Probes one directory from its entries, in the order the file system gave
/// them: audio files become its tracks, sorted by track number; images its
/// candidate covers; subdirectories are handed back for probing. A directory
/// without audio files gives no album. `path` is the directory's path, where
/// it is valid Unicode.
pub fn scan_dir(path: Option<String>, entries: Vec<DirEntryInfo>) -> (r: Result<DirProbe, ScanError>)
    requires
        tags_given(entries@),
    ensures
        (album_of(entries@) is Some) <==> exists|i: int|
            0 <= i < entries@.len() && is_audio_name(#[trigger] entries@[i].name@),
        match r {
            Ok(probe) => {
                &&& first_bad(entries@) is None
                &&& probe.subdirs@ == subdir_indices(entries@)
                &&& match probe.music_dir {
                    None => album_of(entries@) is None,
                    Some(d) => {
                        &&& album_of(entries@) == Some(d.metadata)
                        &&& path == Some(d.path)
                        &&& is_stably_sorted(audio_items(entries@), d.music_files@)
                        &&& d.image_files@ == image_items(entries@)
                    },
                }
            },
            Err(ScanError::NonUnicodeName { index }) => first_bad(entries@) == Some(index as int),
            Err(ScanError::NonUnicodePath) => {
                &&& first_bad(entries@) is None
                &&& album_of(entries@) is Some
                &&& path is None
            },
        },
{
    proof {
        lemma_album_iff_audio(entries@);
    }
    let ghost es = entries@;
    let ghost n = es.len();
    let total = entries.len();
    let mut rest = entries;
    let mut music_files: Vec<(u32, MusicFile)> = Vec::new();
    let mut image_files: Vec<ImageFile> = Vec::new();
    let mut subdirs: Vec<usize> = Vec::new();
    let mut album_metadata: Option<AlbumMetadata> = None;
    let mut i: usize = 0;
    while rest.len() > 0
        invariant
            n == es.len(),
            n == total,
            i <= n,
            es == entries@,
            tags_given(es),
            (album_of(es) is Some) <==> exists|j: int|
                0 <= j < es.len() && is_audio_name(#[trigger] es[j].name@),
            rest@ == es.subrange(i as int, n as int),
            first_bad(es.subrange(0, i as int)) is None,
            album_metadata == album_of(es.subrange(0, i as int)),
            music_files@ == audio_items(es.subrange(0, i as int)),
            image_files@ == image_items(es.subrange(0, i as int)),
            subdirs@ == subdir_indices(es.subrange(0, i as int)),
        decreases rest@.len(),
    {
        let entry = rest.remove(0);
        let ghost pre = es.subrange(0, i as int);
        let ghost next = es.subrange(0, i as int + 1);
        assert(entry == es[i as int]);
        assert(next.drop_last() =~= pre);
        assert(next.last() == entry);
        let DirEntryInfo { name, unicode_name, is_dir, tags } = entry;
        if is_dir {
            subdirs.push(i);
        }
        if is_audio_file_name(name.as_str()) {
            let file_path = match assert_unicode_path(unicode_name, i) {
                Ok(p) => p,
                Err(_) => {
                    proof {
                        lemma_first_bad_extends(es, i as int + 1);
                    }
                    return Err(ScanError::NonUnicodeName { index: i });
                },
            };
            let (track, track_metadata, new_album_metadata) = tags.unwrap().into_track_and_metadatas();
            if album_metadata.is_none() {
                album_metadata = Some(new_album_metadata);
            }
            music_files.push((track, MusicFile { file_path, metadata: track_metadata }));
        } else if is_image_file_name(name.as_str()) {
            let file_path = match assert_unicode_path(unicode_name, i) {
                Ok(p) => p,
                Err(_) => {
                    proof {
                        lemma_first_bad_extends(es, i as int + 1);
                    }
                    return Err(ScanError::NonUnicodeName { index: i });
                },
            };
            image_files.push(ImageFile { file_path, use_as_cover: false });
        }
        proof {
            lemma_audio_is_not_image(name@);
        }
        i = i + 1;
    }
    assert(es.subrange(0, n as int) =~= es);
    let music_files = sorted_by_track_number(music_files);
    match album_metadata {
        None => Ok(DirProbe { music_dir: None, subdirs }),
        Some(metadata) => match path {
            Some(p) => Ok(
                DirProbe {
                    music_dir: Some(MusicDir { path: p, metadata, music_files, image_files }),
                    subdirs,
                },
            ),
            None => Err(ScanError::NonUnicodePath),
        },
    }
}

/// The exact name of an entry that has one.
pub open spec fn entry_name(e: DirEntryInfo) -> Seq<char> {
    e.unicode_name->Some_0@
}

/// The names of the audio files and images among the entries.
pub open spec fn qualifying_names(es: Seq<DirEntryInfo>) -> Set<Seq<char>> {
    Set::new(|p: Seq<char>| exists|i: int| 0 <= i < es.len() && qualifies(es[i]) && #[trigger] entry_name(es[i]) == p)
}

/// How many of the entries are audio files or images.
pub open spec fn qualifying_count(es: Seq<DirEntryInfo>) -> nat
    decreases es.len(),
{
    if es.len() == 0 {
        0
    } else {
        qualifying_count(es.drop_last()) + if qualifies(es.last()) {
            1nat
        } else {
            0nat
        }
    }
}

/// The file names a directory lists, tracks and images together.
pub open spec fn listed_names(d: MusicDir) -> Set<Seq<char>> {
    Set::new(
        |p: Seq<char>|
            (exists|a: int| 0 <= a < d.music_files@.len() && #[trigger] d.music_files@[a].file_path@ == p)
                || (exists|b: int| 0 <= b < d.image_files@.len() && #[trigger] d.image_files@[b].file_path@ == p),
    )
}

spec fn in_audio(items: Seq<(u32, MusicFile)>, p: Seq<char>) -> bool {
    exists|a: int| 0 <= a < items.len() && #[trigger] items[a].1.file_path@ == p
}

spec fn in_images(images: Seq<ImageFile>, p: Seq<char>) -> bool {
    exists|b: int| 0 <= b < images.len() && #[trigger] images[b].file_path@ == p
}

proof fn lemma_items_name_qualifying(es: Seq<DirEntryInfo>, p: Seq<char>)
    ensures
        (in_audio(audio_items(es), p) || in_images(image_items(es), p)) <==> qualifying_names(es).contains(p),
        audio_items(es).len() + image_items(es).len() == qualifying_count(es),
    decreases es.len(),
{
    if es.len() > 0 {
        let init = es.drop_last();
        let e = es.last();
        lemma_items_name_qualifying(init, p);
        lemma_audio_is_not_image(e.name@);
        let ai = audio_items(init);
        let ii = image_items(init);
        if in_audio(ai, p) {
            let a = choose|a: int| 0 <= a < ai.len() && #[trigger] ai[a].1.file_path@ == p;
            assert(audio_items(es)[a] == ai[a]);
        }
        if in_images(ii, p) {
            let b = choose|b: int| 0 <= b < ii.len() && #[trigger] ii[b].file_path@ == p;
            assert(image_items(es)[b] == ii[b]);
        }
        if qualifying_names(init).contains(p) {
            let i = choose|i: int| 0 <= i < init.len() && qualifies(init[i]) && #[trigger] entry_name(init[i]) == p;
            assert(es[i] == init[i]);
        }
        if in_audio(audio_items(es), p) {
            let a = choose|a: int| 0 <= a < audio_items(es).len() && #[trigger] audio_items(es)[a].1.file_path@ == p;
            if a < ai.len() {
                assert(audio_items(es)[a] == ai[a]);
            } else {
                assert(entry_name(es[es.len() - 1]) == p);
            }
        }
        if in_images(image_items(es), p) {
            let b = choose|b: int| 0 <= b < image_items(es).len() && #[trigger] image_items(es)[b].file_path@ == p;
            if b < ii.len() {
                assert(image_items(es)[b] == ii[b]);
            } else {
                assert(entry_name(es[es.len() - 1]) == p);
            }
        }
        if qualifying_names(es).contains(p) {
            let i = choose|i: int| 0 <= i < es.len() && qualifies(es[i]) && #[trigger] entry_name(es[i]) == p;
            if i < init.len() {
                assert(init[i] == es[i]);
                assert(qualifying_names(init).contains(p));
            } else if is_audio_name(e.name@) {
                assert(audio_items(es)[ai.len() as int].1.file_path@ == p);
            } else {
                assert(image_items(es)[ii.len() as int].file_path@ == p);
            }
        }
    }
}

/// A probed directory lists, among its tracks and images together, exactly the
/// names of the audio files and images among its entries, each once: as many
/// as there are such entries.
pub proof fn lemma_probe_lists_each_file(es: Seq<DirEntryInfo>, d: MusicDir)
    requires
        is_stably_sorted(audio_items(es), d.music_files@),
        d.image_files@ == image_items(es),
    ensures
        listed_names(d) == qualifying_names(es),
        d.music_files@.len() + d.image_files@.len() == qualifying_count(es),
{
    let items = audio_items(es);
    let perm = choose|perm: Seq<int>| is_stable_order(items, d.music_files@, perm);
    assert forall|p: Seq<char>| listed_names(d).contains(p) <==> qualifying_names(es).contains(p) by {
        lemma_items_name_qualifying(es, p);
        if exists|a: int| 0 <= a < d.music_files@.len() && #[trigger] d.music_files@[a].file_path@ == p {
            let a = choose|a: int| 0 <= a < d.music_files@.len() && #[trigger] d.music_files@[a].file_path@ == p;
            assert(items[perm[a]].1.file_path@ == p);
        }
        if in_audio(items, p) {
            let k = choose|k: int| 0 <= k < items.len() && #[trigger] items[k].1.file_path@ == p;
            assert(is_placed(perm, k));
            let a = choose|a: int| 0 <= a < perm.len() && perm[a] == k;
            assert(d.music_files@[a].file_path@ == p);
        }
        if exists|b: int| 0 <= b < d.image_files@.len() && #[trigger] d.image_files@[b].file_path@ == p {
            let b = choose|b: int| 0 <= b < d.image_files@.len() && #[trigger] d.image_files@[b].file_path@ == p;
            assert(image_items(es)[b].file_path@ == p);
        }
    }
    assert(listed_names(d) =~= qualifying_names(es));
    lemma_items_name_qualifying(es, Seq::empty());
}

} // verus!
