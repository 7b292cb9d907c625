//! Turning the files found under a music directory into tracks: the filter on
//! audio extensions, and the fields that a file's place in the tree supplies
//! where its tag block supplies none.

use vstd::prelude::*;
use crate::music::{
    MusicLibrary, TagFields, TagFieldsView, Track, TrackView, tags_view, track_views,
};
use crate::paths::{
    components_of, extension, extension_of, file_name, file_name_of, is_plain_name,
    lemma_components_append, lemma_extension_append, lemma_file_name_append,
    relative_components, relative_components_of, texts,
};
use crate::text::{ascii_lowered, str_eq, to_ascii_lower};

verus! {

/// Whether `ext`, already in small letters, is the extension of an audio
/// container that the index takes in.
pub open spec fn is_audio_extension_text(ext: Seq<char>) -> bool {
    ext == "mp3"@ || ext == "flac"@ || ext == "wav"@ || ext == "m4a"@
}

/// Whether `ext`, already in small letters, is the extension of an audio
/// container that the index takes in.
pub fn is_audio_extension(ext: &str) -> (audio: bool)
    ensures
        audio == is_audio_extension_text(ext@),
{
    str_eq(ext, "mp3") || str_eq(ext, "flac") || str_eq(ext, "wav") || str_eq(ext, "m4a")
}

/// Whether the file that `path` names has an audio extension, written in
/// capital letters, in small letters or in a mix of both.
pub open spec fn is_audio_path(path: Seq<char>) -> bool {
    match extension_of(path) {
        Some(ext) => is_audio_extension_text(ascii_lowered(ext)),
        None => false,
    }
}

/// Whether the file that `path` names has an audio extension, written in
/// capital letters, in small letters or in a mix of both.
pub fn has_audio_extension(path: &str) -> (audio: bool)
    ensures
        audio == is_audio_path(path@),
{
    match extension(path) {
        Some(ext) => {
            let lower = to_ascii_lower(ext.as_str());
            is_audio_extension(lower.as_str())
        },
        None => false,
    }
}

/// The fields that the place of `path` below `root` supplies. With two or
/// more directories above the file, the first is the artist and the second the
/// album; with one, it is the artist; the title is the file's name, extension
/// included.
pub open spec fn fallback_fields(root: Seq<char>, path: Seq<char>) -> TagFieldsView {
    let below = relative_components_of(root, path);
    TagFieldsView {
        title: match file_name_of(path) {
            Some(name) => name,
            None => Seq::<char>::empty(),
        },
        artist: if below.len() >= 2 {
            below[0]
        } else {
            Seq::<char>::empty()
        },
        album: if below.len() >= 3 {
            below[1]
        } else {
            Seq::<char>::empty()
        },
    }
}

/// The embedded value where there is one, else the fallback.
pub open spec fn preferred(embedded: Seq<char>, fallback: Seq<char>) -> Seq<char> {
    if embedded.len() > 0 {
        embedded
    } else {
        fallback
    }
}

/// The fields that a tag block contributes: its own, or three empty ones
/// where the file has no readable block.
pub open spec fn embedded_fields(tags: Option<TagFieldsView>) -> TagFieldsView {
    match tags {
        Some(fields) => fields,
        None => TagFieldsView {
            title: Seq::<char>::empty(),
            artist: Seq::<char>::empty(),
            album: Seq::<char>::empty(),
        },
    }
}

/// The track recorded for the file `path` found below `root`, whose tag block
/// gave `tags`: field by field, the embedded value where it is not empty, and
/// the value that the path supplies otherwise.
pub open spec fn track_for(root: Seq<char>, path: Seq<char>, tags: Option<TagFieldsView>)
    -> TrackView {
    let embedded = embedded_fields(tags);
    let fallback = fallback_fields(root, path);
    TrackView {
        path: path,
        artist: preferred(embedded.artist, fallback.artist),
        album: preferred(embedded.album, fallback.album),
        title: preferred(embedded.title, fallback.title),
    }
}

fn prefer(embedded: String, fallback: String) -> (chosen: String)
    ensures
        chosen@ == preferred(embedded@, fallback@),
{
    if embedded.as_str().is_empty() {
        fallback
    } else {
        embedded
    }
}

/// Builds the track for the file `path` found below `root`, whose tag block
/// gave `tags`.
pub fn build_track(root: &str, path: &str, tags: Option<TagFields>) -> (track: Track)
    ensures
        track@ == track_for(root@, path@, tags_view(tags)),
{
    let below = relative_components(root, path);
    let fallback_artist = if below.len() >= 2 {
        assert(texts(below@)[0] == below@[0]@);
        below[0].clone()
    } else {
        String::new()
    };
    let fallback_album = if below.len() >= 3 {
        assert(texts(below@)[1] == below@[1]@);
        below[1].clone()
    } else {
        String::new()
    };
    let fallback_title = match file_name(path) {
        Some(name) => name,
        None => String::new(),
    };
    let (title, artist, album) = match tags {
        Some(fields) => (fields.title, fields.artist, fields.album),
        None => (String::new(), String::new(), String::new()),
    };
    Track {
        path: path.to_owned(),
        artist: prefer(artist, fallback_artist),
        album: prefer(album, fallback_album),
        title: prefer(title, fallback_title),
    }
}

/// A file met while walking a music directory, with what its tag block gave.
#[derive(Debug)]
pub struct ScannedFile {
    pub path: String,
    pub tags: Option<TagFields>,
}

/// The mathematical value of a [`ScannedFile`].
pub struct ScannedFileView {
    pub path: Seq<char>,
    pub tags: Option<TagFieldsView>,
}

impl View for ScannedFile {
    type V = ScannedFileView;

    open spec fn view(&self) -> ScannedFileView {
        ScannedFileView { path: self.path@, tags: tags_view(self.tags) }
    }
}

/// The values of a list of scanned files, in order.
pub open spec fn scanned_views(files: Seq<ScannedFile>) -> Seq<ScannedFileView> {
    Seq::new(files.len(), |i: int| files[i]@)
}

/// The tracks that a scan of `root` records for the files it met: one for
/// each file with an audio extension, in the order in which they were met.
pub open spec fn scanned_tracks(root: Seq<char>, files: Seq<ScannedFileView>) -> Seq<TrackView> {
    files.filter(|file: ScannedFileView| is_audio_path(file.path)).map_values(
        |file: ScannedFileView| track_for(root, file.path, file.tags),
    )
}

impl MusicLibrary {
    /// Indexes the files met under `music_dir`: every file with an audio
    /// extension becomes a track, whatever its tags hold, and no other file
    /// does.
    pub fn scan_dir(music_dir: &str, files: &Vec<ScannedFile>) -> (library: Self)
        ensures
            library@ == scanned_tracks(music_dir@, scanned_views(files@)),
    {
        let mut tracks: Vec<Track> = Vec::new();
        let ghost all = scanned_views(files@);
        let ghost audio = |file: ScannedFileView| is_audio_path(file.path);
        let ghost record = |file: ScannedFileView| track_for(music_dir@, file.path, file.tags);
        let mut i: usize = 0;
        proof {
            reveal(Seq::filter);
            assert(all.take(0) =~= Seq::<ScannedFileView>::empty());
            assert(track_views(tracks@) =~= all.take(0).filter(audio).map_values(record));
        }
        while i < files.len()
            invariant
                i <= files.len(),
                all == scanned_views(files@),
                audio == |file: ScannedFileView| is_audio_path(file.path),
                record == |file: ScannedFileView| track_for(music_dir@, file.path, file.tags),
                track_views(tracks@) == all.take(i as int).filter(audio).map_values(record),
            decreases files.len() - i,
        {
            let file = &files[i];
            proof {
                reveal(Seq::filter);
                assert(all.take(i + 1).drop_last() =~= all.take(i as int));
                assert(all.take(i + 1).last() == file@);
            }
            if has_audio_extension(file.path.as_str()) {
                let tags = match &file.tags {
                    Some(fields) => Some(fields.clone()),
                    None => None,
                };
                let ghost held = track_views(tracks@);
                let track = build_track(music_dir, file.path.as_str(), tags);
                tracks.push(track);
                proof {
                    assert(track_views(tracks@) =~= held.push(record(file@)));
                    let kept = all.take(i as int).filter(audio);
                    assert(kept.push(file@).map_values(record) =~= kept.map_values(record).push(
                        record(file@),
                    ));
                }
            }
            i += 1;
        }
        assert(all.take(i as int) =~= all);
        MusicLibrary { tracks }
    }
}

/// A file laid out as `root/artist/album/song`, whose tag block gives nothing,
/// is recorded under that artist and album, with the whole file name as its
/// title.
pub proof fn lemma_layout_supplies_fields(
    root: Seq<char>,
    artist: Seq<char>,
    album: Seq<char>,
    song: Seq<char>,
    tags: Option<TagFieldsView>,
)
    requires
        root.len() > 0,
        is_plain_name(artist),
        is_plain_name(album),
        is_plain_name(song),
        embedded_fields(tags).title.len() == 0,
        embedded_fields(tags).artist.len() == 0,
        embedded_fields(tags).album.len() == 0,
    ensures
        track_for(root, root + seq!['/'] + artist + seq!['/'] + album + seq!['/'] + song, tags)
            == (TrackView {
            path: root + seq!['/'] + artist + seq!['/'] + album + seq!['/'] + song,
            artist: artist,
            album: album,
            title: song,
        }),
{
    let one = root + seq!['/'] + artist;
    let two = one + seq!['/'] + album;
    let path = two + seq!['/'] + song;
    lemma_components_append(root, artist);
    lemma_components_append(one, album);
    lemma_components_append(two, song);
    lemma_file_name_append(two, song);
    let base = components_of(root);
    let full = components_of(path);
    assert(full =~= base + seq![artist, album, song]);
    assert(base.is_prefix_of(full));
    assert(full.skip(base.len() as int) =~= seq![artist, album, song]);
}

/// Each field of a track is the embedded one where the tag block holds a value
/// for it, and the one that the path supplies only where it does not; the
/// choice is made for each field by itself.
pub proof fn lemma_embedded_fields_win(root: Seq<char>, path: Seq<char>, fields: TagFieldsView)
    ensures
        fields.title.len() > 0 ==> track_for(root, path, Some(fields)).title == fields.title,
        fields.artist.len() > 0 ==> track_for(root, path, Some(fields)).artist == fields.artist,
        fields.album.len() > 0 ==> track_for(root, path, Some(fields)).album == fields.album,
        fields.title.len() == 0 ==> track_for(root, path, Some(fields)).title == fallback_fields(
            root,
            path,
        ).title,
        fields.artist.len() == 0 ==> track_for(root, path, Some(fields)).artist
            == fallback_fields(root, path).artist,
        fields.album.len() == 0 ==> track_for(root, path, Some(fields)).album == fallback_fields(
            root,
            path,
        ).album,
        track_for(root, path, Some(fields)).path == path,
{
}

/// Whether a file passes the audio filter is decided by its extension with
/// the capital letters made small: a file `stem.ext` in a directory is taken in
/// exactly where `ext`, so written, is one of the audio extensions.
pub proof fn lemma_audio_filter_goes_by_extension(
    directory: Seq<char>,
    stem: Seq<char>,
    ext: Seq<char>,
)
    requires
        directory.len() > 0,
        stem.len() > 0,
        !ext.contains('.'),
        is_plain_name(stem + seq!['.'] + ext),
    ensures
        is_audio_path(directory + seq!['/'] + (stem + seq!['.'] + ext))
            == is_audio_extension_text(ascii_lowered(ext)),
{
    lemma_extension_append(directory, stem, ext);
}

/// The audio filter does not tell capital letters from small ones: two files
/// whose extensions differ in nothing else are both taken in or both left
/// out.
pub proof fn lemma_audio_filter_ignores_case(one: Seq<char>, other: Seq<char>)
    requires
        extension_of(one) is Some,
        extension_of(other) is Some,
        ascii_lowered(extension_of(one)->0) == ascii_lowered(extension_of(other)->0),
    ensures
        is_audio_path(one) == is_audio_path(other),
{
}

/// A scan records exactly as many tracks as it met files with an audio
/// extension.
pub proof fn lemma_scan_counts_audio_files(root: Seq<char>, files: Seq<ScannedFileView>)
    ensures
        scanned_tracks(root, files).len() == files.filter(
            |file: ScannedFileView| is_audio_path(file.path),
        ).len(),
{
}

} // verus!
