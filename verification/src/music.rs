//! The records of an indexed music collection.

use vstd::prelude::*;

verus! {

/// One indexed audio file: its host path and the three descriptive fields.
/// A field that is not known is the empty string.
#[derive(Debug)]
pub struct Track {
    pub path: String,
    pub artist: String,
    pub album: String,
    pub title: String,
}

/// The mathematical value of a [`Track`]: its four fields as character
/// sequences.
pub struct TrackView {
    pub path: Seq<char>,
    pub artist: Seq<char>,
    pub album: Seq<char>,
    pub title: Seq<char>,
}

impl View for Track {
    type V = TrackView;

    open spec fn view(&self) -> TrackView {
        TrackView { path: self.path@, artist: self.artist@, album: self.album@, title: self.title@ }
    }
}

impl Clone for Track {
    fn clone(&self) -> (copy: Self)
        ensures
            copy == *self,
    {
        Track {
            path: self.path.clone(),
            artist: self.artist.clone(),
            album: self.album.clone(),
            title: self.title.clone(),
        }
    }
}

/// The values of a list of tracks, in order.
pub open spec fn track_views(tracks: Seq<Track>) -> Seq<TrackView> {
    Seq::new(tracks.len(), |i: int| tracks[i]@)
}

/// The title, artist and album read from the tag block of an audio file.
/// A field that the block does not hold is the empty string.
#[derive(Debug)]
pub struct TagFields {
    pub title: String,
    pub artist: String,
    pub album: String,
}

/// The mathematical value of [`TagFields`].
pub struct TagFieldsView {
    pub title: Seq<char>,
    pub artist: Seq<char>,
    pub album: Seq<char>,
}

impl View for TagFields {
    type V = TagFieldsView;

    open spec fn view(&self) -> TagFieldsView {
        TagFieldsView { title: self.title@, artist: self.artist@, album: self.album@ }
    }
}

impl Clone for TagFields {
    fn clone(&self) -> (copy: Self)
        ensures
            copy == *self,
    {
        TagFields {
            title: self.title.clone(),
            artist: self.artist.clone(),
            album: self.album.clone(),
        }
    }
}

/// The value of tag fields that may be absent.
pub open spec fn tags_view(tags: Option<TagFields>) -> Option<TagFieldsView> {
    match tags {
        Some(fields) => Some(fields@),
        None => None,
    }
}

/// An ordered collection of tracks, as one scan produced it.
#[derive(Debug)]
pub struct MusicLibrary {
    pub tracks: Vec<Track>,
}

impl View for MusicLibrary {
    type V = Seq<TrackView>;

    open spec fn view(&self) -> Seq<TrackView> {
        track_views(self.tracks@)
    }
}

impl Default for MusicLibrary {
    fn default() -> (library: Self)
        ensures
            library@ == Seq::<TrackView>::empty(),
            library.tracks@ == Seq::<Track>::empty(),
    {
        MusicLibrary::new()
    }
}

impl MusicLibrary {
    /// A library without tracks.
    pub fn new() -> (library: Self)
        ensures
            library@ == Seq::<TrackView>::empty(),
            library.tracks@ == Seq::<Track>::empty(),
    {
        let library = MusicLibrary { tracks: Vec::new() };
        assert(library@ =~= Seq::<TrackView>::empty());
        library
    }
}

} // verus!
