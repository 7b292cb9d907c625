//! What the persistent store holds for a library: one row for each track,
//! with the spaces of its path written as a token, and the way back from rows
//! to tracks. The percent sign, with which the tokens begin, is written as a
//! token too, so that every path comes back as it was saved.

use vstd::prelude::*;
use crate::music::{MusicLibrary, Track, TrackView, track_views};
use crate::text::chars_of;

verus! {

/// What stands for a space in a stored path.
pub open spec fn space_token() -> Seq<char> {
    seq!['%', '2', '0']
}

/// What stands for a percent sign in a stored path.
pub open spec fn percent_token() -> Seq<char> {
    seq!['%', '2', '5']
}

/// One character as the store holds it: a space and a percent sign are
/// written as their tokens, every other character as itself.
pub open spec fn escaped_char(c: char) -> Seq<char> {
    if c == ' ' {
        space_token()
    } else if c == '%' {
        percent_token()
    } else {
        seq![c]
    }
}

/// A path as the store holds it, character by character.
pub open spec fn escaped(path: Seq<char>) -> Seq<char>
    decreases path.len(),
{
    if path.len() == 0 {
        path
    } else {
        escaped_char(path[0]) + escaped(path.skip(1))
    }
}

/// The path that a stored text stands for. The text is read from the left:
/// a token gives its character, and anything else, a percent sign that begins
/// no token too, is taken as it is.
pub open spec fn unescaped(stored: Seq<char>) -> Seq<char>
    decreases stored.len(),
{
    if stored.len() == 0 {
        stored
    } else if space_token().is_prefix_of(stored) {
        seq![' '] + unescaped(stored.skip(3))
    } else if percent_token().is_prefix_of(stored) {
        seq!['%'] + unescaped(stored.skip(3))
    } else {
        seq![stored[0]] + unescaped(stored.skip(1))
    }
}

/// Writes `path` as the store holds it.
pub fn escape_path(path: &str) -> (stored: String)
    ensures
        stored@ == escaped(path@),
{
    let text = chars_of(path);
    let mut stored = String::new();
    let mut i: usize = 0;
    assert(text@.skip(0) =~= text@);
    assert(stored@ + escaped(text@) =~= escaped(text@));
    while i < text.len()
        invariant
            i <= text.len(),
            escaped(text@) == stored@ + escaped(text@.skip(i as int)),
        decreases text.len() - i,
    {
        let ghost rest = text@.skip(i as int);
        let ghost held = stored@;
        let c = text[i];
        if c == ' ' {
            stored.push('%');
            stored.push('2');
            stored.push('0');
        } else if c == '%' {
            stored.push('%');
            stored.push('2');
            stored.push('5');
        } else {
            stored.push(c);
        }
        proof {
            assert(rest[0] == c);
            assert(rest.skip(1) =~= text@.skip(i + 1));
            assert(stored@ =~= held + escaped_char(c));
            assert(held + (escaped_char(c) + escaped(rest.skip(1))) =~= stored@ + escaped(
                text@.skip(i + 1),
            ));
        }
        i += 1;
    }
    assert(text@.skip(i as int) =~= Seq::<char>::empty());
    assert(stored@ + Seq::<char>::empty() =~= stored@);
    stored
}

/// Reads a stored text back as a path.
pub fn unescape_path(stored: &str) -> (path: String)
    ensures
        path@ == unescaped(stored@),
{
    let text = chars_of(stored);
    let mut path = String::new();
    let mut i: usize = 0;
    assert(text@.skip(0) =~= text@);
    assert(path@ + unescaped(text@) =~= unescaped(text@));
    while i < text.len()
        invariant
            i <= text.len(),
            unescaped(text@) == path@ + unescaped(text@.skip(i as int)),
        decreases text.len() - i,
    {
        let ghost rest = text@.skip(i as int);
        let ghost held = path@;
        let token = text.len() - i >= 3 && text[i] == '%' && text[i + 1] == '2';
        let space = token && text[i + 2] == '0';
        let percent = token && text[i + 2] == '5';
        proof {
            assert(rest.len() == text.len() - i);
            if rest.len() >= 3 {
                assert(rest[0] == text@[i as int]);
                assert(rest[1] == text@[i + 1]);
                assert(rest[2] == text@[i + 2]);
                assert(rest.subrange(0, 3) =~= seq![rest[0], rest[1], rest[2]]);
            }
            assert(space == space_token().is_prefix_of(rest)) by {
                if space {
                    assert(rest.subrange(0, 3) =~= space_token());
                } else if space_token().is_prefix_of(rest) {
                    assert(rest[0] == space_token()[0]);
                    assert(rest[1] == space_token()[1]);
                    assert(rest[2] == space_token()[2]);
                }
            }
            assert(percent == percent_token().is_prefix_of(rest)) by {
                if percent {
                    assert(rest.subrange(0, 3) =~= percent_token());
                } else if percent_token().is_prefix_of(rest) {
                    assert(rest[0] == percent_token()[0]);
                    assert(rest[1] == percent_token()[1]);
                    assert(rest[2] == percent_token()[2]);
                }
            }
        }
        if space {
            path.push(' ');
            proof {
                assert(rest.skip(3) =~= text@.skip(i + 3));
                assert(held + (seq![' '] + unescaped(rest.skip(3))) =~= path@ + unescaped(
                    text@.skip(i + 3),
                ));
            }
            i += 3;
        } else if percent {
            path.push('%');
            proof {
                assert(rest.skip(3) =~= text@.skip(i + 3));
                assert(held + (seq!['%'] + unescaped(rest.skip(3))) =~= path@ + unescaped(
                    text@.skip(i + 3),
                ));
            }
            i += 3;
        } else {
            path.push(text[i]);
            proof {
                assert(rest.skip(1) =~= text@.skip(i + 1));
                assert(held + (seq![rest[0]] + unescaped(rest.skip(1))) =~= path@ + unescaped(
                    text@.skip(i + 1),
                ));
            }
            i += 1;
        }
    }
    assert(text@.skip(i as int) =~= Seq::<char>::empty());
    assert(path@ + Seq::<char>::empty() =~= path@);
    path
}

/// Escaping a path and reading the result back gives the path again, whatever
/// the path holds.
pub proof fn lemma_escape_round_trip(path: Seq<char>)
    ensures
        unescaped(escaped(path)) == path,
    decreases path.len(),
{
    if path.len() > 0 {
        let c = path[0];
        let rest = path.skip(1);
        let tail = escaped(rest);
        let stored = escaped_char(c) + tail;
        lemma_escape_round_trip(rest);
        if c == ' ' {
            assert(stored.subrange(0, 3) =~= space_token());
            assert(stored.skip(3) =~= tail);
        } else if c == '%' {
            assert(stored.subrange(0, 3) =~= percent_token());
            assert(!space_token().is_prefix_of(stored)) by {
                if space_token().is_prefix_of(stored) {
                    assert(stored[2] == space_token()[2]);
                }
            }
            assert(stored.skip(3) =~= tail);
        } else {
            assert(!space_token().is_prefix_of(stored)) by {
                if space_token().is_prefix_of(stored) {
                    assert(stored[0] == space_token()[0]);
                }
            }
            assert(!percent_token().is_prefix_of(stored)) by {
                if percent_token().is_prefix_of(stored) {
                    assert(stored[0] == percent_token()[0]);
                }
            }
            assert(stored.skip(1) =~= tail);
        }
        assert(seq![c] + rest =~= path);
    }
}

/// Two paths that the store holds as the same text are the same path.
pub proof fn lemma_escaped_tells_paths_apart(a: Seq<char>, b: Seq<char>)
    requires
        escaped(a) == escaped(b),
    ensures
        a == b,
{
    lemma_escape_round_trip(a);
    lemma_escape_round_trip(b);
}

/// No space is left in a stored path.
pub proof fn lemma_escaped_holds_no_space(path: Seq<char>)
    ensures
        !escaped(path).contains(' '),
    decreases path.len(),
{
    if path.len() > 0 {
        let head = escaped_char(path[0]);
        let tail = escaped(path.skip(1));
        lemma_escaped_holds_no_space(path.skip(1));
        let stored = head + tail;
        if stored.contains(' ') {
            let k = choose|k: int| 0 <= k < stored.len() && stored[k] == ' ';
            if k < head.len() {
                assert(head[k] == ' ');
            } else {
                assert(tail[k - head.len()] == ' ');
            }
        }
    } else {
        if escaped(path).contains(' ') {
            let k = choose|k: int| 0 <= k < escaped(path).len() && escaped(path)[k] == ' ';
        }
    }
}

/// One row of the store. Its path is held in escaped form; the other fields
/// are held as they are.
#[derive(Debug)]
pub struct StoredTrack {
    pub path: String,
    pub artist: String,
    pub album: String,
    pub title: String,
}

impl View for StoredTrack {
    type V = TrackView;

    open spec fn view(&self) -> TrackView {
        TrackView { path: self.path@, artist: self.artist@, album: self.album@, title: self.title@ }
    }
}

/// The values of a list of rows, in order.
pub open spec fn row_views(rows: Seq<StoredTrack>) -> Seq<TrackView> {
    Seq::new(rows.len(), |i: int| rows[i]@)
}

/// What the store holds for a track.
pub open spec fn stored_row(track: TrackView) -> TrackView {
    TrackView {
        path: escaped(track.path),
        artist: track.artist,
        album: track.album,
        title: track.title,
    }
}

/// The track that a row of the store stands for.
pub open spec fn loaded_track(row: TrackView) -> TrackView {
    TrackView {
        path: unescaped(row.path),
        artist: row.artist,
        album: row.album,
        title: row.title,
    }
}

/// What the store holds for a list of tracks: one row for each, in order.
pub open spec fn stored_rows(tracks: Seq<TrackView>) -> Seq<TrackView> {
    tracks.map_values(|track: TrackView| stored_row(track))
}

/// The tracks that a list of rows stands for, in the order of the rows.
pub open spec fn loaded_tracks(rows: Seq<TrackView>) -> Seq<TrackView> {
    rows.map_values(|row: TrackView| loaded_track(row))
}

/// Makes the row under which `track` is stored.
pub fn row_for(track: &Track) -> (row: StoredTrack)
    ensures
        row@ == stored_row(track@),
{
    StoredTrack {
        path: escape_path(track.path.as_str()),
        artist: track.artist.clone(),
        album: track.album.clone(),
        title: track.title.clone(),
    }
}

/// Makes the track that `row` stands for.
pub fn track_from_row(row: StoredTrack) -> (track: Track)
    ensures
        track@ == loaded_track(row@),
{
    Track {
        path: unescape_path(row.path.as_str()),
        artist: row.artist,
        album: row.album,
        title: row.title,
    }
}

/// Makes the rows that a save of `library` writes: one for each track, in the
/// order of the library.
pub fn rows_for(library: &MusicLibrary) -> (rows: Vec<StoredTrack>)
    ensures
        row_views(rows@) == stored_rows(library@),
{
    let mut rows: Vec<StoredTrack> = Vec::new();
    let mut i: usize = 0;
    while i < library.tracks.len()
        invariant
            i <= library.tracks.len(),
            row_views(rows@) == stored_rows(library@.take(i as int)),
        decreases library.tracks.len() - i,
    {
        let ghost held = row_views(rows@);
        let row = row_for(&library.tracks[i]);
        rows.push(row);
        proof {
            assert(row_views(rows@) =~= held.push(stored_row(library@[i as int])));
            assert(stored_rows(library@.take(i + 1)) =~= stored_rows(library@.take(i as int)).push(
                stored_row(library@[i as int]),
            ));
        }
        i += 1;
    }
    assert(library@.take(i as int) =~= library@);
    rows
}

/// Makes the tracks that the rows read from the store stand for, in the order
/// of the rows.
pub fn tracks_from_rows(rows: Vec<StoredTrack>) -> (tracks: Vec<Track>)
    ensures
        track_views(tracks@) == loaded_tracks(row_views(rows@)),
{
    let ghost all = row_views(rows@);
    let mut rows = rows;
    let mut reversed: Vec<Track> = Vec::new();
    while rows.len() > 0
        invariant
            rows.len() <= all.len(),
            row_views(rows@) == all.take(rows.len() as int),
            reversed.len() + rows.len() == all.len(),
            forall|k: int|
                0 <= k < reversed.len() ==> (#[trigger] reversed@[k])@ == loaded_track(
                    all[all.len() - 1 - k],
                ),
        decreases rows.len(),
    {
        let ghost before = row_views(rows@);
        let row = rows.pop().unwrap();
        assert(row@ == before[before.len() - 1]);
        assert(row_views(rows@) =~= all.take(rows.len() as int));
        let track = track_from_row(row);
        reversed.push(track);
    }
    let mut tracks: Vec<Track> = Vec::new();
    while reversed.len() > 0
        invariant
            reversed.len() + tracks.len() == all.len(),
            forall|k: int|
                0 <= k < reversed.len() ==> (#[trigger] reversed@[k])@ == loaded_track(
                    all[all.len() - 1 - k],
                ),
            forall|k: int|
                0 <= k < tracks.len() ==> (#[trigger] tracks@[k])@ == loaded_track(all[k]),
        decreases reversed.len(),
    {
        let track = reversed.pop().unwrap();
        tracks.push(track);
    }
    assert(track_views(tracks@) =~= loaded_tracks(all));
    tracks
}

/// What a load gives back after a save is the library that was saved, track
/// for track and so also as a multiset, whatever its paths hold.
pub proof fn lemma_store_round_trip(tracks: Seq<TrackView>)
    ensures
        loaded_tracks(stored_rows(tracks)) == tracks,
        loaded_tracks(stored_rows(tracks)).to_multiset() == tracks.to_multiset(),
{
    assert forall|i: int| 0 <= i < tracks.len() implies loaded_tracks(stored_rows(tracks))[i]
        == tracks[i] by {
        lemma_escape_round_trip(tracks[i].path);
    }
    assert(loaded_tracks(stored_rows(tracks)) =~= tracks);
}

} // verus!
