//! The questions that a viewer of the library asks: which artists and albums
//! there are, how many tracks each has, which tracks an album holds, and the
//! playlists that a user puts together from them.

use vstd::prelude::*;
use vstd::string::StringExecFns;
use crate::music::{TagFields, TagFieldsView, Track, TrackView, tags_view, track_views};
use crate::paths::texts;
use crate::playlist::{PlaylistError, borrowed_views, m3u8_text, render_m3u8};
use crate::scan::{embedded_fields, preferred};
use crate::text::{chars_of, str_eq, trim, trimmed};

verus! {

/// Whether `a` stands before `b` in the order of a dictionary: at the first
/// place where they differ `a` has the smaller character, or `a` ends there.
pub open spec fn lex_less(a: Seq<char>, b: Seq<char>) -> bool
    decreases a.len(),
{
    if b.len() == 0 {
        false
    } else if a.len() == 0 {
        true
    } else if a[0] != b[0] {
        (a[0] as u32) < (b[0] as u32)
    } else {
        lex_less(a.skip(1), b.skip(1))
    }
}

/// How one text stands to another in the order of a dictionary.
#[derive(Debug, Clone, Copy, PartialEq, Eq, Structural)]
pub enum Standing {
    Before,
    Same,
    After,
}

/// How `a` stands to `b`.
pub open spec fn standing_of(a: Seq<char>, b: Seq<char>) -> Standing {
    if a == b {
        Standing::Same
    } else if lex_less(a, b) {
        Standing::Before
    } else {
        Standing::After
    }
}

/// Different characters have different code points.
proof fn lemma_code_points_differ(x: char, y: char)
    requires
        x != y,
    ensures
        (x as u32) != (y as u32),
{
    vstd::utf8::char_u32_cast(x, x as u32);
    vstd::utf8::char_u32_cast(y, y as u32);
}

/// Nothing stands before itself.
pub proof fn lemma_lex_irreflexive(a: Seq<char>)
    ensures
        !lex_less(a, a),
    decreases a.len(),
{
    if a.len() > 0 {
        lemma_lex_irreflexive(a.skip(1));
    }
}

/// Of two different texts one stands before the other.
pub proof fn lemma_lex_total(a: Seq<char>, b: Seq<char>)
    ensures
        a == b || lex_less(a, b) || lex_less(b, a),
        !(lex_less(a, b) && lex_less(b, a)),
    decreases a.len(),
{
    if a.len() > 0 && b.len() > 0 {
        if a[0] == b[0] {
            lemma_lex_total(a.skip(1), b.skip(1));
            if a.skip(1) == b.skip(1) {
                assert(a =~= seq![a[0]] + a.skip(1));
                assert(b =~= seq![b[0]] + b.skip(1));
            }
        } else {
            lemma_code_points_differ(a[0], b[0]);
        }
    } else if a.len() == 0 && b.len() == 0 {
        assert(a =~= b);
    }
}

/// What stands before a text stands before everything behind that text.
pub proof fn lemma_lex_transitive(a: Seq<char>, b: Seq<char>, c: Seq<char>)
    requires
        lex_less(a, b),
        lex_less(b, c),
    ensures
        lex_less(a, c),
    decreases a.len(),
{
    if a.len() > 0 {
        if a[0] == b[0] && b[0] == c[0] {
            lemma_lex_transitive(a.skip(1), b.skip(1), c.skip(1));
        }
    }
}

/// Finds how `a` stands to `b` in the order of a dictionary.
pub fn compare_texts(a: &str, b: &str) -> (standing: Standing)
    ensures
        standing == standing_of(a@, b@),
{
    let left = chars_of(a);
    let right = chars_of(b);
    let mut i: usize = 0;
    assert(left@.skip(0) =~= left@);
    assert(right@.skip(0) =~= right@);
    while i < left.len() && i < right.len()
        invariant
            left@ == a@,
            right@ == b@,
            i <= left.len(),
            i <= right.len(),
            left@.take(i as int) == right@.take(i as int),
            lex_less(left@, right@) == lex_less(left@.skip(i as int), right@.skip(i as int)),
            lex_less(right@, left@) == lex_less(right@.skip(i as int), left@.skip(i as int)),
        decreases left.len() - i,
    {
        let x = left[i];
        let y = right[i];
        proof {
            assert(left@.skip(i as int)[0] == x);
            assert(right@.skip(i as int)[0] == y);
            assert(left@.skip(i as int).skip(1) =~= left@.skip(i + 1));
            assert(right@.skip(i as int).skip(1) =~= right@.skip(i + 1));
        }
        if x != y {
            proof {
                assert(left@[i as int] != right@[i as int]);
                lemma_lex_total(a@, b@);
            }
            if (x as u32) < (y as u32) {
                return Standing::Before;
            } else {
                return Standing::After;
            }
        }
        proof {
            assert(left@.take(i + 1) =~= left@.take(i as int).push(x));
            assert(right@.take(i + 1) =~= right@.take(i as int).push(y));
        }
        i += 1;
    }
    proof {
        lemma_lex_total(a@, b@);
        if left.len() == right.len() {
            assert(left@ =~= left@.take(i as int));
            assert(right@ =~= right@.take(i as int));
        } else if i == left.len() {
            assert(left@.skip(i as int).len() == 0);
            assert(right@.skip(i as int).len() > 0);
        } else {
            assert(right@.skip(i as int).len() == 0);
            assert(left@.skip(i as int).len() > 0);
        }
    }
    if left.len() == right.len() {
        Standing::Same
    } else if i == left.len() {
        Standing::Before
    } else {
        Standing::After
    }
}

/// Whether each of `names` stands before all that follow it, so that they are
/// in order and none occurs twice.
pub open spec fn strictly_ascending(names: Seq<Seq<char>>) -> bool {
    forall|i: int, j: int|
        0 <= i < j < names.len() ==> lex_less(#[trigger] names[i], #[trigger] names[j])
}

/// Puts `name` at its place among `names`, unless it is there already.
fn insert_name(names: &mut Vec<String>, name: String)
    requires
        strictly_ascending(texts(old(names)@)),
    ensures
        strictly_ascending(texts(final(names)@)),
        forall|text: Seq<char>|
            texts(final(names)@).contains(text) <==> (texts(old(names)@).contains(text) || text
                == name@),
{
    let ghost before = texts(names@);
    let mut at: usize = 0;
    let mut placed = false;
    while at < names.len() && !placed
        invariant
            at <= names.len(),
            texts(names@) == before,
            strictly_ascending(before),
            *names == *old(names),
            forall|k: int| 0 <= k < at ==> lex_less(#[trigger] before[k], name@),
            placed ==> at < names.len() && lex_less(name@, before[at as int]),
        decreases names.len() - at + (if placed { 0int } else { 1int }),
    {
        assert(before[at as int] == names@[at as int]@);
        match compare_texts(names[at].as_str(), name.as_str()) {
            Standing::Before => {
                at += 1;
            },
            Standing::Same => {
                assert forall|text: Seq<char>|
                    before.contains(text) <==> (before.contains(text) || text == name@) by {
                    if text == name@ {
                        assert(before[at as int] == text);
                    }
                }
                return ;
            },
            Standing::After => {
                proof {
                    lemma_lex_total(before[at as int], name@);
                }
                placed = true;
            },
        }
    }
    names.insert(at, name);
    proof {
        let after = texts(names@);
        assert(after =~= before.insert(at as int, name@));
        assert forall|k: int| at <= k < before.len() implies lex_less(
            name@,
            #[trigger] before[k],
        ) by {
            if k > at {
                lemma_lex_transitive(name@, before[at as int], before[k]);
            }
        }
        assert forall|i: int, j: int| 0 <= i < j < after.len() implies lex_less(
            #[trigger] after[i],
            #[trigger] after[j],
        ) by {
            if j < at {
                assert(after[i] == before[i] && after[j] == before[j]);
            } else if j == at {
                assert(after[i] == before[i]);
            } else if i < at {
                assert(after[i] == before[i] && after[j] == before[j - 1]);
            } else if i == at {
                assert(after[j] == before[j - 1]);
            } else {
                assert(after[i] == before[i - 1] && after[j] == before[j - 1]);
            }
        }
        assert forall|text: Seq<char>|
            after.contains(text) <==> (before.contains(text) || text == name@) by {
            if after.contains(text) {
                let k = choose|k: int| 0 <= k < after.len() && after[k] == text;
                if k < at {
                    assert(before[k] == text);
                } else if k > at {
                    assert(before[k - 1] == text);
                }
            }
            if before.contains(text) {
                let k = choose|k: int| 0 <= k < before.len() && before[k] == text;
                if k < at {
                    assert(after[k] == text);
                } else {
                    assert(after[k + 1] == text);
                }
            }
            if text == name@ {
                assert(after[at as int] == text);
            }
        }
    }
}

/// The values of a list of tag fields, in order.
pub open spec fn field_views(metadata: Seq<TagFields>) -> Seq<TagFieldsView> {
    Seq::new(metadata.len(), |i: int| metadata[i]@)
}

/// The name under which an album is listed: its own, or a stand-in where it
/// has none.
pub open spec fn album_label(album: Seq<char>) -> Seq<char> {
    if album.len() == 0 {
        "(Unknown Album)"@
    } else {
        album
    }
}

/// Writes the name under which an album is listed.
pub fn album_label_of(album: &str) -> (label: String)
    ensures
        label@ == album_label(album@),
{
    if album.is_empty() {
        "(Unknown Album)".to_owned()
    } else {
        album.to_owned()
    }
}

/// The text of a borrowed string that may be absent.
pub open spec fn chosen_text(choice: Option<&str>) -> Option<Seq<char>> {
    match choice {
        Some(text) => Some(text@),
        None => None,
    }
}

/// Whether a track is by `artist`; every track is where no artist is chosen.
pub open spec fn by_artist(artist: Option<Seq<char>>, fields: TagFieldsView) -> bool {
    match artist {
        Some(name) => fields.artist == name,
        None => true,
    }
}

/// Whether a track is by `artist` and on the album listed as `album`.
pub open spec fn on_album(artist: Option<Seq<char>>, album: Seq<char>, fields: TagFieldsView)
    -> bool {
    by_artist(artist, fields) && album_label(fields.album) == album
}

fn is_by_artist(artist: Option<&str>, fields: &TagFields) -> (by: bool)
    ensures
        by == by_artist(chosen_text(artist), fields@),
{
    match artist {
        Some(name) => str_eq(fields.artist.as_str(), name),
        None => true,
    }
}

fn is_on_album(artist: Option<&str>, album: &str, fields: &TagFields) -> (on: bool)
    ensures
        on == on_album(chosen_text(artist), album@, fields@),
{
    if !is_by_artist(artist, fields) {
        return false;
    }
    let label = album_label_of(fields.album.as_str());
    str_eq(label.as_str(), album)
}

/// The artists of the library, each once, in the order of a dictionary.
pub fn get_artists(metadata: &Vec<TagFields>) -> (artists: Vec<String>)
    ensures
        strictly_ascending(texts(artists@)),
        forall|name: Seq<char>|
            texts(artists@).contains(name) <==> exists|i: int|
                0 <= i < metadata.len() && (#[trigger] metadata@[i]).artist@ == name,
{
    let mut artists: Vec<String> = Vec::new();
    let mut n: usize = 0;
    while n < metadata.len()
        invariant
            n <= metadata.len(),
            strictly_ascending(texts(artists@)),
            forall|name: Seq<char>|
                texts(artists@).contains(name) <==> exists|i: int|
                    0 <= i < n && (#[trigger] metadata@[i]).artist@ == name,
        decreases metadata.len() - n,
    {
        let ghost held = texts(artists@);
        let artist = metadata[n].artist.clone();
        insert_name(&mut artists, artist);
        proof {
            assert forall|name: Seq<char>|
                texts(artists@).contains(name) <==> exists|i: int|
                    0 <= i < n + 1 && (#[trigger] metadata@[i]).artist@ == name by {
                if texts(artists@).contains(name) {
                    if held.contains(name) {
                        let i = choose|i: int|
                            0 <= i < n && (#[trigger] metadata@[i]).artist@ == name;
                        assert(0 <= i < n + 1 && metadata@[i].artist@ == name);
                    } else {
                        assert(metadata@[n as int].artist@ == name);
                    }
                }
                if exists|i: int| 0 <= i < n + 1 && (#[trigger] metadata@[i]).artist@ == name {
                    let i = choose|i: int|
                        0 <= i < n + 1 && (#[trigger] metadata@[i]).artist@ == name;
                    if i < n {
                        assert(held.contains(name));
                    }
                }
            }
        }
        n += 1;
    }
    artists
}

/// The albums by `artist`, or all albums where no artist is chosen, under the
/// names by which they are listed, each once, in the order of a dictionary.
pub fn get_albums_for_artist(metadata: &Vec<TagFields>, artist: Option<&str>) -> (albums: Vec<
    String,
>)
    ensures
        strictly_ascending(texts(albums@)),
        forall|name: Seq<char>|
            texts(albums@).contains(name) <==> exists|i: int|
                0 <= i < metadata.len() && on_album(
                    chosen_text(artist),
                    name,
                    (#[trigger] metadata@[i])@,
                ),
{
    let mut albums: Vec<String> = Vec::new();
    let mut n: usize = 0;
    while n < metadata.len()
        invariant
            n <= metadata.len(),
            strictly_ascending(texts(albums@)),
            forall|name: Seq<char>|
                texts(albums@).contains(name) <==> exists|i: int|
                    0 <= i < n && on_album(chosen_text(artist), name, (#[trigger] metadata@[i])@),
        decreases metadata.len() - n,
    {
        let ghost held = texts(albums@);
        let ghost chosen = chosen_text(artist);
        if is_by_artist(artist, &metadata[n]) {
            let label = album_label_of(metadata[n].album.as_str());
            insert_name(&mut albums, label);
        }
        proof {
            assert forall|name: Seq<char>|
                texts(albums@).contains(name) <==> exists|i: int|
                    0 <= i < n + 1 && on_album(chosen, name, (#[trigger] metadata@[i])@) by {
                if texts(albums@).contains(name) {
                    if held.contains(name) {
                        let i = choose|i: int|
                            0 <= i < n && on_album(chosen, name, (#[trigger] metadata@[i])@);
                        assert(0 <= i < n + 1 && on_album(chosen, name, metadata@[i]@));
                    } else {
                        assert(on_album(chosen, name, metadata@[n as int]@));
                    }
                }
                if exists|i: int|
                    0 <= i < n + 1 && on_album(chosen, name, (#[trigger] metadata@[i])@) {
                    let i = choose|i: int|
                        0 <= i < n + 1 && on_album(chosen, name, (#[trigger] metadata@[i])@);
                    if i < n {
                        assert(held.contains(name));
                    }
                }
            }
        }
        n += 1;
    }
    albums
}

/// How many tracks are by `artist`.
pub fn count_tracks_for_artist(metadata: &Vec<TagFields>, artist: &str) -> (count: usize)
    ensures
        count == field_views(metadata@).filter(
            |fields: TagFieldsView| fields.artist == artist@,
        ).len(),
{
    let ghost all = field_views(metadata@);
    let ghost wanted = |fields: TagFieldsView| fields.artist == artist@;
    let mut count: usize = 0;
    let mut n: usize = 0;
    proof {
        reveal(Seq::filter);
        assert(all.take(0) =~= Seq::<TagFieldsView>::empty());
    }
    while n < metadata.len()
        invariant
            n <= metadata.len(),
            all == field_views(metadata@),
            wanted == |fields: TagFieldsView| fields.artist == artist@,
            count == all.take(n as int).filter(wanted).len(),
            count <= n,
        decreases metadata.len() - n,
    {
        proof {
            reveal(Seq::filter);
            assert(all.take(n + 1).drop_last() =~= all.take(n as int));
            assert(all.take(n + 1).last() == metadata@[n as int]@);
        }
        if str_eq(metadata[n].artist.as_str(), artist) {
            count += 1;
        }
        n += 1;
    }
    assert(all.take(n as int) =~= all);
    count
}

/// How many tracks are by `artist`, or by anyone where no artist is chosen,
/// and on the album listed as `album`.
pub fn count_tracks_for_album(metadata: &Vec<TagFields>, artist: Option<&str>, album: &str) -> (count:
    usize)
    ensures
        count == field_views(metadata@).filter(
            |fields: TagFieldsView| on_album(chosen_text(artist), album@, fields),
        ).len(),
{
    let ghost all = field_views(metadata@);
    let ghost wanted = |fields: TagFieldsView| on_album(chosen_text(artist), album@, fields);
    let mut count: usize = 0;
    let mut n: usize = 0;
    proof {
        reveal(Seq::filter);
        assert(all.take(0) =~= Seq::<TagFieldsView>::empty());
    }
    while n < metadata.len()
        invariant
            n <= metadata.len(),
            all == field_views(metadata@),
            wanted == |fields: TagFieldsView| on_album(chosen_text(artist), album@, fields),
            count == all.take(n as int).filter(wanted).len(),
            count <= n,
        decreases metadata.len() - n,
    {
        proof {
            reveal(Seq::filter);
            assert(all.take(n + 1).drop_last() =~= all.take(n as int));
            assert(all.take(n + 1).last() == metadata@[n as int]@);
        }
        if is_on_album(artist, album, &metadata[n]) {
            count += 1;
        }
        n += 1;
    }
    assert(all.take(n as int) =~= all);
    count
}

/// The positions of the tracks by `artist`, or by anyone where no artist is
/// chosen, that are on the album listed as `album`, in the order of the
/// library.
pub fn tracks_on_album(metadata: &Vec<TagFields>, artist: Option<&str>, album: &str) -> (found:
    Vec<usize>)
    ensures
        forall|k: int, l: int| 0 <= k < l < found.len() ==> found@[k] < found@[l],
        forall|k: int|
            0 <= k < found.len() ==> (#[trigger] found@[k]) < metadata.len() && on_album(
                chosen_text(artist),
                album@,
                metadata@[found@[k] as int]@,
            ),
        forall|i: int|
            0 <= i < metadata.len() && on_album(
                chosen_text(artist),
                album@,
                (#[trigger] metadata@[i])@,
            ) ==> found@.contains(i as usize),
{
    let mut found: Vec<usize> = Vec::new();
    let mut n: usize = 0;
    while n < metadata.len()
        invariant
            n <= metadata.len(),
            forall|k: int, l: int| 0 <= k < l < found.len() ==> found@[k] < found@[l],
            forall|k: int|
                0 <= k < found.len() ==> (#[trigger] found@[k]) < n && on_album(
                    chosen_text(artist),
                    album@,
                    metadata@[found@[k] as int]@,
                ),
            forall|i: int|
                0 <= i < n && on_album(chosen_text(artist), album@, (#[trigger] metadata@[i])@)
                    ==> found@.contains(i as usize),
        decreases metadata.len() - n,
    {
        if is_on_album(artist, album, &metadata[n]) {
            let ghost held = found@;
            found.push(n);
            proof {
                assert forall|i: int|
                    0 <= i < n + 1 && on_album(
                        chosen_text(artist),
                        album@,
                        (#[trigger] metadata@[i])@,
                    ) implies found@.contains(i as usize) by {
                    if i < n {
                        assert(held.contains(i as usize));
                        let k = choose|k: int| 0 <= k < held.len() && held[k] == i as usize;
                        assert(found@[k] == i as usize);
                    } else {
                        assert(found@[found.len() - 1] == i as usize);
                    }
                }
            }
        }
        n += 1;
    }
    found
}

/// What the viewer shows for a track: field by field, what its tag block holds
/// now, and what the library recorded where the block holds nothing.
pub open spec fn shown_fields(track: TrackView, tags: Option<TagFieldsView>) -> TagFieldsView {
    let embedded = embedded_fields(tags);
    TagFieldsView {
        title: preferred(embedded.title, track.title),
        artist: preferred(embedded.artist, track.artist),
        album: preferred(embedded.album, track.album),
    }
}

/// Makes the fields that the viewer shows for `track`, whose tag block gave
/// `tags`.
pub fn display_metadata(track: &Track, tags: Option<TagFields>) -> (shown: TagFields)
    ensures
        shown@ == shown_fields(track@, tags_view(tags)),
{
    match tags {
        Some(fields) => TagFields {
            title: if fields.title.as_str().is_empty() {
                track.title.clone()
            } else {
                fields.title
            },
            artist: if fields.artist.as_str().is_empty() {
                track.artist.clone()
            } else {
                fields.artist
            },
            album: if fields.album.as_str().is_empty() {
                track.album.clone()
            } else {
                fields.album
            },
        },
        None => TagFields {
            title: track.title.clone(),
            artist: track.artist.clone(),
            album: track.album.clone(),
        },
    }
}

/// The title under which a track is listed: its own, or a stand-in where it
/// has none.
pub open spec fn title_label(title: Seq<char>) -> Seq<char> {
    if title.len() == 0 {
        "(Untitled)"@
    } else {
        title
    }
}

/// Writes the title under which a track is listed.
pub fn title_label_of(title: &str) -> (label: String)
    ensures
        label@ == title_label(title@),
{
    if title.is_empty() {
        "(Untitled)".to_owned()
    } else {
        title.to_owned()
    }
}

/// The line that stands for a track in the plain listing of the library.
pub open spec fn listing_line(track: TrackView) -> Seq<char> {
    track.artist + " - "@ + track.title + " ["@ + (if track.album.len() == 0 {
        "(no album)"@
    } else {
        track.album
    }) + "] | Track #: N/A | path: "@ + track.path
}

/// Writes the line that stands for a track in the plain listing of the
/// library.
pub fn listing_line_of(track: &Track) -> (line: String)
    ensures
        line@ == listing_line(track@),
{
    let mut line = track.artist.clone();
    line.append(" - ");
    line.append(track.title.as_str());
    line.append(" [");
    if track.album.as_str().is_empty() {
        line.append("(no album)");
    } else {
        line.append(track.album.as_str());
    }
    line.append("] | Track #: N/A | path: ");
    line.append(track.path.as_str());
    line
}

/// What is chosen in the three columns of the viewer: an artist, an album of
/// that artist, and a track of that album, each by its position in its list.
#[derive(Debug, Clone, Copy, PartialEq, Eq, Structural)]
pub struct Selection {
    pub artist: Option<usize>,
    pub album: Option<usize>,
    pub track: Option<usize>,
}

impl Selection {
    /// Nothing is chosen.
    pub fn new() -> (selection: Self)
        ensures
            selection == (Selection { artist: None, album: None, track: None }),
    {
        Selection { artist: None, album: None, track: None }
    }

    /// Chooses an artist. The album and the track that were chosen belong to
    /// another list now, so neither stays chosen.
    pub fn choose_artist(self, position: usize) -> (selection: Self)
        ensures
            selection == (Selection { artist: Some(position), album: None, track: None }),
    {
        Selection { artist: Some(position), album: None, track: None }
    }

    /// Chooses an album. The artist stays; the track does not.
    pub fn choose_album(self, position: usize) -> (selection: Self)
        ensures
            selection == (Selection { artist: self.artist, album: Some(position), track: None }),
    {
        Selection { artist: self.artist, album: Some(position), track: None }
    }

    /// Chooses a track. Artist and album stay.
    pub fn choose_track(self, position: usize) -> (selection: Self)
        ensures
            selection == (Selection {
                artist: self.artist,
                album: self.album,
                track: Some(position),
            }),
    {
        Selection { artist: self.artist, album: self.album, track: Some(position) }
    }
}

/// Whether the cover of a track's album is to be looked up now: the track
/// names both an artist and an album, no answer for them is known yet, and no
/// lookup for them is under way.
pub fn needs_cover_lookup(fields: &TagFields, known: bool, under_way: bool) -> (needed: bool)
    ensures
        needed == (fields@.artist.len() > 0 && fields@.album.len() > 0 && !known && !under_way),
{
    !fields.artist.as_str().is_empty() && !fields.album.as_str().is_empty() && !known
        && !under_way
}

/// A named list of tracks, each given by its position in the library.
#[derive(Debug)]
pub struct Playlist {
    pub name: String,
    pub track_indices: Vec<usize>,
}

/// A playlist made ready for writing: the name proposed for its file, and
/// the text of the file.
#[derive(Debug)]
pub struct PlaylistExport {
    pub file_name: String,
    pub text: String,
}

/// The tracks that `indices` pick from `tracks`, in the order of the indices.
/// An index beyond the library picks nothing.
pub open spec fn picked(indices: Seq<usize>, tracks: Seq<TrackView>) -> Seq<TrackView> {
    indices.filter(|index: usize| index < tracks.len()).map_values(
        |index: usize| tracks[index as int],
    )
}

impl Playlist {
    /// A playlist without tracks.
    pub fn new(name: String) -> (playlist: Self)
        ensures
            playlist.name == name,
            playlist.track_indices@ == Seq::<usize>::empty(),
    {
        Playlist { name, track_indices: Vec::new() }
    }

    /// Whether the track at `index` of the library is on the playlist.
    pub fn holds(&self, index: usize) -> (held: bool)
        ensures
            held == self.track_indices@.contains(index),
    {
        let mut k: usize = 0;
        while k < self.track_indices.len()
            invariant
                k <= self.track_indices.len(),
                forall|j: int| 0 <= j < k ==> self.track_indices@[j] != index,
            decreases self.track_indices.len() - k,
        {
            if self.track_indices[k] == index {
                return true;
            }
            k += 1;
        }
        false
    }

    /// Puts the track at `index` of the library at the end of the playlist,
    /// unless it is on it already. Says whether the track was added.
    pub fn add_track(&mut self, index: usize) -> (added: bool)
        ensures
            added == !old(self).track_indices@.contains(index),
            final(self).name == old(self).name,
            final(self).track_indices@ == if added {
                old(self).track_indices@.push(index)
            } else {
                old(self).track_indices@
            },
    {
        if self.holds(index) {
            false
        } else {
            self.track_indices.push(index);
            true
        }
    }

    /// The name proposed for the file of the playlist.
    pub fn export_file_name(&self) -> (file_name: String)
        ensures
            file_name@ == self.name@ + ".m3u8"@,
    {
        let mut file_name = self.name.clone();
        file_name.append(".m3u8");
        file_name
    }

    /// The tracks of the playlist, taken from the library `tracks`.
    pub fn select_tracks<'a>(&self, tracks: &'a Vec<Track>) -> (chosen: Vec<&'a Track>)
        ensures
            borrowed_views(chosen@) == picked(self.track_indices@, track_views(tracks@)),
    {
        let ghost library = track_views(tracks@);
        let ghost within = |index: usize| index < library.len();
        let ghost pick = |index: usize| library[index as int];
        let mut chosen: Vec<&'a Track> = Vec::new();
        let mut k: usize = 0;
        proof {
            reveal(Seq::filter);
            assert(self.track_indices@.take(0) =~= Seq::<usize>::empty());
            assert(borrowed_views(chosen@) =~= self.track_indices@.take(0).filter(
                within,
            ).map_values(pick));
        }
        while k < self.track_indices.len()
            invariant
                k <= self.track_indices.len(),
                library == track_views(tracks@),
                within == |index: usize| index < library.len(),
                pick == |index: usize| library[index as int],
                borrowed_views(chosen@) == self.track_indices@.take(k as int).filter(
                    within,
                ).map_values(pick),
            decreases self.track_indices.len() - k,
        {
            let index = self.track_indices[k];
            proof {
                reveal(Seq::filter);
                assert(self.track_indices@.take(k + 1).drop_last() =~= self.track_indices@.take(
                    k as int,
                ));
                assert(self.track_indices@.take(k + 1).last() == index);
            }
            if index < tracks.len() {
                let ghost held = borrowed_views(chosen@);
                chosen.push(&tracks[index]);
                proof {
                    let kept = self.track_indices@.take(k as int).filter(within);
                    assert(borrowed_views(chosen@) =~= held.push(library[index as int]));
                    assert(kept.push(index).map_values(pick) =~= kept.map_values(pick).push(
                        pick(index),
                    ));
                }
            }
            k += 1;
        }
        assert(self.track_indices@.take(k as int) =~= self.track_indices@);
        chosen
    }

    /// Makes the playlist ready for writing: the name proposed for its file
    /// and the text of the file. A playlist that picks no track of the library
    /// is refused.
    pub fn export(&self, tracks: &Vec<Track>) -> (result: Result<PlaylistExport, PlaylistError>)
        ensures
            result is Err <==> picked(self.track_indices@, track_views(tracks@)).len() == 0,
            result is Err ==> result->Err_0 == PlaylistError::EmptyPlaylist,
            result is Ok ==> result->Ok_0.file_name@ == self.name@ + ".m3u8"@,
            result is Ok ==> result->Ok_0.text@ == m3u8_text(
                picked(self.track_indices@, track_views(tracks@)),
            ),
    {
        let chosen = self.select_tracks(tracks);
        assert(borrowed_views(chosen@).len() == chosen@.len());
        match render_m3u8(chosen.as_slice()) {
            Ok(text) => Ok(PlaylistExport { file_name: self.export_file_name(), text }),
            Err(_) => Err(PlaylistError::EmptyPlaylist),
        }
    }
}

/// Adds an empty playlist with the given name, unless the name is empty. Says
/// whether a playlist was added.
pub fn add_playlist(playlists: &mut Vec<Playlist>, name: &str) -> (added: bool)
    ensures
        added == (name@.len() > 0),
        !added ==> *final(playlists) == *old(playlists),
        added ==> final(playlists).len() == old(playlists).len() + 1,
        added ==> final(playlists)@.drop_last() == old(playlists)@,
        added ==> final(playlists)@.last().name@ == name@,
        added ==> final(playlists)@.last().track_indices@ == Seq::<usize>::empty(),
{
    if name.is_empty() {
        false
    } else {
        playlists.push(Playlist::new(name.to_owned()));
        assert(playlists@.drop_last() =~= old(playlists)@);
        true
    }
}

/// Adds an empty playlist named as the user typed it, white space at both ends
/// taken off, unless nothing is left of the name then. Says whether a playlist
/// was added.
pub fn create_playlist(playlists: &mut Vec<Playlist>, typed: &str) -> (added: bool)
    ensures
        added == (trimmed(typed@).len() > 0),
        !added ==> *final(playlists) == *old(playlists),
        added ==> final(playlists).len() == old(playlists).len() + 1,
        added ==> final(playlists)@.drop_last() == old(playlists)@,
        added ==> final(playlists)@.last().name@ == trimmed(typed@),
        added ==> final(playlists)@.last().track_indices@ == Seq::<usize>::empty(),
{
    let name = trim(typed);
    add_playlist(playlists, name.as_str())
}

/// Takes the playlist at `position` off the list, and says which playlist is
/// chosen afterwards: none where the one taken off was chosen, else the same
/// position as before. A position beyond the list changes nothing.
pub fn remove_playlist(playlists: &mut Vec<Playlist>, chosen: Option<usize>, position: usize) -> (still_chosen:
    Option<usize>)
    ensures
        position < old(playlists).len() ==> final(playlists)@ == old(playlists)@.remove(
            position as int,
        ),
        position < old(playlists).len() ==> still_chosen == if chosen == Some(position) {
            None
        } else {
            chosen
        },
        position >= old(playlists).len() ==> *final(playlists) == *old(playlists) && still_chosen
            == chosen,
{
    if position >= playlists.len() {
        return chosen;
    }
    playlists.remove(position);
    match chosen {
        Some(at) => if at == position {
            None
        } else {
            chosen
        },
        None => None,
    }
}

} // verus!
