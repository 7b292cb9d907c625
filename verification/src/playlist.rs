//! Playlists for the player: the path under which the device finds a file
//! that the host has at a given path, and the text of a playlist file.

use vstd::prelude::*;
use vstd::string::StringExecFns;
use crate::music::{Track, TrackView};
use crate::paths::{
    all_avoid, components, components_of, is_plain_name, joined, last_normal,
    last_normal_part, lemma_components_avoid, lemma_components_of_names, lemma_joined_avoid,
    texts,
};
use crate::text::{ascii_lower, chars_of};

verus! {

/// The name of the directory that holds the music on the device.
pub open spec fn marker_name() -> Seq<char> {
    seq!['M', 'U', 'S', 'I', 'C']
}

/// Whether `c` is written as the ASCII capital letter `capital` when a text is
/// put in capitals. That is so for the capital itself and for its small
/// letter, and besides for the two other letters that Unicode gives an ASCII
/// capital: the long s, which becomes `S`, and the dotless i, which becomes
/// `I`.
pub open spec fn becomes_capital(c: char, capital: char) -> bool {
    ||| c == capital
    ||| c == ascii_lower(capital)
    ||| capital == 'S' && c == '\u{17f}'
    ||| capital == 'I' && c == '\u{131}'
}

/// Whether a component is the device's music directory: its name letter for
/// letter, each in any case.
pub open spec fn is_marker(component: Seq<char>) -> bool {
    &&& component.len() == marker_name().len()
    &&& forall|i: int|
        0 <= i < component.len() ==> becomes_capital(#[trigger] component[i], marker_name()[i])
}

/// The position of the first of `parts` that is the music directory.
pub open spec fn marker_position(parts: Seq<Seq<char>>) -> Option<int>
    decreases parts.len(),
{
    if parts.len() == 0 {
        None
    } else {
        match marker_position(parts.drop_last()) {
            Some(i) => Some(i),
            None => if is_marker(parts.last()) {
                Some(parts.len() - 1)
            } else {
                None
            },
        }
    }
}

/// The device path for a host path with the components `parts`, of which the
/// one at `marker` is the music directory. From the music directory on, the
/// components are kept as they are; without one, the file is taken to lie
/// directly in the device's music directory.
pub open spec fn device_path_from(parts: Seq<Seq<char>>, marker: Option<int>) -> Seq<char> {
    match marker {
        Some(i) if 0 <= i < parts.len() => seq!['/'] + joined(parts.skip(i)),
        _ => seq!['/'] + marker_name() + seq!['/'] + match last_normal(parts) {
            Some(name) => name,
            None => Seq::<char>::empty(),
        },
    }
}

/// The path under which the device finds the file that the host has at `path`.
pub open spec fn device_path(path: Seq<char>) -> Seq<char> {
    let parts = components_of(path);
    device_path_from(parts, marker_position(parts))
}

/// The position of `marker` as an integer.
pub open spec fn position_of(marker: Option<usize>) -> Option<int> {
    match marker {
        Some(i) => Some(i as int),
        None => None,
    }
}

/// The marker position is that of the first music directory among the
/// components: it lies within them, the component there is one, and none
/// before it is; there is no position exactly where no component is one.
pub proof fn lemma_marker_position(parts: Seq<Seq<char>>)
    ensures
        match marker_position(parts) {
            Some(i) => {
                &&& 0 <= i < parts.len()
                &&& is_marker(parts[i])
                &&& forall|j: int| 0 <= j < i ==> !is_marker(#[trigger] parts[j])
            },
            None => forall|j: int| 0 <= j < parts.len() ==> !is_marker(#[trigger] parts[j]),
        },
    decreases parts.len(),
{
    if parts.len() > 0 {
        lemma_marker_position(parts.drop_last());
        assert forall|j: int| 0 <= j < parts.len() - 1 implies parts.drop_last()[j]
            == parts[j] by {}
        match marker_position(parts.drop_last()) {
            Some(i) => {
                assert(parts.drop_last()[i] == parts[i]);
                assert forall|j: int| 0 <= j < i implies !is_marker(#[trigger] parts[j]) by {
                    assert(parts.drop_last()[j] == parts[j]);
                }
            },
            None => {
                assert forall|j: int| 0 <= j < parts.len() - 1 implies !is_marker(
                    #[trigger] parts[j],
                ) by {
                    assert(parts.drop_last()[j] == parts[j]);
                }
            },
        }
    }
}

fn is_letter(c: char, capital: char) -> (same: bool)
    requires
        0x41 <= (capital as u32) <= 0x5a,
    ensures
        same == becomes_capital(c, capital),
{
    let small = (((capital as u32) + 0x20) as u8) as char;
    c == capital || c == small || (capital == 'S' && c == '\u{17f}') || (capital == 'I' && c
        == '\u{131}')
}

/// Whether `component` is the device's music directory.
pub fn is_marker_name(component: &str) -> (marker: bool)
    ensures
        marker == is_marker(component@),
{
    let text = chars_of(component);
    if text.len() != 5 {
        return false;
    }
    let marker = is_letter(text[0], 'M') && is_letter(text[1], 'U') && is_letter(text[2], 'S')
        && is_letter(text[3], 'I') && is_letter(text[4], 'C');
    proof {
        let name = marker_name();
        assert(name[0] == 'M' && name[1] == 'U' && name[2] == 'S' && name[3] == 'I' && name[4]
            == 'C');
        if !marker {
            if !becomes_capital(text@[0], 'M') {
                assert(!becomes_capital(component@[0], name[0]));
            } else if !becomes_capital(text@[1], 'U') {
                assert(!becomes_capital(component@[1], name[1]));
            } else if !becomes_capital(text@[2], 'S') {
                assert(!becomes_capital(component@[2], name[2]));
            } else if !becomes_capital(text@[3], 'I') {
                assert(!becomes_capital(component@[3], name[3]));
            } else {
                assert(!becomes_capital(component@[4], name[4]));
            }
        }
    }
    marker
}

/// Finds the first component that is the device's music directory.
pub fn find_marker(parts: &Vec<String>) -> (marker: Option<usize>)
    ensures
        position_of(marker) == marker_position(texts(parts@)),
{
    let ghost all = texts(parts@);
    let mut i: usize = 0;
    assert(all.take(0) =~= Seq::<Seq<char>>::empty());
    while i < parts.len()
        invariant
            i <= parts.len(),
            all == texts(parts@),
            marker_position(all.take(i as int)) is None,
        decreases parts.len() - i,
    {
        let found = is_marker_name(parts[i].as_str());
        proof {
            assert(all.take(i + 1).drop_last() =~= all.take(i as int));
            assert(all.take(i + 1).last() == parts@[i as int]@);
        }
        if found {
            proof {
                lemma_marker_prefix(all, i + 1);
            }
            return Some(i);
        }
        i += 1;
    }
    assert(all.take(i as int) =~= all);
    None
}

/// A marker found among the first `n` components is the marker of them all.
proof fn lemma_marker_prefix(parts: Seq<Seq<char>>, n: int)
    requires
        0 <= n <= parts.len(),
        marker_position(parts.take(n)) is Some,
    ensures
        marker_position(parts) == marker_position(parts.take(n)),
    decreases parts.len() - n,
{
    if n < parts.len() {
        assert(parts.take(n + 1).drop_last() =~= parts.take(n));
        lemma_marker_prefix(parts, n + 1);
    } else {
        assert(parts.take(n) =~= parts);
    }
}

/// Writes the device path for a host path with the components `parts`, of
/// which the one at `marker` is the music directory.
pub fn assemble_device_path(parts: &Vec<String>, marker: Option<usize>) -> (device: String)
    ensures
        device@ == device_path_from(texts(parts@), position_of(marker)),
        device@.len() > 0,
        device@[0] == '/',
{
    let mut device = String::new();
    device.push('/');
    match marker {
        Some(start) if start < parts.len() => {
            let ghost kept = texts(parts@).skip(start as int);
            let mut i: usize = start;
            assert(kept.take(0) =~= Seq::<Seq<char>>::empty());
            while i < parts.len()
                invariant
                    start <= i <= parts.len(),
                    kept == texts(parts@).skip(start as int),
                    device@ == seq!['/'] + joined(kept.take(i - start)),
                decreases parts.len() - i,
            {
                proof {
                    assert(kept.take(i - start + 1).drop_last() =~= kept.take(i - start));
                    assert(kept.take(i - start + 1).last() == parts@[i as int]@);
                    if i > start {
                        assert(kept.take(i - start + 1).len() > 1);
                    } else {
                        assert(kept.take(1)[0] == parts@[i as int]@);
                    }
                }
                if i > start {
                    device.push('/');
                }
                device.append(parts[i].as_str());
                proof {
                    assert(device@ =~= seq!['/'] + joined(kept.take(i - start + 1)));
                }
                i += 1;
            }
            assert(kept.take(i - start) =~= kept);
        },
        _ => {
            proof {
                reveal_strlit("MUSIC");
                assert("MUSIC"@ =~= marker_name());
            }
            device.append("MUSIC");
            device.push('/');
            match last_normal_part(parts) {
                Some(name) => {
                    device.append(name.as_str());
                },
                None => {},
            }
            assert(device@ =~= device_path_from(texts(parts@), position_of(marker)));
        },
    }
    device
}

/// Convert a full file path to the form the device expects.
/// Example: `/mnt/psp/MUSIC/Album/song.mp3` becomes `/MUSIC/Album/song.mp3`.
pub fn to_psp_path(full_path: &str) -> (device: String)
    ensures
        device@ == device_path(full_path@),
        device@.len() > 0,
        device@[0] == '/',
{
    let parts = components(full_path);
    let marker = find_marker(&parts);
    assemble_device_path(&parts, marker)
}

/// Why a playlist could not be written.
#[derive(Debug, Clone, Copy, PartialEq, Eq, Structural)]
pub enum PlaylistError {
    /// The playlist holds no track.
    EmptyPlaylist,
}

impl PlaylistError {
    /// A sentence that says what went wrong.
    pub fn message(&self) -> (text: String)
        ensures
            text@ == "cannot export an empty playlist"@,
    {
        match self {
            PlaylistError::EmptyPlaylist => "cannot export an empty playlist".to_owned(),
        }
    }
}

/// The first line of every playlist file.
pub open spec fn header_line() -> Seq<char> {
    "#EXTM3U"@
}

/// The lines of the playlist for files with the host paths `paths`: the
/// header, then the device path of each file, in the order given.
pub open spec fn playlist_lines(paths: Seq<Seq<char>>) -> Seq<Seq<char>> {
    seq![header_line()] + paths.map_values(|path: Seq<char>| device_path(path))
}

/// `lines` as one text, each line closed by a line feed.
pub open spec fn lines_text(lines: Seq<Seq<char>>) -> Seq<char>
    decreases lines.len(),
{
    if lines.len() == 0 {
        Seq::<char>::empty()
    } else {
        lines_text(lines.drop_last()) + lines.last() + seq!['\n']
    }
}

/// The host paths of `tracks`, in order.
pub open spec fn track_paths(tracks: Seq<TrackView>) -> Seq<Seq<char>> {
    tracks.map_values(|track: TrackView| track.path)
}

/// The text of the playlist file for `tracks`.
pub open spec fn m3u8_text(tracks: Seq<TrackView>) -> Seq<char> {
    lines_text(playlist_lines(track_paths(tracks)))
}

/// The values of a list of borrowed tracks, in order.
pub open spec fn borrowed_views(tracks: Seq<&Track>) -> Seq<TrackView> {
    Seq::new(tracks.len(), |i: int| tracks[i]@)
}

/// A playlist of `n` tracks has `n + 1` lines: the header, then one line for
/// each track, which holds that track's device path, in the order of the
/// tracks.
pub proof fn lemma_one_line_per_track(tracks: Seq<TrackView>)
    ensures
        playlist_lines(track_paths(tracks)).len() == tracks.len() + 1,
        playlist_lines(track_paths(tracks))[0] == header_line(),
        forall|i: int|
            0 <= i < tracks.len() ==> #[trigger] playlist_lines(track_paths(tracks))[i + 1]
                == device_path(tracks[i].path),
{
}

/// Writes the text of the playlist file for `tracks`: the header line, then
/// the device path of each track on a line of its own, in the order given. A
/// playlist without tracks is refused.
pub fn render_m3u8(tracks: &[&Track]) -> (result: Result<String, PlaylistError>)
    ensures
        result is Err <==> tracks@.len() == 0,
        result is Err ==> result == Err::<String, PlaylistError>(PlaylistError::EmptyPlaylist),
        result is Ok ==> result->Ok_0@ == m3u8_text(borrowed_views(tracks@)),
{
    if tracks.len() == 0 {
        return Err(PlaylistError::EmptyPlaylist);
    }
    let ghost lines = playlist_lines(track_paths(borrowed_views(tracks@)));
    let mut text = String::new();
    text.append("#EXTM3U");
    text.push('\n');
    proof {
        assert(lines.take(1).drop_last() =~= Seq::<Seq<char>>::empty());
        assert(lines_text(lines.take(1).drop_last()) =~= Seq::<char>::empty());
        assert(text@ =~= lines_text(lines.take(1)));
    }
    let mut i: usize = 0;
    while i < tracks.len()
        invariant
            i <= tracks.len(),
            lines == playlist_lines(track_paths(borrowed_views(tracks@))),
            lines.len() == tracks.len() + 1,
            text@ == lines_text(lines.take(i + 1)),
        decreases tracks.len() - i,
    {
        let device = to_psp_path(tracks[i].path.as_str());
        proof {
            assert(lines.take(i + 2).drop_last() =~= lines.take(i + 1));
            assert(lines.take(i + 2).last() == device@);
        }
        text.append(device.as_str());
        text.push('\n');
        proof {
            assert(text@ =~= lines_text(lines.take(i + 2)));
        }
        i += 1;
    }
    assert(lines.take(i + 1) =~= lines);
    Ok(text)
}

/// Every device path is absolute: it begins with `/`.
pub proof fn lemma_device_path_is_absolute(path: Seq<char>)
    ensures
        device_path(path).len() > 0,
        device_path(path)[0] == '/',
{
}

/// The device path of a host path without a line feed holds none either.
pub proof fn lemma_device_path_keeps_to_one_line(path: Seq<char>)
    requires
        !path.contains('\n'),
    ensures
        !device_path(path).contains('\n'),
{
    let parts = components_of(path);
    let device = device_path(path);
    lemma_components_avoid(path, '\n');
    if device.contains('\n') {
        let k = choose|k: int| 0 <= k < device.len() && device[k] == '\n';
        match marker_position(parts) {
            Some(i) if 0 <= i < parts.len() => {
                let kept = parts.skip(i);
                assert(all_avoid(kept, '\n')) by {
                    assert forall|j: int| 0 <= j < kept.len() implies !(#[trigger] kept[j]).contains(
                        '\n',
                    ) by {
                        assert(kept[j] == parts[i + j]);
                    }
                }
                lemma_joined_avoid(kept, '\n');
                assert(joined(kept)[k - 1] == '\n');
            },
            _ => {
                let name = match last_normal(parts) {
                    Some(name) => name,
                    None => Seq::<char>::empty(),
                };
                assert(!name.contains('\n')) by {
                    if last_normal(parts) is Some {
                        assert(parts[parts.len() - 1] == parts.last());
                    }
                }
                assert(k >= 7);
                assert(name[k - 7] == '\n');
            },
        }
    }
}

/// The number of line feeds in a text.
pub open spec fn line_feeds(text: Seq<char>) -> nat
    decreases text.len(),
{
    if text.len() == 0 {
        0
    } else if text.last() == '\n' {
        line_feeds(text.drop_last()) + 1
    } else {
        line_feeds(text.drop_last())
    }
}

/// The line feeds of a text in two parts are those of the parts.
pub proof fn lemma_line_feeds_add(a: Seq<char>, b: Seq<char>)
    ensures
        line_feeds(a + b) == line_feeds(a) + line_feeds(b),
    decreases b.len(),
{
    if b.len() == 0 {
        assert(a + b =~= a);
    } else {
        lemma_line_feeds_add(a, b.drop_last());
        assert((a + b).drop_last() =~= a + b.drop_last());
    }
}

/// A text in which no line feed occurs has none.
pub proof fn lemma_line_feeds_none(text: Seq<char>)
    requires
        !text.contains('\n'),
    ensures
        line_feeds(text) == 0,
    decreases text.len(),
{
    if text.len() > 0 {
        assert(text[text.len() - 1] == text.last());
        let shorter = text.drop_last();
        assert(!shorter.contains('\n')) by {
            if shorter.contains('\n') {
                let k = choose|k: int| 0 <= k < shorter.len() && shorter[k] == '\n';
                assert(text[k] == '\n');
            }
        }
        lemma_line_feeds_none(shorter);
    }
}

/// Lines that hold no line feed make a text with exactly one line feed for
/// each of them.
pub proof fn lemma_one_feed_per_line(lines: Seq<Seq<char>>)
    requires
        all_avoid(lines, '\n'),
    ensures
        line_feeds(lines_text(lines)) == lines.len(),
    decreases lines.len(),
{
    if lines.len() > 0 {
        let shorter = lines.drop_last();
        assert(all_avoid(shorter, '\n')) by {
            assert forall|i: int| 0 <= i < shorter.len() implies !(#[trigger] shorter[i]).contains(
                '\n',
            ) by {
                assert(shorter[i] == lines[i]);
            }
        }
        lemma_one_feed_per_line(shorter);
        assert(!lines.last().contains('\n')) by {
            assert(lines[lines.len() - 1] == lines.last());
        }
        lemma_line_feeds_none(lines.last());
        lemma_line_feeds_add(lines_text(shorter), lines.last());
        lemma_line_feeds_add(lines_text(shorter) + lines.last(), seq!['\n']);
        assert(line_feeds(seq!['\n']) == 1) by {
            let feed = seq!['\n'];
            assert(feed.len() == 1);
            assert(feed.last() == '\n');
            assert(feed.drop_last().len() == 0);
            assert(line_feeds(feed.drop_last()) == 0);
        }
    }
}

/// The playlist of `n` tracks whose paths hold no line feed is a text of
/// exactly `n + 1` lines.
pub proof fn lemma_playlist_line_count(tracks: Seq<TrackView>)
    requires
        forall|i: int| 0 <= i < tracks.len() ==> !(#[trigger] tracks[i]).path.contains('\n'),
    ensures
        line_feeds(m3u8_text(tracks)) == tracks.len() + 1,
{
    let lines = playlist_lines(track_paths(tracks));
    reveal_strlit("#EXTM3U");
    assert forall|i: int| 0 <= i < lines.len() implies !(#[trigger] lines[i]).contains('\n') by {
        if i == 0 {
            if lines[0].contains('\n') {
                let k = choose|k: int| 0 <= k < lines[0].len() && lines[0][k] == '\n';
            }
        } else {
            assert(lines[i] == device_path(tracks[i - 1].path));
            lemma_device_path_keeps_to_one_line(tracks[i - 1].path);
        }
    }
    lemma_one_feed_per_line(lines);
}

/// A component that is no music directory, put before others, moves the
/// marker one place on and changes nothing else.
pub proof fn lemma_marker_after(first: Seq<char>, parts: Seq<Seq<char>>)
    requires
        !is_marker(first),
    ensures
        marker_position(seq![first] + parts) == match marker_position(parts) {
            Some(i) => Some(i + 1),
            None => None,
        },
    decreases parts.len(),
{
    let all = seq![first] + parts;
    if parts.len() == 0 {
        assert(all.len() == 1);
        assert(all.drop_last().len() == 0);
        assert(marker_position(all.drop_last()) is None);
        assert(all.last() == first);
        assert(marker_position(all) is None);
    } else {
        lemma_marker_after(first, parts.drop_last());
        assert(all.drop_last() =~= seq![first] + parts.drop_last());
        assert(all.last() == parts.last());
    }
}

/// The device path of an absolute host path written with plain names: from
/// the first name that is the music directory on, the names as they are; and
/// without such a name, the last name put directly into the music directory.
pub proof fn lemma_device_path_of_names(names: Seq<Seq<char>>)
    requires
        names.len() > 0,
        forall|i: int| 0 <= i < names.len() ==> is_plain_name(#[trigger] names[i]),
    ensures
        device_path(seq!['/'] + joined(names)) == match marker_position(names) {
            Some(i) => seq!['/'] + joined(names.skip(i)),
            None => seq!['/'] + marker_name() + seq!['/'] + names.last(),
        },
{
    let root = seq!['/'];
    let parts = seq![root] + names;
    lemma_components_of_names(names);
    assert(!is_marker(root));
    lemma_marker_after(root, names);
    lemma_marker_position(names);
    match marker_position(names) {
        Some(i) => {
            assert(parts.skip(i + 1) =~= names.skip(i));
        },
        None => {
            assert(parts.last() == names.last());
            assert(is_plain_name(names[names.len() - 1]));
            assert(names.last() != root) by {
                if names.last() == root {
                    assert(names.last()[0] == '/');
                    assert(names.last().contains('/'));
                }
            }
        },
    }
}

} // verus!
