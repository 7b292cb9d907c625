use psp_playlist_maker::browser::{
    add_playlist, album_label_of, compare_texts, count_tracks_for_album, count_tracks_for_artist,
    create_playlist, display_metadata, get_albums_for_artist, get_artists,
    listing_line_of, needs_cover_lookup, remove_playlist, title_label_of, tracks_on_album,
    Playlist, Selection, Standing,
};
use psp_playlist_maker::music::{TagFields, Track};
use psp_playlist_maker::playlist::PlaylistError;

fn tags(title: &str, artist: &str, album: &str) -> TagFields {
    TagFields { title: title.to_string(), artist: artist.to_string(), album: album.to_string() }
}

fn track(path: &str, artist: &str, album: &str, title: &str) -> Track {
    Track {
        path: path.to_string(),
        artist: artist.to_string(),
        album: album.to_string(),
        title: title.to_string(),
    }
}

fn collection() -> Vec<TagFields> {
    vec![
        tags("One More Time", "Daft Punk", "Discovery"),
        tags("Hells Bells", "AC/DC", "Back in Black"),
        tags("Aerodynamic", "Daft Punk", "Discovery"),
        tags("Around the World", "Daft Punk", "Homework"),
        tags("Loose", "", ""),
        tags("Single", "AC/DC", ""),
        tags("Shoot to Thrill", "AC/DC", "Back in Black"),
    ]
}

fn library() -> Vec<Track> {
    vec![
        track("/m/MUSIC/a.mp3", "A", "X", "a"),
        track("/m/MUSIC/b.mp3", "B", "Y", "b"),
        track("/tmp/c.mp3", "C", "Z", "c"),
    ]
}

#[test]
fn texts_compare_as_in_a_dictionary() {
    assert_eq!(compare_texts("abc", "abd"), Standing::Before);
    assert_eq!(compare_texts("abd", "abc"), Standing::After);
    assert_eq!(compare_texts("abc", "abc"), Standing::Same);
    assert_eq!(compare_texts("ab", "abc"), Standing::Before);
    assert_eq!(compare_texts("abc", "ab"), Standing::After);
    assert_eq!(compare_texts("", ""), Standing::Same);
    assert_eq!(compare_texts("", "a"), Standing::Before);
    assert_eq!(compare_texts("Z", "a"), Standing::Before);
}

#[test]
fn texts_compare_as_the_standard_library_orders_strings() {
    let samples = ["", "a", "A", "ab", "b", "é", "e", "z", "日本", "ｚ", "\u{10000}", "\u{ffff}", "~"];
    for left in samples {
        for right in samples {
            let expected = match left.cmp(right) {
                std::cmp::Ordering::Less => Standing::Before,
                std::cmp::Ordering::Equal => Standing::Same,
                std::cmp::Ordering::Greater => Standing::After,
            };
            assert_eq!(compare_texts(left, right), expected, "{:?} against {:?}", left, right);
        }
    }
}

#[test]
fn artists_are_listed_once_and_in_order() {
    assert_eq!(get_artists(&collection()), vec!["", "AC/DC", "Daft Punk"]);
    assert_eq!(get_artists(&Vec::new()), Vec::<String>::new());
}

#[test]
fn artists_are_listed_as_sort_and_dedup_list_them() {
    let metadata: Vec<TagFields> = ["b", "a", "É", "e", "b", "Z", "a", "zz", "z", ""]
        .iter()
        .map(|artist| tags("t", artist, "l"))
        .collect();
    let mut expected: Vec<String> = metadata.iter().map(|m| m.artist.clone()).collect();
    expected.sort();
    expected.dedup();
    assert_eq!(get_artists(&metadata), expected);
}

#[test]
fn albums_of_one_artist() {
    assert_eq!(
        get_albums_for_artist(&collection(), Some("Daft Punk")),
        vec!["Discovery", "Homework"]
    );
    assert_eq!(
        get_albums_for_artist(&collection(), Some("AC/DC")),
        vec!["(Unknown Album)", "Back in Black"]
    );
    assert_eq!(get_albums_for_artist(&collection(), Some("Nobody")), Vec::<String>::new());
}

#[test]
fn albums_of_all_artists() {
    assert_eq!(
        get_albums_for_artist(&collection(), None),
        vec!["(Unknown Album)", "Back in Black", "Discovery", "Homework"]
    );
}

#[test]
fn tracks_are_counted_by_artist() {
    assert_eq!(count_tracks_for_artist(&collection(), "Daft Punk"), 3);
    assert_eq!(count_tracks_for_artist(&collection(), "AC/DC"), 3);
    assert_eq!(count_tracks_for_artist(&collection(), ""), 1);
    assert_eq!(count_tracks_for_artist(&collection(), "daft punk"), 0);
}

#[test]
fn tracks_are_counted_by_album() {
    assert_eq!(count_tracks_for_album(&collection(), Some("Daft Punk"), "Discovery"), 2);
    assert_eq!(count_tracks_for_album(&collection(), Some("AC/DC"), "Discovery"), 0);
    assert_eq!(count_tracks_for_album(&collection(), None, "Back in Black"), 2);
    assert_eq!(count_tracks_for_album(&collection(), None, "(Unknown Album)"), 2);
    assert_eq!(count_tracks_for_album(&collection(), Some("AC/DC"), "(Unknown Album)"), 1);
    assert_eq!(count_tracks_for_album(&collection(), None, ""), 0);
}

#[test]
fn tracks_of_an_album_keep_the_order_of_the_library() {
    assert_eq!(tracks_on_album(&collection(), Some("Daft Punk"), "Discovery"), vec![0, 2]);
    assert_eq!(tracks_on_album(&collection(), None, "(Unknown Album)"), vec![4, 5]);
    assert_eq!(tracks_on_album(&collection(), Some("AC/DC"), "Homework"), Vec::<usize>::new());
}

#[test]
fn shown_fields_prefer_the_tag_block() {
    let recorded = track("/m/a.mp3", "Dir Artist", "Dir Album", "a.mp3");
    let shown = display_metadata(&recorded, Some(tags("Real", "", "Real Album")));
    assert_eq!(
        (shown.title.as_str(), shown.artist.as_str(), shown.album.as_str()),
        ("Real", "Dir Artist", "Real Album")
    );
    let shown = display_metadata(&recorded, None);
    assert_eq!(
        (shown.title.as_str(), shown.artist.as_str(), shown.album.as_str()),
        ("a.mp3", "Dir Artist", "Dir Album")
    );
}

#[test]
fn labels_stand_in_for_empty_names() {
    assert_eq!(album_label_of(""), "(Unknown Album)");
    assert_eq!(album_label_of("Discovery"), "Discovery");
    assert_eq!(title_label_of(""), "(Untitled)");
    assert_eq!(title_label_of("One More Time"), "One More Time");
}

#[test]
fn listing_lines() {
    assert_eq!(
        listing_line_of(&track("/m/a.mp3", "Daft Punk", "Discovery", "One More Time")),
        "Daft Punk - One More Time [Discovery] | Track #: N/A | path: /m/a.mp3"
    );
    assert_eq!(
        listing_line_of(&track("/m/b.mp3", "", "", "b.mp3")),
        " - b.mp3 [(no album)] | Track #: N/A | path: /m/b.mp3"
    );
}

#[test]
fn choosing_an_artist_clears_album_and_track() {
    let selection =
        Selection::new().choose_artist(1).choose_album(2).choose_track(3).choose_artist(0);
    assert_eq!(selection, Selection { artist: Some(0), album: None, track: None });
}

#[test]
fn choosing_an_album_clears_the_track() {
    let selection = Selection::new().choose_artist(1).choose_album(2).choose_track(3);
    assert_eq!(selection, Selection { artist: Some(1), album: Some(2), track: Some(3) });
    assert_eq!(
        selection.choose_album(0),
        Selection { artist: Some(1), album: Some(0), track: None }
    );
}

#[test]
fn cover_is_looked_up_once_for_a_named_album() {
    assert!(needs_cover_lookup(&tags("t", "a", "l"), false, false));
    assert!(!needs_cover_lookup(&tags("t", "a", "l"), true, false));
    assert!(!needs_cover_lookup(&tags("t", "a", "l"), false, true));
    assert!(!needs_cover_lookup(&tags("t", "", "l"), false, false));
    assert!(!needs_cover_lookup(&tags("t", "a", ""), false, false));
}

#[test]
fn track_is_added_to_a_playlist_once() {
    let mut playlist = Playlist::new("Road".to_string());
    assert!(playlist.add_track(2));
    assert!(playlist.add_track(0));
    assert!(!playlist.add_track(2));
    assert_eq!(playlist.track_indices, vec![2, 0]);
    assert_eq!(playlist.name, "Road");
    assert!(playlist.holds(0));
    assert!(!playlist.holds(1));
}

#[test]
fn playlist_selects_its_tracks_in_its_own_order() {
    let library = library();
    let playlist = Playlist { name: "p".to_string(), track_indices: vec![2, 7, 0] };
    let chosen = playlist.select_tracks(&library);
    let paths: Vec<&str> = chosen.iter().map(|track| track.path.as_str()).collect();
    assert_eq!(paths, vec!["/tmp/c.mp3", "/m/MUSIC/a.mp3"]);
}

#[test]
fn playlist_export_names_the_file_and_writes_the_text() {
    let playlist = Playlist { name: "Road Trip".to_string(), track_indices: vec![1, 2, 0] };
    let export = playlist.export(&library()).unwrap();
    assert_eq!(export.file_name, "Road Trip.m3u8");
    assert_eq!(export.text, "#EXTM3U\n/MUSIC/b.mp3\n/MUSIC/c.mp3\n/MUSIC/a.mp3\n");
}

#[test]
fn playlist_without_tracks_of_the_library_is_not_exported() {
    let empty = Playlist::new("Empty".to_string());
    assert_eq!(empty.export(&library()).err(), Some(PlaylistError::EmptyPlaylist));
    let stale = Playlist { name: "Stale".to_string(), track_indices: vec![3, 99] };
    assert_eq!(stale.export(&library()).err(), Some(PlaylistError::EmptyPlaylist));
}

#[test]
fn playlist_is_created_under_the_trimmed_name() {
    let mut playlists: Vec<Playlist> = Vec::new();
    assert!(create_playlist(&mut playlists, "  Road Trip \t"));
    assert_eq!(playlists.len(), 1);
    assert_eq!(playlists[0].name, "Road Trip");
    assert!(playlists[0].track_indices.is_empty());
}

#[test]
fn playlist_without_a_name_is_not_created() {
    let mut playlists: Vec<Playlist> = Vec::new();
    assert!(!create_playlist(&mut playlists, ""));
    assert!(!create_playlist(&mut playlists, "   \n"));
    assert!(!add_playlist(&mut playlists, ""));
    assert!(playlists.is_empty());
    assert!(add_playlist(&mut playlists, " kept as given "));
    assert_eq!(playlists[0].name, " kept as given ");
}

#[test]
fn removing_the_chosen_playlist_clears_the_choice() {
    let mut playlists = vec![
        Playlist::new("a".to_string()),
        Playlist::new("b".to_string()),
        Playlist::new("c".to_string()),
    ];
    assert_eq!(remove_playlist(&mut playlists, Some(1), 1), None);
    let names: Vec<&str> = playlists.iter().map(|p| p.name.as_str()).collect();
    assert_eq!(names, vec!["a", "c"]);
}

#[test]
fn removing_another_playlist_keeps_the_choice() {
    let mut playlists = vec![Playlist::new("a".to_string()), Playlist::new("b".to_string())];
    assert_eq!(remove_playlist(&mut playlists, Some(1), 0), Some(1));
    assert_eq!(playlists.len(), 1);
    assert_eq!(playlists[0].name, "b");
    assert_eq!(remove_playlist(&mut playlists, None, 0), None);
    assert!(playlists.is_empty());
}

#[test]
fn removing_beyond_the_list_changes_nothing() {
    let mut playlists = vec![Playlist::new("a".to_string())];
    assert_eq!(remove_playlist(&mut playlists, Some(0), 1), Some(0));
    assert_eq!(playlists.len(), 1);
}
