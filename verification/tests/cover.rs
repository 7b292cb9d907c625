use psp_playlist_maker::cover::{
    cover_archive_url, deezer_cover, deezer_search_url, first_art_step, itunes_artwork,
    itunes_search_url, lastfm_cover, lastfm_search_url, musicbrainz_queries,
    musicbrainz_recording_url, musicbrainz_release_url, next_art_step, recording_found,
    ArtSource, ArtStep, CoverSearch, LastFmImage, SearchAction, SearchEvent,
};

fn image(text: &str, size: &str) -> LastFmImage {
    LastFmImage { text: text.to_string(), size: size.to_string() }
}

fn ids(list: &[&str]) -> Vec<String> {
    list.iter().map(|id| id.to_string()).collect()
}

fn searched(action: &SearchAction) -> &str {
    match action {
        SearchAction::Search(url) => url.as_str(),
        other => panic!("expected a search, got {:?}", other),
    }
}

fn probed(action: &SearchAction) -> &str {
    match action {
        SearchAction::Probe(url) => url.as_str(),
        other => panic!("expected a probe, got {:?}", other),
    }
}

#[test]
fn deezer_address_encodes_the_terms() {
    assert_eq!(
        deezer_search_url("Daft Punk", "Discovery"),
        "https://api.deezer.com/search/album?q=Daft%20Punk%20Discovery"
    );
}

#[test]
fn encoding_keeps_unreserved_characters() {
    assert_eq!(
        deezer_search_url("AZaz09-._~", "x"),
        "https://api.deezer.com/search/album?q=AZaz09-._~%20x"
    );
}

#[test]
fn encoding_writes_other_bytes_in_upper_case_hex() {
    assert_eq!(
        deezer_search_url("AC/DC", "Back in Black!"),
        "https://api.deezer.com/search/album?q=AC%2FDC%20Back%20in%20Black%21"
    );
    assert_eq!(
        deezer_search_url("Björk", "Début"),
        "https://api.deezer.com/search/album?q=Bj%C3%B6rk%20D%C3%A9but"
    );
    assert_eq!(
        deezer_search_url("a+b&c=d", "100%"),
        "https://api.deezer.com/search/album?q=a%2Bb%26c%3Dd%20100%25"
    );
}

#[test]
fn itunes_address() {
    assert_eq!(
        itunes_search_url("Daft Punk", "Discovery"),
        "https://itunes.apple.com/search?term=Daft%20Punk%20Discovery&entity=album&limit=1"
    );
    assert_eq!(
        itunes_search_url("", ""),
        "https://itunes.apple.com/search?term=%20&entity=album&limit=1"
    );
}

#[test]
fn lastfm_address() {
    assert_eq!(
        lastfm_search_url("Back in Black", "k3y"),
        "https://ws.audioscrobbler.com/2.0/?method=album.search&album=Back%20in%20Black&api_key=k3y&format=json"
    );
}

#[test]
fn musicbrainz_release_address() {
    assert_eq!(
        musicbrainz_release_url("artist:Daft Punk release:Discovery"),
        "https://musicbrainz.org/ws/2/release/?query=artist%3ADaft%20Punk%20release%3ADiscovery&fmt=json&limit=5"
    );
}

#[test]
fn musicbrainz_recording_address() {
    assert_eq!(
        musicbrainz_recording_url("Daft Punk", "Discovery", "One More Time"),
        "https://musicbrainz.org/ws/2/recording/?query=recording%3AOne%20More%20Time%20AND%20artist%3ADaft%20Punk%20AND%20release%3ADiscovery&fmt=json"
    );
}

#[test]
fn cover_archive_address() {
    assert_eq!(
        cover_archive_url("b1a9c0e9-d987-4042-ae91-78d6a3267d69"),
        "https://coverartarchive.org/release/b1a9c0e9-d987-4042-ae91-78d6a3267d69/front-500"
    );
}

#[test]
fn three_musicbrainz_queries_in_order() {
    assert_eq!(
        musicbrainz_queries("Daft Punk", "Discovery"),
        vec![
            "\"Daft Punk\" AND \"Discovery\"".to_string(),
            "Daft Punk Discovery".to_string(),
            "artist:Daft Punk release:Discovery".to_string(),
        ]
    );
}

#[test]
fn recording_needs_all_three_fields() {
    let found = recording_found(
        Some("One More Time".to_string()),
        Some("Daft Punk".to_string()),
        Some("Discovery".to_string()),
    )
    .unwrap();
    assert_eq!(found.title, "One More Time");
    assert_eq!(found.artist, "Daft Punk");
    assert_eq!(found.album, "Discovery");
    assert_eq!(found.cover_url, None);
    assert!(recording_found(None, Some("a".to_string()), Some("b".to_string())).is_none());
    assert!(recording_found(Some("t".to_string()), None, Some("b".to_string())).is_none());
    assert!(recording_found(Some("t".to_string()), Some("a".to_string()), None).is_none());
}

#[test]
fn itunes_artwork_is_asked_for_in_the_large_size() {
    let art = itunes_artwork(Some("https://is1.mzstatic.com/image/a/100x100bb.jpg".to_string()));
    assert_eq!(art.unwrap().url, "https://is1.mzstatic.com/image/a/600x600bb.jpg");
    let plain = itunes_artwork(Some("https://example.org/cover.jpg".to_string()));
    assert_eq!(plain.unwrap().url, "https://example.org/cover.jpg");
    assert!(itunes_artwork(None).is_none());
}

#[test]
fn deezer_cover_is_that_of_the_first_album() {
    assert_eq!(
        deezer_cover(vec![Some("first".to_string()), Some("second".to_string())]),
        Some("first".to_string())
    );
    assert_eq!(deezer_cover(vec![None, Some("second".to_string())]), None);
    assert_eq!(deezer_cover(Vec::new()), None);
}

#[test]
fn lastfm_cover_is_the_first_extralarge_image_with_an_address() {
    let images = vec![
        image("small.png", "small"),
        image("", "extralarge"),
        image("big.png", "extralarge"),
        image("bigger.png", "extralarge"),
    ];
    assert_eq!(lastfm_cover(&images), Some("big.png".to_string()));
}

#[test]
fn lastfm_cover_is_absent_without_a_usable_image() {
    assert_eq!(lastfm_cover(&vec![image("a.png", "large"), image("", "extralarge")]), None);
    assert_eq!(lastfm_cover(&Vec::new()), None);
}

#[test]
fn lookup_begins_with_deezer() {
    assert!(matches!(first_art_step(), ArtStep::Ask(ArtSource::Deezer)));
}

#[test]
fn services_are_tried_in_order_until_one_answers() {
    assert!(matches!(next_art_step(ArtSource::Deezer, None), ArtStep::Ask(ArtSource::ITunes)));
    assert!(matches!(
        next_art_step(ArtSource::ITunes, None),
        ArtStep::Ask(ArtSource::MusicBrainz)
    ));
    assert!(matches!(next_art_step(ArtSource::MusicBrainz, None), ArtStep::Ask(ArtSource::LastFm)));
    assert!(matches!(next_art_step(ArtSource::LastFm, None), ArtStep::Done(None)));
}

#[test]
fn first_cover_found_ends_the_lookup() {
    for source in [ArtSource::Deezer, ArtSource::ITunes, ArtSource::MusicBrainz, ArtSource::LastFm]
    {
        match next_art_step(source, Some("cover".to_string())) {
            ArtStep::Done(Some(url)) => assert_eq!(url, "cover"),
            other => panic!("expected the end of the lookup, got {:?}", other),
        }
    }
}

#[test]
fn cover_search_starts_with_the_exact_phrase_query() {
    let (search, action) = CoverSearch::start("Daft Punk", "Discovery");
    assert!(!search.is_finished());
    assert_eq!(
        searched(&action),
        "https://musicbrainz.org/ws/2/release/?query=%22Daft%20Punk%22%20AND%20%22Discovery%22&fmt=json&limit=5"
    );
}

#[test]
fn cover_search_probes_each_release_and_stops_at_the_first_cover() {
    let (search, _) = CoverSearch::start("A", "B");
    let (search, action) = search.advance(SearchEvent::Releases(ids(&["r1", "r2", "r3"])));
    assert_eq!(probed(&action), "https://coverartarchive.org/release/r1/front-500");
    let (search, action) = search.advance(SearchEvent::Probed(false));
    assert_eq!(probed(&action), "https://coverartarchive.org/release/r2/front-500");
    let (search, action) = search.advance(SearchEvent::Probed(true));
    assert!(search.is_finished());
    match action {
        SearchAction::Finish(Some(url)) => {
            assert_eq!(url, "https://coverartarchive.org/release/r2/front-500")
        }
        other => panic!("expected a cover, got {:?}", other),
    }
}

#[test]
fn cover_search_pauses_after_a_query_without_a_cover() {
    let (search, _) = CoverSearch::start("A", "B");
    let (search, action) = search.advance(SearchEvent::Releases(ids(&["r1"])));
    assert_eq!(probed(&action), "https://coverartarchive.org/release/r1/front-500");
    let (search, action) = search.advance(SearchEvent::Probed(false));
    assert!(matches!(action, SearchAction::Pause));
    let (_, action) = search.advance(SearchEvent::Paused);
    assert_eq!(
        searched(&action),
        "https://musicbrainz.org/ws/2/release/?query=A%20B&fmt=json&limit=5"
    );
}

#[test]
fn cover_search_pauses_after_an_empty_release_list() {
    let (search, _) = CoverSearch::start("A", "B");
    let (_, action) = search.advance(SearchEvent::Releases(Vec::new()));
    assert!(matches!(action, SearchAction::Pause));
}

#[test]
fn failed_search_goes_on_without_a_pause() {
    let (search, _) = CoverSearch::start("A", "B");
    let (search, action) = search.advance(SearchEvent::SearchFailed);
    assert_eq!(
        searched(&action),
        "https://musicbrainz.org/ws/2/release/?query=A%20B&fmt=json&limit=5"
    );
    let (search, action) = search.advance(SearchEvent::SearchFailed);
    assert_eq!(
        searched(&action),
        "https://musicbrainz.org/ws/2/release/?query=artist%3AA%20release%3AB&fmt=json&limit=5"
    );
    let (search, action) = search.advance(SearchEvent::SearchFailed);
    assert!(search.is_finished());
    assert!(matches!(action, SearchAction::Finish(None)));
}

#[test]
fn cover_search_ends_without_a_cover_after_the_third_query() {
    let (mut search, mut action) = CoverSearch::start("A", "B");
    let mut searches = 0;
    let mut pauses = 0;
    let mut events = 0;
    while !search.is_finished() {
        let event = match action {
            SearchAction::Search(_) => {
                searches += 1;
                SearchEvent::Releases(ids(&["x", "y"]))
            }
            SearchAction::Probe(_) => SearchEvent::Probed(false),
            SearchAction::Pause => {
                pauses += 1;
                SearchEvent::Paused
            }
            SearchAction::Finish(_) => panic!("finished while not finished"),
        };
        events += 1;
        assert!(events <= 12);
        let next = search.advance(event);
        search = next.0;
        action = next.1;
    }
    assert_eq!(searches, 3);
    assert_eq!(pauses, 3);
    assert_eq!(events, 12);
    assert!(matches!(action, SearchAction::Finish(None)));
}

#[test]
fn event_that_answers_nothing_repeats_the_pending_action() {
    let (search, first) = CoverSearch::start("A", "B");
    let (search, again) = search.advance(SearchEvent::Paused);
    assert_eq!(searched(&again), searched(&first));
    let (search, again) = search.advance(SearchEvent::Probed(true));
    assert_eq!(searched(&again), searched(&first));
    let (search, probe) = search.advance(SearchEvent::Releases(ids(&["r1"])));
    let (search, again) = search.advance(SearchEvent::SearchFailed);
    assert_eq!(probed(&again), probed(&probe));
    let (search, _) = search.advance(SearchEvent::Probed(true));
    let (search, after_end) = search.advance(SearchEvent::Paused);
    assert!(search.is_finished());
    match after_end {
        SearchAction::Finish(Some(url)) => {
            assert_eq!(url, "https://coverartarchive.org/release/r1/front-500")
        }
        other => panic!("expected the cover again, got {:?}", other),
    }
}

#[test]
fn search_that_ended_without_a_cover_stays_so() {
    let (search, _) = CoverSearch::start("A", "B");
    let (search, _) = search.advance(SearchEvent::SearchFailed);
    let (search, _) = search.advance(SearchEvent::SearchFailed);
    let (search, _) = search.advance(SearchEvent::SearchFailed);
    let (search, again) = search.advance(SearchEvent::Probed(true));
    assert!(search.is_finished());
    assert!(matches!(again, SearchAction::Finish(None)));
}
