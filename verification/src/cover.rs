//! Looking up cover art on the network services: the addresses that are
//! asked, the order in which the services are tried, and what is taken from
//! their answers. The requests themselves are made by the caller.

use vstd::prelude::*;
use vstd::string::StringExecFns;
use vstd::utf8::encode_utf8;
use crate::paths::texts;
use crate::text::{replace_all, replaced, str_eq};

verus! {

/// Whether a byte stands for itself in a percent-encoded text: the ASCII
/// letters and digits, and `-`, `.`, `_`, `~`.
pub open spec fn is_unreserved(byte: u8) -> bool {
    ||| 0x30 <= byte <= 0x39
    ||| 0x41 <= byte <= 0x5a
    ||| 0x61 <= byte <= 0x7a
    ||| byte == 0x2d
    ||| byte == 0x2e
    ||| byte == 0x5f
    ||| byte == 0x7e
}

/// The upper-case hexadecimal digit for a value below sixteen.
pub open spec fn hex_digit(value: u8) -> char {
    if value < 10 {
        (0x30 + value) as u8 as char
    } else {
        (0x41 + value - 10) as u8 as char
    }
}

/// One byte, percent-encoded.
pub open spec fn encoded_byte(byte: u8) -> Seq<char> {
    if is_unreserved(byte) {
        seq![byte as char]
    } else {
        seq!['%', hex_digit(byte / 16), hex_digit(byte % 16)]
    }
}

/// A run of bytes, percent-encoded byte by byte.
pub open spec fn encoded_bytes(bytes: Seq<u8>) -> Seq<char>
    decreases bytes.len(),
{
    if bytes.len() == 0 {
        Seq::<char>::empty()
    } else {
        encoded_bytes(bytes.drop_last()) + encoded_byte(bytes.last())
    }
}

/// A text, percent-encoded: its UTF-8 bytes, each written as itself where it
/// is unreserved and as `%` with two hexadecimal digits where it is not.
pub open spec fn percent_encoded(text: Seq<char>) -> Seq<char> {
    encoded_bytes(encode_utf8(text))
}

/// Whether a character can stand in a percent-encoded text: `%`, or an ASCII
/// character that stands for itself.
pub open spec fn is_url_safe(c: char) -> bool {
    c == '%' || ((c as u32) < 128 && is_unreserved(c as u8))
}

/// A percent-encoded text holds nothing but `%` and unreserved characters, so
/// it cannot end the part of an address that it is written into.
pub proof fn lemma_encoded_is_url_safe(bytes: Seq<u8>)
    ensures
        forall|i: int|
            0 <= i < encoded_bytes(bytes).len() ==> is_url_safe(#[trigger] encoded_bytes(bytes)[i]),
    decreases bytes.len(),
{
    if bytes.len() > 0 {
        lemma_encoded_is_url_safe(bytes.drop_last());
        let head = encoded_bytes(bytes.drop_last());
        let byte = bytes.last();
        let tail = encoded_byte(byte);
        assert forall|k: int| 0 <= k < tail.len() implies is_url_safe(#[trigger] tail[k]) by {
            let high = byte / 16;
            let low = byte % 16;
            assert(high < 16 && low < 16);
            assert(is_url_safe(hex_digit(high)));
            assert(is_url_safe(hex_digit(low)));
        }
        assert forall|i: int| 0 <= i < encoded_bytes(bytes).len() implies is_url_safe(
            #[trigger] encoded_bytes(bytes)[i],
        ) by {
            if i < head.len() {
                assert(encoded_bytes(bytes)[i] == head[i]);
            } else {
                assert(encoded_bytes(bytes)[i] == tail[i - head.len()]);
            }
        }
    }
}

/// Calls `urlencoding::encode`, which percent-encodes every byte of the UTF-8
/// form of a text except the ASCII letters and digits and `-`, `_`, `.`, `~`,
/// with upper-case hexadecimal digits.
#[verifier::external_body]
fn percent_encode(text: &str) -> (encoded: String)
    ensures
        encoded@ == percent_encoded(text@),
{
    urlencoding::encode(text).into_owned()
}

/// The words by which an album is searched: artist and album, a space between.
pub open spec fn search_terms(artist: Seq<char>, album: Seq<char>) -> Seq<char> {
    artist + " "@ + album
}

fn terms(artist: &str, album: &str) -> (query: String)
    ensures
        query@ == search_terms(artist@, album@),
{
    let mut query = artist.to_owned();
    query.append(" ");
    query.append(album);
    query
}

/// The address of the Deezer search for an album.
pub open spec fn deezer_url(artist: Seq<char>, album: Seq<char>) -> Seq<char> {
    "https://api.deezer.com/search/album?q="@ + percent_encoded(search_terms(artist, album))
}

/// Writes the address of the Deezer search for an album.
pub fn deezer_search_url(artist: &str, album: &str) -> (url: String)
    ensures
        url@ == deezer_url(artist@, album@),
{
    let query = terms(artist, album);
    let mut url = "https://api.deezer.com/search/album?q=".to_owned();
    url.append(percent_encode(query.as_str()).as_str());
    url
}

/// The address of the iTunes search for an album.
pub open spec fn itunes_url(artist: Seq<char>, album: Seq<char>) -> Seq<char> {
    "https://itunes.apple.com/search?term="@ + percent_encoded(search_terms(artist, album))
        + "&entity=album&limit=1"@
}

/// Writes the address of the iTunes search for an album.
pub fn itunes_search_url(artist: &str, album: &str) -> (url: String)
    ensures
        url@ == itunes_url(artist@, album@),
{
    let query = terms(artist, album);
    let mut url = "https://itunes.apple.com/search?term=".to_owned();
    url.append(percent_encode(query.as_str()).as_str());
    url.append("&entity=album&limit=1");
    url
}

/// The address of the Last.fm album search.
pub open spec fn lastfm_url(album: Seq<char>, api_key: Seq<char>) -> Seq<char> {
    "https://ws.audioscrobbler.com/2.0/?method=album.search&album="@ + percent_encoded(album)
        + "&api_key="@ + api_key + "&format=json"@
}

/// Writes the address of the Last.fm album search. The key is written as it
/// is given.
pub fn lastfm_search_url(album: &str, api_key: &str) -> (url: String)
    ensures
        url@ == lastfm_url(album@, api_key@),
{
    let mut url = "https://ws.audioscrobbler.com/2.0/?method=album.search&album=".to_owned();
    url.append(percent_encode(album).as_str());
    url.append("&api_key=");
    url.append(api_key);
    url.append("&format=json");
    url
}

/// The address of a MusicBrainz release search.
pub open spec fn release_search_url(query: Seq<char>) -> Seq<char> {
    "https://musicbrainz.org/ws/2/release/?query="@ + percent_encoded(query)
        + "&fmt=json&limit=5"@
}

/// Writes the address of a MusicBrainz release search.
pub fn musicbrainz_release_url(query: &str) -> (url: String)
    ensures
        url@ == release_search_url(query@),
{
    let mut url = "https://musicbrainz.org/ws/2/release/?query=".to_owned();
    url.append(percent_encode(query).as_str());
    url.append("&fmt=json&limit=5");
    url
}

/// The address under which the Cover Art Archive holds the front cover of a
/// release.
pub open spec fn front_cover_url(release_id: Seq<char>) -> Seq<char> {
    "https://coverartarchive.org/release/"@ + release_id + "/front-500"@
}

/// Writes the address of the front cover of a release.
pub fn cover_archive_url(release_id: &str) -> (url: String)
    ensures
        url@ == front_cover_url(release_id@),
{
    let mut url = "https://coverartarchive.org/release/".to_owned();
    url.append(release_id);
    url.append("/front-500");
    url
}

/// The three ways in which MusicBrainz is asked for an album, in the order in
/// which they are tried: both names as exact phrases, both names as plain
/// words, and the names bound to their fields.
pub open spec fn release_queries(artist: Seq<char>, album: Seq<char>) -> Seq<Seq<char>> {
    seq![
        "\""@ + artist + "\" AND \""@ + album + "\""@,
        search_terms(artist, album),
        "artist:"@ + artist + " release:"@ + album,
    ]
}

/// Writes the three queries by which MusicBrainz is asked for an album.
pub fn musicbrainz_queries(artist: &str, album: &str) -> (queries: Vec<String>)
    ensures
        texts(queries@) == release_queries(artist@, album@),
{
    let mut exact = "\"".to_owned();
    exact.append(artist);
    exact.append("\" AND \"");
    exact.append(album);
    exact.append("\"");
    let plain = terms(artist, album);
    let mut fields = "artist:".to_owned();
    fields.append(artist);
    fields.append(" release:");
    fields.append(album);
    let mut queries: Vec<String> = Vec::new();
    queries.push(exact);
    queries.push(plain);
    queries.push(fields);
    assert(texts(queries@) =~= release_queries(artist@, album@));
    queries
}

/// The query for one recording.
pub open spec fn recording_terms(artist: Seq<char>, album: Seq<char>, title: Seq<char>) -> Seq<
    char,
> {
    "recording:"@ + title + " AND artist:"@ + artist + " AND release:"@ + album
}

/// The address of the MusicBrainz search for one recording.
pub open spec fn recording_url(artist: Seq<char>, album: Seq<char>, title: Seq<char>) -> Seq<
    char,
> {
    "https://musicbrainz.org/ws/2/recording/?query="@ + percent_encoded(
        recording_terms(artist, album, title),
    ) + "&fmt=json"@
}

/// Writes the address of the MusicBrainz search for one recording.
pub fn musicbrainz_recording_url(artist: &str, album: &str, title: &str) -> (url: String)
    ensures
        url@ == recording_url(artist@, album@, title@),
{
    let mut query = "recording:".to_owned();
    query.append(title);
    query.append(" AND artist:");
    query.append(artist);
    query.append(" AND release:");
    query.append(album);
    let mut url = "https://musicbrainz.org/ws/2/recording/?query=".to_owned();
    url.append(percent_encode(query.as_str()).as_str());
    url.append("&fmt=json");
    url
}

/// The address of the artwork that iTunes holds for an album.
#[derive(Debug)]
pub struct ITunesArt {
    pub url: String,
}

impl Clone for ITunesArt {
    fn clone(&self) -> (copy: Self)
        ensures
            copy == *self,
    {
        ITunesArt { url: self.url.clone() }
    }
}

/// What MusicBrainz holds for one recording.
#[derive(Debug)]
pub struct MBTrack {
    pub title: String,
    pub artist: String,
    pub album: String,
    pub cover_url: Option<String>,
}

impl Clone for MBTrack {
    fn clone(&self) -> (copy: Self)
        ensures
            copy == *self,
    {
        MBTrack {
            title: self.title.clone(),
            artist: self.artist.clone(),
            album: self.album.clone(),
            cover_url: match &self.cover_url {
                Some(url) => Some(url.clone()),
                None => None,
            },
        }
    }
}

/// Makes the record of the first recording that a search returned, of which
/// `title`, `artist` and `album` were read. There is a record only where all
/// three are there; MusicBrainz gives no cover address with a recording.
pub fn recording_found(title: Option<String>, artist: Option<String>, album: Option<String>) -> (found:
    Option<MBTrack>)
    ensures
        found is Some <==> title is Some && artist is Some && album is Some,
        found is Some ==> found->0 == (MBTrack {
            title: title->0,
            artist: artist->0,
            album: album->0,
            cover_url: None,
        }),
{
    match (title, artist, album) {
        (Some(title), Some(artist), Some(album)) => Some(
            MBTrack { title, artist, album, cover_url: None },
        ),
        _ => None,
    }
}

/// The address of the large artwork for the address of the small one that
/// iTunes returns.
pub open spec fn large_artwork(small: Seq<char>) -> Seq<char> {
    replaced(small, "100x100bb"@, "600x600bb"@)
}

/// Makes the artwork record for the first album that iTunes returned, whose
/// small artwork is at `artwork_url_100`: the address of the large artwork.
pub fn itunes_artwork(artwork_url_100: Option<String>) -> (art: Option<ITunesArt>)
    ensures
        art is Some <==> artwork_url_100 is Some,
        art is Some ==> art->0.url@ == large_artwork(artwork_url_100->0@),
{
    match artwork_url_100 {
        Some(small) => Some(
            ITunesArt { url: replace_all(small.as_str(), "100x100bb", "600x600bb") },
        ),
        None => None,
    }
}

/// The cover that Deezer gives: that of the first album it returned.
pub fn deezer_cover(covers: Vec<Option<String>>) -> (cover: Option<String>)
    ensures
        cover == if covers@.len() > 0 {
            covers@[0]
        } else {
            None
        },
{
    let mut covers = covers;
    if covers.len() == 0 {
        None
    } else {
        covers.swap_remove(0)
    }
}

/// One image of an album as Last.fm lists it: its address and the name of its
/// size.
#[derive(Debug)]
pub struct LastFmImage {
    pub text: String,
    pub size: String,
}

/// Whether an image is one that is taken: of the largest size, and with an
/// address.
pub open spec fn is_usable_image(image: LastFmImage) -> bool {
    image.size@ == "extralarge"@ && image.text@.len() > 0
}

/// The address of the first usable image among `images`, if there is one.
pub open spec fn first_usable(images: Seq<LastFmImage>) -> Option<Seq<char>>
    decreases images.len(),
{
    if images.len() == 0 {
        None
    } else if is_usable_image(images[0]) {
        Some(images[0].text@)
    } else {
        first_usable(images.skip(1))
    }
}

/// Picks the cover among the images of the first album that Last.fm returned:
/// the first image of the largest size that has an address.
pub fn lastfm_cover(images: &Vec<LastFmImage>) -> (cover: Option<String>)
    ensures
        cover is Some == first_usable(images@) is Some,
        cover is Some ==> cover->0@ == first_usable(images@)->0,
{
    let mut i: usize = 0;
    assert(images@.skip(0) =~= images@);
    while i < images.len()
        invariant
            i <= images.len(),
            first_usable(images@) == first_usable(images@.skip(i as int)),
        decreases images.len() - i,
    {
        let image = &images[i];
        proof {
            assert(images@.skip(i as int)[0] == images@[i as int]);
            assert(images@.skip(i as int).skip(1) =~= images@.skip(i + 1));
        }
        if str_eq(image.size.as_str(), "extralarge") && !image.text.as_str().is_empty() {
            return Some(image.text.clone());
        }
        i += 1;
    }
    None
}

/// A service that is asked for cover art.
#[derive(Debug, Clone, Copy, PartialEq, Eq, Structural)]
pub enum ArtSource {
    Deezer,
    ITunes,
    MusicBrainz,
    LastFm,
}

/// The services in the order in which they are asked.
pub open spec fn source_order() -> Seq<ArtSource> {
    seq![ArtSource::Deezer, ArtSource::ITunes, ArtSource::MusicBrainz, ArtSource::LastFm]
}

/// What a lookup does next.
#[derive(Debug)]
pub enum ArtStep {
    /// Ask this service.
    Ask(ArtSource),
    /// The lookup has ended, with the address of a cover or without one.
    Done(Option<String>),
}

/// The service that is asked after `asked` has given nothing.
pub open spec fn source_after(asked: ArtSource) -> Option<ArtSource> {
    match asked {
        ArtSource::Deezer => Some(ArtSource::ITunes),
        ArtSource::ITunes => Some(ArtSource::MusicBrainz),
        ArtSource::MusicBrainz => Some(ArtSource::LastFm),
        ArtSource::LastFm => None,
    }
}

/// The step with which every lookup begins: the first service is asked.
pub fn first_art_step() -> (step: ArtStep)
    ensures
        step == ArtStep::Ask(source_order()[0]),
{
    ArtStep::Ask(ArtSource::Deezer)
}

/// The step that follows the answer of the service `asked`. A cover that was
/// found ends the lookup; without one the next service is asked, and after the
/// last service the lookup ends without a cover.
pub fn next_art_step(asked: ArtSource, answer: Option<String>) -> (step: ArtStep)
    ensures
        answer is Some ==> step == ArtStep::Done(answer),
        answer is None ==> step == match source_after(asked) {
            Some(next) => ArtStep::Ask(next),
            None => ArtStep::Done(None),
        },
{
    match answer {
        Some(url) => ArtStep::Done(Some(url)),
        None => match asked {
            ArtSource::Deezer => ArtStep::Ask(ArtSource::ITunes),
            ArtSource::ITunes => ArtStep::Ask(ArtSource::MusicBrainz),
            ArtSource::MusicBrainz => ArtStep::Ask(ArtSource::LastFm),
            ArtSource::LastFm => ArtStep::Done(None),
        },
    }
}

/// The services follow each other as `source_order` lists them.
pub proof fn lemma_sources_in_order()
    ensures
        forall|i: int|
            0 <= i < 3 ==> source_after(#[trigger] source_order()[i]) == Some(
                source_order()[i + 1],
            ),
        source_after(source_order()[3]) is None,
{
}

/// Where a MusicBrainz cover search stands.
#[derive(Debug, Clone, Copy, PartialEq, Eq, Structural)]
pub enum SearchPhase {
    /// The releases for the current query have been asked for.
    Searching,
    /// The cover of the current release has been asked for.
    Probing,
    /// A pause before the next query is under way.
    Pausing,
    /// The search has ended.
    Finished,
}

/// What the caller of a MusicBrainz cover search does next.
#[derive(Debug)]
pub enum SearchAction {
    /// Fetch the release list at this address.
    Search(String),
    /// Ask whether a cover exists at this address.
    Probe(String),
    /// Wait for the pause between two queries.
    Pause,
    /// The search has ended, with the address of a cover or without one.
    Finish(Option<String>),
}

/// What the caller reports back.
#[derive(Debug)]
pub enum SearchEvent {
    /// The release list could not be fetched or read.
    SearchFailed,
    /// The release list was read; these are the releases' identifiers, none
    /// where the answer held no list.
    Releases(Vec<String>),
    /// Whether the cover that was asked for exists.
    Probed(bool),
    /// The pause has passed.
    Paused,
}

/// The mathematical value of a [`SearchAction`].
pub enum SearchActionView {
    Search(Seq<char>),
    Probe(Seq<char>),
    Pause,
    Finish(Option<Seq<char>>),
}

impl View for SearchAction {
    type V = SearchActionView;

    open spec fn view(&self) -> SearchActionView {
        match *self {
            SearchAction::Search(url) => SearchActionView::Search(url@),
            SearchAction::Probe(url) => SearchActionView::Probe(url@),
            SearchAction::Pause => SearchActionView::Pause,
            SearchAction::Finish(Some(url)) => SearchActionView::Finish(Some(url@)),
            SearchAction::Finish(None) => SearchActionView::Finish(None),
        }
    }
}

/// The mathematical value of a [`SearchEvent`].
pub enum SearchEventView {
    SearchFailed,
    Releases(Seq<Seq<char>>),
    Probed(bool),
    Paused,
}

impl View for SearchEvent {
    type V = SearchEventView;

    open spec fn view(&self) -> SearchEventView {
        match *self {
            SearchEvent::SearchFailed => SearchEventView::SearchFailed,
            SearchEvent::Releases(ids) => SearchEventView::Releases(texts(ids@)),
            SearchEvent::Probed(exists) => SearchEventView::Probed(exists),
            SearchEvent::Paused => SearchEventView::Paused,
        }
    }
}

/// The state of a MusicBrainz cover search: the queries, the one that is being
/// tried, the releases it returned and the one whose cover is being asked for.
#[derive(Debug)]
pub struct CoverSearch {
    queries: Vec<String>,
    query: usize,
    releases: Vec<String>,
    release: usize,
    phase: SearchPhase,
}

/// The mathematical value of a [`CoverSearch`].
pub struct CoverSearchView {
    pub queries: Seq<Seq<char>>,
    pub query: int,
    pub releases: Seq<Seq<char>>,
    pub release: int,
    pub phase: SearchPhase,
}

impl View for CoverSearch {
    type V = CoverSearchView;

    closed spec fn view(&self) -> CoverSearchView {
        CoverSearchView {
            queries: texts(self.queries@),
            query: self.query as int,
            releases: texts(self.releases@),
            release: self.release as int,
            phase: self.phase,
        }
    }
}

impl CoverSearchView {
    /// Whether the positions lie where the phase needs them.
    pub open spec fn well_formed(self) -> bool {
        &&& 0 <= self.query
        &&& 0 <= self.release
        &&& self.phase != SearchPhase::Finished ==> self.query < self.queries.len()
        &&& self.phase == SearchPhase::Probing ==> self.release < self.releases.len()
    }

    /// The state and action once the current query has been dealt with: the
    /// next query is searched, and after the last one the search ends without
    /// a cover.
    pub open spec fn next_query(self) -> (CoverSearchView, SearchActionView) {
        if self.query + 1 < self.queries.len() {
            (
                CoverSearchView {
                    queries: self.queries,
                    query: self.query + 1,
                    releases: Seq::empty(),
                    release: 0,
                    phase: SearchPhase::Searching,
                },
                SearchActionView::Search(release_search_url(self.queries[self.query + 1])),
            )
        } else {
            (
                CoverSearchView {
                    queries: self.queries,
                    query: self.query,
                    releases: Seq::empty(),
                    release: 0,
                    phase: SearchPhase::Finished,
                },
                SearchActionView::Finish(None),
            )
        }
    }

    /// The state and action when the cover of the release at `release` is to
    /// be asked for next: a probe of that cover, or a pause where the releases
    /// are used up.
    pub open spec fn probe_from(self, releases: Seq<Seq<char>>, release: int) -> (
        CoverSearchView,
        SearchActionView,
    ) {
        if 0 <= release < releases.len() {
            (
                CoverSearchView {
                    queries: self.queries,
                    query: self.query,
                    releases: releases,
                    release: release,
                    phase: SearchPhase::Probing,
                },
                SearchActionView::Probe(front_cover_url(releases[release])),
            )
        } else {
            (
                CoverSearchView {
                    queries: self.queries,
                    query: self.query,
                    releases: releases,
                    release: release,
                    phase: SearchPhase::Pausing,
                },
                SearchActionView::Pause,
            )
        }
    }

    /// The action that the search is waiting on; once it has ended, its
    /// outcome.
    pub open spec fn pending(self) -> SearchActionView {
        match self.phase {
            SearchPhase::Searching => SearchActionView::Search(
                release_search_url(self.queries[self.query]),
            ),
            SearchPhase::Probing => SearchActionView::Probe(
                front_cover_url(self.releases[self.release]),
            ),
            SearchPhase::Pausing => SearchActionView::Pause,
            SearchPhase::Finished => if self.release < self.releases.len() {
                SearchActionView::Finish(Some(front_cover_url(self.releases[self.release])))
            } else {
                SearchActionView::Finish(None)
            },
        }
    }

    /// The state and action that follow `event`. A failed search goes on to
    /// the next query at once. A release list has its covers asked for one by
    /// one; the first that exists ends the search, and when none does a pause
    /// is made before the next query. An event that does not answer the
    /// pending action changes nothing, and the action is asked for again.
    pub open spec fn after(self, event: SearchEventView) -> (CoverSearchView, SearchActionView) {
        match (self.phase, event) {
            (SearchPhase::Searching, SearchEventView::SearchFailed) => self.next_query(),
            (SearchPhase::Searching, SearchEventView::Releases(ids)) => self.probe_from(ids, 0),
            (SearchPhase::Probing, SearchEventView::Probed(true)) => (
                CoverSearchView {
                    queries: self.queries,
                    query: self.query,
                    releases: self.releases,
                    release: self.release,
                    phase: SearchPhase::Finished,
                },
                SearchActionView::Finish(Some(front_cover_url(self.releases[self.release]))),
            ),
            (SearchPhase::Probing, SearchEventView::Probed(false)) => self.probe_from(
                self.releases,
                self.release + 1,
            ),
            (SearchPhase::Pausing, SearchEventView::Paused) => self.next_query(),
            _ => (self, self.pending()),
        }
    }

    /// How many events the search can still take in before it ends: each
    /// query costs its search, a probe for each release, and its pause.
    pub open spec fn steps_left(self, most_releases: int) -> int {
        let per_query = most_releases + 2;
        let queries_after = (self.queries.len() - 1 - self.query) * per_query;
        match self.phase {
            SearchPhase::Searching => queries_after + per_query,
            SearchPhase::Probing => queries_after + 1 + (most_releases - self.release),
            SearchPhase::Pausing => queries_after + 1,
            SearchPhase::Finished => 0,
        }
    }
}

impl CoverSearch {
    #[verifier::type_invariant]
    spec fn positions_in_range(self) -> bool {
        self@.well_formed()
    }

    /// Begins the search for the cover of an album: the first of the three
    /// queries is searched.
    pub fn start(artist: &str, album: &str) -> (begun: (CoverSearch, SearchAction))
        ensures
            begun.0@ == (CoverSearchView {
                queries: release_queries(artist@, album@),
                query: 0,
                releases: Seq::empty(),
                release: 0,
                phase: SearchPhase::Searching,
            }),
            begun.1@ == SearchActionView::Search(
                release_search_url(release_queries(artist@, album@)[0]),
            ),
            begun.0@.well_formed(),
    {
        let queries = musicbrainz_queries(artist, album);
        assert(texts(queries@).len() == 3);
        assert(texts(queries@)[0] == queries@[0]@);
        let action = SearchAction::Search(musicbrainz_release_url(queries[0].as_str()));
        let search = CoverSearch {
            queries,
            query: 0,
            releases: Vec::new(),
            release: 0,
            phase: SearchPhase::Searching,
        };
        assert(search@.releases =~= Seq::<Seq<char>>::empty());
        (search, action)
    }

    /// Whether the search has ended.
    pub fn is_finished(&self) -> (finished: bool)
        ensures
            finished == (self@.phase == SearchPhase::Finished),
    {
        self.phase == SearchPhase::Finished
    }

    fn to_next_query(self) -> (next: (CoverSearch, SearchAction))
        requires
            self@.phase != SearchPhase::Finished,
        ensures
            (next.0@, next.1@) == self@.next_query(),
            next.0@.well_formed(),
    {
        proof {
            use_type_invariant(&self);
            assert(texts(self.queries@).len() == self.queries.len());
        }
        if self.query + 1 < self.queries.len() {
            let query = self.query + 1;
            assert(texts(self.queries@)[query as int] == self.queries@[query as int]@);
            let action = SearchAction::Search(
                musicbrainz_release_url(self.queries[query].as_str()),
            );
            let search = CoverSearch {
                queries: self.queries,
                query,
                releases: Vec::new(),
                release: 0,
                phase: SearchPhase::Searching,
            };
            assert(search@.releases =~= Seq::<Seq<char>>::empty());
            (search, action)
        } else {
            let search = CoverSearch {
                queries: self.queries,
                query: self.query,
                releases: Vec::new(),
                release: 0,
                phase: SearchPhase::Finished,
            };
            assert(search@.releases =~= Seq::<Seq<char>>::empty());
            (search, SearchAction::Finish(None))
        }
    }

    fn probe_or_pause(self, releases: Vec<String>, release: usize) -> (next: (
        CoverSearch,
        SearchAction,
    ))
        requires
            self@.phase != SearchPhase::Finished,
        ensures
            (next.0@, next.1@) == self@.probe_from(texts(releases@), release as int),
            next.0@.well_formed(),
    {
        proof {
            use_type_invariant(&self);
        }
        if release < releases.len() {
            assert(texts(releases@)[release as int] == releases@[release as int]@);
            let action = SearchAction::Probe(cover_archive_url(releases[release].as_str()));
            (
                CoverSearch {
                    queries: self.queries,
                    query: self.query,
                    releases,
                    release,
                    phase: SearchPhase::Probing,
                },
                action,
            )
        } else {
            (
                CoverSearch {
                    queries: self.queries,
                    query: self.query,
                    releases,
                    release,
                    phase: SearchPhase::Pausing,
                },
                SearchAction::Pause,
            )
        }
    }

    fn ask_again(self) -> (next: (CoverSearch, SearchAction))
        ensures
            next.0@ == self@,
            next.1@ == self@.pending(),
            next.0@.well_formed(),
    {
        proof {
            use_type_invariant(&self);
        }
        let action = match self.phase {
            SearchPhase::Searching => {
                assert(texts(self.queries@)[self.query as int]
                    == self.queries@[self.query as int]@);
                SearchAction::Search(musicbrainz_release_url(self.queries[self.query].as_str()))
            },
            SearchPhase::Probing => {
                assert(texts(self.releases@)[self.release as int]
                    == self.releases@[self.release as int]@);
                SearchAction::Probe(cover_archive_url(self.releases[self.release].as_str()))
            },
            SearchPhase::Pausing => SearchAction::Pause,
            SearchPhase::Finished => {
                assert(texts(self.releases@).len() == self.releases.len());
                if self.release < self.releases.len() {
                    assert(texts(self.releases@)[self.release as int]
                        == self.releases@[self.release as int]@);
                    SearchAction::Finish(
                        Some(cover_archive_url(self.releases[self.release].as_str())),
                    )
                } else {
                    SearchAction::Finish(None)
                }
            },
        };
        (self, action)
    }

    /// Takes in what the caller reports and says what to do next.
    pub fn advance(self, event: SearchEvent) -> (next: (CoverSearch, SearchAction))
        ensures
            (next.0@, next.1@) == self@.after(event@),
            next.0@.well_formed(),
    {
        proof {
            use_type_invariant(&self);
        }
        match self.phase {
            SearchPhase::Searching => match event {
                SearchEvent::SearchFailed => self.to_next_query(),
                SearchEvent::Releases(ids) => self.probe_or_pause(ids, 0),
                _ => self.ask_again(),
            },
            SearchPhase::Probing => match event {
                SearchEvent::Probed(true) => {
                    assert(texts(self.releases@)[self.release as int]
                        == self.releases@[self.release as int]@);
                    let url = cover_archive_url(self.releases[self.release].as_str());
                    (
                        CoverSearch {
                            queries: self.queries,
                            query: self.query,
                            releases: self.releases,
                            release: self.release,
                            phase: SearchPhase::Finished,
                        },
                        SearchAction::Finish(Some(url)),
                    )
                },
                SearchEvent::Probed(false) => {
                    assert(texts(self.releases@).len() == self.releases.len());
                    let CoverSearch { queries, query, releases, release, phase } = self;
                    let slimmer = CoverSearch {
                        queries,
                        query,
                        releases: Vec::new(),
                        release: 0,
                        phase: SearchPhase::Searching,
                    };
                    slimmer.probe_or_pause(releases, release + 1)
                },
                _ => self.ask_again(),
            },
            SearchPhase::Pausing => match event {
                SearchEvent::Paused => self.to_next_query(),
                _ => self.ask_again(),
            },
            SearchPhase::Finished => self.ask_again(),
        }
    }
}

/// Every event that answers the pending action brings the end of the search
/// nearer, so a search over releases lists of at most `most_releases` entries
/// ends after at most `steps_left` such events.
pub proof fn lemma_search_makes_progress(
    search: CoverSearchView,
    event: SearchEventView,
    most_releases: int,
)
    requires
        search.well_formed(),
        search.releases.len() <= most_releases,
        event matches SearchEventView::Releases(ids) ==> ids.len() <= most_releases,
        search.phase != SearchPhase::Finished,
        search.after(event).0 != search,
    ensures
        search.after(event).0.well_formed(),
        0 <= search.after(event).0.steps_left(most_releases) < search.steps_left(most_releases),
{
    let per_query = most_releases + 2;
    let left = search.queries.len() - 1 - search.query;
    assert((left - 1) * per_query + per_query == left * per_query) by (nonlinear_arith);
    assert(left >= 1 ==> (left - 1) * per_query >= 0) by (nonlinear_arith)
        requires
            per_query >= 2,
    ;
    assert(left * per_query >= 0) by (nonlinear_arith)
        requires
            left >= 0,
            per_query >= 2,
    ;
}

} // verus!
