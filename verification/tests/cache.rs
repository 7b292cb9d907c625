use psp_playlist_maker::cache::{
    complete_extraction, freshness, plan_extraction, Extraction, MetadataCache,
};
use psp_playlist_maker::music::TagFields;

fn tags(title: &str, artist: &str, album: &str) -> TagFields {
    TagFields { title: title.to_string(), artist: artist.to_string(), album: album.to_string() }
}

fn triple(tags: &TagFields) -> (&str, &str, &str) {
    (tags.title.as_str(), tags.artist.as_str(), tags.album.as_str())
}

#[test]
fn unreadable_change_time_counts_as_zero() {
    assert_eq!(freshness(None), 0);
    assert_eq!(freshness(Some(0)), 0);
    assert_eq!(freshness(Some(1_700_000_000)), 1_700_000_000);
    assert_eq!(freshness(Some(u64::MAX)), u64::MAX);
}

#[test]
fn new_cache_remembers_nothing() {
    let cache = MetadataCache::new();
    assert!(cache.lookup("/m/a.mp3", 0).is_none());
    assert!(cache.lookup("", 0).is_none());
}

#[test]
fn recorded_fields_are_found_again() {
    let mut cache = MetadataCache::new();
    cache.record("/m/a.mp3", 10, Some(tags("T", "A", "L")));
    let found = cache.lookup("/m/a.mp3", 10).unwrap().unwrap();
    assert_eq!(triple(&found), ("T", "A", "L"));
}

#[test]
fn recorded_absence_is_found_again() {
    let mut cache = MetadataCache::new();
    cache.record("/m/a.mp3", 10, None);
    let found = cache.lookup("/m/a.mp3", 10);
    assert!(matches!(found, Some(None)));
}

#[test]
fn key_holds_both_path_and_change_time() {
    let mut cache = MetadataCache::new();
    cache.record("/m/a.mp3", 10, Some(tags("T", "A", "L")));
    assert!(cache.lookup("/m/a.mp3", 11).is_none());
    assert!(cache.lookup("/m/b.mp3", 10).is_none());
}

#[test]
fn new_change_time_leaves_the_old_entry() {
    let mut cache = MetadataCache::new();
    cache.record("/m/a.mp3", 10, Some(tags("Old", "", "")));
    cache.record("/m/a.mp3", 20, Some(tags("New", "", "")));
    cache.record("/m/b.mp3", 10, Some(tags("Other", "", "")));
    assert_eq!(cache.lookup("/m/a.mp3", 10).unwrap().unwrap().title, "Old");
    assert_eq!(cache.lookup("/m/a.mp3", 20).unwrap().unwrap().title, "New");
    assert_eq!(cache.lookup("/m/b.mp3", 10).unwrap().unwrap().title, "Other");
}

#[test]
fn second_record_under_one_key_replaces_the_first() {
    let mut cache = MetadataCache::new();
    cache.record("/m/a.mp3", 10, Some(tags("First", "", "")));
    cache.record("/m/a.mp3", 10, Some(tags("Second", "", "")));
    assert_eq!(cache.lookup("/m/a.mp3", 10).unwrap().unwrap().title, "Second");
}

#[test]
fn first_request_reads_the_file() {
    let cache = MetadataCache::new();
    assert!(matches!(plan_extraction(&cache, "/m/a.mp3", Some(42)), Extraction::ReadFile(42)));
    assert!(matches!(plan_extraction(&cache, "/m/a.mp3", None), Extraction::ReadFile(0)));
}

#[test]
fn second_request_is_answered_without_a_read() {
    let mut cache = MetadataCache::new();
    let mut reads = 0;
    let mut results = Vec::new();
    for _ in 0..2 {
        let got = match plan_extraction(&cache, "/m/a.mp3", Some(42)) {
            Extraction::Cached(tags) => tags,
            Extraction::ReadFile(mtime) => {
                reads += 1;
                complete_extraction(&mut cache, "/m/a.mp3", mtime, Some(tags("T", "A", "L")))
            }
        };
        results.push(got.unwrap());
    }
    assert_eq!(reads, 1);
    assert_eq!(triple(&results[0]), ("T", "A", "L"));
    assert_eq!(triple(&results[1]), triple(&results[0]));
}

#[test]
fn changed_file_is_read_again() {
    let mut cache = MetadataCache::new();
    complete_extraction(&mut cache, "/m/a.mp3", 42, Some(tags("T", "A", "L")));
    assert!(matches!(plan_extraction(&cache, "/m/a.mp3", Some(43)), Extraction::ReadFile(43)));
    assert!(matches!(plan_extraction(&cache, "/m/a.mp3", Some(42)), Extraction::Cached(Some(_))));
}

#[test]
fn failed_read_is_not_remembered() {
    let mut cache = MetadataCache::new();
    let got = complete_extraction(&mut cache, "/m/a.mp3", 42, None);
    assert!(got.is_none());
    assert!(matches!(plan_extraction(&cache, "/m/a.mp3", Some(42)), Extraction::ReadFile(42)));
}

#[test]
fn fields_that_are_empty_are_still_remembered() {
    let mut cache = MetadataCache::new();
    let got = complete_extraction(&mut cache, "/m/a.mp3", 0, Some(tags("", "", ""))).unwrap();
    assert_eq!(triple(&got), ("", "", ""));
    match plan_extraction(&cache, "/m/a.mp3", None) {
        Extraction::Cached(Some(found)) => assert_eq!(triple(&found), ("", "", "")),
        _ => panic!("the fields were not remembered"),
    }
}
