//! The cache of tag fields, keyed by a file's path together with the time of
//! its last change, and the two decisions around one read of a file: whether
//! the file has to be read at all, and what is remembered of the read.

use vstd::prelude::*;
use vstd::hash_map::StringHashMap;
use crate::music::{TagFields, TagFieldsView, tags_view};

verus! {

/// What was read from a file when it was last changed at `mtime`.
struct CacheSlot {
    mtime: u64,
    tags: Option<TagFields>,
}

/// What `slots` hold for the change time `mtime`: the latest slot made for it.
spec fn slot_for(slots: Seq<CacheSlot>, mtime: u64) -> Option<Option<TagFieldsView>>
    decreases slots.len(),
{
    if slots.len() == 0 {
        None
    } else if slots.last().mtime == mtime {
        Some(tags_view(slots.last().tags))
    } else {
        slot_for(slots.drop_last(), mtime)
    }
}

/// The key under which the fields of a file are remembered: its path and the
/// time of its last change, in whole seconds.
pub type FreshnessKey = (Seq<char>, u64);

/// The remembered tag fields of the files read so far. An entry is never
/// dropped, and an entry made for one change time is not touched by a read at
/// another.
pub struct MetadataCache {
    by_path: StringHashMap<Vec<CacheSlot>>,
}

impl View for MetadataCache {
    type V = Map<FreshnessKey, Option<TagFieldsView>>;

    closed spec fn view(&self) -> Map<FreshnessKey, Option<TagFieldsView>> {
        Map::new(
            |key: FreshnessKey|
                self.by_path@.contains_key(key.0) && slot_for(self.by_path@[key.0]@, key.1)
                    is Some,
            |key: FreshnessKey| slot_for(self.by_path@[key.0]@, key.1)->0,
        )
    }
}

fn copy_tags(tags: &Option<TagFields>) -> (copy: Option<TagFields>)
    ensures
        copy == *tags,
{
    match tags {
        Some(fields) => Some(fields.clone()),
        None => None,
    }
}

fn copy_slots(slots: &Vec<CacheSlot>) -> (copy: Vec<CacheSlot>)
    ensures
        copy@ == slots@,
{
    let mut copy: Vec<CacheSlot> = Vec::new();
    let mut i: usize = 0;
    while i < slots.len()
        invariant
            i <= slots.len(),
            copy@ == slots@.take(i as int),
        decreases slots.len() - i,
    {
        copy.push(CacheSlot { mtime: slots[i].mtime, tags: copy_tags(&slots[i].tags) });
        assert(copy@ =~= slots@.take(i + 1));
        i += 1;
    }
    assert(slots@.take(i as int) =~= slots@);
    copy
}

fn find_slot(slots: &Vec<CacheSlot>, mtime: u64) -> (found: Option<Option<TagFields>>)
    ensures
        found is Some == slot_for(slots@, mtime) is Some,
        found is Some ==> tags_view(found->0) == slot_for(slots@, mtime)->0,
{
    let mut n: usize = slots.len();
    assert(slots@.take(n as int) =~= slots@);
    while n > 0
        invariant
            n <= slots.len(),
            slot_for(slots@, mtime) == slot_for(slots@.take(n as int), mtime),
        decreases n,
    {
        proof {
            assert(slots@.take(n as int).drop_last() =~= slots@.take(n - 1));
            assert(slots@.take(n as int).last() == slots@[n - 1]);
        }
        if slots[n - 1].mtime == mtime {
            return Some(copy_tags(&slots[n - 1].tags));
        }
        n -= 1;
    }
    None
}

impl MetadataCache {
    /// A cache that remembers nothing yet.
    pub fn new() -> (cache: Self)
        ensures
            cache@ == Map::<FreshnessKey, Option<TagFieldsView>>::empty(),
    {
        let cache = MetadataCache { by_path: StringHashMap::new() };
        assert(cache@ =~= Map::<FreshnessKey, Option<TagFieldsView>>::empty());
        cache
    }

    /// What is remembered for the file `path` as it was when last changed at
    /// `mtime`: `None` where nothing is, else the tag fields read then.
    pub fn lookup(&self, path: &str, mtime: u64) -> (found: Option<Option<TagFields>>)
        ensures
            found is Some == self@.contains_key((path@, mtime)),
            found is Some ==> tags_view(found->0) == self@[(path@, mtime)],
    {
        match self.by_path.get(path) {
            Some(slots) => find_slot(slots, mtime),
            None => None,
        }
    }

    /// Remembers `tags` for the file `path` as it was when last changed at
    /// `mtime`. Every other entry stays as it is.
    pub fn record(&mut self, path: &str, mtime: u64, tags: Option<TagFields>)
        ensures
            final(self)@ == old(self)@.insert((path@, mtime), tags_view(tags)),
    {
        let mut slots = match self.by_path.get(path) {
            Some(existing) => copy_slots(existing),
            None => Vec::new(),
        };
        let ghost before = slots@;
        let ghost fields = tags_view(tags);
        slots.push(CacheSlot { mtime, tags });
        proof {
            assert(slots@.drop_last() =~= before);
            assert forall|other: u64| other != mtime implies slot_for(slots@, other) == slot_for(
                before,
                other,
            ) by {}
            assert(slot_for(slots@, mtime) == Some(fields));
        }
        self.by_path.insert(path.to_owned(), slots);
        proof {
            let wanted = old(self)@.insert((path@, mtime), fields);
            assert forall|key: FreshnessKey| self@.contains_key(key) == wanted.contains_key(
                key,
            ) by {
                if key.0 == path@ {
                    if key.1 != mtime {
                        assert(slot_for(slots@, key.1) == slot_for(before, key.1));
                    }
                }
            }
            assert forall|key: FreshnessKey| self@.contains_key(key) implies self@[key]
                == wanted[key] by {
                if key.0 == path@ {
                    if key.1 != mtime {
                        assert(slot_for(slots@, key.1) == slot_for(before, key.1));
                    }
                }
            }
            assert(self@ =~= wanted);
        }
    }
}

/// The change time that stands in a file's key: the one read from the file
/// system, in whole seconds, and `0` where none could be read.
pub open spec fn freshness_of(modified: Option<u64>) -> u64 {
    match modified {
        Some(seconds) => seconds,
        None => 0,
    }
}

/// The change time that stands in a file's key.
pub fn freshness(modified: Option<u64>) -> (mtime: u64)
    ensures
        mtime == freshness_of(modified),
{
    match modified {
        Some(seconds) => seconds,
        None => 0,
    }
}

/// What has to be done to learn the tag fields of a file.
pub enum Extraction {
    /// The fields are remembered: the file is not opened.
    Cached(Option<TagFields>),
    /// Nothing is remembered for the file as it is now: it has to be read, and
    /// the outcome reported under this change time.
    ReadFile(u64),
}

/// The mathematical value of an [`Extraction`].
pub enum ExtractionView {
    Cached(Option<TagFieldsView>),
    ReadFile(u64),
}

impl View for Extraction {
    type V = ExtractionView;

    open spec fn view(&self) -> ExtractionView {
        match *self {
            Extraction::Cached(tags) => ExtractionView::Cached(tags_view(tags)),
            Extraction::ReadFile(mtime) => ExtractionView::ReadFile(mtime),
        }
    }
}

/// What has to be done for the file `path`, last changed at `modified`, with
/// `entries` remembered.
pub open spec fn planned(
    entries: Map<FreshnessKey, Option<TagFieldsView>>,
    path: Seq<char>,
    modified: Option<u64>,
) -> ExtractionView {
    let key = (path, freshness_of(modified));
    if entries.contains_key(key) {
        ExtractionView::Cached(entries[key])
    } else {
        ExtractionView::ReadFile(key.1)
    }
}

/// What is remembered once a read of the file `path`, keyed by `mtime`, has
/// given `read`: fields that were found are kept, a failed read leaves no
/// trace.
pub open spec fn remembered(
    entries: Map<FreshnessKey, Option<TagFieldsView>>,
    path: Seq<char>,
    mtime: u64,
    read: Option<TagFieldsView>,
) -> Map<FreshnessKey, Option<TagFieldsView>> {
    match read {
        Some(fields) => entries.insert((path, mtime), Some(fields)),
        None => entries,
    }
}

/// Decides whether the file `path`, whose last change the file system gives as
/// `modified`, has to be read.
pub fn plan_extraction(cache: &MetadataCache, path: &str, modified: Option<u64>) -> (step:
    Extraction)
    ensures
        step@ == planned(cache@, path@, modified),
{
    let mtime = freshness(modified);
    match cache.lookup(path, mtime) {
        Some(tags) => Extraction::Cached(tags),
        None => Extraction::ReadFile(mtime),
    }
}

/// Takes in what a read of the file `path` gave: `read` holds the fields of
/// its first tag block, or nothing where the file could not be probed or has
/// no tag block. Returns the same fields, remembered under `mtime` if there
/// are any.
pub fn complete_extraction(
    cache: &mut MetadataCache,
    path: &str,
    mtime: u64,
    read: Option<TagFields>,
) -> (tags: Option<TagFields>)
    ensures
        tags == read,
        final(cache)@ == remembered(old(cache)@, path@, mtime, tags_view(read)),
{
    match read {
        Some(fields) => {
            let kept = fields.clone();
            cache.record(path, mtime, Some(kept));
            Some(fields)
        },
        None => None,
    }
}

/// A file whose read gave tag fields is not read again while its change time
/// stays the same: the next request for it is answered from the cache, with
/// the very same fields.
pub proof fn lemma_second_request_is_cached(
    entries: Map<FreshnessKey, Option<TagFieldsView>>,
    path: Seq<char>,
    modified: Option<u64>,
    fields: TagFieldsView,
)
    ensures
        planned(
            remembered(entries, path, freshness_of(modified), Some(fields)),
            path,
            modified,
        ) == ExtractionView::Cached(Some(fields)),
{
}

/// A read never changes what is remembered under another key: entries are not
/// dropped, and a new change time makes a new entry beside the old one.
pub proof fn lemma_entries_persist(
    entries: Map<FreshnessKey, Option<TagFieldsView>>,
    path: Seq<char>,
    mtime: u64,
    read: Option<TagFieldsView>,
    other: FreshnessKey,
)
    requires
        other != (path, mtime),
    ensures
        remembered(entries, path, mtime, read).contains_key(other) == entries.contains_key(other),
        entries.contains_key(other) ==> remembered(entries, path, mtime, read)[other]
            == entries[other],
{
}

} // verus!
