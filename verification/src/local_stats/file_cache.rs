//! The cache of parsed files: a file is read again only when its time or length has changed.
use crate::local_stats::history::{cached_days, clone_days, countable, days_in_file,
    read_stats_cache, sorted_by_date, CachedDay, CachedDayView, StatsCache};
use crate::local_stats::transcripts::{entries_of, keyed, parse_jsonl_file, parsed, Entry, EntryView,
    Line};
use vstd::hash_map::StringHashMap;
use vstd::hash_set::StringHashSet;
use vstd::prelude::*;

verus! {

/// By what a change of a file is seen: its time of modification, in nanoseconds since the epoch,
/// and its length.
#[derive(Debug, Clone, Copy, PartialEq, Eq, Structural)]
pub struct FileStamp {
    pub mtime_nanos: i128,
    pub len: u64,
}

impl FileStamp {
    /// The stamp of a file; a time that is not known counts as the epoch.
    pub fn new(modified: Option<i128>, len: u64) -> (r: Self)
        ensures
            r == (FileStamp {
                mtime_nanos: match modified {
                    Some(t) => t,
                    None => 0,
                },
                len,
            }),
    {
        let mtime_nanos: i128 = match modified {
            Some(t) => t,
            None => 0,
        };
        FileStamp { mtime_nanos, len }
    }
}

/// A parsed transcript.
pub struct CachedFile {
    pub stamp: FileStamp,
    pub entries: Vec<(String, Entry)>,
}

pub ghost struct CachedFileView {
    pub stamp: FileStamp,
    pub entries: Seq<(Seq<char>, EntryView)>,
}

impl View for CachedFile {
    type V = CachedFileView;

    open spec fn view(&self) -> CachedFileView {
        CachedFileView { stamp: self.stamp, entries: keyed(self.entries@) }
    }
}

/// What is known of a file's contents: nothing, as it was not read, or its lines, or that it cannot
/// be opened.
pub enum Reading {
    NotRead,
    Read(Option<Vec<Line>>),
}

/// A transcript that a scan found.
pub struct ScannedFile {
    pub path: String,
    pub stamp: FileStamp,
    pub reading: Reading,
}

/// What is known of the contents of the statistics file: nothing, as it was not read, or what was
/// parsed, or that it cannot be read or parsed.
pub enum StatsReading {
    NotRead,
    Read(Option<StatsCache>),
}

/// The statistics file, where it exists.
pub struct StatsFile {
    pub stamp: FileStamp,
    pub reading: StatsReading,
}

/// Parsed transcripts by path, and the parsed history.
pub struct FileCache {
    files: StringHashMap<CachedFile>,
    /// The paths of `files`.
    paths: Vec<String>,
    stats: Option<(FileStamp, Vec<CachedDay>)>,
}

pub ghost struct FileCacheView {
    pub files: Map<Seq<char>, CachedFileView>,
    pub stats: Option<(FileStamp, Seq<CachedDayView>)>,
}

/// The views of the files of a map.
pub open spec fn file_views(files: Map<Seq<char>, CachedFile>) -> Map<Seq<char>, CachedFileView> {
    files.map_values(|f: CachedFile| f@)
}

/// Whether a list of strings holds a text.
pub open spec fn listed(paths: Seq<String>, path: Seq<char>) -> bool {
    exists|i: int| 0 <= i < paths.len() && (#[trigger] paths[i])@ == path
}

impl View for FileCache {
    type V = FileCacheView;

    closed spec fn view(&self) -> FileCacheView {
        FileCacheView {
            files: file_views(self.files@),
            stats: match self.stats {
                Some(s) => Some((s.0, cached_days(s.1@))),
                None => None,
            },
        }
    }
}

/// Whether a transcript has to be read: it is not in the cache, or it has changed.
pub open spec fn stale(
    files: Map<Seq<char>, CachedFileView>,
    path: Seq<char>,
    stamp: FileStamp,
) -> bool {
    !(files.contains_key(path) && files[path].stamp == stamp)
}

/// The entries that a reading gives.
pub open spec fn read_entries(reading: Reading) -> Seq<(Seq<char>, EntryView)> {
    match reading {
        Reading::Read(file) => parsed(file),
        Reading::NotRead => Seq::empty(),
    }
}

/// The parsed files after a visit to one.
pub open spec fn after_file(
    files: Map<Seq<char>, CachedFileView>,
    file: ScannedFile,
) -> Map<Seq<char>, CachedFileView> {
    if stale(files, file.path@, file.stamp) {
        files.insert(
            file.path@,
            CachedFileView { stamp: file.stamp, entries: read_entries(file.reading) },
        )
    } else {
        files
    }
}

/// The parsed files after a visit to each of a list, in turn.
pub open spec fn after_files(
    files: Map<Seq<char>, CachedFileView>,
    list: Seq<ScannedFile>,
) -> Map<Seq<char>, CachedFileView>
    decreases list.len(),
{
    if list.len() == 0 {
        files
    } else {
        after_file(after_files(files, list.drop_last()), list.last())
    }
}

/// Whether each file of a list that has to be read when its turn comes was read.
pub open spec fn readings_suffice(
    files: Map<Seq<char>, CachedFileView>,
    list: Seq<ScannedFile>,
) -> bool {
    forall|k: int|
        0 <= k < list.len() && (#[trigger] list[k]).reading is NotRead ==> !stale(
            after_files(files, list.take(k)),
            list[k].path@,
            list[k].stamp,
        )
}

/// The entries of the files of a list, in the order of the list, with duplicates.
pub open spec fn visited(
    files: Map<Seq<char>, CachedFileView>,
    list: Seq<ScannedFile>,
) -> Seq<(Seq<char>, EntryView)>
    decreases list.len(),
{
    if list.len() == 0 {
        Seq::empty()
    } else {
        visited(files, list.drop_last()) + after_files(files, list)[list.last().path@].entries
    }
}

/// Whether some pair has a key.
pub open spec fn has_key(pairs: Seq<(Seq<char>, EntryView)>, key: Seq<char>) -> bool {
    exists|i: int| 0 <= i < pairs.len() && (#[trigger] pairs[i]).0 == key
}

/// The pairs whose key no earlier one has.
pub open spec fn first_of_each(pairs: Seq<(Seq<char>, EntryView)>) -> Seq<(Seq<char>, EntryView)>
    decreases pairs.len(),
{
    if pairs.len() == 0 {
        Seq::empty()
    } else if has_key(pairs.drop_last(), pairs.last().0) {
        first_of_each(pairs.drop_last())
    } else {
        first_of_each(pairs.drop_last()).push(pairs.last())
    }
}

/// The entries of some pairs.
pub open spec fn values_of(pairs: Seq<(Seq<char>, EntryView)>) -> Seq<EntryView> {
    pairs.map_values(|p: (Seq<char>, EntryView)| p.1)
}

/// The paths of the files of a list.
pub open spec fn paths_of(list: Seq<ScannedFile>) -> Set<Seq<char>> {
    Set::new(|p: Seq<char>| exists|i: int| 0 <= i < list.len() && (#[trigger] list[i]).path@ == p)
}

/// Whether a list of days is what a reading of the statistics file gives: the days in the order of
/// their dates, and none where the file cannot be read.
pub open spec fn days_read(reading: StatsReading, days: Seq<CachedDayView>) -> bool {
    match reading {
        StatsReading::Read(Some(cache)) => sorted_by_date(days_in_file(cache), days),
        _ => days == Seq::<CachedDayView>::empty(),
    }
}

/// Whether the history has to be read: none is held, or the file has changed.
pub open spec fn stats_stale(
    stats: Option<(FileStamp, Seq<CachedDayView>)>,
    stamp: FileStamp,
) -> bool {
    match stats {
        Some(s) => s.0 != stamp,
        None => true,
    }
}

/// Whether the statistics file was read if it has to be, and its days can be counted.
pub open spec fn stats_suffice(
    stats: Option<(FileStamp, Seq<CachedDayView>)>,
    file: Option<StatsFile>,
) -> bool {
    match file {
        Some(f) => match f.reading {
            StatsReading::NotRead => !stats_stale(stats, f.stamp),
            StatsReading::Read(Some(cache)) => countable(cache),
            StatsReading::Read(None) => true,
        },
        None => true,
    }
}

/// Whether a list of days is the history that a look at the statistics file gives: what is held
/// where the file has not changed, what was read where it has, and nothing where it is missing.
pub open spec fn history_of(
    stats: Option<(FileStamp, Seq<CachedDayView>)>,
    file: Option<StatsFile>,
    days: Seq<CachedDayView>,
) -> bool {
    match file {
        None => days == Seq::<CachedDayView>::empty(),
        Some(f) => if stats_stale(stats, f.stamp) {
            days_read(f.reading, days)
        } else {
            stats == Some((f.stamp, days))
        },
    }
}

/// The history that is held after a look at the statistics file.
pub open spec fn stats_after(
    file: Option<StatsFile>,
    days: Seq<CachedDayView>,
) -> Option<(FileStamp, Seq<CachedDayView>)> {
    match file {
        None => None,
        Some(f) => Some((f.stamp, days)),
    }
}

impl Default for FileCache {
    fn default() -> (r: Self)
        ensures
            r.wf(),
            r@ == (FileCacheView { files: Map::empty(), stats: None }),
    {
        let r = FileCache { files: StringHashMap::new(), paths: Vec::new(), stats: None };
        assert(r@.files =~= Map::empty());
        r
    }
}

impl FileCache {
    /// Whether `paths` lists the paths of the parsed files.
    pub closed spec fn wf(self) -> bool {
        forall|p: Seq<char>| #[trigger] self.files@.contains_key(p) ==> listed(self.paths@, p)
    }

    /// How many transcripts are held.
    pub fn file_count(&self) -> (r: usize)
        ensures
            r == self@.files.dom().len(),
    {
        assert(self@.files.dom() =~= self.files@.dom());
        self.files.len()
    }

    /// Whether a transcript has to be read.
    pub fn needs_read(&self, path: &str, stamp: FileStamp) -> (r: bool)
        ensures
            r == stale(self@.files, path@, stamp),
    {
        match self.files.get(path) {
            Some(file) => !(file.stamp == stamp),
            None => true,
        }
    }

    /// Whether the history has to be read.
    pub fn stats_needs_read(&self, stamp: FileStamp) -> (r: bool)
        ensures
            r == stats_stale(self@.stats, stamp),
    {
        match &self.stats {
            Some(s) => !(s.0 == stamp),
            None => true,
        }
    }
}

/// The history, through the cache: it is parsed again only when the file has changed. A missing
/// file clears what is held.
pub fn read_stats_cache_cached(file: Option<StatsFile>, cache: &mut FileCache) -> (r: Vec<
    CachedDay,
>)
    requires
        old(cache).wf(),
        stats_suffice(old(cache)@.stats, file),
    ensures
        final(cache).wf(),
        final(cache)@.files == old(cache)@.files,
        history_of(old(cache)@.stats, file, cached_days(r@)),
        final(cache)@.stats == stats_after(file, cached_days(r@)),
{
    let f = match file {
        Some(f) => f,
        None => {
            cache.stats = None;
            let none: Vec<CachedDay> = Vec::new();
            assert(cached_days(none@) =~= Seq::empty());
            return none;
        },
    };
    if let Some(s) = &cache.stats {
        if s.0 == f.stamp {
            return clone_days(&s.1);
        }
    }
    let days = match f.reading {
        StatsReading::Read(parsed) => match read_stats_cache(parsed) {
            Some(days) => days,
            None => Vec::new(),
        },
        StatsReading::NotRead => Vec::new(),
    };
    assert(days_read(f.reading, cached_days(days@))) by {
        if !(f.reading matches StatsReading::Read(Some(_))) {
            assert(cached_days(days@) =~= Seq::empty());
        }
    }
    cache.stats = Some((f.stamp, clone_days(&days)));
    days
}

/// The keys of some pairs.
spec fn keys_of(pairs: Seq<(Seq<char>, EntryView)>) -> Set<Seq<char>> {
    Set::new(|k: Seq<char>| has_key(pairs, k))
}

proof fn lemma_keys_push(pairs: Seq<(Seq<char>, EntryView)>, p: (Seq<char>, EntryView))
    ensures
        keys_of(pairs.push(p)) == keys_of(pairs).insert(p.0),
{
    let more = pairs.push(p);
    assert forall|k: Seq<char>| keys_of(more).contains(k) == keys_of(pairs).insert(p.0).contains(
        k,
    ) by {
        if has_key(pairs, k) {
            let i = choose|i: int| 0 <= i < pairs.len() && (#[trigger] pairs[i]).0 == k;
            assert(more[i].0 == k);
        }
        if k == p.0 {
            assert(more[pairs.len() as int].0 == k);
        }
        if has_key(more, k) && k != p.0 {
            let i = choose|i: int| 0 <= i < more.len() && (#[trigger] more[i]).0 == k;
            assert(pairs[i].0 == k);
        }
    }
    assert(keys_of(more) =~= keys_of(pairs).insert(p.0));
}

/// Adds the entries of one file whose keys were not seen before.
fn add_entries(
    file: &CachedFile,
    seen: &mut StringHashSet,
    entries: &mut Vec<Entry>,
    Ghost(before): Ghost<Seq<(Seq<char>, EntryView)>>,
)
    requires
        old(seen)@ == keys_of(before),
        entries_of(old(entries)@) == values_of(first_of_each(before)),
    ensures
        final(seen)@ == keys_of(before + file@.entries),
        entries_of(final(entries)@) == values_of(first_of_each(before + file@.entries)),
{
    let ghost all = file@.entries;
    let mut j: usize = 0;
    assert(before + all.take(0) =~= before);
    while j < file.entries.len()
        invariant
            j <= file.entries@.len(),
            all == keyed(file.entries@),
            seen@ == keys_of(before + all.take(j as int)),
            entries_of(entries@) == values_of(first_of_each(before + all.take(j as int))),
        decreases file.entries@.len() - j,
    {
        let pair = &file.entries[j];
        let ghost past = before + all.take(j as int);
        let ghost now = past.push(all[j as int]);
        let ghost listed = entries_of(entries@);
        assert(now =~= before + all.take(j + 1));
        assert(now.drop_last() =~= past);
        assert(all[j as int] == (pair.0@, pair.1@));
        proof {
            lemma_keys_push(past, all[j as int]);
        }
        if seen.insert(pair.0.clone()) {
            entries.push(pair.1.clone());
            assert(entries_of(entries@) =~= listed.push(pair.1@));
            assert(values_of(first_of_each(now)) =~= values_of(first_of_each(past)).push(pair.1@));
        }
        j = j + 1;
    }
    assert(all.take(j as int) =~= all);
}

/// Notes that a path was visited.
fn note_path(path: &String, keep: &mut StringHashSet, kept: &mut Vec<String>)
    requires
        forall|p: Seq<char>| #[trigger] old(keep)@.contains(p) == listed(old(kept)@, p),
    ensures
        final(keep)@ == old(keep)@.insert(path@),
        forall|p: Seq<char>| #[trigger] final(keep)@.contains(p) == listed(final(kept)@, p),
{
    let ghost before = kept@;
    if keep.insert(path.clone()) {
        kept.push(path.clone());
        assert forall|p: Seq<char>| #[trigger] keep@.contains(p) == listed(kept@, p) by {
            if listed(before, p) {
                let i = choose|i: int| 0 <= i < before.len() && (#[trigger] before[i])@ == p;
                assert(kept@[i]@ == p);
            }
            if p == path@ {
                assert(kept@[before.len() as int]@ == p);
            }
            if listed(kept@, p) && p != path@ {
                let i = choose|i: int| 0 <= i < kept@.len() && (#[trigger] kept@[i])@ == p;
                assert(before[i]@ == p);
            }
        }
    } else {
        assert(keep@ =~= old(keep)@);
    }
}

impl FileCache {
    /// Drops the transcripts whose paths are not among those to keep.
    fn retain(&mut self, keep: &StringHashSet, kept: Vec<String>)
        requires
            forall|p: Seq<char>| #[trigger] keep@.contains(p) == listed(kept@, p),
            forall|p: Seq<char>|
                #[trigger] old(self).files@.contains_key(p) ==> keep@.contains(p) || listed(
                    old(self).paths@,
                    p,
                ),
        ensures
            final(self).wf(),
            final(self)@.files == old(self)@.files.restrict(keep@),
            final(self)@.stats == old(self)@.stats,
    {
        let ghost all = self.files@;
        let mut i: usize = 0;
        while i < self.paths.len()
            invariant
                i <= self.paths@.len(),
                self.paths@ == old(self).paths@,
                self.stats == old(self).stats,
                forall|p: Seq<char>|
                    #[trigger] self.files@.contains_key(p) ==> all.contains_key(p) && self.files@[p]
                        == all[p],
                forall|p: Seq<char>|
                    #[trigger] all.contains_key(p) && keep@.contains(p)
                        ==> self.files@.contains_key(p),
                forall|j: int|
                    0 <= j < i && !keep@.contains((#[trigger] self.paths@[j])@)
                        ==> !self.files@.contains_key(self.paths@[j]@),
            decreases self.paths@.len() - i,
        {
            if !keep.contains(self.paths[i].as_str()) {
                self.files.remove(self.paths[i].as_str());
            }
            i = i + 1;
        }
        assert forall|p: Seq<char>| #[trigger] self.files@.contains_key(p) implies keep@.contains(
            p,
        ) by {
            if !keep@.contains(p) {
                assert(listed(old(self).paths@, p));
                let j = choose|j: int|
                    0 <= j < old(self).paths@.len() && (#[trigger] old(self).paths@[j])@ == p;
                assert(self.paths@[j]@ == p);
            }
        }
        assert(file_views(self.files@) =~= file_views(all).restrict(keep@));
        self.paths = kept;
    }
}

/// The entries of all transcripts that a scan found, through the cache: a file is parsed again only
/// when its time or length has changed. Of entries with the same key the first one counts. Files
/// that the scan did not find leave the cache.
pub fn load_recent_entries(list: &Vec<ScannedFile>, cache: &mut FileCache) -> (r: Vec<Entry>)
    requires
        old(cache).wf(),
        readings_suffice(old(cache)@.files, list@),
    ensures
        final(cache).wf(),
        entries_of(r@) == values_of(first_of_each(visited(old(cache)@.files, list@))),
        final(cache)@.files == after_files(old(cache)@.files, list@).restrict(paths_of(list@)),
        final(cache)@.stats == old(cache)@.stats,
{
    let ghost start = cache@.files;
    let mut keep = StringHashSet::new();
    let mut kept: Vec<String> = Vec::new();
    let mut entries: Vec<Entry> = Vec::new();
    let mut seen = StringHashSet::new();
    let mut i: usize = 0;
    proof {
        assert(list@.take(0) =~= Seq::empty());
        assert(keep@ =~= paths_of(list@.take(0)));
        assert(seen@ =~= keys_of(visited(start, list@.take(0))));
        assert(entries_of(entries@) =~= values_of(first_of_each(visited(start, list@.take(0)))));
    }
    while i < list.len()
        invariant
            i <= list@.len(),
            readings_suffice(start, list@),
            cache@.files == after_files(start, list@.take(i as int)),
            cache@.stats == old(cache)@.stats,
            cache.paths@ == old(cache).paths@,
            keep@ == paths_of(list@.take(i as int)),
            forall|p: Seq<char>| #[trigger] keep@.contains(p) == listed(kept@, p),
            forall|p: Seq<char>|
                #[trigger] cache.files@.contains_key(p) ==> keep@.contains(p) || listed(
                    cache.paths@,
                    p,
                ),
            seen@ == keys_of(visited(start, list@.take(i as int))),
            entries_of(entries@) == values_of(
                first_of_each(visited(start, list@.take(i as int))),
            ),
        decreases list@.len() - i,
    {
        let file = &list[i];
        let ghost past = list@.take(i as int);
        let ghost now = list@.take(i + 1);
        let ghost files = cache@.files;
        let ghost seen_before = visited(start, past);
        assert(now.drop_last() =~= past);
        assert(now.last() == *file);
        if cache.needs_read(file.path.as_str(), file.stamp) {
            assert(list@[i as int].reading !is NotRead);
            let parsed_entries = match &file.reading {
                Reading::Read(lines) => parse_jsonl_file(lines),
                Reading::NotRead => Vec::new(),
            };
            let parsed_file = CachedFile { stamp: file.stamp, entries: parsed_entries };
            let ghost view = parsed_file@;
            cache.files.insert(file.path.clone(), parsed_file);
            assert(cache@.files =~= files.insert(file.path@, view));
        }
        note_path(&file.path, &mut keep, &mut kept);
        assert(cache@.files == after_files(start, now));
        proof {
            assert forall|p: Seq<char>| keep@.contains(p) == paths_of(now).contains(p) by {
                if paths_of(past).contains(p) {
                    let k = choose|k: int| 0 <= k < past.len() && (#[trigger] past[k]).path@ == p;
                    assert(now[k].path@ == p);
                }
                if p == file.path@ {
                    assert(now[i as int].path@ == p);
                }
                if paths_of(now).contains(p) && p != file.path@ {
                    let k = choose|k: int| 0 <= k < now.len() && (#[trigger] now[k]).path@ == p;
                    assert(past[k].path@ == p);
                }
            }
            assert(keep@ =~= paths_of(now));
        }
        match cache.files.get(file.path.as_str()) {
            Some(parsed_file) => {
                assert(parsed_file@ == cache@.files[file.path@]);
                add_entries(parsed_file, &mut seen, &mut entries, Ghost(seen_before));
            },
            None => {
                assert(cache@.files.contains_key(file.path@));
            },
        }
        i = i + 1;
    }
    assert(list@.take(i as int) =~= list@);
    cache.retain(&keep, kept);
    entries
}

} // verus!
