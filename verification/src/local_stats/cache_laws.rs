//! What holds of the cache of parsed files over several files and several scans.
use crate::local_stats::file_cache::{after_files, first_of_each, has_key, history_of, paths_of,
    readings_suffice, stale, stats_after, stats_stale, visited, CachedFileView, FileStamp, Reading,
    ScannedFile, StatsFile, StatsReading};
use crate::local_stats::history::{days_in_file, sorted_by_date, CachedDayView, StatsCache};
use crate::local_stats::transcripts::{counted_lines, EntryView, Line};
use vstd::prelude::*;

verus! {

/// Whether no path occurs twice in a list.
pub open spec fn distinct_paths(list: Seq<ScannedFile>) -> bool {
    forall|i: int, j: int|
        0 <= i < j < list.len() ==> (#[trigger] list[i]).path@ != (#[trigger] list[j]).path@
}

/// Whether two scans found the same files unchanged.
pub open spec fn same_scan(a: Seq<ScannedFile>, b: Seq<ScannedFile>) -> bool {
    &&& a.len() == b.len()
    &&& forall|i: int|
        0 <= i < a.len() ==> (#[trigger] a[i]).path@ == b[i].path@ && a[i].stamp == b[i].stamp
}

/// No key is counted twice, every key is counted, and what counts for a key is its first entry.
pub proof fn law_first_entry_of_each_key_counts(pairs: Seq<(Seq<char>, EntryView)>)
    ensures
        forall|i: int, j: int|
            0 <= i < j < first_of_each(pairs).len() ==> (#[trigger] first_of_each(pairs)[i]).0 != (
            #[trigger] first_of_each(pairs)[j]).0,
        forall|i: int|
            0 <= i < pairs.len() && !has_key(pairs.take(i), (#[trigger] pairs[i]).0)
                ==> first_of_each(pairs).contains(pairs[i]),
        forall|k: int|
            0 <= k < first_of_each(pairs).len() ==> exists|i: int|
                0 <= i < pairs.len() && #[trigger] pairs[i] == (#[trigger] first_of_each(
                    pairs,
                )[k]) && !has_key(pairs.take(i), pairs[i].0),
    decreases pairs.len(),
{
    if pairs.len() > 0 {
        let rest = pairs.drop_last();
        let last = pairs.last();
        let kept = first_of_each(rest);
        let all = first_of_each(pairs);
        law_first_entry_of_each_key_counts(rest);
        assert forall|i: int, j: int| 0 <= i < j < all.len() implies (#[trigger] all[i]).0 != (
        #[trigger] all[j]).0 by {
            if j < kept.len() {
                assert(kept[i].0 != kept[j].0);
            } else {
                let m = choose|m: int|
                    0 <= m < rest.len() && #[trigger] rest[m] == kept[i] && !has_key(
                        rest.take(m),
                        rest[m].0,
                    );
                assert(rest[m].0 == all[i].0);
            }
        }
        assert forall|i: int|
            0 <= i < pairs.len() && !has_key(
                pairs.take(i),
                (#[trigger] pairs[i]).0,
            ) implies all.contains(pairs[i]) by {
            if i < rest.len() {
                assert(pairs.take(i) =~= rest.take(i));
                assert(rest[i] == pairs[i]);
                assert(kept.contains(rest[i]));
                let m = choose|m: int| 0 <= m < kept.len() && kept[m] == rest[i];
                assert(all[m] == pairs[i]);
            } else {
                assert(pairs.take(i) =~= rest);
                assert(all[kept.len() as int] == last);
            }
        }
        assert forall|k: int| 0 <= k < all.len() implies exists|i: int|
            0 <= i < pairs.len() && #[trigger] pairs[i] == (#[trigger] all[k]) && !has_key(
                pairs.take(i),
                pairs[i].0,
            ) by {
            if k < kept.len() {
                let m = choose|m: int|
                    0 <= m < rest.len() && #[trigger] rest[m] == kept[k] && !has_key(
                        rest.take(m),
                        rest[m].0,
                    );
                assert(pairs[m] == all[k]);
                assert(pairs.take(m) =~= rest.take(m));
            } else {
                let m = pairs.len() - 1;
                assert(pairs[m] == all[k]);
                assert(pairs.take(m) =~= rest);
            }
        }
    }
}

/// Entries whose keys were all seen before add nothing, so that the same content in two files is
/// counted once.
pub proof fn law_repeated_entries_add_nothing(
    seen: Seq<(Seq<char>, EntryView)>,
    more: Seq<(Seq<char>, EntryView)>,
)
    requires
        forall|i: int| 0 <= i < more.len() ==> has_key(seen, (#[trigger] more[i]).0),
    ensures
        first_of_each(seen + more) == first_of_each(seen),
    decreases more.len(),
{
    if more.len() == 0 {
        assert(seen + more =~= seen);
    } else {
        let all = seen + more;
        assert(all.drop_last() =~= seen + more.drop_last());
        assert(all.last() == more[more.len() - 1]);
        let i = choose|i: int| 0 <= i < seen.len() && (#[trigger] seen[i]).0 == all.last().0;
        assert(all.drop_last()[i].0 == all.last().0);
        law_repeated_entries_add_nothing(seen, more.drop_last());
    }
}

proof fn lemma_after_others(
    files: Map<Seq<char>, CachedFileView>,
    list: Seq<ScannedFile>,
    path: Seq<char>,
)
    requires
        forall|i: int| 0 <= i < list.len() ==> (#[trigger] list[i]).path@ != path,
    ensures
        after_files(files, list).contains_key(path) == files.contains_key(path),
        files.contains_key(path) ==> after_files(files, list)[path] == files[path],
    decreases list.len(),
{
    if list.len() > 0 {
        lemma_after_others(files, list.drop_last(), path);
        assert(list[list.len() - 1].path@ != path);
    }
}

/// A file that has not changed since it was parsed and that the list has not named before does not
/// have to be read.
pub proof fn law_unchanged_files_need_no_reading(
    files: Map<Seq<char>, CachedFileView>,
    list: Seq<ScannedFile>,
)
    requires
        forall|k: int|
            0 <= k < list.len() && (#[trigger] list[k]).reading is NotRead ==> {
                &&& !stale(files, list[k].path@, list[k].stamp)
                &&& forall|i: int| 0 <= i < k ==> (#[trigger] list[i]).path@ != list[k].path@
            },
    ensures
        readings_suffice(files, list),
{
    assert forall|k: int|
        0 <= k < list.len() && (#[trigger] list[k]).reading is NotRead implies !stale(
        after_files(files, list.take(k)),
        list[k].path@,
        list[k].stamp,
    ) by {
        lemma_after_others(files, list.take(k), list[k].path@);
    }
}

proof fn lemma_after_list(
    files: Map<Seq<char>, CachedFileView>,
    list: Seq<ScannedFile>,
    k: int,
)
    requires
        distinct_paths(list),
        0 <= k < list.len(),
    ensures
        after_files(files, list).contains_key(list[k].path@),
        after_files(files, list)[list[k].path@].stamp == list[k].stamp,
        after_files(files, list)[list[k].path@] == after_files(files, list.take(k + 1))[list[k].path@],
    decreases list.len(),
{
    if k == list.len() - 1 {
        assert(list.take(k + 1) =~= list);
    } else {
        let rest = list.drop_last();
        assert(distinct_paths(rest)) by {
            assert forall|i: int, j: int| 0 <= i < j < rest.len() implies (#[trigger] rest[i]).path@
                != (#[trigger] rest[j]).path@ by {
                assert(list[i].path@ != list[j].path@);
            }
        }
        lemma_after_list(files, rest, k);
        assert(rest.take(k + 1) =~= list.take(k + 1));
        assert(list[k].path@ != list[list.len() - 1].path@);
    }
}

proof fn lemma_unchanged(
    files: Map<Seq<char>, CachedFileView>,
    list: Seq<ScannedFile>,
)
    requires
        forall|k: int|
            0 <= k < list.len() ==> !stale(
                files,
                (#[trigger] list[k]).path@,
                list[k].stamp,
            ),
    ensures
        after_files(files, list) == files,
    decreases list.len(),
{
    if list.len() > 0 {
        lemma_unchanged(files, list.drop_last());
        assert(!stale(files, list[list.len() - 1].path@, list[list.len() - 1].stamp));
    }
}

/// A second scan that finds the same files unchanged reads none of them again, gives the same
/// entries, and leaves the cache as it was, with exactly the files of the scan in it.
pub proof fn law_second_scan_changes_nothing(
    files: Map<Seq<char>, CachedFileView>,
    first: Seq<ScannedFile>,
    second: Seq<ScannedFile>,
)
    requires
        distinct_paths(first),
        same_scan(first, second),
    ensures
        ({
            let held = after_files(files, first).restrict(paths_of(first));
            &&& held.dom() == paths_of(first)
            &&& readings_suffice(held, second)
            &&& visited(held, second) == visited(files, first)
            &&& after_files(held, second).restrict(paths_of(second)) == held
        }),
{
    let after = after_files(files, first);
    let held = after.restrict(paths_of(first));
    assert forall|k: int| 0 <= k < second.len() implies !stale(
        held,
        (#[trigger] second[k]).path@,
        second[k].stamp,
    ) by {
        lemma_after_list(files, first, k);
        assert(first[k].path@ == second[k].path@ && first[k].stamp == second[k].stamp);
        assert(paths_of(first).contains(first[k].path@));
    }
    lemma_unchanged(held, second);
    assert forall|k: int|
        0 <= k < second.len() && (#[trigger] second[k]).reading is NotRead implies !stale(
        after_files(held, second.take(k)),
        second[k].path@,
        second[k].stamp,
    ) by {
        assert forall|m: int| 0 <= m < second.take(k).len() implies !stale(
            held,
            (#[trigger] second.take(k)[m]).path@,
            second.take(k)[m].stamp,
        ) by {
            assert(second.take(k)[m] == second[m]);
        }
        lemma_unchanged(held, second.take(k));
    }
    assert(held.dom() =~= paths_of(first)) by {
        assert forall|p: Seq<char>| paths_of(first).contains(p) implies held.contains_key(p) by {
            let k = choose|k: int| 0 <= k < first.len() && (#[trigger] first[k]).path@ == p;
            lemma_after_list(files, first, k);
        }
    }
    assert(paths_of(second) =~= paths_of(first)) by {
        assert forall|p: Seq<char>| paths_of(second).contains(p) == paths_of(first).contains(p) by {
            if paths_of(second).contains(p) {
                let k = choose|k: int| 0 <= k < second.len() && (#[trigger] second[k]).path@ == p;
                assert(first[k].path@ == p);
            }
            if paths_of(first).contains(p) {
                let k = choose|k: int| 0 <= k < first.len() && (#[trigger] first[k]).path@ == p;
                assert(second[k].path@ == p);
            }
        }
    }
    assert(held.restrict(paths_of(second)) =~= held);
    lemma_same_visits(files, first, second, held, first.len() as int);
    assert(first.take(first.len() as int) =~= first);
    assert(second.take(first.len() as int) =~= second);
}

proof fn lemma_same_visits(
    files: Map<Seq<char>, CachedFileView>,
    first: Seq<ScannedFile>,
    second: Seq<ScannedFile>,
    held: Map<Seq<char>, CachedFileView>,
    n: int,
)
    requires
        distinct_paths(first),
        same_scan(first, second),
        held == after_files(files, first).restrict(paths_of(first)),
        forall|k: int|
            0 <= k < second.len() ==> !stale(
                held,
                (#[trigger] second[k]).path@,
                second[k].stamp,
            ),
        0 <= n <= first.len(),
    ensures
        visited(held, second.take(n)) == visited(files, first.take(n)),
    decreases n,
{
    if n > 0 {
        lemma_same_visits(files, first, second, held, n - 1);
        let a = first.take(n);
        let b = second.take(n);
        assert(a.drop_last() =~= first.take(n - 1));
        assert(b.drop_last() =~= second.take(n - 1));
        assert(a.last() == first[n - 1] && b.last() == second[n - 1]);
        assert forall|m: int| 0 <= m < b.len() implies !stale(
            held,
            (#[trigger] b[m]).path@,
            b[m].stamp,
        ) by {
            assert(b[m] == second[m]);
        }
        lemma_unchanged(held, b);
        lemma_after_list(files, first, n - 1);
        assert(paths_of(first).contains(first[n - 1].path@));
    }
}

/// A held file is read again exactly where its time or its length is another one; a file that is not
/// held is read in any case. The history is read again by the same rule.
pub proof fn law_any_change_is_seen(
    files: Map<Seq<char>, CachedFileView>,
    path: Seq<char>,
    stamp: FileStamp,
    days: Seq<CachedDayView>,
)
    ensures
        stale(files, path, stamp) <==> {
            ||| !files.contains_key(path)
            ||| files[path].stamp.mtime_nanos != stamp.mtime_nanos
            ||| files[path].stamp.len != stamp.len
        },
        stats_stale(Some((files[path].stamp, days)), stamp) <==> {
            ||| files[path].stamp.mtime_nanos != stamp.mtime_nanos
            ||| files[path].stamp.len != stamp.len
        },
        stats_stale(None, stamp),
{
}

/// After a visit the file is held with its present stamp, and with the entries of its lines where it
/// had changed; where it had not, what was held stays. No other file is touched.
pub proof fn law_visit_holds_the_file(
    files: Map<Seq<char>, CachedFileView>,
    file: ScannedFile,
    lines: Vec<Line>,
    other: Seq<char>,
)
    ensures
        ({
            let after = after_files(files, seq![file]);
            &&& after.contains_key(file.path@)
            &&& after[file.path@].stamp == file.stamp
            &&& files.contains_key(file.path@) && files[file.path@].stamp == file.stamp
                ==> after[file.path@] == files[file.path@]
            &&& !(files.contains_key(file.path@) && files[file.path@].stamp == file.stamp)
                && file.reading == Reading::Read(Some(lines)) ==> after[file.path@].entries
                == counted_lines(lines@)
            &&& !(files.contains_key(file.path@) && files[file.path@].stamp == file.stamp)
                && file.reading == Reading::Read(None) ==> after[file.path@].entries.len() == 0
            &&& other != file.path@ ==> after.contains_key(other) == files.contains_key(other) && (
            files.contains_key(other) ==> after[other] == files[other])
        }),
{
    let one = seq![file];
    assert(one.drop_last() =~= Seq::<ScannedFile>::empty());
    assert(after_files(files, one.drop_last()) == files);
}

/// The files of a scan are taken in their order: one more file adds its own entries, as they are held
/// after the visit, behind those of the others.
pub proof fn law_file_adds_its_entries(
    files: Map<Seq<char>, CachedFileView>,
    list: Seq<ScannedFile>,
    file: ScannedFile,
)
    ensures
        visited(files, Seq::empty()).len() == 0,
        visited(files, list.push(file)) == visited(files, list) + after_files(
            after_files(files, list),
            seq![file],
        )[file.path@].entries,
{
    assert(list.push(file).drop_last() =~= list);
    let one = seq![file];
    assert(one.drop_last() =~= Seq::<ScannedFile>::empty());
    assert(after_files(after_files(files, list), one.drop_last()) == after_files(files, list));
}

/// More entries come behind those that count already, which they leave as they are.
pub proof fn law_later_entries_come_behind(
    a: Seq<(Seq<char>, EntryView)>,
    b: Seq<(Seq<char>, EntryView)>,
)
    ensures
        first_of_each(a).is_prefix_of(first_of_each(a + b)),
    decreases b.len(),
{
    if b.len() == 0 {
        assert(a + b =~= a);
    } else {
        assert((a + b).drop_last() =~= a + b.drop_last());
        law_later_entries_come_behind(a, b.drop_last());
    }
}

/// The history is empty without the file, what is held where the file has not changed, and otherwise
/// what was read: the days of the file by date, and none where it cannot be read. It is held under the
/// stamp of the file.
pub proof fn law_history_follows_its_file(
    stats: Option<(FileStamp, Seq<CachedDayView>)>,
    stamp: FileStamp,
    cache: StatsCache,
    days: Seq<CachedDayView>,
)
    ensures
        history_of(stats, None, days) <==> days.len() == 0,
        stats_after(None, days) is None,
        ({
            let read = StatsFile { stamp, reading: StatsReading::Read(Some(cache)) };
            let unread = StatsFile { stamp, reading: StatsReading::Read(None) };
            let same = stats is Some && stats->Some_0.0 == stamp;
            &&& same ==> (history_of(stats, Some(read), days) <==> days == stats->Some_0.1)
            &&& !same ==> (history_of(stats, Some(read), days) <==> sorted_by_date(
                days_in_file(cache),
                days,
            ))
            &&& !same ==> (history_of(stats, Some(unread), days) <==> days.len() == 0)
            &&& stats_after(Some(read), days) == Some((stamp, days))
        }),
{
    assert(days.len() == 0 ==> days =~= Seq::empty());
}

/// Every file of a scan is held after it, and it is one of the paths that stay in the cache; no other
/// path is one of these.
pub proof fn law_scanned_files_stay(
    files: Map<Seq<char>, CachedFileView>,
    list: Seq<ScannedFile>,
    i: int,
    path: Seq<char>,
)
    ensures
        0 <= i < list.len() ==> after_files(files, list).contains_key(list[i].path@)
            && paths_of(list).contains(list[i].path@),
        paths_of(list).contains(path) ==> exists|k: int|
            0 <= k < list.len() && (#[trigger] list[k]).path@ == path,
    decreases list.len(),
{
    if 0 <= i < list.len() - 1 {
        law_scanned_files_stay(files, list.drop_last(), i, path);
        assert(list.drop_last()[i] == list[i]);
    }
    if 0 <= i < list.len() {
        assert(list[i].path@ == list[i].path@);
    }
}

} // verus!
