//! The search for transcripts: a walk through the directories that keeps the recent files. The walk
//! names the directory to list next, and takes the listing.
use crate::text::same_text;
use vstd::prelude::*;

verus! {

/// How many days back transcripts are looked for.
pub const TRANSCRIPT_DAYS: u64 = 8;

/// An entry of a directory. The time of modification is in nanoseconds since the epoch, where it is
/// known.
pub struct DirEntry<P> {
    pub path: P,
    pub is_dir: bool,
    pub extension: Option<String>,
    pub modified: Option<i128>,
}

/// A walk: the directories that are still to be listed, the next one last, and the transcripts that
/// were found.
pub struct Walk<P> {
    pub pending: Vec<P>,
    pub found: Vec<P>,
    pub cutoff: i128,
}

/// The time before which a file is not recent: some days before `now`, in nanoseconds since the
/// epoch.
pub open spec fn cutoff_before(now: i128, days: u64) -> int {
    now - days * 86_400_000_000_000
}

/// The time before which a file is not recent.
pub fn recent_cutoff(now: i128, days: u64) -> (r: i128)
    requires
        cutoff_before(now, days) >= i128::MIN,
    ensures
        r == cutoff_before(now, days),
{
    now - days as i128 * 86_400_000_000_000
}

/// Whether an entry is a directory to walk into.
pub open spec fn is_directory<P>(e: DirEntry<P>) -> bool {
    e.is_dir
}

/// Whether an entry is a transcript that is not older than `cutoff`.
pub open spec fn is_recent_transcript<P>(e: DirEntry<P>, cutoff: i128) -> bool {
    &&& !e.is_dir
    &&& e.extension matches Some(x) && x@ == "jsonl"@
    &&& e.modified matches Some(t) && t >= cutoff
}

/// The directories of a listing, in its order.
pub open spec fn directories<P>(listing: Seq<DirEntry<P>>) -> Seq<P>
    decreases listing.len(),
{
    if listing.len() == 0 {
        Seq::empty()
    } else if is_directory(listing.last()) {
        directories(listing.drop_last()).push(listing.last().path)
    } else {
        directories(listing.drop_last())
    }
}

/// The recent transcripts of a listing, in its order.
pub open spec fn transcripts<P>(listing: Seq<DirEntry<P>>, cutoff: i128) -> Seq<P>
    decreases listing.len(),
{
    if listing.len() == 0 {
        Seq::empty()
    } else if is_recent_transcript(listing.last(), cutoff) {
        transcripts(listing.drop_last(), cutoff).push(listing.last().path)
    } else {
        transcripts(listing.drop_last(), cutoff)
    }
}

/// The entries of a listing; a directory that cannot be listed has none.
pub open spec fn listed_entries<P>(listing: Option<Vec<DirEntry<P>>>) -> Seq<DirEntry<P>> {
    match listing {
        Some(entries) => entries@,
        None => Seq::empty(),
    }
}

impl<P> Walk<P> {
    /// A walk through a directory.
    pub fn start(root: P, cutoff: i128) -> (r: Self)
        ensures
            r.pending@ == seq![root],
            r.found@ == Seq::<P>::empty(),
            r.cutoff == cutoff,
    {
        let mut pending: Vec<P> = Vec::new();
        pending.push(root);
        Walk { pending, found: Vec::new(), cutoff }
    }

    /// The directory to list next; none when the walk is over.
    pub fn next_directory(&mut self) -> (r: Option<P>)
        ensures
            final(self).found@ == old(self).found@,
            final(self).cutoff == old(self).cutoff,
            match r {
                Some(p) => old(self).pending@ == final(self).pending@.push(p),
                None => old(self).pending@.len() == 0 && final(self).pending@ == old(self).pending@,
            },
    {
        let ghost before = self.pending@;
        let r = self.pending.pop();
        proof {
            if r is Some {
                assert(before =~= self.pending@.push(r->Some_0));
            }
        }
        r
    }

    /// Takes the listing of a directory: its directories are walked into later, and its recent
    /// transcripts are kept.
    pub fn take_listing(&mut self, listing: Option<Vec<DirEntry<P>>>)
        ensures
            final(self).pending@ == old(self).pending@ + directories(listed_entries(listing)),
            final(self).found@ == old(self).found@ + transcripts(
                listed_entries(listing),
                old(self).cutoff,
            ),
            final(self).cutoff == old(self).cutoff,
    {
        let entries = match listing {
            Some(entries) => entries,
            None => Vec::new(),
        };
        let ghost all = entries@;
        let ghost pending = self.pending@;
        let ghost found = self.found@;
        let ghost cutoff = self.cutoff;
        assert(all =~= listed_entries(listing));
        assert(self.pending@ =~= pending + directories(all.take(0)));
        assert(self.found@ =~= found + transcripts(all.take(0), cutoff));
        for e in iter: entries
            invariant
                iter.seq() == all,
                self.cutoff == cutoff,
                self.pending@ == pending + directories(all.take(iter.index() as int)),
                self.found@ == found + transcripts(all.take(iter.index() as int), cutoff),
        {
            let ghost k = iter.index() as int;
            assert(all.take(k + 1).drop_last() =~= all.take(k));
            assert(all.take(k + 1).last() == e);
            if e.is_dir {
                self.pending.push(e.path);
            } else {
                let is_transcript = match &e.extension {
                    Some(x) => same_text(x.as_str(), "jsonl"),
                    None => false,
                };
                let is_recent = match e.modified {
                    Some(t) => t >= self.cutoff,
                    None => false,
                };
                if is_transcript && is_recent {
                    self.found.push(e.path);
                }
            }
            assert(self.pending@ =~= pending + directories(all.take(k + 1)));
            assert(self.found@ =~= found + transcripts(all.take(k + 1), cutoff));
        }
        assert(all.take(all.len() as int) =~= all);
    }
}

/// A walk for the transcripts under `root` that were modified within some days before `now`.
pub fn recent_transcripts<P>(root: P, now: i128, days: u64) -> (r: Walk<P>)
    requires
        cutoff_before(now, days) >= i128::MIN,
    ensures
        r.pending@ == seq![root],
        r.found@ == Seq::<P>::empty(),
        r.cutoff == cutoff_before(now, days),
{
    Walk::start(root, recent_cutoff(now, days))
}

/// What a listing adds to the transcripts found are the paths of its recent transcripts, and no
/// others.
pub proof fn law_only_recent_transcripts_are_found<P>(
    listing: Seq<DirEntry<P>>,
    cutoff: i128,
    path: P,
)
    ensures
        transcripts(listing, cutoff).contains(path) == exists|i: int|
            0 <= i < listing.len() && is_recent_transcript(#[trigger] listing[i], cutoff)
                && listing[i].path == path,
    decreases listing.len(),
{
    if listing.len() > 0 {
        let rest = listing.drop_last();
        let kept = transcripts(rest, cutoff);
        let all = transcripts(listing, cutoff);
        let n = listing.len() - 1;
        law_only_recent_transcripts_are_found(rest, cutoff, path);
        if kept.contains(path) {
            let i = choose|i: int|
                0 <= i < rest.len() && is_recent_transcript(#[trigger] rest[i], cutoff)
                    && rest[i].path == path;
            assert(is_recent_transcript(listing[i], cutoff));
            let k = choose|k: int| 0 <= k < kept.len() && kept[k] == path;
            assert(all[k] == path);
        }
        if is_recent_transcript(listing[n], cutoff) && listing[n].path == path {
            assert(all[kept.len() as int] == path);
        }
        if exists|i: int|
            0 <= i < listing.len() && is_recent_transcript(#[trigger] listing[i], cutoff)
                && listing[i].path == path {
            let i = choose|i: int|
                0 <= i < listing.len() && is_recent_transcript(#[trigger] listing[i], cutoff)
                    && listing[i].path == path;
            if i < n {
                assert(is_recent_transcript(rest[i], cutoff));
            }
        }
        if all.contains(path) && !kept.contains(path) {
            let k = choose|k: int| 0 <= k < all.len() && all[k] == path;
            if k < kept.len() {
                assert(kept[k] == path);
            }
            assert(is_recent_transcript(listing[n], cutoff) && listing[n].path == path);
        }
    }
}

/// A walk after some listings: the directories that were listed, those that are still to be listed,
/// and the transcripts found.
pub ghost struct WalkRun<P> {
    pub visited: Seq<P>,
    pub pending: Seq<P>,
    pub found: Seq<P>,
}

/// A walk through `root` after some listings; each is that of the directory that was next.
pub open spec fn walk_run<P>(root: P, listings: Seq<Seq<DirEntry<P>>>, cutoff: i128) -> WalkRun<P>
    decreases listings.len(),
{
    if listings.len() == 0 {
        WalkRun { visited: Seq::empty(), pending: seq![root], found: Seq::empty() }
    } else {
        let before = walk_run(root, listings.drop_last(), cutoff);
        WalkRun {
            visited: before.visited.push(before.pending.last()),
            pending: before.pending.drop_last() + directories(listings.last()),
            found: before.found + transcripts(listings.last(), cutoff),
        }
    }
}

/// Whether there was a directory to list each time that a listing came.
pub open spec fn walk_goes_on<P>(root: P, listings: Seq<Seq<DirEntry<P>>>, cutoff: i128) -> bool {
    forall|k: int|
        0 <= k < listings.len() ==> (#[trigger] walk_run(
            root,
            listings.take(k),
            cutoff,
        )).pending.len() > 0
}

/// The directories of some listings.
pub open spec fn all_directories<P>(listings: Seq<Seq<DirEntry<P>>>) -> Seq<P>
    decreases listings.len(),
{
    if listings.len() == 0 {
        Seq::empty()
    } else {
        all_directories(listings.drop_last()) + directories(listings.last())
    }
}

/// The recent transcripts of some listings.
pub open spec fn all_transcripts<P>(listings: Seq<Seq<DirEntry<P>>>, cutoff: i128) -> Seq<P>
    decreases listings.len(),
{
    if listings.len() == 0 {
        Seq::empty()
    } else {
        all_transcripts(listings.drop_last(), cutoff) + transcripts(listings.last(), cutoff)
    }
}

/// A walk misses nothing: the directories that were listed or are still to be listed are the root
/// and those that the listings name, each as often as it is named, and what was found are the recent
/// transcripts of all listings. When no directory is left, all of them have been listed.
pub proof fn law_walk_misses_nothing<P>(root: P, listings: Seq<Seq<DirEntry<P>>>, cutoff: i128)
    requires
        walk_goes_on(root, listings, cutoff),
    ensures
        walk_run(root, listings, cutoff).visited.to_multiset().add(
            walk_run(root, listings, cutoff).pending.to_multiset(),
        ) == all_directories(listings).push(root).to_multiset(),
        walk_run(root, listings, cutoff).found == all_transcripts(listings, cutoff),
        walk_run(root, listings, cutoff).pending.len() == 0 ==> walk_run(
            root,
            listings,
            cutoff,
        ).visited.to_multiset() == all_directories(listings).push(root).to_multiset(),
    decreases listings.len(),
{
    broadcast use vstd::seq_lib::group_to_multiset_ensures;

    let run = walk_run(root, listings, cutoff);
    if listings.len() == 0 {
        assert(seq![root] =~= Seq::<P>::empty().push(root));
        assert(run.visited.to_multiset().add(run.pending.to_multiset())
            =~= all_directories(listings).push(root).to_multiset());
    } else {
        let rest = listings.drop_last();
        let before = walk_run(root, rest, cutoff);
        assert(walk_goes_on(root, rest, cutoff)) by {
            assert forall|k: int| 0 <= k < rest.len() implies (#[trigger] walk_run(
                root,
                rest.take(k),
                cutoff,
            )).pending.len() > 0 by {
                assert(rest.take(k) =~= listings.take(k));
            }
        }
        assert(listings.take(listings.len() - 1) =~= rest);
        assert(before.pending.len() > 0);
        law_walk_misses_nothing(root, rest, cutoff);
        let new = directories(listings.last());
        let next = before.pending.last();
        assert(before.pending =~= before.pending.drop_last().push(next));
        vstd::seq_lib::lemma_multiset_commutative(before.pending.drop_last(), new);
        vstd::seq_lib::lemma_multiset_commutative(all_directories(rest), new);
        assert(run.visited.to_multiset() =~= before.visited.to_multiset().insert(next));
        assert(before.pending.to_multiset() =~= before.pending.drop_last().to_multiset().insert(
            next,
        ));
        assert(run.visited.to_multiset().add(run.pending.to_multiset())
            =~= before.visited.to_multiset().add(before.pending.to_multiset()).add(
            new.to_multiset(),
        ));
        assert(all_directories(listings).push(root).to_multiset() =~= all_directories(rest).push(
            root,
        ).to_multiset().add(new.to_multiset()));
    }
    if run.pending.len() == 0 {
        assert(run.pending =~= Seq::empty());
        assert(run.visited.to_multiset().add(run.pending.to_multiset())
            =~= run.visited.to_multiset());
    }
}

/// A day is a thousand million times 86,400 nanoseconds: no days back is now, and every day more is
/// that much earlier. Transcripts are looked for eight days back.
pub proof fn law_a_day_is_a_day(now: i128, days: u64, more: u64)
    requires
        days + more <= u64::MAX,
    ensures
        cutoff_before(now, 0) == now,
        cutoff_before(now, days) - cutoff_before(now, (days + more) as u64) == more
            * 86_400_000_000_000,
        now - cutoff_before(now, TRANSCRIPT_DAYS) == 8 * 86_400_000_000_000,
{
}

/// One more entry of a listing is found exactly if it is no directory, its name ends in `jsonl`, and
/// its time is known and not before the cutoff. It is walked into exactly if it is a directory. What
/// was listed before it stays before it.
pub proof fn law_one_entry_of_a_listing<P>(listing: Seq<DirEntry<P>>, e: DirEntry<P>, cutoff: i128)
    ensures
        transcripts(Seq::<DirEntry<P>>::empty(), cutoff).len() == 0,
        directories(Seq::<DirEntry<P>>::empty()).len() == 0,
        !e.is_dir && e.extension is Some && e.extension->0@ == "jsonl"@ && e.modified is Some
            && e.modified->0 >= cutoff ==> transcripts(listing.push(e), cutoff) == transcripts(
            listing,
            cutoff,
        ).push(e.path),
        e.is_dir || e.extension is None || e.extension->0@ != "jsonl"@ || e.modified is None
            || e.modified->0 < cutoff ==> transcripts(listing.push(e), cutoff) == transcripts(
            listing,
            cutoff,
        ),
        e.is_dir ==> directories(listing.push(e)) == directories(listing).push(e.path),
        !e.is_dir ==> directories(listing.push(e)) == directories(listing),
{
    assert(listing.push(e).drop_last() =~= listing);
}

/// A directory that cannot be listed has no entries, and another one has those that were listed.
pub proof fn law_listing_is_taken_as_it_is<P>(entries: Vec<DirEntry<P>>)
    ensures
        listed_entries(Some(entries)) == entries@,
        listed_entries(None::<Vec<DirEntry<P>>>).len() == 0,
{
}

} // verus!
