//! Reconciling the files to fetch with what an output directory holds.
//!
//! The directory is not read from here: its listing comes in as the names
//! of the plain files that stand directly in it, and what is to be done
//! with each of them goes out as a [`FileAction`].

use vstd::prelude::*;
use crate::structs::{Downloadable, DownloadableView};
use crate::text::{ends_with, is_suffix};

verus! {

/// What is to be done with a file found in the output directory.
#[derive(Debug, Clone, Copy, PartialEq, Eq, Structural)]
pub enum FileAction {
    /// It is one of the files wanted: leave it where it is.
    Keep,
    /// Remove it.
    Delete,
    /// Move it into the quarantine directory; if that fails, remove it.
    Quarantine,
}

/// What [`clean`] found out.
#[derive(Debug)]
pub struct Cleaning {
    /// The file name of each entry that was dropped because an earlier
    /// entry goes to a file of the same name, last dropped entry first.
    pub duplicates: Vec<String>,
    /// What is to be done with each listed file, in the order of the listing.
    pub actions: Vec<FileAction>,
}

/// The file names of a list of files to fetch, in order.
pub open spec fn filenames(targets: Seq<DownloadableView>) -> Seq<Seq<char>> {
    targets.map_values(|d: DownloadableView| d.filename)
}

/// Whether the entry at `index` goes to a file that an earlier entry goes to.
pub open spec fn repeats(targets: Seq<DownloadableView>, index: int) -> bool {
    filenames(targets.take(index)).contains(targets[index].filename)
}

/// The entries that do not repeat the file name of an earlier entry, in
/// order.
pub open spec fn without_dupes(targets: Seq<DownloadableView>) -> Seq<DownloadableView>
    decreases targets.len(),
{
    if targets.len() == 0 {
        targets
    } else if repeats(targets, targets.len() - 1) {
        without_dupes(targets.drop_last())
    } else {
        without_dupes(targets.drop_last()).push(targets.last())
    }
}

/// The places of the entries that repeat the file name of an earlier
/// entry, last place first.
pub open spec fn dupe_indices(targets: Seq<DownloadableView>) -> Seq<int>
    decreases targets.len(),
{
    if targets.len() == 0 {
        Seq::empty()
    } else if repeats(targets, targets.len() - 1) {
        seq![targets.len() - 1] + dupe_indices(targets.drop_last())
    } else {
        dupe_indices(targets.drop_last())
    }
}

/// The entries for which no file of their name is listed, in order.
pub open spec fn still_needed(
    targets: Seq<DownloadableView>,
    listing: Seq<Seq<char>>,
) -> Seq<DownloadableView> {
    targets.filter(|d: DownloadableView| !listing.contains(d.filename))
}

/// What is to be done with a listed file: one that is wanted stays; a
/// partial download goes; anything else is moved aside where moving aside
/// is wanted, and goes where it is not.
pub open spec fn action_for(
    name: Seq<char>,
    targets: Seq<DownloadableView>,
    quarantine: bool,
) -> FileAction {
    if filenames(targets).contains(name) {
        FileAction::Keep
    } else if is_suffix(name, ".part"@) {
        FileAction::Delete
    } else if quarantine {
        FileAction::Quarantine
    } else {
        FileAction::Delete
    }
}

/// What is to be done with each file of a listing.
pub open spec fn actions_for(
    listing: Seq<Seq<char>>,
    targets: Seq<DownloadableView>,
    quarantine: bool,
) -> Seq<FileAction> {
    listing.map_values(|name: Seq<char>| action_for(name, targets, quarantine))
}

/// Dropping repetitions leaves each file name once: no name is lost, none
/// stays twice, and every entry is either kept or counted as a repetition.
pub proof fn lemma_without_dupes(targets: Seq<DownloadableView>)
    ensures
        filenames(without_dupes(targets)).no_duplicates(),
        forall|name: Seq<char>|
            filenames(targets).contains(name) <==> filenames(without_dupes(targets)).contains(name),
        without_dupes(targets).len() + dupe_indices(targets).len() == targets.len(),
        forall|i: int|
            0 <= i < without_dupes(targets).len() ==> targets.contains(
                #[trigger] without_dupes(targets)[i],
            ),
    decreases targets.len(),
{
    if targets.len() > 0 {
        let front = targets.drop_last();
        let last = targets.last();
        lemma_without_dupes(front);
        let kept = without_dupes(front);
        let all = without_dupes(targets);
        assert(targets.take(targets.len() - 1) =~= front);
        assert forall|name: Seq<char>| filenames(targets).contains(name) <==> filenames(
            all,
        ).contains(name) by {
            if filenames(targets).contains(name) {
                let k = choose|k: int|
                    0 <= k < filenames(targets).len() && filenames(targets)[k] == name;
                if k < front.len() {
                    assert(filenames(front)[k] == name);
                    assert(filenames(front).contains(name));
                    assert(filenames(kept).contains(name));
                    let j = choose|j: int|
                        0 <= j < filenames(kept).len() && filenames(kept)[j] == name;
                    assert(filenames(all)[j] == name);
                } else if repeats(targets, targets.len() - 1) {
                    assert(filenames(front).contains(name));
                    assert(filenames(kept).contains(name));
                    let j = choose|j: int|
                        0 <= j < filenames(kept).len() && filenames(kept)[j] == name;
                    assert(filenames(all)[j] == name);
                } else {
                    assert(filenames(all)[all.len() - 1] == name);
                }
            }
            if filenames(all).contains(name) {
                let j = choose|j: int| 0 <= j < filenames(all).len() && filenames(all)[j] == name;
                if j < kept.len() {
                    assert(filenames(kept)[j] == name);
                    assert(filenames(kept).contains(name));
                    assert(filenames(front).contains(name));
                    let k = choose|k: int|
                        0 <= k < filenames(front).len() && filenames(front)[k] == name;
                    assert(filenames(targets)[k] == name);
                } else {
                    assert(filenames(targets)[targets.len() - 1] == name);
                }
            }
        }
        if !repeats(targets, targets.len() - 1) {
            assert forall|i: int, j: int| 0 <= i < j < filenames(all).len() implies filenames(
                all,
            )[i] != filenames(all)[j] by {
                if j < kept.len() {
                    assert(filenames(kept)[i] != filenames(kept)[j]);
                } else {
                    assert(filenames(kept)[i] == filenames(all)[i]);
                    assert(filenames(kept).contains(filenames(all)[i]));
                }
            }
        }
        assert forall|i: int| 0 <= i < all.len() implies targets.contains(#[trigger] all[i]) by {
            if i < kept.len() {
                assert(front.contains(kept[i]));
                let k = choose|k: int| 0 <= k < front.len() && front[k] == kept[i];
                assert(targets[k] == kept[i]);
            } else {
                assert(targets[targets.len() - 1] == all[i]);
            }
        }
    }
}

/// Where every file wanted is listed, nothing is left to fetch.
pub proof fn lemma_nothing_needed(targets: Seq<DownloadableView>, listing: Seq<Seq<char>>)
    requires
        forall|i: int| 0 <= i < targets.len() ==> listing.contains(#[trigger] targets[i].filename),
    ensures
        still_needed(targets, listing).len() == 0,
{
    let wanted = |d: DownloadableView| !listing.contains(d.filename);
    let left = targets.filter(wanted);
    if left.len() > 0 {
        targets.lemma_filter_pred(wanted, 0);
        assert(left.contains(left[0]));
        targets.lemma_filter_contains_rev(wanted, left[0]);
        let k = choose|k: int| 0 <= k < targets.len() && targets[k] == left[0];
        assert(listing.contains(targets[k].filename));
    }
}

/// Where a file of the name of every entry is listed, as it is after a run
/// that fetched them all, cleaning leaves nothing to fetch.
pub proof fn lemma_second_run(targets: Seq<DownloadableView>, listing: Seq<Seq<char>>)
    requires
        forall|i: int| 0 <= i < targets.len() ==> listing.contains(#[trigger] targets[i].filename),
    ensures
        still_needed(without_dupes(targets), listing).len() == 0,
{
    let kept = without_dupes(targets);
    lemma_without_dupes(targets);
    assert forall|i: int| 0 <= i < kept.len() implies listing.contains(
        #[trigger] kept[i].filename,
    ) by {
        assert(targets.contains(kept[i]));
        let k = choose|k: int| 0 <= k < targets.len() && targets[k] == kept[i];
        assert(listing.contains(targets[k].filename));
    }
    lemma_nothing_needed(kept, listing);
}

/// What is left to fetch is what was wanted and is not listed, and nothing
/// else.
pub proof fn lemma_still_needed(targets: Seq<DownloadableView>, listing: Seq<Seq<char>>)
    ensures
        forall|i: int|
            0 <= i < still_needed(targets, listing).len() ==> targets.contains(
                #[trigger] still_needed(targets, listing)[i],
            ) && !listing.contains(still_needed(targets, listing)[i].filename),
        forall|i: int|
            0 <= i < targets.len() && !listing.contains(#[trigger] targets[i].filename)
                ==> still_needed(targets, listing).contains(targets[i]),
{
    let wanted = |d: DownloadableView| !listing.contains(d.filename);
    let left = targets.filter(wanted);
    assert forall|i: int| 0 <= i < left.len() implies targets.contains(#[trigger] left[i])
        && !listing.contains(left[i].filename) by {
        targets.lemma_filter_pred(wanted, i);
        assert(left.contains(left[i]));
        targets.lemma_filter_contains_rev(wanted, left[i]);
    }
    assert forall|i: int|
        0 <= i < targets.len() && !listing.contains(
            #[trigger] targets[i].filename,
        ) implies left.contains(targets[i]) by {
        targets.lemma_filter_contains(wanted, i);
    }
}

/// A file that is neither wanted nor a partial download is moved aside
/// where moving aside is wanted, and removed where it is not; a partial
/// download is removed either way; a wanted file stays.
pub proof fn lemma_action_for(name: Seq<char>, targets: Seq<DownloadableView>, quarantine: bool)
    ensures
        filenames(targets).contains(name) ==> action_for(name, targets, quarantine)
            == FileAction::Keep,
        !filenames(targets).contains(name) && is_suffix(name, ".part"@) ==> action_for(
            name,
            targets,
            quarantine,
        ) == FileAction::Delete,
        !filenames(targets).contains(name) && !is_suffix(name, ".part"@) ==> action_for(
            name,
            targets,
            quarantine,
        ) == (if quarantine {
            FileAction::Quarantine
        } else {
            FileAction::Delete
        }),
{
}

impl FileAction {
    /// What is to be done once moving a file aside has failed: the file
    /// is removed instead.
    pub fn after_failed_move(self) -> (r: FileAction)
        ensures
            r == (if self == FileAction::Quarantine {
                FileAction::Delete
            } else {
                self
            }),
    {
        match self {
            FileAction::Quarantine => FileAction::Delete,
            other => other,
        }
    }
}

/// The name of the directory, below the one cleaned, that files are moved
/// aside to.
pub fn quarantine_directory() -> (r: &'static str)
    ensures
        r@ == ".old"@,
{
    ".old"
}

/// Whether one of the first `upto` entries goes to a file of this name.
pub fn names_file(targets: &Vec<Downloadable>, upto: usize, name: &String) -> (r: bool)
    requires
        upto <= targets.len(),
    ensures
        r == filenames(targets.deep_view().take(upto as int)).contains(name@),
{
    let ghost names = filenames(targets.deep_view().take(upto as int));
    let mut i: usize = 0;
    while i < upto
        invariant
            i <= upto <= targets.len(),
            names == filenames(targets.deep_view().take(upto as int)),
            forall|j: int| 0 <= j < i ==> names[j] != name@,
        decreases upto - i,
    {
        if targets[i].filename == *name {
            assert(names[i as int] == name@);
            return true;
        }
        i = i + 1;
    }
    false
}

/// Whether a listing holds a name.
pub fn listed(listing: &Vec<String>, name: &String) -> (r: bool)
    ensures
        r == listing.deep_view().contains(name@),
{
    let mut i: usize = 0;
    while i < listing.len()
        invariant
            i <= listing.len(),
            forall|j: int| 0 <= j < i ==> listing.deep_view()[j] != name@,
        decreases listing.len() - i,
    {
        if listing[i] == *name {
            assert(listing.deep_view()[i as int] == name@);
            return true;
        }
        i = i + 1;
    }
    false
}

/// Finds the entries that go to a file that an earlier entry goes to.
/// Their places come last place first, so that they can be removed one
/// after the other.
pub fn find_dupes_by_filename(targets: &Vec<Downloadable>) -> (r: Vec<usize>)
    ensures
        r@.map_values(|i: usize| i as int) == dupe_indices(targets.deep_view()),
{
    let ghost all = targets.deep_view();
    let mut r: Vec<usize> = Vec::new();
    let mut i: usize = targets.len();
    assert(all.take(i as int) =~= all);
    while i > 0
        invariant
            i <= targets.len(),
            all == targets.deep_view(),
            r@.map_values(|i: usize| i as int) + dupe_indices(all.take(i as int)) == dupe_indices(
                all,
            ),
        decreases i,
    {
        let ghost before = r@.map_values(|i: usize| i as int);
        let ghost prefix = all.take(i as int);
        i = i - 1;
        proof {
            assert(prefix.drop_last() =~= all.take(i as int));
            assert(prefix.take(i as int) =~= all.take(i as int));
        }
        if names_file(targets, i, &targets[i].filename) {
            r.push(i);
            assert(r@.map_values(|i: usize| i as int) =~= before + seq![i as int]);
            assert(before + seq![i as int] + dupe_indices(all.take(i as int)) =~= before + (
            seq![i as int] + dupe_indices(all.take(i as int))));
        }
    }
    assert(r@.map_values(|i: usize| i as int) + Seq::<int>::empty() =~= r@.map_values(
        |i: usize| i as int,
    ));
    r
}

/// Drops every entry that goes to a file that an earlier entry goes to,
/// and says which file names that concerned, last dropped entry first.
pub fn remove_dupes(to_download: &mut Vec<Downloadable>) -> (r: Vec<String>)
    ensures
        final(to_download).deep_view() == without_dupes(old(to_download).deep_view()),
        r.deep_view() == dupe_indices(old(to_download).deep_view()).map_values(
            |i: int| old(to_download).deep_view()[i].filename,
        ),
{
    let ghost all = to_download.deep_view();
    let indices = find_dupes_by_filename(to_download);
    let ghost places = indices@.map_values(|i: usize| i as int);
    let mut r: Vec<String> = Vec::new();
    let mut k: usize = 0;
    proof {
        lemma_dupe_indices_bound(all);
    }
    while k < indices.len()
        invariant
            k <= indices.len(),
            all == to_download.deep_view(),
            places == indices@.map_values(|i: usize| i as int),
            places == dupe_indices(all),
            forall|j: int| 0 <= j < places.len() ==> 0 <= #[trigger] places[j] < all.len(),
            r.len() == k,
            forall|j: int| 0 <= j < k ==> r[j]@ == all[#[trigger] places[j]].filename,
        decreases indices.len() - k,
    {
        assert(places[k as int] == indices[k as int]);
        r.push(to_download[indices[k]].filename.clone());
        k = k + 1;
    }
    let mut kept: Vec<Downloadable> = Vec::new();
    let mut i: usize = 0;
    assert(all.take(0) =~= Seq::empty());
    while i < to_download.len()
        invariant
            i <= to_download.len(),
            all == to_download.deep_view(),
            kept.deep_view() == without_dupes(all.take(i as int)),
        decreases to_download.len() - i,
    {
        let ghost before = kept.deep_view();
        proof {
            let prefix = all.take(i + 1);
            assert(prefix.drop_last() =~= all.take(i as int));
            assert(prefix.take(i as int) =~= all.take(i as int));
        }
        if !names_file(to_download, i, &to_download[i].filename) {
            kept.push(to_download[i].clone());
            assert(kept.deep_view() =~= before.push(all[i as int]));
        }
        i = i + 1;
    }
    assert(all.take(all.len() as int) =~= all);
    *to_download = kept;
    assert(r.deep_view() =~= dupe_indices(all).map_values(|i: int| all[i].filename));
    r
}

/// The places of repetitions are places of the list.
proof fn lemma_dupe_indices_bound(targets: Seq<DownloadableView>)
    ensures
        forall|j: int|
            0 <= j < dupe_indices(targets).len() ==> 0 <= #[trigger] dupe_indices(targets)[j]
                < targets.len(),
    decreases targets.len(),
{
    if targets.len() > 0 {
        lemma_dupe_indices_bound(targets.drop_last());
        let rest = dupe_indices(targets.drop_last());
        assert forall|j: int| 0 <= j < dupe_indices(targets).len() implies 0
            <= #[trigger] dupe_indices(targets)[j] < targets.len() by {
            if repeats(targets, targets.len() - 1) {
                if j > 0 {
                    assert(dupe_indices(targets)[j] == rest[j - 1]);
                }
            } else {
                assert(dupe_indices(targets)[j] == rest[j]);
            }
        }
    }
}

/// Reconciles the files to fetch with the listing of one output
/// directory.
///
/// Entries that go to a file that an earlier entry goes to are dropped
/// first. Then every entry for which a file of its name is listed is taken
/// off the list: that file is presumed to be the one wanted. Each listed
/// file gets its action: a wanted one stays, a partial download is removed,
/// and any other is moved aside if `quarantine` is set and removed if not.
pub fn clean(listing: &Vec<String>, to_download: &mut Vec<Downloadable>, quarantine: bool) -> (r:
    Cleaning)
    ensures
        final(to_download).deep_view() == still_needed(
            without_dupes(old(to_download).deep_view()),
            listing.deep_view(),
        ),
        r.duplicates.deep_view() == dupe_indices(old(to_download).deep_view()).map_values(
            |i: int| old(to_download).deep_view()[i].filename,
        ),
        r.actions@ == actions_for(
            listing.deep_view(),
            without_dupes(old(to_download).deep_view()),
            quarantine,
        ),
{
    let duplicates = remove_dupes(to_download);
    let ghost targets = to_download.deep_view();
    let ghost names = listing.deep_view();
    let mut actions: Vec<FileAction> = Vec::new();
    let mut i: usize = 0;
    while i < listing.len()
        invariant
            i <= listing.len(),
            targets == to_download.deep_view(),
            names == listing.deep_view(),
            actions.len() == i,
            forall|j: int|
                0 <= j < i ==> actions[j] == action_for(#[trigger] names[j], targets, quarantine),
        decreases listing.len() - i,
    {
        proof {
            assert(targets.take(targets.len() as int) =~= targets);
        }
        let action = if names_file(to_download, to_download.len(), &listing[i]) {
            FileAction::Keep
        } else if ends_with(listing[i].as_str(), ".part") {
            FileAction::Delete
        } else if quarantine {
            FileAction::Quarantine
        } else {
            FileAction::Delete
        };
        actions.push(action);
        i = i + 1;
    }
    assert(actions@ =~= actions_for(names, targets, quarantine));
    let ghost wanted = |d: DownloadableView| !names.contains(d.filename);
    let mut pending: Vec<Downloadable> = Vec::new();
    let mut k: usize = 0;
    proof {
        reveal(Seq::filter);
        assert(targets.take(0) =~= Seq::empty());
    }
    while k < to_download.len()
        invariant
            k <= to_download.len(),
            targets == to_download.deep_view(),
            names == listing.deep_view(),
            wanted == |d: DownloadableView| !names.contains(d.filename),
            pending.deep_view() == targets.take(k as int).filter(wanted),
        decreases to_download.len() - k,
    {
        let ghost before = pending.deep_view();
        proof {
            reveal(Seq::filter);
            assert(targets.take(k + 1).drop_last() =~= targets.take(k as int));
        }
        if !listed(listing, &to_download[k].filename) {
            pending.push(to_download[k].clone());
            assert(pending.deep_view() =~= before.push(targets[k as int]));
        }
        k = k + 1;
    }
    assert(targets.take(targets.len() as int) =~= targets);
    *to_download = pending;
    Cleaning { duplicates, actions }
}

} // verus!
