//! Fetching the files that are left, a bounded number at a time.
//!
//! Nothing is transferred from here. A [`Scheduler`] says which transfer
//! to begin next, adds up the bytes reported and, once every transfer has
//! ended, says how the batch went; whoever drives it moves the bytes.

use vstd::prelude::*;
use crate::flags::{
    cleared, count_true, first_true, lemma_count_fresh, lemma_count_prefix, lemma_count_room,
    lemma_count_set, lemma_first_set, lemma_first_true,
};
use crate::structs::{Downloadable, DownloadableView};

verus! {

/// How many bytes a list of files holds together.
pub open spec fn total_length(targets: Seq<DownloadableView>) -> nat
    decreases targets.len(),
{
    if targets.len() == 0 {
        0
    } else {
        total_length(targets.drop_last()) + targets.last().length
    }
}

/// The first files of a list hold no more bytes than the whole list.
pub proof fn lemma_total_prefix(targets: Seq<DownloadableView>, upto: int)
    requires
        0 <= upto <= targets.len(),
    ensures
        total_length(targets.take(upto)) <= total_length(targets),
    decreases targets.len(),
{
    if upto == targets.len() {
        assert(targets.take(upto) =~= targets);
    } else {
        lemma_total_prefix(targets.drop_last(), upto);
        assert(targets.drop_last().take(upto) =~= targets.take(upto));
    }
}

/// Counts the total size in bytes of the files to fetch, where that fits.
pub fn checked_count_bytes(downloadables: &Vec<Downloadable>) -> (r: Option<u64>)
    ensures
        match r {
            Some(total) => total == total_length(downloadables.deep_view()),
            None => total_length(downloadables.deep_view()) > u64::MAX,
        },
{
    let ghost all = downloadables.deep_view();
    let mut total: u64 = 0;
    let mut i: usize = 0;
    assert(all.take(0) =~= Seq::empty());
    while i < downloadables.len()
        invariant
            i <= downloadables.len(),
            all == downloadables.deep_view(),
            total == total_length(all.take(i as int)),
        decreases downloadables.len() - i,
    {
        proof {
            assert(all.take(i + 1).drop_last() =~= all.take(i as int));
            lemma_total_prefix(all, i + 1);
        }
        if downloadables[i].length > u64::MAX - total {
            return None;
        }
        total = total + downloadables[i].length;
        i = i + 1;
    }
    assert(all.take(all.len() as int) =~= all);
    Some(total)
}

/// Counts the total size in bytes of the files to fetch.
pub fn count_bytes(downloadables: &Vec<Downloadable>) -> (total: u64)
    requires
        total_length(downloadables.deep_view()) <= u64::MAX,
    ensures
        total == total_length(downloadables.deep_view()),
{
    match checked_count_bytes(downloadables) {
        Some(total) => total,
        None => 0,
    }
}

/// The state of a batch of transfers as the contracts speak of it.
pub struct SchedulerView {
    /// The files to fetch, in the order in which their transfers begin.
    pub targets: Seq<DownloadableView>,
    /// How many transfers may be under way at once.
    pub limit: nat,
    /// How many transfers were begun, from the front of `targets`.
    pub started: nat,
    /// For each file, whether its transfer has ended.
    pub finished: Seq<bool>,
    /// For each file, whether its transfer has ended in failure.
    pub failed: Seq<bool>,
    /// How many bytes were reported as transferred.
    pub transferred: nat,
}

impl SchedulerView {
    /// How many bytes the batch is expected to move.
    pub open spec fn total(self) -> nat {
        total_length(self.targets)
    }

    /// How many transfers are under way.
    pub open spec fn in_flight(self) -> int {
        self.started - count_true(self.finished)
    }

    /// What holds of every state that a [`Scheduler`] reaches.
    pub open spec fn inv(self) -> bool {
        &&& self.limit > 0
        &&& self.total() <= u64::MAX
        &&& self.started <= self.targets.len()
        &&& self.finished.len() == self.targets.len()
        &&& self.failed.len() == self.targets.len()
        &&& forall|i: int| self.started <= i < self.finished.len() ==> !self.finished[i]
        &&& forall|i: int| 0 <= i < self.failed.len() && self.failed[i] ==> self.finished[i]
        &&& 0 <= self.in_flight() <= self.limit
        &&& self.transferred <= u64::MAX
    }

    /// The state in which a batch begins.
    pub open spec fn initial(targets: Seq<DownloadableView>, limit: nat) -> Self {
        SchedulerView {
            targets,
            limit,
            started: 0,
            finished: Seq::new(targets.len(), |i: int| false),
            failed: Seq::new(targets.len(), |i: int| false),
            transferred: 0,
        }
    }

    /// Whether a transfer may begin.
    pub open spec fn can_start(self) -> bool {
        self.started < self.targets.len() && self.in_flight() < self.limit
    }

    /// The state after the next transfer has begun.
    pub open spec fn start(self) -> Self {
        SchedulerView { started: self.started + 1, ..self }
    }

    /// Whether the transfer of the file at `index` is under way.
    pub open spec fn outstanding(self, index: int) -> bool {
        0 <= index < self.started && !self.finished[index]
    }

    /// The state after the transfer of the file at `index` has ended.
    pub open spec fn end(self, index: int, succeeded: bool) -> Self {
        SchedulerView {
            finished: self.finished.update(index, true),
            failed: self.failed.update(index, !succeeded),
            ..self
        }
    }

    /// Whether `delta` more bytes can be counted.
    pub open spec fn can_count(self, delta: nat) -> bool {
        self.transferred + delta <= u64::MAX
    }

    /// The state after `delta` more bytes were reported.
    pub open spec fn count(self, delta: nat) -> Self {
        SchedulerView { transferred: self.transferred + delta, ..self }
    }

    /// Whether every transfer was begun and has ended.
    pub open spec fn done(self) -> bool {
        self.started == self.targets.len() && self.in_flight() == 0
    }

    /// How the batch went: nothing can be said while transfers are
    /// missing; after that it has failed with the first file, in the
    /// order of `targets`, whose transfer failed, and succeeded if there
    /// is no such file.
    pub open spec fn outcome(self) -> Option<Result<(), int>> {
        if !self.done() {
            None
        } else {
            match first_true(self.failed) {
                Some(index) => Some(Err(index)),
                None => Some(Ok(())),
            }
        }
    }
}

/// A batch begins in a state that [`SchedulerView::inv`] holds of.
pub proof fn lemma_initial_inv(targets: Seq<DownloadableView>, limit: nat)
    requires
        limit > 0,
        total_length(targets) <= u64::MAX,
    ensures
        SchedulerView::initial(targets, limit).inv(),
{
    lemma_count_fresh(targets.len());
}

/// Beginning a transfer keeps the invariant: no more than `limit`
/// transfers are ever under way.
pub proof fn lemma_start_inv(v: SchedulerView)
    requires
        v.inv(),
        v.can_start(),
    ensures
        v.start().inv(),
{
}

/// The end of a transfer keeps the invariant and frees one place.
pub proof fn lemma_end_inv(v: SchedulerView, index: int, succeeded: bool)
    requires
        v.inv(),
        v.outstanding(index),
    ensures
        v.end(index, succeeded).inv(),
        v.end(index, succeeded).in_flight() == v.in_flight() - 1,
        count_true(v.finished) < v.started,
{
    lemma_count_set(v.finished, index);
    lemma_count_room(v.finished, v.started as int, index);
}

/// A batch that is done has had every one of its transfers begun and
/// ended; it has failed exactly if one of them has.
pub proof fn lemma_outcome(v: SchedulerView)
    requires
        v.inv(),
        v.done(),
    ensures
        forall|i: int| 0 <= i < v.targets.len() ==> v.finished[i],
        v.outcome() == Some(Ok::<(), int>(())) <==> forall|i: int|
            0 <= i < v.targets.len() ==> !v.failed[i],
        v.outcome() matches Some(Err(index)) ==> 0 <= index < v.targets.len() && v.failed[index]
            && forall|i: int| 0 <= i < index ==> !v.failed[i],
{
    lemma_first_true(v.failed);
    assert forall|i: int| 0 <= i < v.targets.len() implies v.finished[i] by {
        if !v.finished[i] {
            lemma_count_room(v.finished, v.started as int, i);
        }
    }
}

/// A batch of transfers under way.
pub struct Scheduler {
    targets: Vec<Downloadable>,
    limit: usize,
    started: usize,
    finished: Vec<bool>,
    failed: Vec<bool>,
    ended: usize,
    first_failed: Option<usize>,
    total: u64,
    transferred: u64,
}

impl View for Scheduler {
    type V = SchedulerView;

    closed spec fn view(&self) -> SchedulerView {
        SchedulerView {
            targets: self.targets.deep_view(),
            limit: self.limit as nat,
            started: self.started as nat,
            finished: self.finished@,
            failed: self.failed@,
            transferred: self.transferred as nat,
        }
    }
}

impl Scheduler {
    /// Whether the state is one that the operations below reach.
    pub closed spec fn wf(&self) -> bool {
        &&& self@.inv()
        &&& self.ended == count_true(self.finished@)
        &&& self.total == self@.total()
        &&& match self.first_failed {
            Some(index) => first_true(self.failed@) == Some(index as int),
            None => first_true(self.failed@) is None,
        }
    }

    /// A state that the operations reach is one that the invariant holds of.
    pub proof fn lemma_wf(&self)
        requires
            self.wf(),
        ensures
            self@.inv(),
    {
    }

    /// Prepares the transfers of `targets`, at most `limit` of them at once.
    pub fn new(targets: Vec<Downloadable>, limit: usize) -> (r: Scheduler)
        requires
            limit > 0,
            total_length(targets.deep_view()) <= u64::MAX,
        ensures
            r.wf(),
            r@ == SchedulerView::initial(targets.deep_view(), limit as nat),
            r@.in_flight() == 0,
    {
        let total = count_bytes(&targets);
        let finished = cleared(targets.len());
        let failed = cleared(targets.len());
        proof {
            lemma_initial_inv(targets.deep_view(), limit as nat);
            lemma_count_fresh(targets.len() as nat);
            lemma_first_true(failed@);
        }
        Scheduler {
            targets,
            limit,
            started: 0,
            finished,
            failed,
            ended: 0,
            first_failed: None,
            total,
            transferred: 0,
        }
    }

    /// Begins the next transfer: gives the place of the file among the
    /// targets and the file itself. No transfer begins while `limit` of
    /// them are under way or once all were begun.
    pub fn next(&mut self) -> (r: Option<(usize, Downloadable)>)
        requires
            old(self).wf(),
        ensures
            final(self).wf(),
            old(self)@.can_start() ==> (r matches Some((index, target)) && index
                == old(self)@.started && target@ == old(self)@.targets[index as int]
                && final(self)@ == old(self)@.start()),
            !old(self)@.can_start() ==> r is None && final(self)@ == old(self)@,
            r is Some ==> final(self)@.in_flight() == old(self)@.in_flight() + 1,
    {
        if self.started < self.targets.len() && self.started - self.ended < self.limit {
            let index = self.started;
            let target = self.targets[index].clone();
            self.started = self.started + 1;
            Some((index, target))
        } else {
            None
        }
    }

    /// Counts `delta` bytes as transferred. Where the count would no
    /// longer fit it stays as it is, and the answer is `false`.
    pub fn progress(&mut self, delta: u64) -> (r: bool)
        requires
            old(self).wf(),
        ensures
            final(self).wf(),
            r == old(self)@.can_count(delta as nat),
            r ==> final(self)@ == old(self)@.count(delta as nat),
            !r ==> final(self)@ == old(self)@,
    {
        if delta > u64::MAX - self.transferred {
            return false;
        }
        self.transferred = self.transferred + delta;
        true
    }

    /// Takes note that the transfer of the file at `index` has ended, and
    /// how. Where no such transfer is under way nothing changes, and the
    /// answer is `false`.
    pub fn complete(&mut self, index: usize, succeeded: bool) -> (r: bool)
        requires
            old(self).wf(),
        ensures
            final(self).wf(),
            r == old(self)@.outstanding(index as int),
            r ==> final(self)@ == old(self)@.end(index as int, succeeded),
            r ==> final(self)@.in_flight() == old(self)@.in_flight() - 1,
            !r ==> final(self)@ == old(self)@,
    {
        if index >= self.started || self.finished[index] {
            return false;
        }
        proof {
            lemma_end_inv(self@, index as int, succeeded);
            lemma_first_set(self.failed@, index as int);
            assert(!self.failed@[index as int]);
            assert(self.failed@.update(index as int, false) =~= self.failed@);
        }
        self.finished.set(index, true);
        self.ended = self.ended + 1;
        if !succeeded {
            self.failed.set(index, true);
            self.first_failed = match self.first_failed {
                Some(earlier) => if earlier < index {
                    Some(earlier)
                } else {
                    Some(index)
                },
                None => Some(index),
            };
        }
        true
    }

    /// How the batch went, once every transfer was begun and has ended:
    /// the place of the first file whose transfer failed, if one did.
    pub fn outcome(&self) -> (r: Option<Result<(), usize>>)
        requires
            self.wf(),
        ensures
            match r {
                None => self@.outcome() is None,
                Some(Ok(_)) => self@.outcome() == Some(Ok::<(), int>(())),
                Some(Err(index)) => self@.outcome() == Some(Err::<(), int>(index as int)),
            },
    {
        if self.started < self.targets.len() || self.ended < self.started {
            return None;
        }
        match self.first_failed {
            Some(index) => Some(Err(index)),
            None => Some(Ok(())),
        }
    }

    /// How many bytes the batch is expected to move.
    pub fn total(&self) -> (r: u64)
        requires
            self.wf(),
        ensures
            r == self@.total(),
    {
        self.total
    }

    /// How many bytes were counted as transferred.
    pub fn transferred(&self) -> (r: u64)
        ensures
            r == self@.transferred,
    {
        self.transferred
    }

    /// How many transfers are under way.
    pub fn in_flight(&self) -> (r: usize)
        requires
            self.wf(),
        ensures
            r == self@.in_flight(),
    {
        self.started - self.ended
    }
}

} // verus!
