//! Expanding a set of references through their required dependencies,
//! one generation of registry queries after another.
//!
//! The registry is not reached from here. A [`Resolver`] says which
//! reference to query next and folds each answer into its state; whoever
//! drives it performs the queries.

use vstd::prelude::*;
use crate::errors::{BreezeError, BreezeErrorView};
use crate::flags::{
    cleared, count_true, lemma_count_fresh, lemma_count_prefix, lemma_count_room, lemma_count_set,
};
use crate::structs::{Downloadable, DownloadableView, Mod, ModId, ModIdView, ModView};
use crate::text::{ends_with, is_suffix, joined};

verus! {

/// The file that a registry selected for a reference, with the projects
/// it cannot work without.
#[derive(Debug)]
pub struct Candidate {
    /// Where the file can be fetched; absent when its author denies
    /// distribution through third parties.
    pub download_url: Option<String>,
    pub filename: String,
    pub length: u64,
    /// The required dependencies of the file.
    pub dependencies: Vec<ModId>,
}

/// What a [`Candidate`] stands for.
pub struct CandidateView {
    pub download_url: Option<Seq<char>>,
    pub filename: Seq<char>,
    pub length: nat,
    pub dependencies: Seq<ModIdView>,
}

impl View for Candidate {
    type V = CandidateView;

    open spec fn view(&self) -> CandidateView {
        CandidateView {
            download_url: match self.download_url {
                Some(url) => Some(url@),
                None => None,
            },
            filename: self.filename@,
            length: self.length as nat,
            dependencies: self.dependencies.deep_view(),
        }
    }
}

impl Clone for Candidate {
    fn clone(&self) -> (r: Self)
        ensures
            r@ == self@,
    {
        let mut dependencies: Vec<ModId> = Vec::new();
        let mut i: usize = 0;
        while i < self.dependencies.len()
            invariant
                i <= self.dependencies.len(),
                dependencies.len() == i,
                forall|j: int| 0 <= j < i ==> dependencies[j]@ == #[trigger] self.dependencies[j]@,
            decreases self.dependencies.len() - i,
        {
            dependencies.push(self.dependencies[i].clone());
            i = i + 1;
        }
        assert(dependencies.deep_view() =~= self.dependencies.deep_view());
        Candidate {
            download_url: match &self.download_url {
                Some(url) => Some(url.clone()),
                None => None,
            },
            filename: self.filename.clone(),
            length: self.length,
            dependencies,
        }
    }
}

/// What querying the registry for one reference came to.
#[derive(Debug)]
pub enum Lookup {
    /// The query itself failed.
    Failed,
    /// The registry knows the project but offers no compatible file.
    NoMatch,
    /// The registry selected this file.
    Found(Candidate),
}

/// What a [`Lookup`] stands for.
pub enum LookupView {
    Failed,
    NoMatch,
    Found(CandidateView),
}

impl View for Lookup {
    type V = LookupView;

    open spec fn view(&self) -> LookupView {
        match self {
            Lookup::Failed => LookupView::Failed,
            Lookup::NoMatch => LookupView::NoMatch,
            Lookup::Found(candidate) => LookupView::Found(candidate@),
        }
    }
}

impl Clone for Lookup {
    fn clone(&self) -> (r: Self)
        ensures
            r@ == self@,
    {
        match self {
            Lookup::Failed => Lookup::Failed,
            Lookup::NoMatch => Lookup::NoMatch,
            Lookup::Found(candidate) => Lookup::Found(candidate.clone()),
        }
    }
}

/// What one reference contributes once a file was selected for it.
#[derive(Debug)]
pub struct Resolution {
    pub downloadable: Downloadable,
    /// The references that the next generation has to look at.
    pub dependencies: Vec<Mod>,
}

/// How a [`Resolver`] took an answer.
#[derive(Debug)]
pub enum Recorded {
    /// The reference gave a file to fetch.
    Resolved,
    /// The query had failed; the reference gives nothing.
    QueryFailed,
    /// The reference gives nothing, for the reason held.
    Rejected(BreezeError),
    /// No answer was awaited for this index; nothing changed.
    Ignored,
}

/// What a [`Recorded`] stands for.
pub enum RecordedView {
    Resolved,
    QueryFailed,
    Rejected(BreezeErrorView),
    Ignored,
}

impl View for Recorded {
    type V = RecordedView;

    open spec fn view(&self) -> RecordedView {
        match self {
            Recorded::Resolved => RecordedView::Resolved,
            Recorded::QueryFailed => RecordedView::QueryFailed,
            Recorded::Rejected(e) => RecordedView::Rejected(e@),
            Recorded::Ignored => RecordedView::Ignored,
        }
    }
}

/// Where a [`Resolver`] stands after an attempt to move on.
#[derive(Debug, Clone, Copy, PartialEq, Eq, Structural)]
pub enum Step {
    /// Answers of the generation under way are still missing.
    Waiting,
    /// A new generation has begun.
    Next,
    /// Nothing is left to query.
    Finished,
}

/// How many queries, or transfers, are let be under way at once where
/// nothing else is asked for.
pub const PERMITS: usize = 75;

/// The ids of a list of references, in order.
pub open spec fn mod_ids(mods: Seq<ModView>) -> Seq<ModIdView> {
    mods.map_values(|m: ModView| m.id)
}

/// A frontier after one more reference was offered to it: the reference
/// is appended unless its id is known already or stands in the frontier.
pub open spec fn offer(known: Seq<ModIdView>, frontier: Seq<ModView>, m: ModView) -> Seq<ModView> {
    if known.contains(m.id) || mod_ids(frontier).contains(m.id) {
        frontier
    } else {
        frontier.push(m)
    }
}

/// A frontier after a list of references was offered to it, one after
/// the other.
pub open spec fn offer_all(
    known: Seq<ModIdView>,
    frontier: Seq<ModView>,
    offered: Seq<ModView>,
) -> Seq<ModView>
    decreases offered.len(),
{
    if offered.len() == 0 {
        frontier
    } else {
        offer(known, offer_all(known, frontier, offered.drop_last()), offered.last())
    }
}

/// The name under which a dependency is shown.
pub open spec fn dependency_name(parent: Seq<char>) -> Seq<char> {
    "Dependency of "@ + parent
}

/// The reference that stands for a dependency: it is named after its
/// parent and inherits the parent's side and constraints.
pub open spec fn dependency_of(parent: ModView, id: ModIdView) -> ModView {
    ModView {
        name: dependency_name(parent.name),
        id,
        side: parent.side,
        ignore_loader: parent.ignore_loader,
        ignore_version: parent.ignore_version,
    }
}

/// The references that stand for a list of dependencies.
pub open spec fn dependencies_of(parent: ModView, ids: Seq<ModIdView>) -> Seq<ModView> {
    ids.map_values(|id: ModIdView| dependency_of(parent, id))
}

/// The sub-directory a file goes to: archives of the `.jar` kind are mods
/// whatever category asked for them, everything else stays in the
/// category's own directory.
pub open spec fn output_directory(filename: Seq<char>, category: Seq<char>) -> Seq<char> {
    if is_suffix(filename, ".jar"@) {
        "mods"@
    } else {
        category
    }
}

/// The file to fetch for a candidate that may be distributed.
pub open spec fn downloadable_of(candidate: CandidateView, category: Seq<char>) -> DownloadableView
    recommends
        candidate.download_url is Some,
{
    DownloadableView {
        download_url: candidate.download_url->0,
        directory: output_directory(candidate.filename, category),
        filename: candidate.filename,
        length: candidate.length,
    }
}

/// Whether an answer gives a file to fetch.
pub open spec fn accepted(lookup: LookupView) -> bool {
    lookup matches LookupView::Found(candidate) && candidate.download_url is Some
}

/// How the answer for a reference is recorded.
pub open spec fn verdict(reference: ModView, lookup: LookupView) -> RecordedView {
    match lookup {
        LookupView::Failed => RecordedView::QueryFailed,
        LookupView::NoMatch => RecordedView::Rejected(
            BreezeErrorView::NoCompatFile(reference.name, reference.id),
        ),
        LookupView::Found(candidate) => if candidate.download_url is Some {
            RecordedView::Resolved
        } else {
            RecordedView::Rejected(
                BreezeErrorView::DistributionDenied(reference.name, reference.id),
            )
        },
    }
}

/// The state of a resolution as the contracts speak of it.
pub struct ResolverView {
    /// The sub-directory of the category that is being resolved.
    pub category: Seq<char>,
    /// How many queries may be under way at once.
    pub limit: nat,
    /// The id of every reference of every generation so far, in the order
    /// in which they are queried.
    pub seen: Seq<ModIdView>,
    /// The generation under way.
    pub current: Seq<ModView>,
    /// How many references of `current` were handed out, from the front.
    pub issued: nat,
    /// For each reference of `current`, whether its answer was recorded.
    pub answered: Seq<bool>,
    /// The next generation as far as it is known.
    pub frontier: Seq<ModView>,
    /// The files to fetch found so far.
    pub downloads: Seq<DownloadableView>,
    /// How many generations with at least one reference were begun.
    pub generations: nat,
}

impl ResolverView {
    /// How many references belong to generations that are over.
    pub open spec fn settled(self) -> int {
        self.seen.len() - self.current.len()
    }

    /// How many answers of the generation under way were recorded.
    pub open spec fn answers(self) -> nat {
        count_true(self.answered)
    }

    /// How many queries are under way.
    pub open spec fn in_flight(self) -> int {
        self.issued - self.answers()
    }

    /// The ids handed out for querying so far, in order.
    pub open spec fn queried(self) -> Seq<ModIdView> {
        self.seen.take(self.settled() + self.issued)
    }

    /// What holds of every state that a [`Resolver`] reaches.
    pub open spec fn inv(self) -> bool {
        &&& self.limit > 0
        &&& self.seen.no_duplicates()
        &&& self.current.len() <= self.seen.len()
        &&& mod_ids(self.current) == self.seen.skip(self.settled())
        &&& self.issued <= self.current.len()
        &&& self.answered.len() == self.current.len()
        &&& forall|i: int| self.issued <= i < self.answered.len() ==> !self.answered[i]
        &&& 0 <= self.in_flight() <= self.limit
        &&& mod_ids(self.frontier).no_duplicates()
        &&& forall|i: int|
            0 <= i < self.frontier.len() ==> !self.seen.contains(#[trigger] self.frontier[i].id)
        &&& self.generations <= self.seen.len()
        &&& self.current.len() > 0 ==> self.generations > 0
        &&& self.downloads.len() <= self.settled() + self.answers()
    }

    /// The state in which a resolution begins: the first generation holds
    /// the first reference to each id.
    pub open spec fn initial(references: Seq<ModView>, category: Seq<char>, limit: nat) -> Self {
        let first = offer_all(Seq::empty(), Seq::empty(), references);
        ResolverView {
            category,
            limit,
            seen: mod_ids(first),
            current: first,
            issued: 0,
            answered: Seq::new(first.len(), |i: int| false),
            frontier: Seq::empty(),
            downloads: Seq::empty(),
            generations: if first.len() > 0 {
                1
            } else {
                0
            },
        }
    }

    /// Whether a query may be handed out.
    pub open spec fn can_issue(self) -> bool {
        self.issued < self.current.len() && self.in_flight() < self.limit
    }

    /// The state after the next reference was handed out.
    pub open spec fn issue(self) -> Self {
        ResolverView { issued: self.issued + 1, ..self }
    }

    /// Whether the answer for a reference of this generation is awaited.
    pub open spec fn outstanding(self, index: int) -> bool {
        0 <= index < self.issued && !self.answered[index]
    }

    /// The state after the answer for an awaited reference was recorded.
    pub open spec fn answer(self, index: int, lookup: LookupView) -> Self {
        let marked = ResolverView { answered: self.answered.update(index, true), ..self };
        match lookup {
            LookupView::Found(candidate) => if candidate.download_url is Some {
                ResolverView {
                    downloads: self.downloads.push(downloadable_of(candidate, self.category)),
                    frontier: offer_all(
                        self.seen,
                        self.frontier,
                        dependencies_of(self.current[index], candidate.dependencies),
                    ),
                    ..marked
                }
            } else {
                marked
            },
            _ => marked,
        }
    }

    /// Whether every reference of this generation was handed out and
    /// answered.
    pub open spec fn complete(self) -> bool {
        self.issued == self.current.len() && self.in_flight() == 0
    }

    /// The state in which the frontier has become the generation under way.
    pub open spec fn next_generation(self) -> Self {
        ResolverView {
            seen: self.seen + mod_ids(self.frontier),
            current: self.frontier,
            issued: 0,
            answered: Seq::new(self.frontier.len(), |i: int| false),
            frontier: Seq::empty(),
            generations: self.generations + if self.frontier.len() > 0 {
                1nat
            } else {
                0nat
            },
            ..self
        }
    }
}

/// Offering references keeps a frontier free of known ids and of
/// repetitions, and never shortens it.
pub proof fn lemma_offer_all_fresh(
    known: Seq<ModIdView>,
    frontier: Seq<ModView>,
    offered: Seq<ModView>,
)
    requires
        mod_ids(frontier).no_duplicates(),
        forall|i: int| 0 <= i < frontier.len() ==> !known.contains(#[trigger] frontier[i].id),
    ensures
        mod_ids(offer_all(known, frontier, offered)).no_duplicates(),
        forall|i: int|
            0 <= i < offer_all(known, frontier, offered).len() ==> !known.contains(
                #[trigger] offer_all(known, frontier, offered)[i].id,
            ),
        frontier.len() <= offer_all(known, frontier, offered).len(),
    decreases offered.len(),
{
    if offered.len() > 0 {
        lemma_offer_all_fresh(known, frontier, offered.drop_last());
        let before = offer_all(known, frontier, offered.drop_last());
        let m = offered.last();
        let after = offer(known, before, m);
        if !(known.contains(m.id) || mod_ids(before).contains(m.id)) {
            assert forall|i: int, j: int|
                0 <= i < j < mod_ids(after).len() implies mod_ids(after)[i] != mod_ids(after)[j] by {
                if j < before.len() {
                    assert(mod_ids(before)[i] != mod_ids(before)[j]);
                } else {
                    assert(mod_ids(before)[i] == before[i].id);
                }
            }
        }
    }
}

/// The first state of a resolution is one that [`ResolverView::inv`] holds of.
pub proof fn lemma_initial_inv(references: Seq<ModView>, category: Seq<char>, limit: nat)
    requires
        limit > 0,
    ensures
        ResolverView::initial(references, category, limit).inv(),
{
    let v = ResolverView::initial(references, category, limit);
    lemma_offer_all_fresh(Seq::empty(), Seq::empty(), references);
    lemma_count_fresh(v.current.len());
    assert(v.seen.skip(0) =~= v.seen);
}

/// Handing out a query keeps the invariant.
pub proof fn lemma_issue_inv(v: ResolverView)
    requires
        v.inv(),
        v.can_issue(),
    ensures
        v.issue().inv(),
        v.issue().queried() == v.queried().push(v.current[v.issued as int].id),
        !v.queried().contains(v.current[v.issued as int].id),
{
    let id = v.current[v.issued as int].id;
    let at = v.settled() + v.issued;
    assert(mod_ids(v.current)[v.issued as int] == id);
    assert(v.seen.skip(v.settled())[v.issued as int] == v.seen[at]);
    assert(v.issue().queried() =~= v.queried().push(id));
    if v.queried().contains(id) {
        let k = choose|k: int| 0 <= k < v.queried().len() && v.queried()[k] == id;
        assert(v.seen[k] == v.seen[at]);
    }
}

/// Recording an awaited answer keeps the invariant.
pub proof fn lemma_answer_inv(v: ResolverView, index: int, lookup: LookupView)
    requires
        v.inv(),
        v.outstanding(index),
    ensures
        v.answer(index, lookup).inv(),
        v.answer(index, lookup).answers() == v.answers() + 1,
        v.answers() < v.issued,
{
    lemma_count_set(v.answered, index);
    lemma_count_room(v.answered, v.issued as int, index);
    if accepted(lookup) {
        let candidate = lookup->Found_0;
        lemma_offer_all_fresh(
            v.seen,
            v.frontier,
            dependencies_of(v.current[index], candidate.dependencies),
        );
    }
}

/// Moving on to the next generation keeps the invariant.
pub proof fn lemma_next_generation_inv(v: ResolverView)
    requires
        v.inv(),
        v.complete(),
    ensures
        v.next_generation().inv(),
{
    let w = v.next_generation();
    let ids = mod_ids(v.frontier);
    assert forall|i: int, j: int| 0 <= i < j < w.seen.len() implies w.seen[i] != w.seen[j] by {
        if j < v.seen.len() {
        } else if i < v.seen.len() {
            let k = j - v.seen.len();
            assert(w.seen[j] == v.frontier[k].id);
            if w.seen[i] == w.seen[j] {
                assert(v.seen.contains(v.frontier[k].id));
            }
        } else {
            assert(ids[i - v.seen.len()] != ids[j - v.seen.len()]);
        }
    }
    assert(w.seen.skip(w.settled()) =~= ids);
    lemma_count_fresh(v.frontier.len());
    assert(w.settled() == v.seen.len());
    assert(v.answers() == v.issued);
}

/// A generation holds only ids that were never asked about before, so
/// that there are never more generations than ids asked about: however
/// the projects require each other, the generations come to an end when
/// the ids do.
pub proof fn lemma_generation_grows(v: ResolverView)
    requires
        v.inv(),
        v.complete(),
    ensures
        forall|i: int|
            0 <= i < v.next_generation().current.len() ==> !v.seen.contains(
                #[trigger] v.next_generation().current[i].id,
            ),
        v.next_generation().seen.len() == v.seen.len() + v.next_generation().current.len(),
        v.next_generation().generations == v.generations + 1 <==> v.next_generation().current.len()
            > 0,
        v.next_generation().generations <= v.next_generation().seen.len(),
{
    lemma_next_generation_inv(v);
}

/// Whatever was handed out for querying was handed out once.
pub proof fn lemma_queries_distinct(v: ResolverView)
    requires
        v.inv(),
    ensures
        v.queried().no_duplicates(),
{
    assert forall|i: int, j: int|
        0 <= i < v.queried().len() && 0 <= j < v.queried().len() && i != j implies v.queried()[i]
        != v.queried()[j] by {
        assert(v.queried()[i] == v.seen[i]);
        assert(v.queried()[j] == v.seen[j]);
    }
}

/// Whether a list of ids holds an id.
pub fn knows(ids: &Vec<ModId>, id: &ModId) -> (r: bool)
    ensures
        r == ids.deep_view().contains(id@),
{
    let mut i: usize = 0;
    while i < ids.len()
        invariant
            i <= ids.len(),
            forall|j: int| 0 <= j < i ==> ids.deep_view()[j] != id@,
        decreases ids.len() - i,
    {
        if ids[i] == *id {
            assert(ids.deep_view()[i as int] == id@);
            return true;
        }
        i = i + 1;
    }
    false
}

/// Whether a list of references holds one with the id.
pub fn lists(mods: &Vec<Mod>, id: &ModId) -> (r: bool)
    ensures
        r == mod_ids(mods.deep_view()).contains(id@),
{
    let mut i: usize = 0;
    while i < mods.len()
        invariant
            i <= mods.len(),
            forall|j: int| 0 <= j < i ==> mod_ids(mods.deep_view())[j] != id@,
        decreases mods.len() - i,
    {
        if mods[i].id == *id {
            assert(mod_ids(mods.deep_view())[i as int] == id@);
            return true;
        }
        i = i + 1;
    }
    false
}

/// Offers references to a frontier, one after the other: each is appended
/// unless its id is known or stands in the frontier already.
pub fn offer_into(known: &Vec<ModId>, frontier: &mut Vec<Mod>, offered: &Vec<Mod>)
    ensures
        final(frontier).deep_view() == offer_all(
            known.deep_view(),
            old(frontier).deep_view(),
            offered.deep_view(),
        ),
{
    let mut i: usize = 0;
    assert(offered.deep_view().take(0) =~= Seq::empty());
    while i < offered.len()
        invariant
            i <= offered.len(),
            frontier.deep_view() == offer_all(
                known.deep_view(),
                old(frontier).deep_view(),
                offered.deep_view().take(i as int),
            ),
        decreases offered.len() - i,
    {
        let ghost before = frontier.deep_view();
        assert(offered.deep_view().take(i + 1).drop_last() =~= offered.deep_view().take(i as int));
        assert(offered.deep_view().take(i + 1).last() == offered[i as int]@);
        if !(knows(known, &offered[i].id) || lists(frontier, &offered[i].id)) {
            frontier.push(offered[i].clone());
            assert(frontier.deep_view() =~= before.push(offered[i as int]@));
        }
        i = i + 1;
    }
    assert(offered.deep_view().take(offered.len() as int) =~= offered.deep_view());
}

/// The references that stand for the required dependencies of a file
/// selected for `parent`.
pub fn dependency_references(parent: &Mod, ids: &Vec<ModId>) -> (r: Vec<Mod>)
    ensures
        r.deep_view() == dependencies_of(parent@, ids.deep_view()),
{
    let mut r: Vec<Mod> = Vec::new();
    let mut i: usize = 0;
    while i < ids.len()
        invariant
            i <= ids.len(),
            r.len() == i,
            forall|j: int| 0 <= j < i ==> r[j]@ == dependency_of(parent@, #[trigger] ids[j]@),
        decreases ids.len() - i,
    {
        r.push(
            Mod {
                name: joined("Dependency of ", parent.name.as_str()),
                id: ids[i].clone(),
                side: parent.side,
                ignore_loader: parent.ignore_loader,
                ignore_version: parent.ignore_version,
            },
        );
        i = i + 1;
    }
    assert(r.deep_view() =~= dependencies_of(parent@, ids.deep_view()));
    r
}

/// What a reference contributes, given what the registry selected for it
/// (`None`: nothing compatible).
pub fn resolve_reference(reference: &Mod, selected: Option<Candidate>, category: &str) -> (r:
    Result<Resolution, BreezeError>)
    ensures
        match selected {
            None => r matches Err(e) && e@ == BreezeErrorView::NoCompatFile(
                reference@.name,
                reference@.id,
            ),
            Some(candidate) => if candidate@.download_url is Some {
                r matches Ok(resolution) && resolution.downloadable@ == downloadable_of(
                    candidate@,
                    category@,
                ) && resolution.dependencies.deep_view() == dependencies_of(
                    reference@,
                    candidate@.dependencies,
                )
            } else {
                r matches Err(e) && e@ == BreezeErrorView::DistributionDenied(
                    reference@.name,
                    reference@.id,
                )
            },
        },
{
    match selected {
        None => Err(BreezeError::NoCompatFile(reference.name.clone(), reference.id.clone())),
        Some(candidate) => {
            let dependencies = dependency_references(reference, &candidate.dependencies);
            match candidate.download_url {
                None => Err(
                    BreezeError::DistributionDenied(reference.name.clone(), reference.id.clone()),
                ),
                Some(download_url) => {
                    let directory = if ends_with(candidate.filename.as_str(), ".jar") {
                        String::from_str("mods")
                    } else {
                        String::from_str(category)
                    };
                    Ok(
                        Resolution {
                            downloadable: Downloadable {
                                download_url,
                                directory,
                                filename: candidate.filename,
                                length: candidate.length,
                            },
                            dependencies,
                        },
                    )
                },
            }
        },
    }
}

/// A resolution under way: which references were queried, which are to be
/// queried now, what the next generation holds so far and which files were
/// found.
pub struct Resolver {
    category: String,
    limit: usize,
    seen: Vec<ModId>,
    current: Vec<Mod>,
    issued: usize,
    answered: Vec<bool>,
    answers: usize,
    frontier: Vec<Mod>,
    downloads: Vec<Downloadable>,
    generations: usize,
}

impl View for Resolver {
    type V = ResolverView;

    closed spec fn view(&self) -> ResolverView {
        ResolverView {
            category: self.category@,
            limit: self.limit as nat,
            seen: self.seen.deep_view(),
            current: self.current.deep_view(),
            issued: self.issued as nat,
            answered: self.answered@,
            frontier: self.frontier.deep_view(),
            downloads: self.downloads.deep_view(),
            generations: self.generations as nat,
        }
    }
}

fn ids_of(mods: &Vec<Mod>) -> (r: Vec<ModId>)
    ensures
        r.deep_view() == mod_ids(mods.deep_view()),
{
    let mut r: Vec<ModId> = Vec::new();
    let mut i: usize = 0;
    while i < mods.len()
        invariant
            i <= mods.len(),
            r.len() == i,
            forall|j: int| 0 <= j < i ==> r[j]@ == #[trigger] mods[j].id@,
        decreases mods.len() - i,
    {
        r.push(mods[i].id.clone());
        i = i + 1;
    }
    assert(r.deep_view() =~= mod_ids(mods.deep_view()));
    r
}

impl Resolver {
    /// Whether the state is one that the operations below reach.
    pub closed spec fn wf(&self) -> bool {
        &&& self@.inv()
        &&& self.answers == self@.answers()
    }

    /// A state that the operations reach is one that the invariant holds of.
    pub proof fn lemma_wf(&self)
        requires
            self.wf(),
        ensures
            self@.inv(),
    {
    }

    /// Begins a resolution. The first generation holds the first
    /// reference to each id among `references`; at most `limit` queries
    /// will be under way at once.
    pub fn new(references: &Vec<Mod>, category: &str, limit: usize) -> (r: Resolver)
        requires
            limit > 0,
        ensures
            r.wf(),
            r@ == ResolverView::initial(references.deep_view(), category@, limit as nat),
            r@.in_flight() == 0,
    {
        let none: Vec<ModId> = Vec::new();
        let mut current: Vec<Mod> = Vec::new();
        assert(none.deep_view() =~= Seq::empty());
        assert(current.deep_view() =~= Seq::empty());
        offer_into(&none, &mut current, references);
        let seen = ids_of(&current);
        let answered = cleared(current.len());
        let generations: usize = if current.len() > 0 {
            1
        } else {
            0
        };
        let r = Resolver {
            category: String::from_str(category),
            limit,
            seen,
            current,
            issued: 0,
            answered,
            answers: 0,
            frontier: Vec::new(),
            downloads: Vec::new(),
            generations,
        };
        proof {
            assert(r.frontier.deep_view() =~= Seq::empty());
            assert(r.downloads.deep_view() =~= Seq::empty());
            lemma_initial_inv(references.deep_view(), category@, limit as nat);
            lemma_count_fresh(r.current.len() as nat);
        }
        r
    }

    /// Hands out the next reference to query: its place in the generation
    /// under way and the reference itself. Nothing is handed out while
    /// `limit` queries are under way or once the whole generation was
    /// handed out.
    pub fn next(&mut self) -> (r: Option<(usize, Mod)>)
        requires
            old(self).wf(),
        ensures
            final(self).wf(),
            old(self)@.can_issue() ==> (r matches Some((index, reference)) && index
                == old(self)@.issued && reference@ == old(self)@.current[index as int]
                && final(self)@ == old(self)@.issue()),
            !old(self)@.can_issue() ==> r is None && final(self)@ == old(self)@,
            r is Some ==> final(self)@.in_flight() == old(self)@.in_flight() + 1,
    {
        proof {
            lemma_count_prefix(self.answered@, self.issued as int);
        }
        if self.issued < self.current.len() && self.issued - self.answers < self.limit {
            let index = self.issued;
            let reference = self.current[index].clone();
            proof {
                lemma_issue_inv(self@);
            }
            self.issued = self.issued + 1;
            Some((index, reference))
        } else {
            None
        }
    }

    /// Records the answer for the reference at `index` of the generation
    /// under way. An answer that is not awaited changes nothing.
    pub fn record(&mut self, index: usize, lookup: Lookup) -> (r: Recorded)
        requires
            old(self).wf(),
        ensures
            final(self).wf(),
            old(self)@.outstanding(index as int) ==> final(self)@ == old(self)@.answer(
                index as int,
                lookup@,
            ) && r@ == verdict(old(self)@.current[index as int], lookup@),
            !old(self)@.outstanding(index as int) ==> r is Ignored && final(self)@ == old(self)@,
            !(r is Ignored) ==> final(self)@.in_flight() == old(self)@.in_flight() - 1,
    {
        if index >= self.issued || self.answered[index] {
            return Recorded::Ignored;
        }
        proof {
            lemma_answer_inv(self@, index as int, lookup@);
        }
        let reference = self.current[index].clone();
        self.answered.set(index, true);
        self.answers = self.answers + 1;
        let selected = match lookup {
            Lookup::Failed => {
                return Recorded::QueryFailed;
            },
            Lookup::NoMatch => None,
            Lookup::Found(candidate) => Some(candidate),
        };
        match resolve_reference(&reference, selected, self.category.as_str()) {
            Err(e) => Recorded::Rejected(e),
            Ok(resolution) => {
                let ghost before = self.downloads.deep_view();
                self.downloads.push(resolution.downloadable);
                assert(self.downloads.deep_view() =~= before.push(resolution.downloadable@));
                offer_into(&self.seen, &mut self.frontier, &resolution.dependencies);
                Recorded::Resolved
            },
        }
    }

    /// Moves on once the generation under way is complete: what the
    /// frontier holds becomes the next generation. While answers are
    /// missing nothing changes.
    pub fn advance(&mut self) -> (r: Step)
        requires
            old(self).wf(),
        ensures
            final(self).wf(),
            !old(self)@.complete() ==> r == Step::Waiting && final(self)@ == old(self)@,
            old(self)@.complete() ==> final(self)@ == old(self)@.next_generation() && r == (
            if old(self)@.frontier.len() > 0 {
                Step::Next
            } else {
                Step::Finished
            }),
            final(self)@.in_flight() == old(self)@.in_flight(),
    {
        if self.issued < self.current.len() || self.answers < self.issued {
            return Step::Waiting;
        }
        proof {
            lemma_next_generation_inv(self@);
            lemma_count_fresh(self.frontier.len() as nat);
        }
        let mut next: Vec<Mod> = Vec::new();
        std::mem::swap(&mut next, &mut self.frontier);
        let mut ids = ids_of(&next);
        let ghost seen = self.seen.deep_view();
        let ghost added = ids.deep_view();
        self.seen.append(&mut ids);
        assert(self.seen.deep_view() =~= seen + added);
        self.answered = cleared(next.len());
        self.answers = 0;
        self.issued = 0;
        let begun = next.len() > 0;
        self.current = next;
        assert(self.frontier.deep_view() =~= Seq::empty());
        if begun {
            assert(self.generations < self.seen.len()) by {
                assert(self.seen.deep_view().len() == seen.len() + added.len());
            }
            self.generations = self.generations + 1;
            Step::Next
        } else {
            Step::Finished
        }
    }

    /// The reference at `index` of the generation under way.
    pub fn reference(&self, index: usize) -> (r: Option<Mod>)
        ensures
            index < self@.current.len() ==> (r matches Some(m) && m@
                == self@.current[index as int]),
            index >= self@.current.len() ==> r is None,
    {
        if index < self.current.len() {
            Some(self.current[index].clone())
        } else {
            None
        }
    }

    /// How many queries are under way.
    pub fn in_flight(&self) -> (r: usize)
        requires
            self.wf(),
        ensures
            r == self@.in_flight(),
    {
        self.issued - self.answers
    }

    /// Whether every reference of the generation under way was handed out
    /// and answered.
    pub fn is_complete(&self) -> (r: bool)
        requires
            self.wf(),
        ensures
            r == self@.complete(),
    {
        self.issued == self.current.len() && self.answers == self.issued
    }

    /// Whether nothing is left to query.
    pub fn is_finished(&self) -> (r: bool)
        ensures
            r == (self@.current.len() == 0),
    {
        self.current.len() == 0
    }

    /// How many generations with at least one reference were begun.
    pub fn generations(&self) -> (r: usize)
        ensures
            r == self@.generations,
    {
        self.generations
    }

    /// The ids handed out for querying so far, in order.
    pub fn queried(&self) -> (r: Vec<ModId>)
        requires
            self.wf(),
        ensures
            r.deep_view() == self@.queried(),
    {
        let n = self.seen.len() - self.current.len() + self.issued;
        let mut r: Vec<ModId> = Vec::new();
        let mut i: usize = 0;
        while i < n
            invariant
                i <= n <= self.seen.len(),
                r.len() == i,
                forall|j: int| 0 <= j < i ==> r[j]@ == #[trigger] self.seen[j]@,
            decreases n - i,
        {
            r.push(self.seen[i].clone());
            i = i + 1;
        }
        assert(r.deep_view() =~= self@.queried());
        r
    }

    /// The files to fetch found so far.
    pub fn downloads(&self) -> (r: &Vec<Downloadable>)
        ensures
            r.deep_view() == self@.downloads,
    {
        &self.downloads
    }

    /// Ends the resolution and gives the files to fetch.
    pub fn finish(self) -> (r: Vec<Downloadable>)
        ensures
            r.deep_view() == self@.downloads,
    {
        self.downloads
    }
}

} // verus!
