//! Resolving a whole pack against what a registry is known to answer.
//!
//! Here the registry is a list of answers, one for each project that it
//! knows: resolution then needs nothing from outside, and what it comes to
//! can be said in full.

use vstd::prelude::*;
use vstd::seq_lib::seq_to_set_is_finite;
use vstd::set_lib::lemma_len_subset;
use crate::definition::PackView;
use crate::resolve::{
    accepted, dependencies_of, downloadable_of, mod_ids, offer_all, Lookup, LookupView, Resolver,
    ResolverView, Step, PERMITS,
};
use crate::structs::{Downloadable, DownloadableView, Mod, ModId, ModIdView, ModSide, ModView, Pack};

verus! {

/// What a registry answers when it is asked about a project.
#[derive(Debug)]
pub struct Listing {
    pub id: ModId,
    pub lookup: Lookup,
}

/// What a [`Listing`] stands for.
pub struct ListingView {
    pub id: ModIdView,
    pub lookup: LookupView,
}

impl View for Listing {
    type V = ListingView;

    open spec fn view(&self) -> ListingView {
        ListingView { id: self.id@, lookup: self.lookup@ }
    }
}

impl DeepView for Listing {
    type V = ListingView;

    open spec fn deep_view(&self) -> ListingView {
        self@
    }
}

/// What came of resolving one category of a pack.
#[derive(Debug)]
pub struct Resolved {
    /// The files to fetch.
    pub downloads: Vec<Downloadable>,
    /// The ids that the registry was asked about, in order.
    pub queried: Vec<ModId>,
    /// How many generations of queries it took.
    pub generations: usize,
}

/// Whether an entry of a side belongs to an installation of the wanted
/// side: everything belongs where every side is wanted, and entries for
/// every side belong everywhere.
pub open spec fn side_passes(entry: ModSide, wanted: ModSide) -> bool {
    wanted == ModSide::All || entry == wanted || entry == ModSide::All
}

/// The references that belong to an installation of the wanted side, in
/// order.
pub open spec fn on_side(mods: Seq<ModView>, wanted: ModSide) -> Seq<ModView> {
    mods.filter(|m: ModView| side_passes(m.side, wanted))
}

/// What the registry answers about a project: the first listing of its
/// id, and a failure where it has none.
pub open spec fn answer_of(registry: Seq<ListingView>, id: ModIdView) -> LookupView
    decreases registry.len(),
{
    if registry.len() == 0 {
        LookupView::Failed
    } else if registry.first().id == id {
        registry.first().lookup
    } else {
        answer_of(registry.drop_first(), id)
    }
}

/// The projects that have to be resolved along with a project: the
/// required dependencies of the file that the registry gives for it, and
/// none where it gives no file.
pub open spec fn requirements(registry: Seq<ListingView>, id: ModIdView) -> Seq<ModIdView> {
    match answer_of(registry, id) {
        LookupView::Found(candidate) => if candidate.download_url is Some {
            candidate.dependencies
        } else {
            Seq::empty()
        },
        _ => Seq::empty(),
    }
}

/// Every id that an answer of the registry names as a dependency.
pub open spec fn named_ids(registry: Seq<ListingView>) -> Seq<ModIdView>
    decreases registry.len(),
{
    if registry.len() == 0 {
        Seq::empty()
    } else {
        (match registry.first().lookup {
            LookupView::Found(candidate) => candidate.dependencies,
            _ => Seq::empty(),
        }) + named_ids(registry.drop_first())
    }
}

/// Whether the ids asked about include whatever they require.
pub open spec fn closed_under(queried: Seq<ModIdView>, registry: Seq<ListingView>) -> bool {
    forall|k: int, d: int|
        0 <= k < queried.len() && 0 <= d < requirements(registry, queried[k]).len()
            ==> queried.contains(#[trigger] requirements(registry, queried[k])[d])
}

/// Whether each id asked about stands among the first references or is
/// required by an id asked about before it.
pub open spec fn grounded(
    queried: Seq<ModIdView>,
    first: Seq<ModIdView>,
    registry: Seq<ListingView>,
) -> bool {
    forall|k: int|
        0 <= k < queried.len() ==> first.contains(#[trigger] queried[k]) || exists|j: int|
            0 <= j < k && requirements(registry, queried[j]).contains(queried[k])
}

/// The files that the registry gives for the ids asked about, in order.
pub open spec fn found_files(
    queried: Seq<ModIdView>,
    registry: Seq<ListingView>,
    category: Seq<char>,
) -> Seq<DownloadableView>
    decreases queried.len(),
{
    if queried.len() == 0 {
        Seq::empty()
    } else {
        let before = found_files(queried.drop_last(), registry, category);
        match answer_of(registry, queried.last()) {
            LookupView::Found(candidate) => if candidate.download_url is Some {
                before.push(downloadable_of(candidate, category))
            } else {
                before
            },
            _ => before,
        }
    }
}

/// What resolving a list of references against a registry comes to:
/// every id is asked about once; the ids asked about are those of the
/// references and whatever these require, directly or through others, and
/// no other; and the files are those that the registry gives for them.
pub open spec fn resolves(
    downloads: Seq<DownloadableView>,
    queried: Seq<ModIdView>,
    references: Seq<ModView>,
    category: Seq<char>,
    registry: Seq<ListingView>,
) -> bool {
    &&& queried.no_duplicates()
    &&& forall|i: int| 0 <= i < references.len() ==> queried.contains(#[trigger] references[i].id)
    &&& closed_under(queried, registry)
    &&& grounded(queried, mod_ids(references), registry)
    &&& downloads == found_files(queried, registry, category)
}

/// What resolving a list of references against a registry comes to is
/// settled but for the order: two resolutions ask about the same ids.
pub proof fn lemma_resolution_settled(
    downloads: Seq<DownloadableView>,
    queried: Seq<ModIdView>,
    other_downloads: Seq<DownloadableView>,
    other_queried: Seq<ModIdView>,
    references: Seq<ModView>,
    category: Seq<char>,
    registry: Seq<ListingView>,
)
    requires
        resolves(downloads, queried, references, category, registry),
        resolves(other_downloads, other_queried, references, category, registry),
    ensures
        queried.to_set() == other_queried.to_set(),
        queried.len() == other_queried.len(),
{
    lemma_grounded_within(queried, queried.len() as int, other_queried, references, registry);
    lemma_grounded_within(other_queried, other_queried.len() as int, queried, references, registry);
    assert(queried.to_set() =~= other_queried.to_set()) by {
        assert forall|id: ModIdView| queried.to_set().contains(id) implies other_queried.to_set().contains(
            id,
        ) by {
            let k = choose|k: int| 0 <= k < queried.len() && queried[k] == id;
            assert(other_queried.contains(queried[k]));
        }
        assert forall|id: ModIdView| other_queried.to_set().contains(id) implies queried.to_set().contains(
            id,
        ) by {
            let k = choose|k: int| 0 <= k < other_queried.len() && other_queried[k] == id;
            assert(queried.contains(other_queried[k]));
        }
    }
    queried.unique_seq_to_set();
    other_queried.unique_seq_to_set();
}

/// The first `upto` ids of a grounded list stand in every list that holds
/// the ids of the references and whatever its ids require.
proof fn lemma_grounded_within(
    queried: Seq<ModIdView>,
    upto: int,
    closed: Seq<ModIdView>,
    references: Seq<ModView>,
    registry: Seq<ListingView>,
)
    requires
        0 <= upto <= queried.len(),
        grounded(queried, mod_ids(references), registry),
        closed_under(closed, registry),
        forall|i: int| 0 <= i < references.len() ==> closed.contains(#[trigger] references[i].id),
    ensures
        forall|k: int| 0 <= k < upto ==> closed.contains(#[trigger] queried[k]),
    decreases upto,
{
    if upto > 0 {
        lemma_grounded_within(queried, upto - 1, closed, references, registry);
        let id = queried[upto - 1];
        if mod_ids(references).contains(id) {
            let i = choose|i: int| 0 <= i < mod_ids(references).len() && mod_ids(references)[i]
                == id;
            assert(references[i].id == id);
        } else {
            let j = choose|j: int|
                0 <= j < upto - 1 && requirements(registry, queried[j]).contains(id);
            assert(closed.contains(queried[j]));
            let at = choose|at: int| 0 <= at < closed.len() && closed[at] == queried[j];
            let d = choose|d: int|
                0 <= d < requirements(registry, queried[j]).len() && requirements(
                    registry,
                    queried[j],
                )[d] == id;
            assert(closed.contains(requirements(registry, closed[at])[d]));
        }
        assert forall|k: int| 0 <= k < upto implies closed.contains(#[trigger] queried[k]) by {
            if k == upto - 1 {
            }
        }
    }
}

/// A server-only entry stays out of a client installation and is part of
/// an installation of every side; an entry for every side is part of any
/// installation.
pub proof fn lemma_side_filter(mods: Seq<ModView>, i: int, wanted: ModSide)
    requires
        0 <= i < mods.len(),
    ensures
        !side_passes(ModSide::Server, ModSide::Client),
        side_passes(ModSide::Server, ModSide::All),
        side_passes(ModSide::All, wanted),
        side_passes(mods[i].side, wanted) <==> on_side(mods, wanted).contains(mods[i]),
        on_side(mods, ModSide::All) == mods,
{
    let passes = |m: ModView| side_passes(m.side, wanted);
    if side_passes(mods[i].side, wanted) {
        mods.lemma_filter_contains(passes, i);
    }
    if on_side(mods, wanted).contains(mods[i]) {
        let k = choose|k: int| 0 <= k < on_side(mods, wanted).len() && on_side(mods, wanted)[k]
            == mods[i];
        mods.lemma_filter_pred(passes, k);
    }
    lemma_on_every_side(mods);
}

/// Where every side is wanted, every reference belongs.
proof fn lemma_on_every_side(mods: Seq<ModView>)
    ensures
        on_side(mods, ModSide::All) == mods,
    decreases mods.len(),
{
    reveal(Seq::filter);
    if mods.len() > 0 {
        lemma_on_every_side(mods.drop_last());
        assert(mods.drop_last().push(mods.last()) =~= mods);
    }
}

/// What an answer requires is among the ids that the registry names.
proof fn lemma_requirements_named(registry: Seq<ListingView>, id: ModIdView, d: int)
    requires
        0 <= d < requirements(registry, id).len(),
    ensures
        named_ids(registry).contains(requirements(registry, id)[d]),
    decreases registry.len(),
{
    if registry.len() > 0 {
        let head = match registry.first().lookup {
            LookupView::Found(candidate) => candidate.dependencies,
            _ => Seq::empty(),
        };
        let tail = named_ids(registry.drop_first());
        if registry.first().id == id {
            assert((head + tail)[d] == requirements(registry, id)[d]);
        } else {
            lemma_requirements_named(registry.drop_first(), id, d);
            let k = choose|k: int| 0 <= k < tail.len() && tail[k] == requirements(registry, id)[d];
            assert((head + tail)[head.len() + k] == tail[k]);
        }
    }
}

/// What offering references to a frontier leaves: the frontier as it was,
/// followed by some of the references offered; and each reference offered
/// is then known or stands in the frontier.
proof fn lemma_offer_all_members(
    known: Seq<ModIdView>,
    frontier: Seq<ModView>,
    offered: Seq<ModView>,
)
    ensures
        frontier.len() <= offer_all(known, frontier, offered).len(),
        forall|i: int|
            0 <= i < frontier.len() ==> #[trigger] offer_all(known, frontier, offered)[i]
                == frontier[i],
        forall|i: int|
            frontier.len() <= i < offer_all(known, frontier, offered).len() ==> offered.contains(
                #[trigger] offer_all(known, frontier, offered)[i],
            ),
        forall|i: int|
            0 <= i < offered.len() ==> known.contains(#[trigger] offered[i].id) || mod_ids(
                offer_all(known, frontier, offered),
            ).contains(offered[i].id),
    decreases offered.len(),
{
    if offered.len() > 0 {
        let front = offered.drop_last();
        let last = offered.last();
        lemma_offer_all_members(known, frontier, front);
        let before = offer_all(known, frontier, front);
        let after = offer_all(known, frontier, offered);
        assert forall|i: int| frontier.len() <= i < after.len() implies offered.contains(
            #[trigger] after[i],
        ) by {
            if i < before.len() {
                assert(front.contains(before[i]));
                let k = choose|k: int| 0 <= k < front.len() && front[k] == before[i];
                assert(offered[k] == after[i]);
            } else {
                assert(offered[offered.len() - 1] == after[i]);
            }
        }
        assert forall|i: int| 0 <= i < offered.len() implies known.contains(
            #[trigger] offered[i].id,
        ) || mod_ids(after).contains(offered[i].id) by {
            if i < front.len() {
                assert(front[i] == offered[i]);
                if !known.contains(offered[i].id) {
                    assert(mod_ids(before).contains(front[i].id));
                    let k = choose|k: int|
                        0 <= k < mod_ids(before).len() && mod_ids(before)[k] == front[i].id;
                    assert(mod_ids(after)[k] == offered[i].id);
                }
            } else if !known.contains(last.id) {
                if mod_ids(before).contains(last.id) {
                } else {
                    assert(mod_ids(after)[after.len() - 1] == last.id);
                }
            }
        }
    }
}

/// The references of a list that belong to an installation of the wanted
/// side, in order.
pub fn filter_side(mods: &Vec<Mod>, wanted: ModSide) -> (r: Vec<Mod>)
    ensures
        r.deep_view() == on_side(mods.deep_view(), wanted),
{
    let ghost all = mods.deep_view();
    let ghost passes = |m: ModView| side_passes(m.side, wanted);
    let mut r: Vec<Mod> = Vec::new();
    let mut i: usize = 0;
    proof {
        reveal(Seq::filter);
        assert(all.take(0) =~= Seq::empty());
        assert(r.deep_view() =~= Seq::empty());
    }
    while i < mods.len()
        invariant
            i <= mods.len(),
            all == mods.deep_view(),
            passes == |m: ModView| side_passes(m.side, wanted),
            r.deep_view() == all.take(i as int).filter(passes),
        decreases mods.len() - i,
    {
        let ghost before = r.deep_view();
        proof {
            reveal(Seq::filter);
            assert(all.take(i + 1).drop_last() =~= all.take(i as int));
        }
        let side = mods[i].side;
        if wanted == ModSide::All || side == wanted || side == ModSide::All {
            r.push(mods[i].clone());
            assert(r.deep_view() =~= before.push(all[i as int]));
        }
        i = i + 1;
    }
    assert(all.take(all.len() as int) =~= all);
    r
}

/// What the registry answers about a project.
pub fn find_answer(registry: &Vec<Listing>, id: &ModId) -> (r: Lookup)
    ensures
        r@ == answer_of(registry.deep_view(), id@),
{
    let ghost all = registry.deep_view();
    let mut i: usize = 0;
    assert(all.skip(0) =~= all);
    while i < registry.len()
        invariant
            i <= registry.len(),
            all == registry.deep_view(),
            answer_of(all, id@) == answer_of(all.skip(i as int), id@),
        decreases registry.len() - i,
    {
        assert(all.skip(i as int).first() == registry[i as int]@);
        assert(all.skip(i as int).drop_first() =~= all.skip(i + 1));
        if registry[i].id == *id {
            return registry[i].lookup.clone();
        }
        i = i + 1;
    }
    Lookup::Failed
}

/// Whether an id was asked about or waits in the frontier.
spec fn in_sight(v: ResolverView, id: ModIdView) -> bool {
    v.seen.contains(id) || mod_ids(v.frontier).contains(id)
}

/// Whether one of the first `done` ids asked about requires an id.
spec fn required_before(
    seen: Seq<ModIdView>,
    done: int,
    registry: Seq<ListingView>,
    id: ModIdView,
) -> bool {
    exists|j: int| 0 <= j < done && #[trigger] requirements(registry, seen[j]).contains(id)
}

/// What holds of a resolution against a registry once the first `done`
/// ids were asked about and their answers recorded.
spec fn explored(
    v: ResolverView,
    done: int,
    first: Seq<ModIdView>,
    registry: Seq<ListingView>,
    universe: Set<ModIdView>,
) -> bool {
    &&& v.inv()
    &&& 0 <= done <= v.seen.len()
    &&& forall|i: int| 0 <= i < first.len() ==> v.seen.contains(#[trigger] first[i])
    &&& forall|k: int, d: int|
        0 <= k < done && 0 <= d < requirements(registry, v.seen[k]).len() ==> in_sight(
            v,
            #[trigger] requirements(registry, v.seen[k])[d],
        )
    &&& grounded(v.seen, first, registry)
    &&& forall|f: int|
        0 <= f < v.frontier.len() ==> required_before(
            v.seen,
            done,
            registry,
            #[trigger] v.frontier[f].id,
        )
    &&& v.downloads == found_files(v.seen.take(done), registry, v.category)
    &&& forall|i: int| 0 <= i < v.seen.len() ==> universe.contains(#[trigger] v.seen[i])
}

/// The ids that a resolution against a registry can come across.
spec fn universe_of(first: Seq<ModIdView>, registry: Seq<ListingView>) -> Set<ModIdView> {
    (first + named_ids(registry)).to_set()
}

/// No more ids are asked about than a resolution can come across.
proof fn lemma_seen_bounded(v: ResolverView, universe: Set<ModIdView>)
    requires
        v.inv(),
        universe.finite(),
        forall|i: int| 0 <= i < v.seen.len() ==> universe.contains(#[trigger] v.seen[i]),
    ensures
        v.seen.len() <= universe.len(),
{
    v.seen.unique_seq_to_set();
    assert(v.seen.to_set().subset_of(universe)) by {
        assert forall|id: ModIdView| v.seen.to_set().contains(id) implies universe.contains(
            id,
        ) by {
            let k = choose|k: int| 0 <= k < v.seen.len() && v.seen[k] == id;
            assert(universe.contains(v.seen[k]));
        }
    }
    lemma_len_subset(v.seen.to_set(), universe);
}

/// A resolution begins explored as far as nothing was asked yet.
proof fn lemma_explore_start(
    references: Seq<ModView>,
    category: Seq<char>,
    limit: nat,
    registry: Seq<ListingView>,
)
    requires
        limit > 0,
    ensures
        explored(
            ResolverView::initial(references, category, limit),
            0,
            mod_ids(references),
            registry,
            universe_of(mod_ids(references), registry),
        ),
{
    let v = ResolverView::initial(references, category, limit);
    let first = mod_ids(references);
    let universe = universe_of(first, registry);
    crate::resolve::lemma_initial_inv(references, category, limit);
    lemma_offer_all_members(Seq::empty(), Seq::empty(), references);
    assert forall|i: int| 0 <= i < first.len() implies v.seen.contains(#[trigger] first[i]) by {
        assert(references[i].id == first[i]);
        assert(!Seq::<ModIdView>::empty().contains(references[i].id));
    }
    assert forall|k: int| 0 <= k < v.seen.len() implies first.contains(#[trigger] v.seen[k]) by {
        assert(references.contains(v.current[k]));
        let i = choose|i: int| 0 <= i < references.len() && references[i] == v.current[k];
        assert(first[i] == v.seen[k]);
    }
    assert(v.seen.take(0) =~= Seq::empty());
    assert forall|i: int| 0 <= i < v.seen.len() implies universe.contains(#[trigger] v.seen[i]) by {
        let k = choose|k: int| 0 <= k < first.len() && first[k] == v.seen[i];
        assert((first + named_ids(registry))[k] == v.seen[i]);
    }
}

/// Asking about the next id and recording what the registry answers
/// leaves the resolution explored one id further.
proof fn lemma_explore_step(
    v: ResolverView,
    first: Seq<ModIdView>,
    registry: Seq<ListingView>,
    universe: Set<ModIdView>,
)
    requires
        explored(v, v.settled() + v.issued, first, registry, universe),
        v.can_issue(),
    ensures
        explored(
            v.issue().answer(
                v.issued as int,
                answer_of(registry, v.current[v.issued as int].id),
            ),
            v.settled() + v.issued + 1,
            first,
            registry,
            universe,
        ),
{
    let done = v.settled() + v.issued;
    let index = v.issued as int;
    let parent = v.current[index];
    let lookup = answer_of(registry, parent.id);
    let w = v.issue().answer(index, lookup);
    assert(mod_ids(v.current)[index] == parent.id);
    assert(v.seen.skip(v.settled())[index] == v.seen[done]);
    assert(v.seen[done] == parent.id);
    crate::resolve::lemma_issue_inv(v);
    crate::resolve::lemma_answer_inv(v.issue(), index, lookup);
    assert(w.inv());
    let offered = if accepted(lookup) {
        dependencies_of(parent, lookup->Found_0.dependencies)
    } else {
        Seq::empty()
    };
    lemma_offer_all_members(v.seen, v.frontier, offered);
    if accepted(lookup) {
        assert(w.frontier == offer_all(v.seen, v.frontier, offered));
    } else {
        assert(w.frontier == v.frontier);
        assert(offer_all(v.seen, v.frontier, offered) == v.frontier);
    }
    assert forall|id: ModIdView| in_sight(v, id) implies in_sight(w, id) by {
        if mod_ids(v.frontier).contains(id) {
            let k = choose|k: int| 0 <= k < mod_ids(v.frontier).len() && mod_ids(v.frontier)[k]
                == id;
            assert(w.frontier[k] == v.frontier[k]);
            assert(mod_ids(w.frontier)[k] == id);
        }
    }
    assert forall|k: int, d: int|
        0 <= k < done + 1 && 0 <= d < requirements(registry, w.seen[k]).len() implies in_sight(
        w,
        #[trigger] requirements(registry, w.seen[k])[d],
    ) by {
        if k < done {
            assert(in_sight(v, requirements(registry, v.seen[k])[d]));
        } else {
            assert(accepted(lookup));
            assert(offered[d].id == requirements(registry, w.seen[k])[d]);
        }
    }
    assert forall|f: int| 0 <= f < w.frontier.len() implies required_before(
        w.seen,
        done + 1,
        registry,
        #[trigger] w.frontier[f].id,
    ) by {
        if f < v.frontier.len() {
            assert(w.frontier[f] == v.frontier[f]);
            assert(required_before(v.seen, done, registry, v.frontier[f].id));
            let j = choose|j: int|
                0 <= j < done && #[trigger] requirements(registry, v.seen[j]).contains(
                    v.frontier[f].id,
                );
            assert(requirements(registry, w.seen[j]).contains(w.frontier[f].id));
        } else {
            assert(offered.contains(w.frontier[f]));
            let d = choose|d: int| 0 <= d < offered.len() && offered[d] == w.frontier[f];
            assert(requirements(registry, w.seen[done])[d] == w.frontier[f].id);
            assert(requirements(registry, w.seen[done]).contains(w.frontier[f].id));
        }
    }
    assert(w.seen.take(done + 1).drop_last() =~= v.seen.take(done));
    assert(w.seen.take(done + 1).last() == parent.id);
}

/// Once a generation is complete, moving on leaves the resolution
/// explored as far as the ids seen before, and within the universe.
proof fn lemma_explore_advance(
    v: ResolverView,
    first: Seq<ModIdView>,
    registry: Seq<ListingView>,
)
    requires
        explored(v, v.seen.len() as int, first, registry, universe_of(first, registry)),
        v.complete(),
    ensures
        explored(
            v.next_generation(),
            v.seen.len() as int,
            first,
            registry,
            universe_of(first, registry),
        ),
        v.next_generation().seen.len() == v.seen.len() + v.frontier.len(),
{
    let w = v.next_generation();
    let done = v.seen.len() as int;
    let universe = universe_of(first, registry);
    crate::resolve::lemma_next_generation_inv(v);
    assert forall|i: int| 0 <= i < first.len() implies w.seen.contains(#[trigger] first[i]) by {
        let k = choose|k: int| 0 <= k < v.seen.len() && v.seen[k] == first[i];
        assert(w.seen[k] == first[i]);
    }
    assert forall|id: ModIdView| in_sight(v, id) implies w.seen.contains(id) by {
        if v.seen.contains(id) {
            let k = choose|k: int| 0 <= k < v.seen.len() && v.seen[k] == id;
            assert(w.seen[k] == id);
        } else {
            let k = choose|k: int| 0 <= k < mod_ids(v.frontier).len() && mod_ids(v.frontier)[k]
                == id;
            assert(w.seen[v.seen.len() + k] == id);
        }
    }
    assert forall|k: int, d: int|
        0 <= k < done && 0 <= d < requirements(registry, w.seen[k]).len() implies in_sight(
        w,
        #[trigger] requirements(registry, w.seen[k])[d],
    ) by {
        assert(w.seen[k] == v.seen[k]);
        assert(in_sight(v, requirements(registry, v.seen[k])[d]));
    }
    assert forall|k: int| 0 <= k < w.seen.len() implies first.contains(#[trigger] w.seen[k])
        || exists|j: int| 0 <= j < k && requirements(registry, w.seen[j]).contains(w.seen[k]) by {
        if k < v.seen.len() {
            assert(w.seen[k] == v.seen[k]);
            if !first.contains(v.seen[k]) {
                let j = choose|j: int|
                    0 <= j < k && requirements(registry, v.seen[j]).contains(v.seen[k]);
                assert(requirements(registry, w.seen[j]).contains(w.seen[k]));
            }
        } else {
            let f = k - v.seen.len();
            assert(w.seen[k] == v.frontier[f].id);
            assert(required_before(v.seen, done, registry, v.frontier[f].id));
            let j = choose|j: int|
                0 <= j < done && #[trigger] requirements(registry, v.seen[j]).contains(
                    v.frontier[f].id,
                );
            assert(requirements(registry, w.seen[j]).contains(w.seen[k]));
        }
    }
    assert(w.seen.take(done) =~= v.seen.take(done));
    assert forall|i: int| 0 <= i < w.seen.len() implies universe.contains(#[trigger] w.seen[i]) by {
        if i < v.seen.len() {
            assert(w.seen[i] == v.seen[i]);
        } else {
            let f = i - v.seen.len();
            assert(w.seen[i] == v.frontier[f].id);
            assert(required_before(v.seen, done, registry, v.frontier[f].id));
            let j = choose|j: int|
                0 <= j < done && #[trigger] requirements(registry, v.seen[j]).contains(
                    v.frontier[f].id,
                );
            let d = choose|d: int|
                0 <= d < requirements(registry, v.seen[j]).len() && requirements(
                    registry,
                    v.seen[j],
                )[d] == v.frontier[f].id;
            lemma_requirements_named(registry, v.seen[j], d);
            let n = choose|n: int|
                0 <= n < named_ids(registry).len() && named_ids(registry)[n] == v.frontier[f].id;
            assert((first + named_ids(registry))[first.len() + n] == v.frontier[f].id);
        }
    }
}

/// Resolves a list of references against a registry: asks about each
/// reference, then about whatever the files found require, one generation
/// after the other, until a generation requires nothing new.
pub fn resolve(references: &Vec<Mod>, category: &str, registry: &Vec<Listing>) -> (r: Resolved)
    ensures
        resolves(
            r.downloads.deep_view(),
            r.queried.deep_view(),
            references.deep_view(),
            category@,
            registry.deep_view(),
        ),
        r.generations <= r.queried.len(),
{
    let ghost first = mod_ids(references.deep_view());
    let ghost listed = registry.deep_view();
    let ghost universe = universe_of(first, listed);
    let mut resolver = Resolver::new(references, category, PERMITS);
    let mut more = !resolver.is_finished();
    proof {
        lemma_explore_start(references.deep_view(), category@, PERMITS as nat, listed);
        seq_to_set_is_finite(first + named_ids(listed));
    }
    while more
        invariant
            resolver.wf(),
            first == mod_ids(references.deep_view()),
            listed == registry.deep_view(),
            universe == universe_of(first, listed),
            universe.finite(),
            resolver@.category == category@,
            resolver@.issued == 0,
            resolver@.in_flight() == 0,
            resolver@.frontier.len() == 0,
            more == (resolver@.current.len() > 0),
            explored(resolver@, resolver@.settled(), first, listed, universe),
        decreases universe.len() - resolver@.seen.len(), if more { 1int } else { 0int },
    {
        let ghost start = resolver@;
        while !resolver.is_complete()
            invariant
                resolver.wf(),
                listed == registry.deep_view(),
                resolver@.category == category@,
                resolver@.in_flight() == 0,
                resolver@.seen == start.seen,
                resolver@.current == start.current,
                explored(
                    resolver@,
                    resolver@.settled() + resolver@.issued,
                    first,
                    listed,
                    universe,
                ),
            decreases resolver@.current.len() - resolver@.issued,
        {
            let ghost before = resolver@;
            proof {
                resolver.lemma_wf();
                lemma_explore_step(before, first, listed, universe);
            }
            match resolver.next() {
                Some((index, reference)) => {
                    let lookup = find_answer(registry, &reference.id);
                    let _ = resolver.record(index, lookup);
                },
                None => {},
            }
        }
        proof {
            resolver.lemma_wf();
            lemma_explore_advance(resolver@, first, listed);
            lemma_seen_bounded(resolver@.next_generation(), universe);
        }
        let step = resolver.advance();
        more = step == Step::Next;
    }
    let generations = resolver.generations();
    let queried = resolver.queried();
    proof {
        resolver.lemma_wf();
        crate::resolve::lemma_queries_distinct(resolver@);
        assert(resolver@.queried() =~= resolver@.seen);
        assert(resolver@.seen.take(resolver@.seen.len() as int) =~= resolver@.seen);
        assert forall|i: int| 0 <= i < references.len() implies resolver@.seen.contains(
            #[trigger] references.deep_view()[i].id,
        ) by {
            assert(first[i] == references.deep_view()[i].id);
        }
        assert forall|k: int, d: int|
            0 <= k < resolver@.seen.len() && 0 <= d < requirements(
                listed,
                resolver@.seen[k],
            ).len() implies resolver@.seen.contains(
            #[trigger] requirements(listed, resolver@.seen[k])[d],
        ) by {
            assert(in_sight(resolver@, requirements(listed, resolver@.seen[k])[d]));
            assert(mod_ids(resolver@.frontier).len() == 0);
        }
    }
    let downloads = resolver.finish();
    Resolved { downloads, queried, generations }
}

/// Whether three lists of files are what resolving a pack for a side comes
/// to: the first for its mods of that side, the others for its resource
/// packs and its shader packs where these are wanted, and empty where
/// they are not.
pub open spec fn gathered(
    mods: Seq<DownloadableView>,
    resourcepacks: Seq<DownloadableView>,
    shaderpacks: Seq<DownloadableView>,
    side: ModSide,
    with_resourcepacks: bool,
    with_shaderpacks: bool,
    pack: PackView,
    registry: Seq<ListingView>,
) -> bool {
    &&& exists|queried: Seq<ModIdView>| #[trigger]
        resolves(mods, queried, on_side(pack.mods, side), "mods"@, registry)
    &&& if with_resourcepacks {
        exists|queried: Seq<ModIdView>| #[trigger]
            resolves(resourcepacks, queried, pack.resourcepacks, "resourcepacks"@, registry)
    } else {
        resourcepacks.len() == 0
    }
    &&& if with_shaderpacks {
        exists|queried: Seq<ModIdView>| #[trigger]
            resolves(shaderpacks, queried, pack.shaderpacks, "shaderpacks"@, registry)
    } else {
        shaderpacks.len() == 0
    }
}

/// Gets the files to fetch for the mods of a pack that belong to a side,
/// and for its resource packs and shader packs where these are wanted.
/// Each of the three is resolved by itself; what they come to follows one
/// after the other.
pub fn get_downloadables(
    side: ModSide,
    resourcepacks: bool,
    shaderpacks: bool,
    pack: &Pack,
    registry: &Vec<Listing>,
) -> (r: Vec<Downloadable>)
    ensures
        exists|
            mods: Seq<DownloadableView>,
            others: Seq<DownloadableView>,
            shaders: Seq<DownloadableView>,
        |
            r.deep_view() == mods + others + shaders && #[trigger] gathered(
                mods,
                others,
                shaders,
                side,
                resourcepacks,
                shaderpacks,
                pack@,
                registry.deep_view(),
            ),
{
    let wanted = filter_side(&pack.mods, side);
    let first = resolve(&wanted, "mods", registry);
    let mut r = first.downloads;
    let ghost mods = r.deep_view();
    let ghost others = Seq::<DownloadableView>::empty();
    let ghost shaders = Seq::<DownloadableView>::empty();
    assert(resolves(
        mods,
        first.queried.deep_view(),
        on_side(pack@.mods, side),
        "mods"@,
        registry.deep_view(),
    ));
    if resourcepacks {
        let second = resolve(&pack.resourcepacks, "resourcepacks", registry);
        let mut found = second.downloads;
        proof {
            others = found.deep_view();
            assert(resolves(
                others,
                second.queried.deep_view(),
                pack@.resourcepacks,
                "resourcepacks"@,
                registry.deep_view(),
            ));
        }
        r.append(&mut found);
        assert(r.deep_view() =~= mods + others);
    }
    assert(r.deep_view() =~= mods + others);
    if shaderpacks {
        let third = resolve(&pack.shaderpacks, "shaderpacks", registry);
        let mut found = third.downloads;
        proof {
            shaders = found.deep_view();
            assert(resolves(
                shaders,
                third.queried.deep_view(),
                pack@.shaderpacks,
                "shaderpacks"@,
                registry.deep_view(),
            ));
        }
        r.append(&mut found);
        assert(r.deep_view() =~= mods + others + shaders);
    }
    assert(r.deep_view() =~= mods + others + shaders);
    assert(gathered(
        mods,
        others,
        shaders,
        side,
        resourcepacks,
        shaderpacks,
        pack@,
        registry.deep_view(),
    ));
    r
}

} // verus!
