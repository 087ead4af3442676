//! The scheduling rules of the crawl: how many fetch-and-expand tasks may be
//! dispatched and in flight at once, and why a crawl over a finite link graph
//! can only take finitely many steps before it is terminal.

use vstd::prelude::*;

verus! {

use vstd::math::min;
use vstd::set_lib::lemma_len_subset;
use crate::link_unificator::LinkUnificator;
use crate::links::StoreModel;
use crate::links::absorb_spec;
use crate::links::offer_spec;
use crate::links::resolve_spec;
use crate::links::store_wf;
use crate::links::take_spec;

/// The dispatch bookkeeping of one crawl run: how many fetch-and-expand
/// tasks are in flight, how many were dispatched in total, the optional
/// concurrency bound, and whether progress is printed.
pub struct LinksCounter {
    pub cur_run: usize,
    pub total_run: usize,
    pub max_together: Option<usize>,
    pub print: bool,
}

impl LinksCounter {
    /// Well-formedness: tasks in flight never outnumber total dispatches,
    /// and never exceed the bound, which is at least one when present.
    pub open spec fn wf(&self) -> bool {
        &&& self.cur_run <= self.total_run
        &&& (self.max_together matches Some(m) ==> self.cur_run <= m && m >= 1)
    }

    /// A fresh counter; a configured bound below one is raised to one.
    pub fn new(max_together: Option<usize>) -> (r: Self)
        ensures
            r.wf(),
            r.cur_run == 0,
            r.total_run == 0,
            !r.print,
            match max_together {
                Some(x) => r.max_together == Some(if x < 1 { 1usize } else { x }),
                None => r.max_together is None,
            },
    {
        let max_together = match max_together {
            Some(x) => Some(if x < 1 { 1 } else { x }),
            None => None,
        };
        LinksCounter { cur_run: 0, total_run: 0, max_together, print: false }
    }

    /// Enables progress printing.
    pub fn print_on(&mut self)
        ensures
            final(self).print,
            final(self).cur_run == old(self).cur_run,
            final(self).total_run == old(self).total_run,
            final(self).max_together == old(self).max_together,
    {
        self.print = true;
    }

    /// How many new fetch-and-expand tasks to dispatch now: as many as both
    /// keep the in-flight count within the bound and keep the dispatch total
    /// within the number of URLs discovered so far. Afterwards either every
    /// discovered URL has been dispatched or the pool is full.
    pub fn awaiter_filling(&mut self, discovered: usize) -> (n: usize)
        requires
            old(self).wf(),
            old(self).total_run <= discovered,
        ensures
            final(self).wf(),
            final(self).cur_run == old(self).cur_run + n,
            final(self).total_run == old(self).total_run + n,
            final(self).max_together == old(self).max_together,
            final(self).print == old(self).print,
            final(self).total_run <= discovered,
            n == (match old(self).max_together {
                Some(m) => min(m - old(self).cur_run, discovered - old(self).total_run),
                None => discovered - old(self).total_run,
            }),
            final(self).total_run == discovered || (final(self).max_together matches Some(m)
                && final(self).cur_run == m),
    {
        let n = match self.max_together {
            Some(m) => {
                let room = m - self.cur_run;
                let todo = discovered - self.total_run;
                if room < todo {
                    room
                } else {
                    todo
                }
            },
            None => discovered - self.total_run,
        };
        self.cur_run = self.cur_run + n;
        self.total_run = self.total_run + n;
        n
    }

    /// One in-flight fetch-and-expand task has completed.
    pub fn awaiter_task_done(&mut self)
        requires
            old(self).wf(),
            old(self).cur_run >= 1,
        ensures
            final(self).wf(),
            final(self).cur_run == old(self).cur_run - 1,
            final(self).total_run == old(self).total_run,
            final(self).max_together == old(self).max_together,
            final(self).print == old(self).print,
    {
        self.cur_run = self.cur_run - 1;
    }
}

/// The concurrency bound is respected: in every well-formed counter state
/// the number of in-flight tasks stays within the configured bound, and
/// every dispatch and completion keeps the state well-formed.
pub proof fn lemma_concurrency_bound(c: LinksCounter, m: usize)
    requires
        c.wf(),
        c.max_together == Some(m),
    ensures
        c.cur_run <= m,
{
}

/// One whole crawl as a mathematical state: the store, the number of tasks
/// dispatched so far, and the number still in flight.
#[verifier::ext_equal]
pub ghost struct CrawlModel {
    pub store: StoreModel,
    pub dispatched: nat,
    pub in_flight: nat,
}

/// The scheduler may dispatch while fewer tasks were dispatched than URLs
/// discovered and the bound, if any, leaves room.
pub open spec fn can_dispatch(c: CrawlModel, bound: Option<nat>) -> bool {
    &&& c.dispatched < c.store.visited.len()
    &&& (bound matches Some(m) ==> c.in_flight < m)
}

/// Dispatching one task: both counters grow, the store is untouched.
pub open spec fn dispatch_step(pre: CrawlModel, post: CrawlModel) -> bool {
    post == CrawlModel {
        store: pre.store,
        dispatched: pre.dispatched + 1,
        in_flight: pre.in_flight + 1,
    }
}

/// A running task takes its URL off the frontier; the counters do not move.
pub open spec fn pop_step(pre: CrawlModel, post: CrawlModel) -> bool {
    post == CrawlModel {
        store: take_spec(pre.store).0,
        dispatched: pre.dispatched,
        in_flight: pre.in_flight,
    }
}

/// A task completes: the hrefs of the page at `base` are absorbed into the
/// store and the task leaves the pool.
pub open spec fn complete_step<U: LinkUnificator>(
    pre: CrawlModel,
    post: CrawlModel,
    base: Seq<char>,
    hrefs: Seq<Seq<char>>,
) -> bool {
    &&& pre.in_flight >= 1
    &&& post == CrawlModel {
        store: absorb_spec::<U>(pre.store, base, hrefs).0,
        dispatched: pre.dispatched,
        in_flight: (pre.in_flight - 1) as nat,
    }
}

/// Terminal: nothing is in flight and the filling rule can dispatch nothing.
/// No step is enabled, so the crawl is over.
pub open spec fn terminal(c: CrawlModel, bound: Option<nat>) -> bool {
    c.in_flight == 0 && !can_dispatch(c, bound)
}

/// The finite-graph hypothesis at one page: every href of the page that
/// resolves at all resolves to a URL whose canonical identity lies in the
/// closed identity set `c_ids`.
pub open spec fn links_closed<U: LinkUnificator>(
    base: Seq<char>,
    hrefs: Seq<Seq<char>>,
    c_ids: Set<Seq<char>>,
) -> bool {
    forall|i: int|
        0 <= i < hrefs.len() && resolve_spec(base, #[trigger] hrefs[i]) is Some ==> c_ids.contains(
            U::unify_spec(resolve_spec(base, hrefs[i])->Some_0),
        )
}

/// What stays true of every crawl state over the closed identity set
/// `c_ids`: the visited set is finite and inside `c_ids`, the store is
/// well-formed, and dispatches never outnumber discoveries.
pub open spec fn crawl_inv<U: LinkUnificator>(c: CrawlModel, c_ids: Set<Seq<char>>) -> bool {
    &&& c.store.visited.finite()
    &&& c.store.visited.subset_of(c_ids)
    &&& store_wf::<U>(c.store)
    &&& c.dispatched <= c.store.visited.len()
}

/// The termination measure of a crawl bounded by `c` identities: it is
/// non-negative under the crawl invariant and strictly shrinks at every
/// dispatch and every completion.
pub open spec fn crawl_measure(c: CrawlModel, n_ids: nat) -> int {
    2 * (n_ids - c.dispatched) + c.in_flight
}

/// An offer preserves the crawl invariant's store facts when the offered
/// URL's identity lies in the closed set.
proof fn lemma_offer_props<U: LinkUnificator>(m: StoreModel, url: Seq<char>, c_ids: Set<Seq<char>>)
    requires
        m.visited.finite(),
        store_wf::<U>(m),
        m.visited.subset_of(c_ids),
        c_ids.contains(U::unify_spec(url)),
    ensures
        offer_spec::<U>(m, url).visited.finite(),
        store_wf::<U>(offer_spec::<U>(m, url)),
        offer_spec::<U>(m, url).visited.subset_of(c_ids),
        m.visited.subset_of(offer_spec::<U>(m, url).visited),
{
    crate::links::lemma_step_preserves_wf::<U>(m, url);
}

/// Absorbing a page whose links resolve into the closed set keeps the store
/// well-formed, keeps the visited set finite and inside the closed set, and
/// never removes a visited identity.
pub proof fn lemma_absorb_props<U: LinkUnificator>(
    m: StoreModel,
    base: Seq<char>,
    hrefs: Seq<Seq<char>>,
    c_ids: Set<Seq<char>>,
)
    requires
        m.visited.finite(),
        store_wf::<U>(m),
        m.visited.subset_of(c_ids),
        links_closed::<U>(base, hrefs, c_ids),
    ensures
        absorb_spec::<U>(m, base, hrefs).0.visited.finite(),
        store_wf::<U>(absorb_spec::<U>(m, base, hrefs).0),
        absorb_spec::<U>(m, base, hrefs).0.visited.subset_of(c_ids),
        m.visited.subset_of(absorb_spec::<U>(m, base, hrefs).0.visited),
    decreases hrefs.len(),
{
    if hrefs.len() > 0 {
        match resolve_spec(base, hrefs[0]) {
            Some(u) => {
                lemma_offer_props::<U>(m, u, c_ids);
                let m2 = offer_spec::<U>(m, u);
                assert forall|i: int|
                    0 <= i < hrefs.skip(1).len() && resolve_spec(
                        base,
                        #[trigger] hrefs.skip(1)[i],
                    ) is Some implies c_ids.contains(
                    U::unify_spec(resolve_spec(base, hrefs.skip(1)[i])->Some_0),
                ) by {
                    assert(hrefs.skip(1)[i] == hrefs[i + 1]);
                }
                lemma_absorb_props::<U>(m2, base, hrefs.skip(1), c_ids);
            },
            None => {},
        }
    }
}

/// A freshly seeded, well-formed store with nothing dispatched satisfies the
/// crawl invariant over any closed identity set containing its seeds.
pub proof fn lemma_initial_inv<U: LinkUnificator>(
    links: &crate::links::Links<U>,
    c_ids: Set<Seq<char>>,
)
    requires
        links.wf(),
        links.visited().subset_of(c_ids),
    ensures
        crawl_inv::<U>(
            CrawlModel { store: links.model(), dispatched: 0, in_flight: 0 },
            c_ids,
        ),
{
    broadcast use vstd::seq_lib::seq_to_set_is_finite;
}

/// A dispatch preserves the crawl invariant and strictly shrinks the
/// measure, which stays non-negative.
pub proof fn lemma_dispatch_decreases<U: LinkUnificator>(
    pre: CrawlModel,
    post: CrawlModel,
    c_ids: Set<Seq<char>>,
    bound: Option<nat>,
)
    requires
        c_ids.finite(),
        crawl_inv::<U>(pre, c_ids),
        can_dispatch(pre, bound),
        dispatch_step(pre, post),
    ensures
        crawl_inv::<U>(post, c_ids),
        0 <= crawl_measure(post, c_ids.len()) < crawl_measure(pre, c_ids.len()),
{
    lemma_len_subset(pre.store.visited, c_ids);
}

/// A task's take of its URL preserves the crawl invariant and never grows
/// the measure.
pub proof fn lemma_pop_preserves<U: LinkUnificator>(
    pre: CrawlModel,
    post: CrawlModel,
    c_ids: Set<Seq<char>>,
)
    requires
        c_ids.finite(),
        crawl_inv::<U>(pre, c_ids),
        pop_step(pre, post),
    ensures
        crawl_inv::<U>(post, c_ids),
        crawl_measure(post, c_ids.len()) == crawl_measure(pre, c_ids.len()),
{
    crate::links::lemma_step_preserves_wf::<U>(pre.store, Seq::empty());
}

/// A completion preserves the crawl invariant and strictly shrinks the
/// measure, which stays non-negative: on a finite link graph — every page's
/// links resolving into the closed identity set — the crawl therefore
/// reaches, in finitely many dispatches and completions, a state where no
/// step is enabled: the terminal state.
pub proof fn lemma_complete_decreases<U: LinkUnificator>(
    pre: CrawlModel,
    post: CrawlModel,
    c_ids: Set<Seq<char>>,
    base: Seq<char>,
    hrefs: Seq<Seq<char>>,
)
    requires
        c_ids.finite(),
        crawl_inv::<U>(pre, c_ids),
        links_closed::<U>(base, hrefs, c_ids),
        complete_step::<U>(pre, post, base, hrefs),
    ensures
        crawl_inv::<U>(post, c_ids),
        0 <= crawl_measure(post, c_ids.len()) < crawl_measure(pre, c_ids.len()),
{
    lemma_absorb_props::<U>(pre.store, base, hrefs, c_ids);
    lemma_len_subset(pre.store.visited, c_ids);
    lemma_len_subset(pre.store.visited, post.store.visited);
}

/// Identity `id` is reachable from the seed identities in at most `k` hops
/// of the link graph `edges`, which maps a page's identity to the identities
/// its links resolve to.
pub open spec fn id_reachable(
    edges: spec_fn(Seq<char>) -> Set<Seq<char>>,
    seeds: Set<Seq<char>>,
    id: Seq<char>,
    k: nat,
) -> bool
    decreases k,
{
    seeds.contains(id) || (k > 0 && exists|p: Seq<char>|
        id_reachable(edges, seeds, p, (k - 1) as nat) && #[trigger] edges(p).contains(id))
}

/// The transitive closure: every identity reachable from the seeds in any
/// number of hops.
pub open spec fn reachable_set(
    edges: spec_fn(Seq<char>) -> Set<Seq<char>>,
    seeds: Set<Seq<char>>,
) -> Set<Seq<char>> {
    Set::new(|id: Seq<char>| exists|k: nat| id_reachable(edges, seeds, id, k))
}

/// A set that holds the seeds and is closed under the link graph holds every
/// reachable identity.
pub proof fn lemma_closed_set_covers_reachable(
    edges: spec_fn(Seq<char>) -> Set<Seq<char>>,
    seeds: Set<Seq<char>>,
    visited: Set<Seq<char>>,
    id: Seq<char>,
    k: nat,
)
    requires
        seeds.subset_of(visited),
        forall|p: Seq<char>, q: Seq<char>|
            visited.contains(p) && #[trigger] edges(p).contains(q) ==> visited.contains(q),
        id_reachable(edges, seeds, id, k),
    ensures
        visited.contains(id),
    decreases k,
{
    if !seeds.contains(id) {
        let p = choose|p: Seq<char>|
            id_reachable(edges, seeds, p, (k - 1) as nat) && #[trigger] edges(p).contains(id);
        lemma_closed_set_covers_reachable(edges, seeds, visited, p, (k - 1) as nat);
    }
}

/// Exactness at the end of a crawl: a visited set that contains the seeds,
/// is closed under the link graph (every visited page was fetched and its
/// links absorbed, see `lemma_absorb_covers_links`), and never left the
/// reachable identities (see `lemma_absorb_props`), is exactly the
/// transitive closure of the seeds — in particular its size is the size of
/// the closure.
pub proof fn lemma_final_visited_is_closure(
    edges: spec_fn(Seq<char>) -> Set<Seq<char>>,
    seeds: Set<Seq<char>>,
    visited: Set<Seq<char>>,
)
    requires
        seeds.subset_of(visited),
        forall|p: Seq<char>, q: Seq<char>|
            visited.contains(p) && #[trigger] edges(p).contains(q) ==> visited.contains(q),
        visited.subset_of(reachable_set(edges, seeds)),
    ensures
        visited =~= reachable_set(edges, seeds),
        visited.len() == reachable_set(edges, seeds).len(),
{
    assert forall|id: Seq<char>|
        reachable_set(edges, seeds).contains(id) implies visited.contains(id) by {
        let k = choose|k: nat| id_reachable(edges, seeds, id, k);
        lemma_closed_set_covers_reachable(edges, seeds, visited, id, k);
    }
    assert(visited =~= reachable_set(edges, seeds));
}

} // verus!
