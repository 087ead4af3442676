//! The frontier/visited store: the set of canonical identities discovered so
//! far, and the queue of discovered-but-unfetched URLs. Check-then-insert is
//! one step, so an identity enters the store at most once; a taken URL leaves
//! the frontier, so it is handed out at most once.

use vstd::prelude::*;

verus! {

use crate::CrawlError;
use crate::link_unificator::LinkUnificator;
use crate::str_search::find_scheme_sep;
use crate::str_search::find_scheme_sep_from;

broadcast use vstd::set::group_set_axioms, vstd::seq_lib::group_seq_lib_default,
    vstd::prelude::Seq::lemma_push_to_set_commute;

/// What `url::Url::parse` returns for a given string: the parsed URL's
/// serialization, or nothing when the string is not an absolute URL.
pub uninterp spec fn url_parse(s: Seq<char>) -> Option<Seq<char>>;

/// Relies on `url::Url::parse`: parsing is a deterministic, total function of
/// the input string alone; on success the result is the parsed URL's
/// serialization, on failure the error's description is returned.
#[verifier::external_body]
fn parse_url(s: &str) -> (r: Result<String, String>)
    ensures
        r is Ok <==> url_parse(s@) is Some,
        r is Ok ==> r->Ok_0@ == url_parse(s@)->Some_0,
{
    match url::Url::parse(s) {
        Ok(u) => Ok(String::from(u)),
        Err(e) => Err(e.to_string()),
    }
}

/// What resolving `href` against the URL serialized as `base` returns: the
/// resolved URL's serialization, or nothing when resolution fails.
pub uninterp spec fn url_join(base: Seq<char>, href: Seq<char>) -> Option<Seq<char>>;

/// Relies on `url::Url::join`, with `url::Url::parse` reconstructing the base
/// from its serialization: relative-reference resolution is a deterministic
/// function of the two strings alone; on success the result is the resolved
/// URL's serialization, on failure the error's description is returned.
#[verifier::external_body]
fn join_url(base: &str, href: &str) -> (r: Result<String, String>)
    ensures
        r is Ok <==> url_join(base@, href@) is Some,
        r is Ok ==> r->Ok_0@ == url_join(base@, href@)->Some_0,
{
    match url::Url::parse(base).and_then(|b| b.join(href)) {
        Ok(u) => Ok(String::from(u)),
        Err(e) => Err(e.to_string()),
    }
}

/// The raw `href` attribute values of the anchor elements of a page with the
/// given text, in document order.
pub uninterp spec fn hrefs_of(body: Seq<char>) -> Seq<Seq<char>>;

/// Relies on `select::document::Document` and `select::predicate::Name`:
/// parsing page text and walking its anchor elements is a deterministic
/// function of the text alone; the result holds the `href` attribute value of
/// each anchor element that has one, in document order.
#[verifier::external_body]
fn extract_hrefs(body: &str) -> (r: Vec<String>)
    ensures
        r.deep_view() == hrefs_of(body@),
{
    let document = select::document::Document::from(body);
    document.find(select::predicate::Name("a")).filter_map(
        |node| node.attr("href").map(|href| href.to_string()),
    ).collect()
}

/// The store's mathematical shape: the visited set of canonical identities,
/// and the frontier of discovered-but-unfetched URLs, oldest first.
#[verifier::ext_equal]
pub ghost struct StoreModel {
    pub visited: Set<Seq<char>>,
    pub frontier: Seq<Seq<char>>,
}

/// One `offer`: if the URL's identity is already visited nothing changes;
/// otherwise the identity joins the visited set and the URL the frontier,
/// as a single step.
pub open spec fn offer_spec<U: LinkUnificator>(m: StoreModel, url: Seq<char>) -> StoreModel {
    let id = U::unify_spec(url);
    if m.visited.contains(id) {
        m
    } else {
        StoreModel { visited: m.visited.insert(id), frontier: m.frontier.push(url) }
    }
}

/// One `take`: the youngest frontier URL leaves the frontier and is returned;
/// an empty frontier yields nothing and leaves the store unchanged.
pub open spec fn take_spec(m: StoreModel) -> (StoreModel, Option<Seq<char>>) {
    if m.frontier.len() == 0 {
        (m, None)
    } else {
        (StoreModel { visited: m.visited, frontier: m.frontier.drop_last() }, Some(
            m.frontier.last(),
        ))
    }
}

/// Resolving one href against the page it was found on: an href that carries
/// its own scheme separator is parsed as it stands and never re-resolved
/// against the base; anything else is resolved relative to the base.
pub open spec fn resolve_spec(base: Seq<char>, href: Seq<char>) -> Option<Seq<char>> {
    if find_scheme_sep_from(href, 0) is Some {
        url_parse(href)
    } else {
        url_join(base, href)
    }
}

/// Absorbing a page's hrefs in order: each resolves and is offered; the first
/// href that fails to resolve stops the walk and is reported, with the offers
/// made before it kept.
pub open spec fn absorb_spec<U: LinkUnificator>(
    m: StoreModel,
    base: Seq<char>,
    hrefs: Seq<Seq<char>>,
) -> (StoreModel, Option<Seq<char>>)
    decreases hrefs.len(),
{
    if hrefs.len() == 0 {
        (m, None)
    } else {
        match resolve_spec(base, hrefs[0]) {
            Some(u) => absorb_spec::<U>(offer_spec::<U>(m, u), base, hrefs.skip(1)),
            None => (m, Some(hrefs[0])),
        }
    }
}

/// Seeding with parsed URLs, first occurrence of an identity winning. Only
/// meaningful when every input parses.
pub open spec fn seed_spec<U: LinkUnificator>(inputs: Seq<Seq<char>>) -> StoreModel
    decreases inputs.len(),
{
    if inputs.len() == 0 {
        StoreModel { visited: Set::empty(), frontier: Seq::empty() }
    } else {
        offer_spec::<U>(seed_spec::<U>(inputs.drop_last()), url_parse(inputs.last())->Some_0)
    }
}

/// Index of the first seed string that does not parse as a URL, if any.
pub open spec fn first_bad_seed_from(inputs: Seq<Seq<char>>, i: int) -> Option<int>
    decreases inputs.len() - i,
    when 0 <= i <= inputs.len()
{
    if i >= inputs.len() {
        None
    } else if url_parse(inputs[i]) is None {
        Some(i)
    } else {
        first_bad_seed_from(inputs, i + 1)
    }
}

/// The store's invariants over its model: every frontier URL's identity is
/// already visited, and no two frontier URLs share an identity.
pub open spec fn store_wf<U: LinkUnificator>(m: StoreModel) -> bool {
    &&& forall|i: int|
        0 <= i < m.frontier.len() ==> m.visited.contains(U::unify_spec(#[trigger] m.frontier[i]))
    &&& forall|i: int, j: int|
        0 <= i < j < m.frontier.len() ==> U::unify_spec(#[trigger] m.frontier[i]) != U::unify_spec(
            #[trigger] m.frontier[j],
        )
}

/// The frontier/visited store, deduplicating under strategy `U`.
pub struct Links<U: LinkUnificator> {
    all: Vec<U::Unified>,
    new: Vec<String>,
}

impl<U: LinkUnificator> Links<U> {
    /// The canonical identities in the visited set, in insertion order.
    pub closed spec fn ids(&self) -> Seq<Seq<char>> {
        Seq::new(self.all@.len(), |i: int| U::unified_view(self.all@[i]))
    }

    /// The visited set: every canonical identity discovered so far.
    pub open spec fn visited(&self) -> Set<Seq<char>> {
        self.ids().to_set()
    }

    /// The frontier: discovered but not yet fetched URLs, oldest first.
    pub closed spec fn frontier(&self) -> Seq<Seq<char>> {
        self.new.deep_view()
    }

    /// The store as its mathematical model.
    pub open spec fn model(&self) -> StoreModel {
        StoreModel { visited: self.visited(), frontier: self.frontier() }
    }

    /// Well-formedness: the visited entries are pairwise distinct, and the
    /// frontier satisfies the store invariants.
    pub open spec fn wf(&self) -> bool {
        &&& self.ids().no_duplicates()
        &&& store_wf::<U>(self.model())
    }

    /// The number of distinct canonical identities discovered so far.
    pub fn len(&self) -> (r: usize)
        requires
            self.wf(),
        ensures
            r == self.visited().len(),
    {
        proof {
            self.ids().unique_seq_to_set();
        }
        self.all.len()
    }

    /// Canonicalizes `url`; if its identity is new, records the identity as
    /// visited and queues the URL for fetching, as one atomic step, and
    /// reports whether it did.
    pub fn offer(&mut self, url: String) -> (added: bool)
        requires
            old(self).wf(),
        ensures
            final(self).wf(),
            added == !old(self).visited().contains(U::unify_spec(url@)),
            final(self).model() == offer_spec::<U>(old(self).model(), url@),
    {
        let id = U::unify(&url);
        let n = self.all.len();
        let mut k: usize = 0;
        while k < n
            invariant
                k <= n,
                n == self.all@.len(),
                self.wf(),
                *self == *old(self),
                U::unified_view(id) == U::unify_spec(url@),
                forall|j: int| 0 <= j < k ==> self.ids()[j] != U::unified_view(id),
            decreases n - k,
        {
            if U::eq_unified(&self.all[k], &id) {
                proof {
                    assert(self.ids()[k as int] == U::unify_spec(url@));
                    assert(self.ids().contains(self.ids()[k as int]));
                    assert(self.model() =~= offer_spec::<U>(self.model(), url@));
                }
                return false;
            }
            k = k + 1;
        }
        proof {
            assert(!self.ids().contains(U::unified_view(id)));
        }
        let ghost pre = *self;
        self.all.push(id);
        self.new.push(url);
        proof {
            assert(self.ids() =~= pre.ids().push(U::unify_spec(url@)));
            assert(self.frontier() =~= pre.frontier().push(url@));
            assert(self.visited() =~= pre.visited().insert(U::unify_spec(url@)));
            assert(self.model() =~= offer_spec::<U>(pre.model(), url@));
        }
        true
    }

    /// Atomically removes and returns one URL from the frontier, or nothing
    /// when the frontier is empty. A returned URL is no longer on the
    /// frontier, so it is never handed to two callers.
    pub fn take_unchecked_url(&mut self) -> (r: Option<String>)
        requires
            old(self).wf(),
        ensures
            final(self).wf(),
            final(self).model() == take_spec(old(self).model()).0,
            r is Some <==> take_spec(old(self).model()).1 is Some,
            r is Some ==> r->Some_0@ == take_spec(old(self).model()).1->Some_0,
    {
        let ghost pre = *self;
        let r = self.new.pop();
        proof {
            if pre.frontier().len() == 0 {
                assert(self.model() =~= take_spec(pre.model()).0);
            } else {
                assert(self.frontier() =~= pre.frontier().drop_last());
                assert(self.ids() =~= pre.ids());
                assert(self.model() =~= take_spec(pre.model()).0);
                assert(r->Some_0@ == pre.frontier().last());
            }
        }
        r
    }

    /// Seeds a store: every input string must parse as a URL (the first that
    /// does not is reported as `InvalidSeedUrl`), the parsed URLs are
    /// deduplicated by identity with the first occurrence winning, and an
    /// empty input collection is rejected as `EmptySeedSet`.
    pub fn new(init_links: &Vec<String>) -> (r: Result<Self, CrawlError>)
        ensures
            r is Ok <==> (init_links@.len() > 0 && first_bad_seed_from(init_links.deep_view(), 0)
                is None),
            r matches Ok(links) ==> links.wf() && links.model() == seed_spec::<U>(
                init_links.deep_view(),
            ),
            r matches Err(e) ==> (match first_bad_seed_from(init_links.deep_view(), 0) {
                Some(i) => e matches CrawlError::InvalidSeedUrl { url, .. } && url@
                    == init_links.deep_view()[i],
                None => init_links@.len() == 0 && e is EmptySeedSet,
            }),
    {
        let ghost inputs = init_links.deep_view();
        if init_links.len() == 0 {
            return Err(CrawlError::EmptySeedSet);
        }
        let mut links = Links::<U> { all: Vec::new(), new: Vec::new() };
        proof {
            assert(links.ids() =~= Seq::<Seq<char>>::empty());
            assert(links.frontier() =~= Seq::<Seq<char>>::empty());
            assert(links.visited() =~= Set::<Seq<char>>::empty());
            assert(links.model() =~= seed_spec::<U>(inputs.take(0)));
        }
        let n = init_links.len();
        let mut i: usize = 0;
        while i < n
            invariant
                i <= n,
                n == init_links@.len(),
                inputs == init_links.deep_view(),
                links.wf(),
                links.model() == seed_spec::<U>(inputs.take(i as int)),
                first_bad_seed_from(inputs, 0) == first_bad_seed_from(inputs, i as int),
            decreases n - i,
        {
            let link = &init_links[i];
            proof {
                assert(inputs[i as int] == link@);
            }
            match parse_url(link.as_str()) {
                Ok(parsed) => {
                    links.offer(parsed);
                    proof {
                        assert(inputs.take(i as int + 1).drop_last() =~= inputs.take(i as int));
                        assert(inputs.take(i as int + 1).last() == inputs[i as int]);
                    }
                },
                Err(reason) => {
                    return Err(CrawlError::InvalidSeedUrl { url: link.clone(), reason });
                },
            }
            i = i + 1;
        }
        proof {
            assert(inputs.take(n as int) =~= inputs);
        }
        Ok(links)
    }

    /// Seeds a store from line-oriented text: one URL per line, surrounding
    /// whitespace trimmed, blank lines ignored.
    pub fn new_from_lines(text: &String) -> (r: Result<Self, CrawlError>)
        ensures
            r is Ok <==> (crate::str_search::seed_lines_spec(text@).len() > 0
                && first_bad_seed_from(crate::str_search::seed_lines_spec(text@), 0) is None),
            r matches Ok(links) ==> links.wf() && links.model() == seed_spec::<U>(
                crate::str_search::seed_lines_spec(text@),
            ),
            r matches Err(e) ==> (match first_bad_seed_from(
                crate::str_search::seed_lines_spec(text@),
                0,
            ) {
                Some(i) => e matches CrawlError::InvalidSeedUrl { url, .. } && url@
                    == crate::str_search::seed_lines_spec(text@)[i],
                None => crate::str_search::seed_lines_spec(text@).len() == 0 && e is EmptySeedSet,
            }),
    {
        let lines = crate::str_search::seed_lines(text.as_str());
        Self::new(&lines)
    }

    /// Resolves one href against the page it was found on: an href that
    /// carries its own scheme separator is parsed as it stands and never
    /// re-resolved against the base; anything else is resolved relative to
    /// the base. Fails with `MalformedUrl` exactly when resolution fails.
    pub fn absolute_link(potential_parent: &String, link: &String) -> (r: Result<
        String,
        CrawlError,
    >)
        ensures
            r is Ok <==> resolve_spec(potential_parent@, link@) is Some,
            r matches Ok(u) ==> u@ == resolve_spec(potential_parent@, link@)->Some_0,
            r matches Err(e) ==> e matches CrawlError::MalformedUrl { href, .. } && href@ == link@,
    {
        let parsed = if find_scheme_sep(link.as_str()).is_some() {
            parse_url(link.as_str())
        } else {
            join_url(potential_parent.as_str(), link.as_str())
        };
        match parsed {
            Ok(u) => Ok(u),
            Err(reason) => Err(CrawlError::MalformedUrl { href: link.clone(), reason }),
        }
    }

    /// Resolves each href in order against `base` and offers the result;
    /// duplicates are silently absorbed. The first href that fails to
    /// resolve aborts the walk with `MalformedUrl`, keeping the offers made
    /// before it.
    pub fn absorb_hrefs(&mut self, base: &String, hrefs: &Vec<String>) -> (r: Result<
        (),
        CrawlError,
    >)
        requires
            old(self).wf(),
        ensures
            final(self).wf(),
            final(self).model() == absorb_spec::<U>(
                old(self).model(),
                base@,
                hrefs.deep_view(),
            ).0,
            r is Ok <==> absorb_spec::<U>(old(self).model(), base@, hrefs.deep_view()).1 is None,
            r matches Err(e) ==> e matches CrawlError::MalformedUrl { href, .. } && Some(href@)
                == absorb_spec::<U>(old(self).model(), base@, hrefs.deep_view()).1,
    {
        let ghost views = hrefs.deep_view();
        let ghost m0 = old(self).model();
        proof {
            assert(views.skip(0) =~= views);
        }
        let n = hrefs.len();
        let mut i: usize = 0;
        while i < n
            invariant
                i <= n,
                n == hrefs@.len(),
                views == hrefs.deep_view(),
                m0 == old(self).model(),
                self.wf(),
                absorb_spec::<U>(m0, base@, views) == absorb_spec::<U>(
                    self.model(),
                    base@,
                    views.skip(i as int),
                ),
            decreases n - i,
        {
            let href = &hrefs[i];
            proof {
                assert(views[i as int] == href@);
                assert(views.skip(i as int)[0] == views[i as int]);
            }
            match Self::absolute_link(base, href) {
                Ok(u) => {
                    proof {
                        assert(views.skip(i as int).skip(1) =~= views.skip(i as int + 1));
                    }
                    self.offer(u);
                },
                Err(e) => {
                    return Err(e);
                },
            }
            i = i + 1;
        }
        proof {
            assert(views.skip(n as int) =~= Seq::<Seq<char>>::empty());
        }
        Ok(())
    }

    /// Absorbs one fetched page: extracts the hrefs of its anchor elements
    /// and offers each, resolved against the page's own URL.
    pub fn absorb_page(&mut self, link: &String, body: &String) -> (r: Result<(), CrawlError>)
        requires
            old(self).wf(),
        ensures
            final(self).wf(),
            final(self).model() == absorb_spec::<U>(
                old(self).model(),
                link@,
                hrefs_of(body@),
            ).0,
            r is Ok <==> absorb_spec::<U>(old(self).model(), link@, hrefs_of(body@)).1 is None,
            r matches Err(e) ==> e matches CrawlError::MalformedUrl { href, .. } && Some(href@)
                == absorb_spec::<U>(old(self).model(), link@, hrefs_of(body@)).1,
    {
        let hrefs = extract_hrefs(body.as_str());
        self.absorb_hrefs(link, &hrefs)
    }

    /// The displayed form of every visited identity, in insertion order.
    pub fn snapshot(&self) -> (r: Vec<String>)
        ensures
            r.deep_view() == self.ids().map_values(|id: Seq<char>| U::display_spec(id)),
    {
        let mut out: Vec<String> = Vec::new();
        let n = self.all.len();
        let mut k: usize = 0;
        while k < n
            invariant
                k <= n,
                n == self.all@.len(),
                out.deep_view().len() == k,
                forall|j: int|
                    0 <= j < k ==> out.deep_view()[j] == U::display_spec(#[trigger] self.ids()[j]),
            decreases n - k,
        {
            let line = U::display(&self.all[k]);
            out.push(line);
            k = k + 1;
        }
        proof {
            assert(out.deep_view() =~= self.ids().map_values(
                |id: Seq<char>| U::display_spec(id),
            ));
        }
        out
    }

    /// The line-oriented export: each displayed identity on a line of its
    /// own, with a trailing newline.
    pub fn export_string(&self) -> (r: String)
        ensures
            r@ == lines_spec(self.ids().map_values(|id: Seq<char>| U::display_spec(id))),
    {
        let ghost displayed = self.ids().map_values(|id: Seq<char>| U::display_spec(id));
        let mut s = String::new();
        let n = self.all.len();
        let mut k: usize = 0;
        proof {
            assert(displayed.take(0) =~= Seq::<Seq<char>>::empty());
        }
        while k < n
            invariant
                k <= n,
                n == self.all@.len(),
                displayed == self.ids().map_values(|id: Seq<char>| U::display_spec(id)),
                s@ == lines_spec(displayed.take(k as int)),
            decreases n - k,
        {
            let line = U::display(&self.all[k]);
            s.append(line.as_str());
            s.append("\n");
            proof {
                assert(displayed.take(k as int + 1).drop_last() =~= displayed.take(k as int));
                assert(displayed.take(k as int + 1).last() == U::display_spec(
                    self.ids()[k as int],
                ));
            }
            k = k + 1;
        }
        proof {
            assert(displayed.take(n as int) =~= displayed);
        }
        s
    }

    /// The console report: a header line `[<count>]:` giving the number of
    /// discovered identities, then each displayed identity on its own line.
    pub fn display_string(&self) -> (r: String)
        requires
            self.wf(),
        ensures
            r@ == "["@ + crate::str_search::decimal_spec(self.visited().len()) + "]:\n"@
                + lines_spec(self.ids().map_values(|id: Seq<char>| U::display_spec(id))),
    {
        let mut s = String::from_str("[");
        let count = crate::str_search::decimal_string(self.len());
        s.append(count.as_str());
        s.append("]:\n");
        let body = self.export_string();
        s.append(body.as_str());
        s
    }
}

/// The given lines, each with a trailing newline appended.
pub open spec fn lines_spec(lines: Seq<Seq<char>>) -> Seq<char>
    decreases lines.len(),
{
    if lines.len() == 0 {
        Seq::empty()
    } else {
        lines_spec(lines.drop_last()) + lines.last() + "\n"@
    }
}

/// Idempotent dedup: a repeated offer of the same URL leaves the store
/// unchanged, and any single offer grows the visited set by at most one.
pub proof fn lemma_offer_idempotent<U: LinkUnificator>(m: StoreModel, url: Seq<char>)
    requires
        m.visited.finite(),
    ensures
        offer_spec::<U>(offer_spec::<U>(m, url), url) == offer_spec::<U>(m, url),
        offer_spec::<U>(m, url).visited.len() <= m.visited.len() + 1,
{
    let id = U::unify_spec(url);
    if !m.visited.contains(id) {
        assert(offer_spec::<U>(m, url).visited.contains(id));
    }
}

/// No URL is handed to two fetchers: two successive takes from a well-formed
/// store return URLs with distinct canonical identities.
pub proof fn lemma_takes_distinct<U: LinkUnificator>(m: StoreModel, u1: Seq<char>, u2: Seq<char>)
    requires
        store_wf::<U>(m),
        take_spec(m).1 == Some(u1),
        take_spec(take_spec(m).0).1 == Some(u2),
    ensures
        U::unify_spec(u1) != U::unify_spec(u2),
{
    let n = m.frontier.len() as int;
    assert(u1 == m.frontier[n - 1]);
    assert(u2 == m.frontier.drop_last()[n - 2]);
    assert(u2 == m.frontier[n - 2]);
}

/// The store after `k` takes in a row, with nothing offered in between.
pub open spec fn take_n_spec(m: StoreModel, k: nat) -> StoreModel
    decreases k,
{
    if k == 0 {
        m
    } else {
        take_spec(take_n_spec(m, (k - 1) as nat)).0
    }
}

/// Exactly M fetches: when the fetched pages contribute no new links, a
/// store seeded with M frontier URLs hands out a URL exactly M times — after
/// `k <= M` takes, `M - k` URLs remain, and once the frontier is drained
/// every further take returns nothing.
pub proof fn lemma_exactly_m_fetches(m: StoreModel, k: nat)
    ensures
        k <= m.frontier.len() ==> take_n_spec(m, k).frontier.len() == m.frontier.len() - k,
        k >= m.frontier.len() ==> take_n_spec(m, k).frontier.len() == 0 && take_spec(
            take_n_spec(m, k),
        ).1 is None,
    decreases k,
{
    if k > 0 {
        lemma_exactly_m_fetches(m, (k - 1) as nat);
    }
}

/// A URL counts as fetched when its identity is in the visited set and no
/// frontier entry carries that identity any more.
pub open spec fn fetched<U: LinkUnificator>(m: StoreModel, id: Seq<char>) -> bool {
    &&& m.visited.contains(id)
    &&& forall|i: int|
        0 <= i < m.frontier.len() ==> U::unify_spec(#[trigger] m.frontier[i]) != id
}

/// A take establishes fetched-ness of the URL it returns: its identity stays
/// visited, and by frontier distinctness no other frontier entry carries it.
pub proof fn lemma_take_fetches<U: LinkUnificator>(m: StoreModel)
    requires
        store_wf::<U>(m),
        take_spec(m).1 is Some,
    ensures
        fetched::<U>(take_spec(m).0, U::unify_spec(take_spec(m).1->Some_0)),
{
    let n = m.frontier.len() as int;
    let m2 = take_spec(m).0;
    assert forall|i: int| 0 <= i < m2.frontier.len() implies U::unify_spec(#[trigger] m2.frontier[i])
        != U::unify_spec(m.frontier[n - 1]) by {
        assert(m2.frontier[i] == m.frontier[i]);
    }
}

/// Once fetched, always fetched: an offer of any URL cannot put a fetched
/// identity back on the frontier (its identity is already visited, so the
/// offer is absorbed), and a take only shrinks the frontier. Together with
/// [`lemma_take_fetches`] this says a page is fetched at most once, whatever
/// steps run after it was taken.
pub proof fn lemma_fetched_stays_fetched<U: LinkUnificator>(
    m: StoreModel,
    id: Seq<char>,
    url: Seq<char>,
)
    requires
        fetched::<U>(m, id),
    ensures
        fetched::<U>(offer_spec::<U>(m, url), id),
        fetched::<U>(take_spec(m).0, id),
{
    let m2 = offer_spec::<U>(m, url);
    if !m.visited.contains(U::unify_spec(url)) {
        assert forall|i: int| 0 <= i < m2.frontier.len() implies U::unify_spec(
            #[trigger] m2.frontier[i],
        ) != id by {
            if i < m.frontier.len() {
                assert(m2.frontier[i] == m.frontier[i]);
            } else {
                assert(m2.frontier[i] == url);
            }
        }
    }
    let m3 = take_spec(m).0;
    assert forall|i: int| 0 <= i < m3.frontier.len() implies U::unify_spec(#[trigger] m3.frontier[i])
        != id by {
        assert(m3.frontier[i] == m.frontier[i]);
    }
}

/// Absorbing a page never removes a visited identity.
pub proof fn lemma_absorb_monotone<U: LinkUnificator>(
    m: StoreModel,
    base: Seq<char>,
    hrefs: Seq<Seq<char>>,
)
    ensures
        m.visited.subset_of(absorb_spec::<U>(m, base, hrefs).0.visited),
    decreases hrefs.len(),
{
    if hrefs.len() > 0 {
        match resolve_spec(base, hrefs[0]) {
            Some(u) => {
                lemma_absorb_monotone::<U>(offer_spec::<U>(m, u), base, hrefs.skip(1));
            },
            None => {},
        }
    }
}

/// A successful absorb leaves every link of the page visited: each href of
/// the page resolves, and its canonical identity is in the visited set
/// afterwards.
pub proof fn lemma_absorb_covers_links<U: LinkUnificator>(
    m: StoreModel,
    base: Seq<char>,
    hrefs: Seq<Seq<char>>,
)
    requires
        absorb_spec::<U>(m, base, hrefs).1 is None,
    ensures
        forall|i: int|
            0 <= i < hrefs.len() ==> resolve_spec(base, #[trigger] hrefs[i]) is Some
                && absorb_spec::<U>(m, base, hrefs).0.visited.contains(
                U::unify_spec(resolve_spec(base, hrefs[i])->Some_0),
            ),
    decreases hrefs.len(),
{
    if hrefs.len() > 0 {
        let u = resolve_spec(base, hrefs[0])->Some_0;
        let m2 = offer_spec::<U>(m, u);
        assert(m2.visited.contains(U::unify_spec(u)));
        lemma_absorb_monotone::<U>(m2, base, hrefs.skip(1));
        lemma_absorb_covers_links::<U>(m2, base, hrefs.skip(1));
        assert forall|i: int| 0 <= i < hrefs.len() implies resolve_spec(
            base,
            #[trigger] hrefs[i],
        ) is Some && absorb_spec::<U>(m, base, hrefs).0.visited.contains(
            U::unify_spec(resolve_spec(base, hrefs[i])->Some_0),
        ) by {
            if i > 0 {
                assert(hrefs.skip(1)[i - 1] == hrefs[i]);
            }
        }
    }
}

/// Seeding visits every seed: after `seed_spec` each input's parsed identity
/// is in the visited set.
pub proof fn lemma_seed_covers_inputs<U: LinkUnificator>(inputs: Seq<Seq<char>>)
    ensures
        forall|i: int|
            0 <= i < inputs.len() ==> seed_spec::<U>(inputs).visited.contains(
                U::unify_spec(url_parse(#[trigger] inputs[i])->Some_0),
            ),
    decreases inputs.len(),
{
    if inputs.len() > 0 {
        lemma_seed_covers_inputs::<U>(inputs.drop_last());
        let m = seed_spec::<U>(inputs.drop_last());
        let last_id = U::unify_spec(url_parse(inputs.last())->Some_0);
        assert(seed_spec::<U>(inputs).visited.contains(last_id));
        assert forall|i: int| 0 <= i < inputs.len() implies seed_spec::<U>(
            inputs,
        ).visited.contains(U::unify_spec(url_parse(#[trigger] inputs[i])->Some_0)) by {
            if i < inputs.len() - 1 {
                assert(inputs.drop_last()[i] == inputs[i]);
            }
        }
    }
}

/// The store invariants survive every offer and every take.
pub proof fn lemma_step_preserves_wf<U: LinkUnificator>(m: StoreModel, url: Seq<char>)
    requires
        store_wf::<U>(m),
    ensures
        store_wf::<U>(offer_spec::<U>(m, url)),
        store_wf::<U>(take_spec(m).0),
{
    let m2 = offer_spec::<U>(m, url);
    if !m.visited.contains(U::unify_spec(url)) {
        assert forall|i: int| 0 <= i < m2.frontier.len() implies m2.visited.contains(
            U::unify_spec(#[trigger] m2.frontier[i]),
        ) by {
            if i < m.frontier.len() {
                assert(m2.frontier[i] == m.frontier[i]);
            } else {
                assert(m2.frontier[i] == url);
            }
        }
        assert forall|i: int, j: int| 0 <= i < j < m2.frontier.len() implies U::unify_spec(
            #[trigger] m2.frontier[i],
        ) != U::unify_spec(#[trigger] m2.frontier[j]) by {
            if j < m.frontier.len() {
            } else {
                assert(m2.frontier[j] == url);
                assert(m2.frontier[i] == m.frontier[i]);
            }
        }
    }
    let m3 = take_spec(m).0;
    assert forall|i: int| 0 <= i < m3.frontier.len() implies m3.visited.contains(
        U::unify_spec(#[trigger] m3.frontier[i]),
    ) by {
        assert(m3.frontier[i] == m.frontier[i]);
    }
    assert forall|i: int, j: int| 0 <= i < j < m3.frontier.len() implies U::unify_spec(
        #[trigger] m3.frontier[i],
    ) != U::unify_spec(#[trigger] m3.frontier[j]) by {
        assert(m3.frontier[i] == m.frontier[i]);
        assert(m3.frontier[j] == m.frontier[j]);
    }
}

} // verus!
