//! The frontier of a crawl and the count that tells when it is over.
//!
//! A [`Frontier`] belongs to the one thread that collects results. It knows
//! every URL discovered so far, hands each to the work queue once, the moment
//! it is discovered, and counts the units of work that are out: one for each
//! URL handed over that has not reported back. The crawl is over when that
//! count is zero.

use vstd::prelude::*;
use vstd::hash_set::StringHashSet;
use crossbeam_deque::{Stealer, Worker};
use crate::distinct::{extend_new, lemma_extend_new, lemma_extend_new_one, lemma_push_new, push_new};
use crate::page_url::{joined, path_of, query_of, without_query, PageUrl};
use crate::queue::{pushed, queue_new, queue_push, queue_stealer, steals_from};

verus! {

/// What became of one unit of work.
#[derive(Debug, PartialEq, Eq)]
pub enum CrawlResult {
    /// The page was fetched; these are the links found on it.
    Discovered(Vec<String>),
    /// The fetch of this URL failed, with this message.
    Failed(String, String),
}

/// A [`CrawlResult`] as plain text.
pub enum ResultView {
    /// The links found on the page.
    Discovered(Seq<Seq<char>>),
    /// The URL whose fetch failed, and the message.
    Failed(Seq<char>, Seq<char>),
}

impl View for CrawlResult {
    type V = ResultView;

    open spec fn view(&self) -> ResultView {
        match self {
            CrawlResult::Discovered(urls) => ResultView::Discovered(urls.deep_view()),
            CrawlResult::Failed(url, error) => ResultView::Failed(url@, error@),
        }
    }
}

/// Whether a URL with this path and this query string is a page of its site
/// and not the site's root: its path is not `/`, or it has a query string.
pub open spec fn is_page(path: Seq<char>, query: Option<Seq<char>>) -> bool {
    path != "/"@ || query.is_some()
}

/// Whether a crawl that starts at `start` seeds the root of its site too: it
/// does when the start URL is a page of the site.
pub open spec fn starts_on_page(start: Seq<char>) -> bool {
    is_page(path_of(start), query_of(start))
}

/// The root of the site of `start`: `/` resolved against it, without a query
/// string. `None` where `/` does not resolve against `start`.
pub open spec fn root_of(start: Seq<char>) -> Option<Seq<char>> {
    match joined(start, "/"@) {
        Some(root) => Some(without_query(root)),
        None => None,
    }
}

/// The URLs that a crawl from `start` begins with: the start URL, and behind
/// it the root of its site where the start URL is a page and the site has a
/// root.
pub open spec fn seeds(start: Seq<char>) -> Seq<Seq<char>> {
    if starts_on_page(start) && root_of(start).is_some() {
        seq![start, root_of(start).unwrap()]
    } else {
        seq![start]
    }
}

/// Whether a crawl that starts at a URL with this path and this query string
/// seeds the root of its site too.
pub fn needs_root(path: &String, query: &Option<String>) -> (needed: bool)
    ensures
        needed == is_page(path@, query.deep_view()),
{
    let slash = "/".to_owned();
    *path != slash || query.is_some()
}

/// The state of a frontier.
pub struct FrontierView {
    /// The URLs discovered so far, in the order of discovery. It is also the
    /// order in which they went to the work queue.
    pub links: Seq<Seq<char>>,
    /// The units of work that are out.
    pub pending: int,
    /// The fetches that failed, as URL and message, in the order of arrival.
    pub failures: Seq<(Seq<char>, Seq<char>)>,
}

impl FrontierView {
    /// Nothing discovered, nothing out.
    pub open spec fn empty() -> FrontierView {
        FrontierView { links: Seq::empty(), pending: 0, failures: Seq::empty() }
    }

    /// The state with the new URLs among `urls` taken in, one more unit of
    /// work out for each.
    pub open spec fn enqueued(self, urls: Seq<Seq<char>>) -> FrontierView {
        let links = extend_new(self.links, urls);
        FrontierView { links, pending: self.pending + (links.len() - self.links.len()), ..self }
    }

    /// The state after seeding a crawl from `start`.
    pub open spec fn seeded(self, start: Seq<char>) -> FrontierView {
        self.enqueued(seeds(start))
    }

    /// The state after one result. Either way one unit of work is back. A
    /// page's new links are taken in; a failure is recorded.
    pub open spec fn observed(self, result: ResultView) -> FrontierView {
        match result {
            ResultView::Discovered(urls) => {
                let taken = self.enqueued(urls);
                FrontierView { pending: taken.pending - 1, ..taken }
            },
            ResultView::Failed(url, error) => FrontierView {
                pending: self.pending - 1,
                failures: self.failures.push((url, error)),
                ..self
            },
        }
    }

    /// The state after a run of results, taken in order.
    pub open spec fn observed_all(self, results: Seq<ResultView>) -> FrontierView
        decreases results.len(),
    {
        if results.len() == 0 {
            self
        } else {
            self.observed_all(results.drop_last()).observed(results.last())
        }
    }

    /// Whether the crawl is over: no unit of work is out.
    pub open spec fn complete(self) -> bool {
        self.pending == 0
    }
}

/// The frontier of one crawl.
pub struct Frontier {
    /// The discovered URLs, to look one up.
    visited: StringHashSet,
    /// The discovered URLs, in the order of discovery.
    links: Vec<String>,
    /// The units of work that are out.
    pending: usize,
    /// The fetches that failed, as URL and message.
    failures: Vec<(String, String)>,
    /// The work queue. Every discovered URL is pushed onto it once.
    queue: Worker<String>,
}

impl View for Frontier {
    type V = FrontierView;

    closed spec fn view(&self) -> FrontierView {
        FrontierView {
            links: self.links.deep_view(),
            pending: self.pending as int,
            failures: self.failures.deep_view(),
        }
    }
}

impl Frontier {
    /// What this frontier has pushed onto its work queue, oldest first.
    pub closed spec fn handed_out(&self) -> Seq<Seq<char>> {
        pushed(self.queue)
    }

    /// Whether `stealer` is a handle on this frontier's work queue: what it
    /// takes is what this frontier has handed out.
    pub closed spec fn feeds(&self, stealer: Stealer<String>) -> bool {
        steals_from(stealer, self.queue)
    }

    /// Whether every handle on the work queue of `before` is a handle on
    /// this frontier's work queue.
    pub open spec fn keeps_handles(&self, before: &Frontier) -> bool {
        forall|stealer: Stealer<String>| #[trigger] before.feeds(stealer) ==> self.feeds(stealer)
    }

    /// The invariant: the set of visited URLs holds the discovered URLs and
    /// no others, no URL was discovered twice, the work queue was handed
    /// the discovered URLs in their order, and no more units of work are out
    /// than URLs were handed over.
    pub closed spec fn wf(&self) -> bool {
        &&& self.visited@ == self.links.deep_view().to_set()
        &&& self.links.deep_view().no_duplicates()
        &&& pushed(self.queue) == self.links.deep_view()
        &&& self.pending <= self.links.len()
    }

    /// What the invariant says of the state.
    pub proof fn lemma_wf(&self)
        requires
            self.wf(),
        ensures
            self@.links.no_duplicates(),
            self.handed_out() == self@.links,
            0 <= self@.pending <= self@.links.len(),
    {
    }

    /// A frontier that knows no URL yet, with a work queue of its own.
    pub fn new() -> (frontier: Frontier)
        ensures
            frontier.wf(),
            frontier@ == FrontierView::empty(),
    {
        let frontier = Frontier {
            visited: StringHashSet::new(),
            links: Vec::new(),
            pending: 0,
            failures: Vec::new(),
            queue: queue_new(),
        };
        assert(frontier.links.deep_view() =~= Seq::empty());
        assert(frontier.failures.deep_view() =~= Seq::empty());
        assert(frontier.visited@ =~= frontier.links.deep_view().to_set());
        frontier
    }

    /// Takes `url` in unless it is known: a new URL joins the discovered
    /// ones, goes to the work queue, and counts as one more unit of work.
    /// Says whether it was new.
    fn enqueue(&mut self, url: &str) -> (fresh: bool)
        requires
            old(self).wf(),
        ensures
            final(self).wf(),
            fresh == !old(self)@.links.contains(url@),
            final(self)@.links == push_new(old(self)@.links, url@),
            final(self)@.pending == old(self)@.pending + if fresh { 1int } else { 0int },
            final(self)@.failures == old(self)@.failures,
            final(self).keeps_handles(old(self)),
    {
        if self.visited.contains(url) {
            return false;
        }
        let ghost known = self.links.deep_view();
        proof {
            lemma_push_new(known, url@);
        }
        let owned = url.to_owned();
        self.visited.insert(owned.clone());
        self.links.push(owned.clone());
        queue_push(&mut self.queue, owned);
        assert(self.links.deep_view() =~= known.push(url@));
        // No more units are out than URLs are discovered, so the count has
        // room for one more.
        let discovered: usize = self.links.len();
        assert(self.pending < discovered);
        self.pending = self.pending + 1;
        true
    }

    /// Seeds the crawl: takes in the URLs of [`seeds`] and returns how many
    /// of them were new. On a frontier that knows no URL that is 1 or 2. The
    /// handles on the work queue stay what they are.
    pub fn seed(&mut self, start: &PageUrl) -> (units: usize)
        requires
            old(self).wf(),
        ensures
            final(self).wf(),
            final(self)@ == old(self)@.seeded(start@),
            units == final(self)@.links.len() - old(self)@.links.len(),
            old(self)@.links.len() == 0 ==> 1 <= units <= 2,
            final(self).keeps_handles(old(self)),
    {
        let ghost known = self@.links;
        let mut units: usize = 0;
        proof {
            lemma_extend_new_one(known, Seq::empty(), start@);
            assert(Seq::<Seq<char>>::empty().push(start@) =~= seq![start@]);
        }
        if self.enqueue(start.as_str()) {
            units = units + 1;
        }
        if needs_root(&start.path(), &start.query()) {
            match start.join("/") {
                Some(root) => {
                    let root = root.without_query();
                    proof {
                        lemma_extend_new_one(known, seq![start@], root@);
                        assert(seq![start@].push(root@) =~= seq![start@, root@]);
                    }
                    if self.enqueue(root.as_str()) {
                        units = units + 1;
                    }
                },
                None => {},
            }
        }
        units
    }

    /// Takes one result in and returns the units of work still out. A page's
    /// links are taken in order, each new one as [`Frontier::seed`] takes a
    /// seed; a failure is recorded. The unit of work that the result answers
    /// is counted back either way, so one has to be out. The handles on the
    /// work queue stay what they are.
    pub fn observe(&mut self, result: CrawlResult) -> (pending: usize)
        requires
            old(self).wf(),
            old(self)@.pending > 0,
        ensures
            final(self).wf(),
            final(self)@ == old(self)@.observed(result@),
            pending == final(self)@.pending,
            final(self).keeps_handles(old(self)),
    {
        match result {
            CrawlResult::Discovered(urls) => {
                let ghost known = self@.links;
                let mut i: usize = 0;
                assert(urls.deep_view().take(0) =~= Seq::empty());
                while i < urls.len()
                    invariant
                        i <= urls.len(),
                        self.wf(),
                        known == old(self)@.links,
                        self@.links == extend_new(known, urls.deep_view().take(i as int)),
                        self@.pending == old(self)@.pending + (self@.links.len() - known.len()),
                        self@.failures == old(self)@.failures,
                        self.keeps_handles(old(self)),
                    decreases urls.len() - i,
                {
                    let ghost read = urls.deep_view().take(i as int);
                    proof {
                        lemma_extend_new_one(known, read, urls[i as int]@);
                        assert(urls.deep_view().take(i + 1) =~= read.push(urls[i as int]@));
                    }
                    self.enqueue(urls[i].as_str());
                    i += 1;
                }
                assert(urls.deep_view().take(i as int) =~= urls.deep_view());
                // Nothing discovered was dropped, so the unit that this
                // result answers is still counted.
                proof {
                    lemma_extend_new(known, urls.deep_view());
                }
                self.pending = self.pending - 1;
            },
            CrawlResult::Failed(url, error) => {
                let ghost failed = self.failures.deep_view();
                self.failures.push((url, error));
                self.pending = self.pending - 1;
                assert(self.failures.deep_view() =~= failed.push((url@, error@)));
            },
        }
        self.pending
    }

    /// The units of work that are out.
    pub fn pending(&self) -> (pending: usize)
        ensures
            pending == self@.pending,
    {
        self.pending
    }

    /// Whether the crawl is over.
    pub fn is_complete(&self) -> (complete: bool)
        ensures
            complete == self@.complete(),
    {
        self.pending == 0
    }

    /// The URLs discovered so far, in the order of discovery.
    pub fn links(&self) -> (links: &Vec<String>)
        ensures
            links.deep_view() == self@.links,
    {
        &self.links
    }

    /// The fetches that failed so far, as URL and message.
    pub fn failures(&self) -> (failures: &Vec<(String, String)>)
        ensures
            failures.deep_view() == self@.failures,
    {
        &self.failures
    }

    /// Whether `url` has been discovered.
    pub fn contains(&self, url: &str) -> (known: bool)
        requires
            self.wf(),
        ensures
            known == self@.links.contains(url@),
    {
        self.visited.contains(url)
    }

    /// A handle for a worker: it takes URLs out of this frontier's work
    /// queue, those that the frontier has handed out and those that it will.
    pub fn stealer(&self) -> (stealer: Stealer<String>)
        ensures
            self.feeds(stealer),
    {
        queue_stealer(&self.queue)
    }

    /// Ends the crawl: the discovered URLs and the failures.
    pub fn into_parts(self) -> (parts: (Vec<String>, Vec<(String, String)>))
        ensures
            parts.0.deep_view() == self@.links,
            parts.1.deep_view() == self@.failures,
    {
        (self.links, self.failures)
    }
}

} // verus!
