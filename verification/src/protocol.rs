//! The crawl as a whole: the collector, the workers, and what lies between
//! them.
//!
//! The frontier is one party of a crawl. The others are the work queue, the
//! workers that take URLs out of it and fetch them, and the channel on which
//! their results travel back. This module follows a URL through all of them:
//! it is discovered, waits in the queue, is taken by a worker, comes back as
//! a result, and is taken in by the collector. The steps may come in any
//! order that the parties allow. Whatever the order, the count of the
//! frontier is the number of URLs that are under way, work can go on for as
//! long as the count is not zero, and on a finite site it cannot go on for
//! ever.

use vstd::prelude::*;
use crate::distinct::lemma_prefix_contains;
use crate::frontier::{FrontierView, ResultView};
use crate::run::{
    failures_of, is_path, is_run_of, lemma_failure_list, lemma_links_within, lemma_no_missed_link,
    lemma_observed, lemma_observed_all, lemma_run_counts, names_its_url, stays_within,
};

verus! {

/// Where a crawl stands.
pub struct CrawlState {
    /// The frontier as it was seeded.
    pub seeded: FrontierView,
    /// The URLs whose results the collector has taken in, in that order.
    pub visits: Seq<Seq<char>>,
    /// The results that the collector has taken in, in that order.
    pub results: Seq<ResultView>,
    /// How many URLs the workers have taken out of the work queue. The
    /// queue is first in, first out, so these are the first so many of the
    /// discovered URLs.
    pub taken: int,
    /// The URLs that a worker has taken and is still fetching.
    pub fetching: Set<Seq<char>>,
    /// The results that are on their way to the collector, each with the URL
    /// that it is the result for.
    pub sent: Seq<(Seq<char>, ResultView)>,
    /// The termination flag.
    pub done: bool,
}

/// What one of the parties does next.
pub enum Step {
    /// A worker takes the oldest URL out of the work queue.
    Steal,
    /// The fetch of this URL is back, and the worker sends this result.
    Report(Seq<char>, ResultView),
    /// The collector takes the result at this place of the channel in.
    Collect(int),
    /// The collector sets the termination flag.
    Finish,
}

impl CrawlState {
    /// The beginning: the frontier is seeded, and nothing else has happened.
    pub open spec fn init(seeded: FrontierView) -> CrawlState {
        CrawlState {
            seeded,
            visits: Seq::empty(),
            results: Seq::empty(),
            taken: 0,
            fetching: Set::empty(),
            sent: Seq::empty(),
            done: false,
        }
    }

    /// The frontier as it is now.
    pub open spec fn frontier(self) -> FrontierView {
        self.seeded.observed_all(self.results)
    }

    /// The work queue: the discovered URLs that no worker has taken,
    /// oldest first.
    pub open spec fn queued(self) -> Seq<Seq<char>> {
        self.frontier().links.skip(self.taken)
    }

    /// Whether a step can be taken. A worker can take a URL when the queue
    /// holds one, and report for a URL that it is fetching, with whatever
    /// the fetch gave. The collector can take in any result that is on its
    /// way, and sets the flag once when no unit of work is out.
    pub open spec fn enabled(self, step: Step) -> bool {
        match step {
            Step::Steal => self.queued().len() > 0,
            Step::Report(url, _) => self.fetching.contains(url),
            Step::Collect(at) => 0 <= at < self.sent.len(),
            Step::Finish => self.frontier().complete() && !self.done,
        }
    }

    /// Where the crawl stands after a step.
    pub open spec fn next(self, step: Step) -> CrawlState {
        match step {
            Step::Steal => CrawlState {
                taken: self.taken + 1,
                fetching: self.fetching.insert(self.queued()[0]),
                ..self
            },
            Step::Report(url, result) => CrawlState {
                fetching: self.fetching.remove(url),
                sent: self.sent.push((url, result)),
                ..self
            },
            Step::Collect(at) => CrawlState {
                visits: self.visits.push(self.sent[at].0),
                results: self.results.push(self.sent[at].1),
                sent: self.sent.remove(at),
                ..self
            },
            Step::Finish => CrawlState { done: true, ..self },
        }
    }

    /// Whether `url` has been taken out of the work queue.
    pub open spec fn was_taken(self, url: Seq<char>) -> bool {
        self.frontier().links.take(self.taken).contains(url)
    }

    /// What holds at every moment of a crawl. The URLs that were taken out
    /// of the queue are each in one place: with a worker, on the channel, or
    /// taken in by the collector. The results that the collector has taken in
    /// are a run of the frontier. And the flag is set only when the crawl is
    /// over.
    pub open spec fn inv(self) -> bool {
        &&& self.seeded.is_fresh()
        &&& self.seeded.is_run(self.visits, self.results)
        &&& 0 <= self.taken <= self.frontier().links.len()
        &&& self.fetching.finite()
        &&& self.fetching.len() + self.sent.len() + self.visits.len() == self.taken
        &&& forall|url: Seq<char>| #[trigger] self.fetching.contains(url) ==> self.was_taken(url)
        &&& forall|i: int| 0 <= i < self.sent.len() ==> self.was_taken((#[trigger] self.sent[i]).0)
        &&& forall|j: int| 0 <= j < self.visits.len() ==> self.was_taken(#[trigger] self.visits[j])
        &&& forall|i: int| 0 <= i < self.sent.len() ==> !self.fetching.contains((#[trigger] self.sent[i]).0)
        &&& forall|j: int| 0 <= j < self.visits.len() ==> !self.fetching.contains(#[trigger] self.visits[j])
        &&& forall|i: int, j: int|
            0 <= i < self.sent.len() && 0 <= j < self.visits.len() ==> (#[trigger] self.sent[i]).0
                != #[trigger] self.visits[j]
        &&& forall|i: int, j: int|
            0 <= i < j < self.sent.len() ==> (#[trigger] self.sent[i]).0 != (#[trigger] self.sent[j]).0
        &&& self.done ==> self.frontier().complete()
    }

    /// Whether the crawl has stayed within `universe`: the URLs it began
    /// with and the URLs of every result so far are of it.
    pub open spec fn within(self, universe: Set<Seq<char>>) -> bool {
        &&& self.seeded.links.to_set().subset_of(universe)
        &&& forall|k: int| 0 <= k < self.results.len() ==> stays_within(#[trigger] self.results[k], universe)
        &&& forall|i: int| 0 <= i < self.sent.len() ==> stays_within((#[trigger] self.sent[i]).1, universe)
    }

    /// Whether every result so far is what `site` says of the URL that it is
    /// the result for.
    pub open spec fn follows(self, site: spec_fn(Seq<char>) -> ResultView) -> bool {
        &&& is_run_of(site, self.visits, self.results)
        &&& forall|i: int| 0 <= i < self.sent.len() ==> (#[trigger] self.sent[i]).1 == site(self.sent[i].0)
    }

    /// How far the crawl has come: every URL counts once when it is
    /// discovered, once when it is taken, once when its result is sent and
    /// once when the result is taken in, and the flag counts once.
    pub open spec fn progress(self) -> int {
        self.frontier().links.len() + self.taken + (self.taken - self.fetching.len()) + self.visits.len()
            + if self.done {
            1int
        } else {
            0int
        }
    }
}

/// A crawl begins well.
pub proof fn lemma_init(seeded: FrontierView)
    requires
        seeded.is_fresh(),
    ensures
        CrawlState::init(seeded).inv(),
        CrawlState::init(seeded).frontier() == seeded,
        CrawlState::init(seeded).queued() == seeded.links,
{
    let state = CrawlState::init(seeded);
    assert(state.results.take(0) =~= state.results);
    assert(state.queued() =~= seeded.links);
}

/// The count says what is under way. At every moment of a crawl the units
/// of work that are out are the URLs in the queue, the URLs that are being
/// fetched, and the results on their way to the collector.
pub proof fn lemma_pending(state: CrawlState)
    requires
        state.inv(),
    ensures
        state.frontier().links.no_duplicates(),
        state.frontier().pending == state.queued().len() + state.fetching.len() + state.sent.len(),
        state.frontier().pending >= 0,
{
    lemma_observed_all(state.seeded, state.results);
}

/// When the collector takes a result in, a unit of work is out: the call of
/// `observe` is in order.
pub proof fn lemma_collect_is_due(state: CrawlState, at: int)
    requires
        state.inv(),
        state.enabled(Step::Collect(at)),
    ensures
        state.frontier().pending > 0,
        state.next(Step::Collect(at)).frontier() == state.frontier().observed(state.sent[at].1),
{
    lemma_pending(state);
    assert(state.results.push(state.sent[at].1).drop_last() =~= state.results);
}

/// No deadlock. As long as the crawl is not over, one of the parties can do
/// something: a worker can take a URL or report, or the collector can take a
/// result in.
pub proof fn lemma_no_deadlock(state: CrawlState) -> (step: Step)
    requires
        state.inv(),
        !state.frontier().complete(),
    ensures
        state.enabled(step),
        !(step is Finish),
{
    lemma_pending(state);
    if state.queued().len() > 0 {
        Step::Steal
    } else if state.sent.len() > 0 {
        Step::Collect(0)
    } else {
        assert(state.fetching.len() > 0);
        let url = state.fetching.choose();
        Step::Report(url, ResultView::Discovered(Seq::empty()))
    }
}

/// Nothing is left behind. When the crawl is over, the queue is empty, no
/// worker is fetching, and no result is on its way; and the flag is set only
/// then.
pub proof fn lemma_quiet_when_over(state: CrawlState)
    requires
        state.inv(),
        state.frontier().complete(),
    ensures
        state.queued().len() == 0,
        state.fetching.len() == 0,
        state.sent.len() == 0,
        state.visits.to_set() == state.frontier().links.to_set(),
        forall|step: Step| state.enabled(step) ==> step is Finish,
{
    lemma_pending(state);
    assert(state.fetching =~= Set::empty());
    lemma_run_counts(state.seeded, state.visits, state.results);
}

/// Every step keeps the crawl in order.
pub proof fn lemma_step(state: CrawlState, step: Step)
    requires
        state.inv(),
        state.enabled(step),
    ensures
        state.next(step).inv(),
        state.next(step).progress() > state.progress(),
{
    let after = state.next(step);
    let links = state.frontier().links;
    lemma_pending(state);
    match step {
        Step::Steal => {
            let url = state.queued()[0];
            assert(url == links[state.taken]);
            // A URL that waits in the queue is in no other place.
            assert(!state.was_taken(url));
            assert(links.take(state.taken + 1)[state.taken] == url);
            assert forall|other: Seq<char>| state.was_taken(other) implies after.was_taken(other) by {
                lemma_prefix_contains(links.take(state.taken), links.take(state.taken + 1), other);
            }
        },
        Step::Report(url, result) => {
            assert forall|i: int| 0 <= i < after.sent.len() implies after.was_taken(
                (#[trigger] after.sent[i]).0,
            ) by {
                if i < state.sent.len() {
                    assert(after.sent[i] == state.sent[i]);
                } else {
                    assert(after.sent[i] == (url, result));
                    assert(state.was_taken(url));
                }
            }
            assert forall|i: int, j: int| 0 <= i < j < after.sent.len() implies (#[trigger] after.sent[i]).0 != (
            #[trigger] after.sent[j]).0 by {
                assert(after.sent[i] == state.sent[i]);
                if j < state.sent.len() {
                    assert(after.sent[j] == state.sent[j]);
                }
            }
        },
        Step::Collect(at) => {
            let (url, result) = state.sent[at];
            let grown = after.frontier().links;
            lemma_collect_is_due(state, at);
            lemma_observed(state.frontier(), result);
            // What was discovered stays in place, and so does what was taken.
            assert(grown.take(state.taken) =~= links.take(state.taken));
            assert(state.seeded.is_run(after.visits, after.results)) by {
                assert forall|k: int| 0 <= k < after.visits.len() implies state.seeded.observed_all(
                    after.results.take(k),
                ).links.contains(#[trigger] after.visits[k]) by {
                    if k < state.visits.len() {
                        assert(after.results.take(k) =~= state.results.take(k));
                        assert(after.visits[k] == state.visits[k]);
                    } else {
                        assert(after.results.take(k) =~= state.results);
                        assert(state.was_taken(state.sent[at].0));
                        lemma_prefix_contains(links.take(state.taken), links, url);
                    }
                }
            }
            assert forall|i: int| 0 <= i < after.sent.len() implies {
                &&& after.was_taken((#[trigger] after.sent[i]).0)
                &&& !after.fetching.contains(after.sent[i].0)
                &&& after.sent[i].0 != url
            } by {
                if i < at {
                    assert(after.sent[i] == state.sent[i]);
                } else {
                    assert(after.sent[i] == state.sent[i + 1]);
                }
            }
            assert forall|i: int, j: int| 0 <= i < j < after.sent.len() implies (#[trigger] after.sent[i]).0 != (
            #[trigger] after.sent[j]).0 by {
                let from = if i < at { i } else { i + 1 };
                let to = if j < at { j } else { j + 1 };
                assert(after.sent[i] == state.sent[from] && after.sent[j] == state.sent[to]);
            }
            assert forall|i: int, j: int|
                0 <= i < after.sent.len() && 0 <= j < after.visits.len() implies (#[trigger] after.sent[i]).0
                != #[trigger] after.visits[j] by {
                let from = if i < at { i } else { i + 1 };
                assert(after.sent[i] == state.sent[from]);
                if j < state.visits.len() {
                    assert(after.visits[j] == state.visits[j]);
                }
            }
        },
        Step::Finish => {},
    }
}

/// The flag is set only when the crawl is over, and a crawl that is over
/// stays over.
pub proof fn lemma_done_is_over(state: CrawlState)
    requires
        state.inv(),
        state.done,
    ensures
        state.frontier().complete(),
        forall|step: Step| !state.enabled(step),
{
    lemma_quiet_when_over(state);
}

/// Staying within a universe is kept by every step that does not bring a URL
/// from outside it.
pub proof fn lemma_step_within(state: CrawlState, step: Step, universe: Set<Seq<char>>)
    requires
        state.inv(),
        state.within(universe),
        state.enabled(step),
        step matches Step::Report(_, result) ==> stays_within(result, universe),
    ensures
        state.next(step).within(universe),
{
    let after = state.next(step);
    match step {
        Step::Report(url, result) => {
            assert forall|i: int| 0 <= i < after.sent.len() implies stays_within(
                (#[trigger] after.sent[i]).1,
                universe,
            ) by {
                if i < state.sent.len() {
                    assert(after.sent[i] == state.sent[i]);
                }
            }
        },
        Step::Collect(at) => {
            assert forall|k: int| 0 <= k < after.results.len() implies stays_within(
                #[trigger] after.results[k],
                universe,
            ) by {
                if k < state.results.len() {
                    assert(after.results[k] == state.results[k]);
                } else {
                    assert(stays_within(state.sent[at].1, universe));
                }
            }
            assert forall|i: int| 0 <= i < after.sent.len() implies stays_within(
                (#[trigger] after.sent[i]).1,
                universe,
            ) by {
                let from = if i < at { i } else { i + 1 };
                assert(after.sent[i] == state.sent[from]);
            }
        },
        _ => {},
    }
}

/// A crawl of a finite site ends. Every step takes the crawl further, and
/// within a finite universe it cannot get further than four steps for each
/// URL and one for the flag: so after at most that many steps no step is
/// left, and by then the crawl is over and the flag is set.
pub proof fn lemma_progress_is_bounded(state: CrawlState, universe: Set<Seq<char>>)
    requires
        state.inv(),
        state.within(universe),
        universe.finite(),
    ensures
        0 <= state.progress() <= 4 * universe.len() + 1,
        (forall|step: Step| !state.enabled(step)) ==> state.done && state.frontier().complete(),
{
    let links = state.frontier().links;
    lemma_pending(state);
    lemma_links_within(state.seeded, state.results, universe);
    links.unique_seq_to_set();
    vstd::set_lib::lemma_len_subset(links.to_set(), universe);
    if forall|step: Step| !state.enabled(step) {
        if !state.frontier().complete() {
            let step = lemma_no_deadlock(state);
        }
        assert(!state.enabled(Step::Finish));
    }
}

/// Following a site is kept by every step in which a worker reports what the
/// site says.
pub proof fn lemma_step_follows(state: CrawlState, step: Step, site: spec_fn(Seq<char>) -> ResultView)
    requires
        state.inv(),
        state.follows(site),
        state.enabled(step),
        step matches Step::Report(url, result) ==> result == site(url),
    ensures
        state.next(step).follows(site),
{
    let after = state.next(step);
    match step {
        Step::Report(url, result) => {
            assert forall|i: int| 0 <= i < after.sent.len() implies (#[trigger] after.sent[i]).1 == site(
                after.sent[i].0,
            ) by {
                if i < state.sent.len() {
                    assert(after.sent[i] == state.sent[i]);
                }
            }
        },
        Step::Collect(at) => {
            assert forall|k: int| 0 <= k < after.visits.len() implies after.results[k] == site(
                #[trigger] after.visits[k],
            ) by {
                if k < state.visits.len() {
                    assert(after.visits[k] == state.visits[k]);
                }
            }
            assert forall|i: int| 0 <= i < after.sent.len() implies (#[trigger] after.sent[i]).1 == site(
                after.sent[i].0,
            ) by {
                let from = if i < at { i } else { i + 1 };
                assert(after.sent[i] == state.sent[from]);
            }
        },
        _ => {},
    }
}

/// The crawl finds the site. When a crawl is over, every URL that a path of
/// links leads to from a URL it began with has been discovered.
pub proof fn lemma_crawl_finds_the_site(
    state: CrawlState,
    site: spec_fn(Seq<char>) -> ResultView,
    path: Seq<Seq<char>>,
)
    requires
        state.inv(),
        state.follows(site),
        state.frontier().complete(),
        is_path(site, state.seeded.links, path),
    ensures
        state.frontier().links.contains(path.last()),
{
    lemma_no_missed_link(state.seeded, site, state.visits, state.results, path);
}

/// The crawl records every failure once. Where the site's failures name the
/// URL that failed, as a worker's do, and the crawl began without failures,
/// its failure list holds the failures among the results taken in and
/// nothing else, and they are for pairwise different URLs.
pub proof fn lemma_crawl_fails_once(state: CrawlState, site: spec_fn(Seq<char>) -> ResultView)
    requires
        state.inv(),
        state.follows(site),
        state.seeded.failures.len() == 0,
        forall|url: Seq<char>| (#[trigger] site(url) matches ResultView::Failed(named, _) ==> named == url),
    ensures
        state.frontier().failures == failures_of(state.results),
        forall|i: int, j: int|
            0 <= i < j < state.frontier().failures.len() ==> (#[trigger] state.frontier().failures[i]).0 != (
            #[trigger] state.frontier().failures[j]).0,
        forall|i: int|
            0 <= i < state.frontier().failures.len() ==> state.frontier().links.contains(
                (#[trigger] state.frontier().failures[i]).0,
            ),
{
    assert(names_its_url(state.visits, state.results)) by {
        assert forall|k: int| 0 <= k < state.results.len() implies (
        #[trigger] state.results[k] matches ResultView::Failed(url, _) ==> url == state.visits[k]) by {
            assert(state.results[k] == site(state.visits[k]));
        }
    }
    lemma_failure_list(state.seeded, state.visits, state.results);
}

} // verus!
