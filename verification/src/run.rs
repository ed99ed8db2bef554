//! What holds of a frontier after any run of results.
//!
//! The collector sees results in whatever order the workers finish. Nothing
//! here depends on that order: the statements are about every sequence of
//! results, and where they need it, about every sequence in which each result
//! answers a URL that was handed out and has not reported before.

use vstd::prelude::*;
use crate::distinct::{extend_new, lemma_distinct_within, lemma_extend_new, lemma_prefix_contains};
use crate::crawler::stays_on_host;
use crate::frontier::{seeds, FrontierView, ResultView};
use crate::links::is_internal;

verus! {

impl FrontierView {
    /// The units of work that have reported back: those handed out less
    /// those still out.
    pub open spec fn reported(self) -> int {
        self.links.len() - self.pending
    }

    /// A state in which nothing has reported back yet and no URL is held
    /// twice, as after seeding.
    pub open spec fn is_fresh(self) -> bool {
        self.links.no_duplicates() && self.pending == self.links.len()
    }

    /// Whether `results` can arrive from this state on, `visits[k]` being the
    /// URL that `results[k]` is the result for: every result answers a URL
    /// that was handed out before the result came, and no URL reports twice.
    pub open spec fn is_run(self, visits: Seq<Seq<char>>, results: Seq<ResultView>) -> bool {
        &&& visits.len() == results.len()
        &&& visits.no_duplicates()
        &&& forall|k: int|
            0 <= k < visits.len() ==> self.observed_all(results.take(k)).links.contains(
                #[trigger] visits[k],
            )
    }
}

/// The URLs that a result brings: the links of the page, or none where the
/// fetch failed.
pub open spec fn found(result: ResultView) -> Seq<Seq<char>> {
    match result {
        ResultView::Discovered(urls) => urls,
        ResultView::Failed(_, _) => Seq::empty(),
    }
}

/// Whether `path` leads from one of `starts` along links: `site` says for
/// each URL what a worker reports for it, and each URL of the path but the
/// first is found on the page before it.
pub open spec fn is_path(
    site: spec_fn(Seq<char>) -> ResultView,
    starts: Seq<Seq<char>>,
    path: Seq<Seq<char>>,
) -> bool {
    &&& path.len() >= 1
    &&& starts.contains(path[0])
    &&& forall|i: int| 0 <= i < path.len() - 1 ==> found(site(#[trigger] path[i])).contains(path[i + 1])
}

/// Whether the results of a run are what `site` says of the URLs they
/// answer.
pub open spec fn is_run_of(
    site: spec_fn(Seq<char>) -> ResultView,
    visits: Seq<Seq<char>>,
    results: Seq<ResultView>,
) -> bool {
    &&& visits.len() == results.len()
    &&& forall|k: int| 0 <= k < visits.len() ==> results[k] == site(#[trigger] visits[k])
}

/// The failures among a run of results, as URL and message, in the order of
/// arrival.
pub open spec fn failures_of(results: Seq<ResultView>) -> Seq<(Seq<char>, Seq<char>)>
    decreases results.len(),
{
    if results.len() == 0 {
        Seq::empty()
    } else {
        let earlier = failures_of(results.drop_last());
        match results.last() {
            ResultView::Discovered(_) => earlier,
            ResultView::Failed(url, error) => earlier.push((url, error)),
        }
    }
}

/// Whether every failure among the results names the URL that it is the
/// result for, as a worker's report does.
pub open spec fn names_its_url(visits: Seq<Seq<char>>, results: Seq<ResultView>) -> bool {
    &&& visits.len() == results.len()
    &&& forall|k: int|
        0 <= k < results.len() ==> (#[trigger] results[k] matches ResultView::Failed(url, _) ==> url
            == visits[k])
}

/// Whether every URL that `result` brings is one of `universe`.
pub open spec fn stays_within(result: ResultView, universe: Set<Seq<char>>) -> bool {
    match result {
        ResultView::Discovered(urls) => forall|i: int|
            0 <= i < urls.len() ==> universe.contains(#[trigger] urls[i]),
        ResultView::Failed(_, _) => true,
    }
}

/// Taking URLs in keeps what was discovered in place, adds exactly the URLs
/// that were not known, keeps the discovered URLs free of duplicates, and
/// counts no unit of work as back.
pub proof fn lemma_enqueued(state: FrontierView, urls: Seq<Seq<char>>)
    ensures
        state.links.is_prefix_of(state.enqueued(urls).links),
        state.enqueued(urls).links.to_set() == state.links.to_set().union(urls.to_set()),
        state.links.no_duplicates() ==> state.enqueued(urls).links.no_duplicates(),
        state.enqueued(urls).reported() == state.reported(),
        state.enqueued(urls).failures == state.failures,
{
    lemma_extend_new(state.links, urls);
}

/// A seeded frontier that knew no URL before is fresh, has recorded no
/// failure, and holds one or two URLs, the first of which is the start URL.
pub proof fn lemma_seeded(start: Seq<char>)
    ensures
        FrontierView::empty().seeded(start).is_fresh(),
        FrontierView::empty().seeded(start).failures.len() == 0,
        1 <= FrontierView::empty().seeded(start).links.len() <= 2,
        FrontierView::empty().seeded(start).links[0] == start,
        FrontierView::empty().seeded(start).links.to_set() == seeds(start).to_set(),
{
    lemma_enqueued(FrontierView::empty(), seeds(start));
    assert(Seq::<Seq<char>>::empty().to_set().union(seeds(start).to_set()) =~= seeds(start).to_set());
    // The seeds are one URL or two; take them one at a time.
    reveal_with_fuel(extend_new, 3);
    if seeds(start).len() == 2 {
        assert(seeds(start).drop_last().drop_last() =~= Seq::<Seq<char>>::empty());
    } else {
        assert(seeds(start).drop_last() =~= Seq::<Seq<char>>::empty());
    }
}

/// One result: what was discovered stays in place and free of duplicates,
/// one more unit of work is back, every URL of a page is discovered from now
/// on, and a failure is recorded behind the earlier ones.
pub proof fn lemma_observed(state: FrontierView, result: ResultView)
    ensures
        state.links.is_prefix_of(state.observed(result).links),
        state.failures.is_prefix_of(state.observed(result).failures),
        state.links.no_duplicates() ==> state.observed(result).links.no_duplicates(),
        state.observed(result).reported() == state.reported() + 1,
        result matches ResultView::Discovered(urls) ==> forall|i: int|
            0 <= i < urls.len() ==> state.observed(result).links.contains(#[trigger] urls[i]),
        result matches ResultView::Failed(url, error) ==> state.observed(result).failures
            == state.failures.push((url, error)),
        result is Discovered ==> state.observed(result).failures == state.failures,
        result is Failed ==> state.observed(result).links == state.links,
{
    if let ResultView::Discovered(urls) = result {
        lemma_enqueued(state, urls);
        let after = state.observed(result).links;
        assert forall|i: int| 0 <= i < urls.len() implies after.contains(#[trigger] urls[i]) by {
            assert(urls.to_set().contains(urls[i]));
            assert(after.to_set().contains(urls[i]));
        }
    }
}

/// The state after the first `k` results is where the state after all of
/// them began: what it had discovered and recorded is still there, in
/// place.
pub proof fn lemma_observed_grows(state: FrontierView, results: Seq<ResultView>, k: int)
    requires
        0 <= k <= results.len(),
    ensures
        state.observed_all(results.take(k)).links.is_prefix_of(state.observed_all(results).links),
        state.observed_all(results.take(k)).failures.is_prefix_of(state.observed_all(results).failures),
    decreases results.len(),
{
    if k == results.len() {
        assert(results.take(k) =~= results);
    } else {
        let front = results.drop_last();
        assert(front.take(k) =~= results.take(k));
        lemma_observed_grows(state, front, k);
        lemma_observed(state.observed_all(front), results.last());
    }
}

/// Whatever results arrive, in whatever order: the discovered URLs stay free
/// of duplicates, so that no URL goes to the work queue twice; each result
/// counts one unit of work back; and what was discovered and recorded
/// before is still there, in place.
pub proof fn lemma_observed_all(state: FrontierView, results: Seq<ResultView>)
    ensures
        state.links.no_duplicates() ==> state.observed_all(results).links.no_duplicates(),
        state.observed_all(results).reported() == state.reported() + results.len(),
        state.links.is_prefix_of(state.observed_all(results).links),
        state.failures.is_prefix_of(state.observed_all(results).failures),
    decreases results.len(),
{
    if results.len() > 0 {
        lemma_observed_all(state, results.drop_last());
        lemma_observed(state.observed_all(results.drop_last()), results.last());
    }
}

/// A crawl hands no URL out twice: from the seeding on, whatever results
/// arrive, the URLs that went to the work queue are distinct.
pub proof fn lemma_no_duplicate_visits(start: Seq<char>, results: Seq<ResultView>)
    ensures
        FrontierView::empty().seeded(start).observed_all(results).links.no_duplicates(),
{
    lemma_seeded(start);
    lemma_observed_all(FrontierView::empty().seeded(start), results);
}

/// Nothing is lost: after a run of results every URL of every page among
/// them is discovered, and every failure among them is recorded.
pub proof fn lemma_nothing_lost(state: FrontierView, results: Seq<ResultView>, k: int)
    requires
        0 <= k < results.len(),
    ensures
        results[k] matches ResultView::Discovered(urls) ==> forall|i: int|
            0 <= i < urls.len() ==> state.observed_all(results).links.contains(#[trigger] urls[i]),
        results[k] matches ResultView::Failed(url, error) ==> state.observed_all(
            results,
        ).failures.contains((url, error)),
{
    // The state right after the result had it; the state at the end began
    // with that state.
    let upto = results.take(k + 1);
    let before = state.observed_all(upto.drop_last());
    let after = state.observed_all(upto);
    let end = state.observed_all(results);
    assert(upto.last() == results[k]);
    lemma_observed(before, results[k]);
    lemma_observed_grows(state, results, k + 1);
    match results[k] {
        ResultView::Discovered(urls) => {
            assert forall|i: int| 0 <= i < urls.len() implies end.links.contains(#[trigger] urls[i]) by {
                lemma_prefix_contains(after.links, end.links, urls[i]);
            }
        },
        ResultView::Failed(url, error) => {
            assert(after.failures[before.failures.len() as int] == (url, error));
            lemma_prefix_contains(after.failures, end.failures, (url, error));
        },
    }
}

/// The failure list is the record of the failed fetches, no more and no
/// less: after a run of results it holds what it held before and, behind
/// that, the failures among the results in the order of arrival.
pub proof fn lemma_failures(state: FrontierView, results: Seq<ResultView>)
    ensures
        state.observed_all(results).failures == state.failures + failures_of(results),
    decreases results.len(),
{
    if results.len() > 0 {
        lemma_failures(state, results.drop_last());
    }
    assert(state.observed_all(results).failures =~= state.failures + failures_of(results));
}

/// Every failure of a run is the failure of one of its results.
pub proof fn lemma_failure_was_reported(results: Seq<ResultView>, i: int) -> (k: int)
    requires
        0 <= i < failures_of(results).len(),
    ensures
        0 <= k < results.len(),
        results[k] == ResultView::Failed(failures_of(results)[i].0, failures_of(results)[i].1),
    decreases results.len(),
{
    let front = results.drop_last();
    if i < failures_of(front).len() {
        lemma_failure_was_reported(front, i)
    } else {
        results.len() - 1
    }
}

/// No URL fails twice. Where no URL reports twice and every failure names
/// the URL that it is the result for, the failures of a run are for
/// pairwise different URLs, each of them a URL that reported.
pub proof fn lemma_failures_distinct(visits: Seq<Seq<char>>, results: Seq<ResultView>)
    requires
        visits.no_duplicates(),
        names_its_url(visits, results),
    ensures
        forall|i: int| 0 <= i < failures_of(results).len() ==> visits.contains((#[trigger] failures_of(results)[i]).0),
        forall|i: int, j: int|
            0 <= i < j < failures_of(results).len() ==> (#[trigger] failures_of(results)[i]).0 != (
            #[trigger] failures_of(results)[j]).0,
    decreases results.len(),
{
    if results.len() > 0 {
        let n = results.len() - 1;
        let front = results.drop_last();
        let answered = visits.drop_last();
        let earlier = failures_of(front);
        let all = failures_of(results);
        assert(names_its_url(answered, front)) by {
            assert forall|k: int| 0 <= k < front.len() implies (#[trigger] front[k] matches ResultView::Failed(
                url,
                _,
            ) ==> url == answered[k]) by {
                assert(front[k] == results[k]);
            }
        }
        lemma_failures_distinct(answered, front);
        // An earlier failure is for a URL that reported earlier, which is not
        // the URL that reports last.
        assert forall|i: int| 0 <= i < earlier.len() implies visits.contains((#[trigger] earlier[i]).0)
            && earlier[i].0 != visits[n] by {
            let k = choose|k: int| 0 <= k < answered.len() && answered[k] == earlier[i].0;
            assert(visits[k] == earlier[i].0);
        }
        assert forall|i: int| 0 <= i < all.len() implies visits.contains((#[trigger] all[i]).0) by {
            if i < earlier.len() {
                assert(all[i] == earlier[i]);
            } else {
                assert(results[n] == results.last());
                assert(all[i].0 == visits[n]);
            }
        }
        assert forall|i: int, j: int| 0 <= i < j < all.len() implies (#[trigger] all[i]).0 != (
        #[trigger] all[j]).0 by {
            assert(all[i] == earlier[i]);
            if j < earlier.len() {
                assert(all[j] == earlier[j]);
            } else {
                assert(results[n] == results.last());
                assert(all[j].0 == visits[n]);
            }
        }
    }
}

/// In a run, the URL that a result answers was discovered before every
/// later result came.
proof fn lemma_visits_known(state: FrontierView, visits: Seq<Seq<char>>, results: Seq<ResultView>, k: int, j: int)
    requires
        state.is_run(visits, results),
        0 <= j <= k <= results.len(),
        j < results.len(),
    ensures
        state.observed_all(results.take(k)).links.contains(visits[j]),
{
    let early = state.observed_all(results.take(j));
    let later = state.observed_all(results.take(k));
    assert(early.links.contains(visits[j]));
    assert(results.take(k).take(j) =~= results.take(j));
    lemma_observed_grows(state, results.take(k), j);
    lemma_prefix_contains(early.links, later.links, visits[j]);
}

/// No failure is made up and none comes twice. In a run from a state
/// without failures in which every failure names the URL that it is the
/// result for, the failure list holds the failures among the results and
/// nothing else, each is the failure of one result, and they are for pairwise
/// different URLs, every one of them discovered.
pub proof fn lemma_failure_list(state: FrontierView, visits: Seq<Seq<char>>, results: Seq<ResultView>)
    requires
        state.failures.len() == 0,
        state.is_run(visits, results),
        names_its_url(visits, results),
    ensures
        state.observed_all(results).failures == failures_of(results),
        forall|i: int|
            0 <= i < failures_of(results).len() ==> exists|k: int|
                0 <= k < results.len() && #[trigger] results[k] == ResultView::Failed(
                    (#[trigger] failures_of(results)[i]).0,
                    failures_of(results)[i].1,
                ),
        forall|i: int|
            0 <= i < failures_of(results).len() ==> state.observed_all(results).links.contains(
                (#[trigger] failures_of(results)[i]).0,
            ),
        forall|i: int, j: int|
            0 <= i < j < failures_of(results).len() ==> (#[trigger] failures_of(results)[i]).0 != (
            #[trigger] failures_of(results)[j]).0,
{
    let failed = failures_of(results);
    lemma_failures(state, results);
    assert(state.failures + failed =~= failed);
    lemma_failures_distinct(visits, results);
    assert forall|i: int| 0 <= i < failed.len() implies exists|k: int|
        0 <= k < results.len() && #[trigger] results[k] == ResultView::Failed((#[trigger] failed[i]).0, failed[i].1) by {
        let k = lemma_failure_was_reported(results, i);
    }
    assert forall|i: int| 0 <= i < failed.len() implies state.observed_all(results).links.contains(
        (#[trigger] failed[i]).0,
    ) by {
        let j = choose|j: int| 0 <= j < visits.len() && visits[j] == failed[i].0;
        assert(results.take(results.len() as int) =~= results);
        lemma_visits_known(state, visits, results, results.len() as int, j);
    }
}

/// The count is right. In a run from a fresh state, the units of work that
/// are out are the URLs handed out less the results that came, and never
/// fewer than none; a unit is out whenever a result comes; and the crawl is
/// over exactly when every discovered URL has reported.
pub proof fn lemma_run_counts(state: FrontierView, visits: Seq<Seq<char>>, results: Seq<ResultView>)
    requires
        state.is_fresh(),
        state.is_run(visits, results),
    ensures
        state.observed_all(results).pending == state.observed_all(results).links.len() - results.len(),
        state.observed_all(results).pending >= 0,
        forall|k: int| 0 <= k < results.len() ==> (#[trigger] state.observed_all(results.take(k))).pending > 0,
        state.observed_all(results).complete() <==> visits.to_set() == state.observed_all(
            results,
        ).links.to_set(),
{
    let end = state.observed_all(results);
    lemma_observed_all(state, results);
    // The URLs that reported are distinct and all discovered, so they are no
    // more than the discovered URLs, and as many only if they are the same.
    assert forall|j: int| 0 <= j < visits.len() implies end.links.contains(#[trigger] visits[j]) by {
        assert(results.take(results.len() as int) =~= results);
        lemma_visits_known(state, visits, results, results.len() as int, j);
    }
    lemma_distinct_within(visits, end.links);
    if visits.to_set() == end.links.to_set() {
        visits.unique_seq_to_set();
        end.links.unique_seq_to_set();
    }
    // When result `k` comes, the URLs of the results up to it are `k + 1`
    // discovered URLs, of which `k` have reported.
    assert forall|k: int| 0 <= k < results.len() implies (#[trigger] state.observed_all(
        results.take(k),
    )).pending > 0 by {
        let then = state.observed_all(results.take(k));
        let answered = visits.take(k + 1);
        lemma_observed_all(state, results.take(k));
        assert forall|j: int| 0 <= j < answered.len() implies then.links.contains(
            #[trigger] answered[j],
        ) by {
            lemma_visits_known(state, visits, results, k, j);
        }
        lemma_distinct_within(answered, then.links);
    }
}

/// The links of a crawl stay where its pages stay: where the discovered
/// URLs and every URL that the results bring are of `universe`, so are the
/// discovered URLs afterwards.
pub proof fn lemma_links_within(state: FrontierView, results: Seq<ResultView>, universe: Set<Seq<char>>)
    requires
        state.links.to_set().subset_of(universe),
        forall|k: int| 0 <= k < results.len() ==> stays_within(#[trigger] results[k], universe),
    ensures
        state.observed_all(results).links.to_set().subset_of(universe),
    decreases results.len(),
{
    if results.len() > 0 {
        let front = results.drop_last();
        assert forall|k: int| 0 <= k < front.len() implies stays_within(#[trigger] front[k], universe) by {
            assert(front[k] == results[k]);
        }
        lemma_links_within(state, front, universe);
        assert(stays_within(results[results.len() - 1], universe));
        if let ResultView::Discovered(urls) = results.last() {
            lemma_enqueued(state.observed_all(front), urls);
            assert forall|url: Seq<char>| urls.to_set().contains(url) implies universe.contains(url) by {
                let i = choose|i: int| 0 <= i < urls.len() && urls[i] == url;
                assert(universe.contains(urls[i]));
            }
        }
    }
}

/// A crawl stays on its host. Where no result brings a URL that leaves the
/// host of `base`, every URL discovered since the seeding has that host, and
/// no fragment.
pub proof fn lemma_stays_on_host(
    state: FrontierView,
    results: Seq<ResultView>,
    base: Seq<char>,
    url: Seq<char>,
)
    requires
        forall|k: int| 0 <= k < results.len() ==> stays_on_host(#[trigger] results[k], base),
        state.observed_all(results).links.contains(url),
    ensures
        state.links.contains(url) || is_internal(url, base),
{
    let universe = Set::new(|u: Seq<char>| state.links.contains(u) || is_internal(u, base));
    assert forall|k: int| 0 <= k < results.len() implies stays_within(#[trigger] results[k], universe) by {
        assert(stays_on_host(results[k], base));
    }
    lemma_links_within(state, results, universe);
    assert(state.observed_all(results).links.to_set().contains(url));
}

/// A crawl of a finite site ends. Where the seeds and every URL that a
/// result brings are of a finite `universe`, a run takes no more results
/// than the universe has URLs, and after as many the crawl is over: the
/// units of work that are out and the results that came are together no more
/// than the URLs of the universe.
pub proof fn lemma_run_ends(
    state: FrontierView,
    visits: Seq<Seq<char>>,
    results: Seq<ResultView>,
    universe: Set<Seq<char>>,
)
    requires
        state.is_fresh(),
        state.is_run(visits, results),
        universe.finite(),
        state.links.to_set().subset_of(universe),
        forall|k: int| 0 <= k < results.len() ==> stays_within(#[trigger] results[k], universe),
    ensures
        0 <= state.observed_all(results).pending <= universe.len() - results.len(),
        results.len() <= universe.len(),
        results.len() == universe.len() ==> state.observed_all(results).complete(),
{
    let end = state.observed_all(results);
    lemma_run_counts(state, visits, results);
    lemma_observed_all(state, results);
    lemma_links_within(state, results, universe);
    end.links.unique_seq_to_set();
    vstd::set_lib::lemma_len_subset(end.links.to_set(), universe);
}

/// No link is missed. When a crawl is over, every URL that a path of links
/// leads to from a URL it began with has been discovered.
pub proof fn lemma_no_missed_link(
    state: FrontierView,
    site: spec_fn(Seq<char>) -> ResultView,
    visits: Seq<Seq<char>>,
    results: Seq<ResultView>,
    path: Seq<Seq<char>>,
)
    requires
        state.is_fresh(),
        state.is_run(visits, results),
        is_run_of(site, visits, results),
        state.observed_all(results).complete(),
        is_path(site, state.links, path),
    ensures
        state.observed_all(results).links.contains(path.last()),
    decreases path.len(),
{
    let end = state.observed_all(results);
    lemma_observed_all(state, results);
    if path.len() == 1 {
        lemma_prefix_contains(state.links, end.links, path[0]);
    } else {
        let front = path.drop_last();
        let from = front.last();
        assert(is_path(site, state.links, front)) by {
            assert(front[0] == path[0]);
            assert forall|i: int| 0 <= i < front.len() - 1 implies found(site(#[trigger] front[i])).contains(
                front[i + 1],
            ) by {
                assert(front[i] == path[i] && front[i + 1] == path[i + 1]);
            }
        }
        lemma_no_missed_link(state, site, visits, results, front);
        // The page before the last was discovered, so it has reported, and
        // what it brought was taken in.
        lemma_run_counts(state, visits, results);
        assert(visits.to_set().contains(from));
        let k = choose|k: int| 0 <= k < visits.len() && visits[k] == from;
        let urls = found(results[k]);
        assert(urls.contains(path.last())) by {
            assert(path[path.len() - 2] == from);
        }
        let i = choose|i: int| 0 <= i < urls.len() && urls[i] == path.last();
        lemma_nothing_lost(state, results, k);
    }
}

/// Nothing comes from nowhere. Every URL that a crawl has discovered is one
/// that it began with or one that a path of links leads to from there.
pub proof fn lemma_discovered_by_path(
    state: FrontierView,
    site: spec_fn(Seq<char>) -> ResultView,
    visits: Seq<Seq<char>>,
    results: Seq<ResultView>,
    url: Seq<char>,
) -> (path: Seq<Seq<char>>)
    requires
        state.is_run(visits, results),
        is_run_of(site, visits, results),
        state.observed_all(results).links.contains(url),
    ensures
        is_path(site, state.links, path),
        path.last() == url,
    decreases results.len(),
{
    if state.links.contains(url) {
        let path = seq![url];
        assert(path[0] == url);
        path
    } else {
        // The URL came with some result. Look at the run without its last
        // result: it is a run too.
        let n = results.len() as int - 1;
        let front = results.drop_last();
        let answered = visits.drop_last();
        let before = state.observed_all(front);
        assert(front =~= results.take(n));
        assert(state.is_run(answered, front) && is_run_of(site, answered, front)) by {
            assert forall|k: int| 0 <= k < answered.len() implies state.observed_all(
                front.take(k),
            ).links.contains(#[trigger] answered[k]) by {
                assert(front.take(k) =~= results.take(k));
                assert(answered[k] == visits[k]);
            }
            assert forall|k: int| 0 <= k < answered.len() implies front[k] == site(
                #[trigger] answered[k],
            ) by {
                assert(answered[k] == visits[k]);
            }
        }
        if before.links.contains(url) {
            lemma_discovered_by_path(state, site, answered, front, url)
        } else {
            // The last result brought it, from a page that a path leads to.
            let from = visits[n];
            assert(before.links.contains(from));
            let reach = lemma_discovered_by_path(state, site, answered, front, from);
            assert(found(site(from)).contains(url)) by {
                if let ResultView::Discovered(brought) = results[n] {
                    lemma_enqueued(before, brought);
                    assert(state.observed_all(results).links.to_set().contains(url));
                    assert(!before.links.to_set().contains(url));
                    assert(brought.to_set().contains(url));
                }
            }
            let path = reach.push(url);
            assert(is_path(site, state.links, path)) by {
                assert(path[0] == reach[0]);
                assert forall|i: int| 0 <= i < path.len() - 1 implies found(
                    site(#[trigger] path[i]),
                ).contains(path[i + 1]) by {
                    if i < reach.len() - 1 {
                        assert(path[i] == reach[i] && path[i + 1] == reach[i + 1]);
                    } else {
                        assert(path[i] == from && path[i + 1] == url);
                    }
                }
            }
            path
        }
    }
}

} // verus!
