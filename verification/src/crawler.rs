//! One crawl's settings, and the step that a worker repeats.

use vstd::prelude::*;
use crossbeam_deque::Stealer;
use crate::frontier::{CrawlResult, ResultView};
use crate::http_client::{fetched_text, HTTPClient};
use crate::html::{can_read, is_readable};
use crate::links::{get_internal_links, internal_links, on_host};
use crate::page_url::PageUrl;
use crate::queue::{queue_steal, was_queued};

verus! {

/// A crawl of one site: the URL it starts from and the number of workers.
pub struct Crawler {
    base: PageUrl,
    limit: usize,
}

/// The settings of a crawl.
pub struct CrawlerView {
    /// The URL that the crawl starts from, serialized. Links are resolved
    /// against it, and its host is the one that the crawl stays on.
    pub base: Seq<char>,
    /// The number of workers.
    pub limit: nat,
}

impl View for Crawler {
    type V = CrawlerView;

    closed spec fn view(&self) -> CrawlerView {
        CrawlerView { base: self.base@, limit: self.limit as nat }
    }
}

/// The message of the failure that is reported for a page too long to be
/// read.
pub open spec fn too_large() -> Seq<char> {
    "the page is too large to read"@
}

/// What a worker reports for `link` once the fetch is back: the links of the
/// page where there is a page, the failure where there is none. A page that
/// is too long to be read counts as a failure of its own.
pub open spec fn outcome_of(
    base: Seq<char>,
    link: Seq<char>,
    fetched: Result<Seq<char>, Seq<char>>,
) -> ResultView {
    match fetched {
        Ok(document) => if is_readable(document) {
            ResultView::Discovered(internal_links(base, document))
        } else {
            ResultView::Failed(link, too_large())
        },
        Err(error) => ResultView::Failed(link, error),
    }
}

/// Whether every URL that `result` brings has the host of `base` and no
/// fragment.
pub open spec fn stays_on_host(result: ResultView, base: Seq<char>) -> bool {
    match result {
        ResultView::Discovered(urls) => on_host(urls, base),
        ResultView::Failed(_, _) => true,
    }
}

impl Crawler {
    /// A crawl has at least one worker.
    #[verifier::type_invariant]
    spec fn has_workers(self) -> bool {
        self.limit >= 1
    }

    /// A crawl from `base` with `limit` workers, of which there is at least
    /// one.
    pub fn new(base: PageUrl, limit: usize) -> (crawler: Crawler)
        requires
            limit >= 1,
        ensures
            crawler@.base == base@,
            crawler@.limit == limit,
    {
        Crawler { base, limit }
    }

    /// The URL that the crawl starts from.
    pub fn base(&self) -> (base: &PageUrl)
        ensures
            base@ == self@.base,
    {
        &self.base
    }

    /// The number of workers, which is at least one.
    pub fn limit(&self) -> (limit: usize)
        ensures
            limit == self@.limit,
            limit >= 1,
    {
        proof {
            use_type_invariant(self);
        }
        self.limit
    }

    /// What a worker reports for `link`, given what the fetch of it
    /// returned. No URL that it brings leaves the host of the crawl.
    pub fn outcome(&self, link: String, fetched: Result<String, String>) -> (result: CrawlResult)
        ensures
            result@ == outcome_of(self@.base, link@, fetched_text(fetched)),
            stays_on_host(result@, self@.base),
    {
        match fetched {
            Ok(document) => {
                if can_read(document.as_str()) {
                    CrawlResult::Discovered(get_internal_links(&self.base, document.as_str()))
                } else {
                    CrawlResult::Failed(link, "the page is too large to read".to_owned())
                }
            },
            Err(error) => CrawlResult::Failed(link, error),
        }
    }

    /// What a worker reports once it has tried to take a URL: nothing where
    /// it got none, and where it got one, the outcome of that URL and of
    /// what the client returns for it.
    pub fn report<T: HTTPClient>(&self, taken: Option<String>, client: &T) -> (result: Option<CrawlResult>)
        ensures
            result.is_some() == taken.is_some(),
            taken matches Some(link) ==> (result matches Some(reported) && {
                &&& exists|fetched: Result<Seq<char>, Seq<char>>|
                    client.answers(link@, fetched) && #[trigger] outcome_of(self@.base, link@, fetched)
                        == reported@
                &&& stays_on_host(reported@, self@.base)
            }),
    {
        match taken {
            Some(link) => {
                let fetched = client.fetch(link.as_str());
                Some(self.outcome(link, fetched))
            },
            None => None,
        }
    }

    /// One step of a worker: tries once to take a URL out of the work queue
    /// and reports as [`Crawler::report`] says. `None` where it got no URL:
    /// the queue was empty, or another worker was in the way.
    ///
    /// Whether it gets a URL, and what the client returns for it, is not for
    /// this function to say. A report is for a URL that was pushed onto the
    /// stealer's queue, and is the outcome of that URL and of what the client
    /// returned for it.
    pub fn work<T: HTTPClient>(&self, stealer: &Stealer<String>, client: &T) -> (result: Option<
        CrawlResult,
    >)
        ensures
            result matches Some(reported) ==> {
                &&& exists|link: Seq<char>, fetched: Result<Seq<char>, Seq<char>>|
                    was_queued(*stealer, link) && client.answers(link, fetched) && #[trigger] outcome_of(
                        self@.base,
                        link,
                        fetched,
                    ) == reported@
                &&& stays_on_host(reported@, self@.base)
            },
    {
        self.report(queue_steal(stealer), client)
    }
}

} // verus!
