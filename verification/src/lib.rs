//! A same-domain web crawl, in pieces that can be reasoned about.
//!
//! A crawl starts from one URL, fetches pages, reads their links, and goes on
//! with every link that stays on the start URL's host until nothing new
//! turns up. One thread, the collector, owns a [`frontier::Frontier`] and
//! feeds it every result; workers hold a stealer each and repeat
//! [`crawler::Crawler::work`]. Threads and channels are the caller's.
//!
//! * [`page_url`]: absolute URLs, parsed and resolved by the `url` crate.
//! * [`html`]: the attributes of the elements that a selector finds in a
//!   document, read by the `scraper` crate.
//! * [`links`]: the links of a document that stay on the crawl's domain,
//!   which is the host of the start URL.
//! * [`queue`]: the work queue, a FIFO worker queue of `crossbeam_deque`.
//! * [`frontier`]: the URLs discovered so far and the count of the units of
//!   work that have not reported back.
//! * [`http_client`]: what the crawl asks of a transport.
//! * [`crawler`]: one crawl's settings and a worker's step.
//! * [`run`]: what holds of a frontier after any run of results: no URL is
//!   handed out twice, the count is right, no failure is made up or recorded
//!   twice, and when the crawl is over no link has been missed.
//! * [`protocol`]: the crawl as a whole, with its queue, its workers and its
//!   channel: the count says what is under way, there is no deadlock, and a
//!   crawl of a finite site ends.
//! * [`distinct`]: sequences that take an item only the first time it comes.

pub mod crawler;
pub mod distinct;
pub mod frontier;
pub mod html;
pub mod http_client;
pub mod links;
pub mod page_url;
pub mod protocol;
pub mod queue;
pub mod run;
