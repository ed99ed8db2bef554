use crossbeam_deque::Steal;

use webcrawler::frontier::{CrawlResult, Frontier};
use webcrawler::page_url::PageUrl;

fn strings(urls: &[&str]) -> Vec<String> {
    urls.iter().map(|url| String::from(*url)).collect()
}

fn seeded(start: &str) -> Frontier {
    let mut frontier = Frontier::new();
    frontier.seed(&PageUrl::parse(start).unwrap());
    frontier
}

#[test]
fn a_new_frontier_is_complete_and_empty() {
    let frontier = Frontier::new();
    assert_eq!(frontier.pending(), 0);
    assert!(frontier.is_complete());
    assert!(frontier.links().is_empty());
    assert!(frontier.failures().is_empty());
    assert_eq!(frontier.stealer().steal(), Steal::Empty);
}

#[test]
fn seed_expands_a_page_to_the_root() {
    let mut frontier = Frontier::new();
    let units = frontier.seed(&PageUrl::parse("http://internal.com/page?x=1").unwrap());
    assert_eq!(units, 2);
    assert_eq!(frontier.pending(), 2);
    assert_eq!(
        frontier.links(),
        &strings(&["http://internal.com/page?x=1", "http://internal.com/"])
    );
    let stealer = frontier.stealer();
    assert_eq!(stealer.steal(), Steal::Success(String::from("http://internal.com/page?x=1")));
    assert_eq!(stealer.steal(), Steal::Success(String::from("http://internal.com/")));
    assert_eq!(stealer.steal(), Steal::Empty);
}

#[test]
fn seed_of_a_root_is_one_unit() {
    let mut frontier = Frontier::new();
    let units = frontier.seed(&PageUrl::parse("http://internal.com").unwrap());
    assert_eq!(units, 1);
    assert_eq!(frontier.pending(), 1);
    assert!(!frontier.is_complete());
    assert_eq!(frontier.links(), &strings(&["http://internal.com/"]));
    let stealer = frontier.stealer();
    assert_eq!(stealer.steal(), Steal::Success(String::from("http://internal.com/")));
    assert_eq!(stealer.steal(), Steal::Empty);
}

#[test]
fn seed_looks_at_path_and_query() {
    assert_eq!(seeded("http://internal.com/page").links(), &strings(&["http://internal.com/page", "http://internal.com/"]));
    assert_eq!(seeded("http://internal.com/?x=1").links(), &strings(&["http://internal.com/?x=1", "http://internal.com/"]));
    assert_eq!(seeded("http://internal.com/?").links(), &strings(&["http://internal.com/?", "http://internal.com/"]));
    assert_eq!(seeded("http://internal.com/#top").links(), &strings(&["http://internal.com/#top"]));
    assert_eq!(seeded("http://internal.com/a/b/#top").links(), &strings(&["http://internal.com/a/b/#top", "http://internal.com/"]));
    assert_eq!(seeded("https://internal.com:8443/a").links(), &strings(&["https://internal.com:8443/a", "https://internal.com:8443/"]));
}

#[test]
fn seed_without_a_root_is_one_unit() {
    let mut frontier = Frontier::new();
    let units = frontier.seed(&PageUrl::parse("mailto:someone@internal.com").unwrap());
    assert_eq!(units, 1);
    assert_eq!(frontier.pending(), 1);
    assert_eq!(frontier.links(), &strings(&["mailto:someone@internal.com"]));
}

#[test]
fn seed_takes_a_url_once() {
    let mut frontier = seeded("http://internal.com/page");
    let again = frontier.seed(&PageUrl::parse("http://internal.com/page").unwrap());
    assert_eq!(again, 0);
    assert_eq!(frontier.pending(), 2);
    let other = frontier.seed(&PageUrl::parse("http://internal.com/other").unwrap());
    assert_eq!(other, 1);
    assert_eq!(frontier.pending(), 3);
    assert_eq!(
        frontier.links(),
        &strings(&["http://internal.com/page", "http://internal.com/", "http://internal.com/other"])
    );
}

#[test]
fn observe_takes_new_links_in_and_counts() {
    let mut frontier = seeded("http://internal.com");
    let pending = frontier.observe(CrawlResult::Discovered(strings(&[
        "http://internal.com/a",
        "http://internal.com/",
        "http://internal.com/b",
        "http://internal.com/a",
    ])));
    assert_eq!(pending, 2);
    assert_eq!(frontier.pending(), 2);
    assert_eq!(
        frontier.links(),
        &strings(&["http://internal.com/", "http://internal.com/a", "http://internal.com/b"])
    );
    assert!(frontier.failures().is_empty());
    assert!(frontier.contains("http://internal.com/a"));
    assert!(!frontier.contains("http://internal.com/c"));
    let stealer = frontier.stealer();
    assert_eq!(stealer.steal(), Steal::Success(String::from("http://internal.com/")));
    assert_eq!(stealer.steal(), Steal::Success(String::from("http://internal.com/a")));
    assert_eq!(stealer.steal(), Steal::Success(String::from("http://internal.com/b")));
    assert_eq!(stealer.steal(), Steal::Empty);
}

#[test]
fn observe_of_a_page_without_news_counts_down() {
    let mut frontier = seeded("http://internal.com");
    assert_eq!(frontier.observe(CrawlResult::Discovered(Vec::new())), 0);
    assert!(frontier.is_complete());
    assert_eq!(frontier.links(), &strings(&["http://internal.com/"]));
}

#[test]
fn observe_records_a_failure() {
    let mut frontier = seeded("http://internal.com/page");
    let pending = frontier.observe(CrawlResult::Failed(
        String::from("http://internal.com/page"),
        String::from("404"),
    ));
    assert_eq!(pending, 1);
    assert_eq!(
        frontier.failures(),
        &vec![(String::from("http://internal.com/page"), String::from("404"))]
    );
    assert_eq!(frontier.links(), &strings(&["http://internal.com/page", "http://internal.com/"]));
    let pending = frontier.observe(CrawlResult::Failed(
        String::from("http://internal.com/"),
        String::from("timed out"),
    ));
    assert_eq!(pending, 0);
    assert!(frontier.is_complete());
    let (links, failures) = frontier.into_parts();
    assert_eq!(links, strings(&["http://internal.com/page", "http://internal.com/"]));
    assert_eq!(
        failures,
        vec![
            (String::from("http://internal.com/page"), String::from("404")),
            (String::from("http://internal.com/"), String::from("timed out")),
        ]
    );
}

#[test]
fn no_url_goes_to_the_queue_twice() {
    let mut frontier = seeded("http://internal.com");
    frontier.observe(CrawlResult::Discovered(strings(&["http://internal.com/a", "http://internal.com/b"])));
    frontier.observe(CrawlResult::Discovered(strings(&["http://internal.com/b", "http://internal.com/a", "http://internal.com/"])));
    frontier.observe(CrawlResult::Discovered(strings(&["http://internal.com/a", "http://internal.com/c", "http://internal.com/c"])));
    assert_eq!(frontier.pending(), 1);
    let stealer = frontier.stealer();
    let mut stolen = Vec::new();
    while let Steal::Success(url) = stealer.steal() {
        stolen.push(url);
    }
    assert_eq!(
        stolen,
        strings(&["http://internal.com/", "http://internal.com/a", "http://internal.com/b", "http://internal.com/c"])
    );
    assert_eq!(&stolen, frontier.links());
}

#[test]
fn pending_is_what_went_out_less_what_came_back() {
    let mut frontier = seeded("http://internal.com/start");
    let mut back = 0;
    let results = vec![
        CrawlResult::Discovered(strings(&["http://internal.com/a", "http://internal.com/b"])),
        CrawlResult::Failed(String::from("http://internal.com/"), String::from("500")),
        CrawlResult::Discovered(strings(&["http://internal.com/a"])),
        CrawlResult::Discovered(Vec::new()),
    ];
    for result in results {
        let pending = frontier.observe(result);
        back += 1;
        assert_eq!(pending, frontier.links().len() - back);
        assert_eq!(pending, frontier.pending());
    }
    assert!(frontier.is_complete());
    assert_eq!(frontier.links().len(), 4);
}

#[test]
fn results_compare_by_what_they_hold() {
    assert_eq!(CrawlResult::Discovered(strings(&["a"])), CrawlResult::Discovered(strings(&["a"])));
    assert_ne!(CrawlResult::Discovered(strings(&["a"])), CrawlResult::Discovered(Vec::new()));
    assert_ne!(
        CrawlResult::Failed(String::from("a"), String::from("404")),
        CrawlResult::Failed(String::from("a"), String::from("500"))
    );
}
