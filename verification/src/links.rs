//! The links of a document that stay on the crawl's domain.
//!
//! The domain of a crawl is the host of its base URL: a domain name or an IP
//! address, as it stands in the URL. An anchor counts when it has an `href`,
//! the `href` resolves against the base URL, and the resolved URL has the
//! base URL's host. Only the host is compared: scheme and port may differ,
//! a subdomain is another host, and so is another address. A link is the
//! resolved URL without its fragment, and a document gives each link once.

use vstd::prelude::*;
use crate::distinct::{distinct, extend_new, lemma_extend_new};
use crate::html::{is_readable, select_attr, selected_attrs};
use crate::page_url::{domain_of, fragment_of, host_of, joined, without_fragment, PageUrl};

verus! {

/// The link that an anchor with this `href` gives on a crawl from `base`, if
/// it gives one.
pub open spec fn link_of(base: Seq<char>, href: Seq<char>) -> Option<Seq<char>> {
    match joined(base, href) {
        Some(target) => if host_of(target) == host_of(base) {
            Some(without_fragment(target))
        } else {
            None
        },
        None => None,
    }
}

/// The link that an anchor gives, if it gives one. An anchor is its `href`,
/// or `None` where it has none; one without an `href` gives no link.
pub open spec fn anchor_link(base: Seq<char>, anchor: Option<Seq<char>>) -> Option<Seq<char>> {
    match anchor {
        Some(href) => link_of(base, href),
        None => None,
    }
}

/// The links that a run of anchors gives, one entry for each anchor that
/// gives one.
pub open spec fn candidates(base: Seq<char>, anchors: Seq<Option<Seq<char>>>) -> Seq<Seq<char>>
    decreases anchors.len(),
{
    if anchors.len() == 0 {
        Seq::empty()
    } else {
        let earlier = candidates(base, anchors.drop_last());
        match anchor_link(base, anchors.last()) {
            Some(link) => earlier.push(link),
            None => earlier,
        }
    }
}

/// The links of a run of anchors: each once, in the order of first
/// appearance.
pub open spec fn links_of(base: Seq<char>, anchors: Seq<Option<Seq<char>>>) -> Seq<Seq<char>> {
    extend_new(Seq::empty(), candidates(base, anchors))
}

/// The links of the document `html`. Its anchors are what the selector `a`
/// finds, and an anchor's `href` is its attribute of that name.
pub open spec fn internal_links(base: Seq<char>, html: Seq<char>) -> Seq<Seq<char>> {
    match selected_attrs(html, "a"@, "href"@) {
        Some(anchors) => links_of(base, anchors),
        None => Seq::empty(),
    }
}

/// Whether `url` is fit to be a link of a crawl from `base`: it has the host
/// of `base`, so that a domain name, where it has one, is that host, and it
/// has no fragment.
pub open spec fn is_internal(url: Seq<char>, base: Seq<char>) -> bool {
    &&& host_of(url) == host_of(base)
    &&& domain_of(url) matches Some(name) ==> host_of(base) == Some(name)
    &&& fragment_of(url).is_none()
}

/// Whether every URL of `urls` is fit to be a link of a crawl from `base`.
pub open spec fn on_host(urls: Seq<Seq<char>>, base: Seq<char>) -> bool {
    forall|i: int| 0 <= i < urls.len() ==> is_internal(#[trigger] urls[i], base)
}

/// Anchors that differ in the fragment alone give one link: where the URLs
/// that two `href`s resolve to are of the base's host and are the same once
/// the fragment is off, the two anchors give the same link, and the
/// document has it once.
pub proof fn lemma_fragments_collapse(
    base: Seq<char>,
    anchors: Seq<Option<Seq<char>>>,
    i: int,
    j: int,
    first: Seq<char>,
    second: Seq<char>,
)
    requires
        0 <= i < anchors.len(),
        0 <= j < anchors.len(),
        anchors[i] matches Some(href) && joined(base, href) == Some(first),
        anchors[j] matches Some(href) && joined(base, href) == Some(second),
        host_of(first) == host_of(base),
        host_of(second) == host_of(base),
        without_fragment(first) == without_fragment(second),
    ensures
        anchor_link(base, anchors[i]) == Some(without_fragment(first)),
        anchor_link(base, anchors[j]) == anchor_link(base, anchors[i]),
        links_of(base, anchors).contains(without_fragment(first)),
        links_of(base, anchors).no_duplicates(),
{
    lemma_links_of(base, anchors);
    assert(is_linked(base, anchors, without_fragment(first)));
}

/// Whether some anchor of the run gives the link `url`.
pub open spec fn is_linked(base: Seq<char>, anchors: Seq<Option<Seq<char>>>, url: Seq<char>) -> bool {
    exists|i: int| 0 <= i < anchors.len() && anchor_link(base, #[trigger] anchors[i]) == Some(url)
}

/// The candidates of a run of anchors are the links that its anchors give.
pub proof fn lemma_candidates(base: Seq<char>, anchors: Seq<Option<Seq<char>>>)
    ensures
        forall|url: Seq<char>| candidates(base, anchors).contains(url) <==> is_linked(base, anchors, url),
    decreases anchors.len(),
{
    if anchors.len() > 0 {
        let front = anchors.drop_last();
        let earlier = candidates(base, front);
        let all = candidates(base, anchors);
        let last = anchor_link(base, anchors.last());
        lemma_candidates(base, front);
        assert forall|url: Seq<char>| all.contains(url) <==> is_linked(base, anchors, url) by {
            if last == Some(url) {
                // The last anchor gives the link, and it is the last candidate.
                assert(all[all.len() - 1] == url);
                assert(anchors[anchors.len() - 1] == anchors.last());
            } else {
                // If any anchor gives the link, an earlier one does.
                if all.contains(url) {
                    let k = choose|k: int| 0 <= k < all.len() && all[k] == url;
                    assert(earlier[k] == url);
                }
                if is_linked(base, anchors, url) {
                    let i = choose|i: int|
                        0 <= i < anchors.len() && anchor_link(base, #[trigger] anchors[i]) == Some(url);
                    assert(front[i] == anchors[i]);
                }
                if is_linked(base, front, url) {
                    let k = choose|k: int| 0 <= k < earlier.len() && earlier[k] == url;
                    assert(all[k] == url);
                    let i = choose|i: int|
                        0 <= i < front.len() && anchor_link(base, #[trigger] front[i]) == Some(url);
                    assert(anchors[i] == front[i]);
                }
            }
        }
    }
}

/// A document's links are the links that its anchors give, and no link comes
/// twice.
pub proof fn lemma_links_of(base: Seq<char>, anchors: Seq<Option<Seq<char>>>)
    ensures
        links_of(base, anchors).no_duplicates(),
        forall|url: Seq<char>| links_of(base, anchors).contains(url) <==> is_linked(base, anchors, url),
{
    let found = candidates(base, anchors);
    lemma_extend_new(Seq::<Seq<char>>::empty(), found);
    lemma_candidates(base, anchors);
    assert forall|url: Seq<char>| links_of(base, anchors).contains(url) <==> found.contains(url) by {
        assert(links_of(base, anchors).to_set().contains(url) <==> found.to_set().contains(url));
    }
}

/// Whether two URLs with these hosts are of one site: the hosts are the same
/// text, be it a name or an address. Two URLs without a host, as two
/// `mailto:` URLs, have that in common.
pub fn same_host(a: &Option<String>, b: &Option<String>) -> (same: bool)
    ensures
        same == (a.deep_view() == b.deep_view()),
{
    match (a, b) {
        (Some(x), Some(y)) => *x == *y,
        (None, None) => true,
        _ => false,
    }
}

/// The link that an anchor with this `href` gives, if it gives one.
/// `base_host` is the host of `base`, which the caller has at hand.
fn link_from(base: &PageUrl, base_host: &Option<String>, href: &str) -> (link: Option<String>)
    requires
        base_host.deep_view() == host_of(base@),
    ensures
        link.deep_view() == link_of(base@, href@),
        link matches Some(url) ==> is_internal(url@, base@),
{
    match base.join(href) {
        Some(target) => {
            if same_host(&target.host(), base_host) {
                Some(target.without_fragment().into_string())
            } else {
                None
            }
        },
        None => None,
    }
}

/// The links of a document whose anchors are given: `anchors` holds, for each
/// anchor in turn, its `href` or `None`. Every link has the base URL's
/// host and no fragment.
pub fn links_from_hrefs(base: &PageUrl, anchors: &Vec<Option<String>>) -> (links: Vec<String>)
    ensures
        links.deep_view() == links_of(base@, anchors.deep_view()),
        on_host(links.deep_view(), base@),
{
    let base_host = base.host();
    let mut found: Vec<String> = Vec::new();
    let mut i: usize = 0;
    assert(anchors.deep_view().take(0) =~= Seq::empty());
    assert(found.deep_view() =~= Seq::empty());
    while i < anchors.len()
        invariant
            i <= anchors.len(),
            base_host.deep_view() == host_of(base@),
            found.deep_view() == candidates(base@, anchors.deep_view().take(i as int)),
            on_host(found.deep_view(), base@),
        decreases anchors.len() - i,
    {
        assert(anchors.deep_view().take(i + 1).drop_last() =~= anchors.deep_view().take(i as int));
        if let Some(href) = &anchors[i] {
            if let Some(link) = link_from(base, &base_host, href.as_str()) {
                let ghost before = found.deep_view();
                found.push(link);
                assert(found.deep_view() =~= before.push(link@));
            }
        }
        i += 1;
    }
    assert(anchors.deep_view().take(i as int) =~= anchors.deep_view());
    let links = distinct(&found);
    proof {
        // Every link is one of the candidates.
        let kept = links.deep_view();
        lemma_extend_new(Seq::empty(), found.deep_view());
        assert forall|i: int| 0 <= i < kept.len() implies is_internal(#[trigger] kept[i], base@) by {
            assert(kept.to_set().contains(kept[i]));
            let k = choose|k: int| 0 <= k < found.len() && found.deep_view()[k] == kept[i];
        }
    }
    links
}

/// The links of the document `html` on a crawl from `base`: what
/// [`links_from_hrefs`] makes of its anchors. Every link has the base URL's
/// host and no fragment. The document has to be short enough to be read, which
/// [`crate::html::can_read`] tells.
pub fn get_internal_links(base: &PageUrl, html: &str) -> (links: Vec<String>)
    requires
        is_readable(html@),
    ensures
        links.deep_view() == internal_links(base@, html@),
        on_host(links.deep_view(), base@),
{
    match select_attr(html, "a", "href") {
        Some(anchors) => links_from_hrefs(base, &anchors),
        None => Vec::new(),
    }
}

} // verus!
