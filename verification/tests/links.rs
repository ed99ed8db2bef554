use std::collections::HashSet;

use webcrawler::links::{get_internal_links, links_from_hrefs};
use webcrawler::page_url::PageUrl;

fn set_of(urls: &[&str]) -> HashSet<String> {
    urls.iter().map(|url| String::from(*url)).collect()
}

fn base() -> PageUrl {
    PageUrl::parse("http://internal.com").unwrap()
}

#[test]
fn check_get_internal_links() {
    let base = PageUrl::parse("http://internal.com").unwrap();
    let html = r#"
            <!DOCTYPE html>
            <meta charset="utf-8">
            <title>Hello, world!</title>
            <body>
            <ul>
                <li><a href="http://internal.com/abs#one">abs url</a></li>
                <li><a href="/rel#two">rel url</a></li>
                <li><a href="http://external.com">ext url</a></li>
                <li><a>non url</a></li>
            </ul>
            </body>
        "#;
    let links: HashSet<String> = get_internal_links(&base, html).into_iter().collect();
    assert_eq!(
        links,
        [
            String::from("http://internal.com/abs"),
            String::from("http://internal.com/rel")
        ]
        .iter()
        .cloned()
        .collect()
    );
}

#[test]
fn links_come_in_document_order() {
    let html = r#"<a href="/b">b</a><p><a href="/a">a</a></p><a href="/c">c</a>"#;
    assert_eq!(
        get_internal_links(&base(), html),
        vec![
            String::from("http://internal.com/b"),
            String::from("http://internal.com/a"),
            String::from("http://internal.com/c"),
        ]
    );
}

#[test]
fn fragments_collapse_to_one_link() {
    let html = r##"<a href="/x#a">one</a><a href="/x#b">two</a><a href="/x">three</a>"##;
    assert_eq!(get_internal_links(&base(), html), vec![String::from("http://internal.com/x")]);
}

#[test]
fn a_link_comes_once_however_often_it_is_written() {
    let html = r#"<a href="/x">1</a><a href="http://internal.com/x">2</a><a href="x">3</a><a href="/y">4</a><a href="/x">5</a>"#;
    assert_eq!(
        get_internal_links(&base(), html),
        vec![String::from("http://internal.com/x"), String::from("http://internal.com/y")]
    );
}

#[test]
fn no_link_leaves_the_domain() {
    let html = r#"
        <a href="http://external.com/a">other domain</a>
        <a href="http://sub.internal.com/b">subdomain</a>
        <a href="http://internal.com.evil.org/c">longer name</a>
        <a href="//external.com/d">scheme-relative</a>
        <a href="http://127.0.0.1/e">address</a>
        <a href="mailto:someone@internal.com">no host</a>
        <a href="/in">in</a>
    "#;
    let links = get_internal_links(&base(), html);
    assert_eq!(links, vec![String::from("http://internal.com/in")]);
    for link in &links {
        let url = PageUrl::parse(link).unwrap();
        assert_eq!(url.host(), base().host());
    }
}

#[test]
fn scheme_and_port_are_not_compared() {
    let html = r#"<a href="https://internal.com/s">tls</a><a href="http://internal.com:8080/p">port</a><a href="ftp://internal.com/f">ftp</a>"#;
    assert_eq!(
        get_internal_links(&base(), html),
        vec![
            String::from("https://internal.com/s"),
            String::from("http://internal.com:8080/p"),
            String::from("ftp://internal.com/f"),
        ]
    );
}

#[test]
fn anchors_without_href_give_nothing() {
    let html = r#"<a>none</a><a name="top">named</a><a id="x" class="y">plain</a>"#;
    assert!(get_internal_links(&base(), html).is_empty());
}

#[test]
fn only_anchors_are_read() {
    let html = r#"<link href="/style.css"><area href="/area"><img src="/img.png"><a href="/page">page</a>"#;
    assert_eq!(get_internal_links(&base(), html), vec![String::from("http://internal.com/page")]);
}

#[test]
fn hrefs_that_do_not_resolve_are_dropped() {
    let html = r#"<a href="http://[broken">bad host</a><a href="http://internal.com:99999/">bad port</a><a href="/ok">ok</a>"#;
    assert_eq!(get_internal_links(&base(), html), vec![String::from("http://internal.com/ok")]);
}

#[test]
fn relative_links_resolve_against_the_base() {
    let base = PageUrl::parse("http://internal.com/a/b.html?q=1#top").unwrap();
    let html = r##"<a href="c.html">sibling</a><a href="../d">up</a><a href="?page=2">query</a><a href="#frag">same page</a><a href="">empty</a>"##;
    assert_eq!(
        get_internal_links(&base, html),
        vec![
            String::from("http://internal.com/a/c.html"),
            String::from("http://internal.com/d"),
            String::from("http://internal.com/a/b.html?page=2"),
            String::from("http://internal.com/a/b.html?q=1"),
        ]
    );
}

#[test]
fn an_empty_document_has_no_links() {
    assert!(get_internal_links(&base(), "").is_empty());
    assert!(get_internal_links(&base(), "not html at all").is_empty());
}

#[test]
fn every_link_parses_again_without_a_fragment() {
    let html = r##"<a href="/x#a">1</a><a href="#top">2</a><a href="y?q=1#">3</a><a href="https://internal.com:444/z#z#z">4</a>"##;
    let links = get_internal_links(&base(), html);
    assert_eq!(links.len(), 4);
    for link in &links {
        let url = PageUrl::parse(link).unwrap();
        assert_eq!(url.as_str(), link);
        assert_eq!(url.fragment(), None);
        assert_eq!(url.host(), base().host());
        assert_eq!(url.domain(), base().domain());
    }
}

#[test]
fn a_domain_name_of_a_link_is_the_host_of_the_base() {
    // The base's host is an address; under another scheme the same text is a name.
    let base = PageUrl::parse("http://1.2.3.4/").unwrap();
    let html = r#"<a href="foo://1.2.3.4/x">name</a><a href="/y">address</a><a href="foo://1.2.3.5/z">other</a>"#;
    let links = get_internal_links(&base, html);
    assert_eq!(links, vec![String::from("foo://1.2.3.4/x"), String::from("http://1.2.3.4/y")]);
    for link in &links {
        let url = PageUrl::parse(link).unwrap();
        assert_eq!(url.host(), base.host());
        assert!(url.domain().is_none() || url.domain() == base.host());
    }
}

#[test]
fn an_address_is_a_host_of_its_own() {
    let base = PageUrl::parse("http://127.0.0.1/").unwrap();
    assert_eq!(base.domain(), None);
    let html = r#"<a href="/x">same host</a><a href="http://10.0.0.1/y">other address</a><a href="http://internal.com/z">a domain</a>"#;
    assert_eq!(get_internal_links(&base, html), vec![String::from("http://127.0.0.1/x")]);
}

#[test]
fn another_address_is_another_site() {
    let base = PageUrl::parse("http://127.0.0.1/").unwrap();
    assert!(get_internal_links(&base, "<a href='http://10.0.0.1/x'>o</a>").is_empty());
    let base = PageUrl::parse("http://[::1]/").unwrap();
    let html = r#"<a href="http://[::2]/a">other</a><a href="http://[0:0:0:0:0:0:0:1]:8080/b">same, written out</a><a href="http://127.0.0.1/c">v4</a>"#;
    assert_eq!(get_internal_links(&base, html), vec![String::from("http://[::1]:8080/b")]);
}

#[test]
fn a_name_and_its_address_are_two_hosts() {
    let base = PageUrl::parse("http://localhost/").unwrap();
    let html = r#"<a href="http://127.0.0.1/a">address</a><a href="http://LOCALHOST:81/b">name</a>"#;
    assert_eq!(get_internal_links(&base, html), vec![String::from("http://localhost:81/b")]);
}

#[test]
fn urls_without_a_host_go_together() {
    let base = PageUrl::parse("file:///srv/index.html").unwrap();
    assert_eq!(base.host(), None);
    let html = r#"<a href="other.html#top">file</a><a href="http://internal.com/">web</a><a href="http://127.0.0.1/">address</a>"#;
    assert_eq!(get_internal_links(&base, html), vec![String::from("file:///srv/other.html")]);
}

#[test]
fn links_from_hrefs_reads_what_it_is_given() {
    let anchors = vec![
        Some(String::from("http://internal.com/abs#one")),
        None,
        Some(String::from("/rel#two")),
        Some(String::from("http://external.com")),
        Some(String::from("/abs")),
    ];
    assert_eq!(
        links_from_hrefs(&base(), &anchors),
        vec![String::from("http://internal.com/abs"), String::from("http://internal.com/rel")]
    );
    assert!(links_from_hrefs(&base(), &Vec::new()).is_empty());
    assert!(links_from_hrefs(&base(), &vec![None, None]).is_empty());
}

#[test]
fn extracting_twice_gives_the_same() {
    let html = r##"<a href="/a#1">a</a><a href="/b">b</a><a href="http://external.com">x</a>"##;
    let first = get_internal_links(&base(), html);
    let second = get_internal_links(&base(), html);
    assert_eq!(first, second);
    assert_eq!(set_of(&["http://internal.com/a", "http://internal.com/b"]), first.into_iter().collect());
}
