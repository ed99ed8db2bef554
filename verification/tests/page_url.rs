use webcrawler::page_url::PageUrl;

#[test]
fn parse_keeps_the_serialization() {
    let url = PageUrl::parse("http://internal.com").unwrap();
    assert_eq!(url.as_str(), "http://internal.com/");
    assert_eq!(url.into_string(), String::from("http://internal.com/"));
    let url = PageUrl::parse("HTTP://Internal.COM/a b?x=1#f").unwrap();
    assert_eq!(url.as_str(), "http://internal.com/a%20b?x=1#f");
}

#[test]
fn parse_rejects_what_is_no_absolute_url() {
    assert_eq!(PageUrl::parse("").err(), Some(String::from("relative URL without a base")));
    assert_eq!(PageUrl::parse("/relative/path").err(), Some(String::from("relative URL without a base")));
    assert_eq!(PageUrl::parse("internal.com").err(), Some(String::from("relative URL without a base")));
    assert_eq!(PageUrl::parse("http://").err(), Some(String::from("empty host")));
    assert_eq!(PageUrl::parse("http://internal.com:port/").err(), Some(String::from("invalid port number")));
    assert_eq!(PageUrl::parse("http://[::1/").err(), Some(String::from("invalid IPv6 address")));
}

#[test]
fn host_is_a_name_or_an_address() {
    assert_eq!(PageUrl::parse("http://internal.com/x").unwrap().host(), Some(String::from("internal.com")));
    assert_eq!(PageUrl::parse("https://Sub.Internal.com:8080/").unwrap().host(), Some(String::from("sub.internal.com")));
    assert_eq!(PageUrl::parse("http://127.0.0.1/").unwrap().host(), Some(String::from("127.0.0.1")));
    assert_eq!(PageUrl::parse("http://0x7f.1/").unwrap().host(), Some(String::from("127.0.0.1")));
    assert_eq!(PageUrl::parse("http://[::1]:8080/").unwrap().host(), Some(String::from("[::1]")));
    assert_eq!(PageUrl::parse("mailto:someone@internal.com").unwrap().host(), None);
    assert_eq!(PageUrl::parse("file:///srv/index.html").unwrap().host(), None);
}

#[test]
fn a_domain_is_the_host() {
    for text in ["http://internal.com/x", "https://Sub.Internal.com:8080/", "foo://1.2.3.4/x", "ftp://internal.com/"] {
        let url = PageUrl::parse(text).unwrap();
        assert!(url.domain().is_some());
        assert_eq!(url.domain(), url.host());
    }
    // An address under a scheme that knows addresses is no domain name.
    let address = PageUrl::parse("http://1.2.3.4/x").unwrap();
    assert_eq!(address.domain(), None);
    assert_eq!(address.host(), Some(String::from("1.2.3.4")));
}

#[test]
fn fragment_is_what_follows_the_number_sign() {
    assert_eq!(PageUrl::parse("http://internal.com/page?x=1#top").unwrap().fragment(), Some(String::from("top")));
    assert_eq!(PageUrl::parse("http://internal.com/page#").unwrap().fragment(), Some(String::new()));
    assert_eq!(PageUrl::parse("http://internal.com/page?x=1").unwrap().fragment(), None);
    assert_eq!(PageUrl::parse("mailto:someone@internal.com#f").unwrap().fragment(), Some(String::from("f")));
}

#[test]
fn domain_is_the_host_name() {
    assert_eq!(PageUrl::parse("http://internal.com/x").unwrap().domain(), Some(String::from("internal.com")));
    assert_eq!(PageUrl::parse("https://Sub.Internal.com:8080/").unwrap().domain(), Some(String::from("sub.internal.com")));
    assert_eq!(PageUrl::parse("http://127.0.0.1/").unwrap().domain(), None);
    assert_eq!(PageUrl::parse("mailto:someone@internal.com").unwrap().domain(), None);
}

#[test]
fn path_and_query_are_told_apart() {
    let url = PageUrl::parse("http://internal.com/page?x=1#top").unwrap();
    assert_eq!(url.path(), String::from("/page"));
    assert_eq!(url.query(), Some(String::from("x=1")));
    let url = PageUrl::parse("http://internal.com").unwrap();
    assert_eq!(url.path(), String::from("/"));
    assert_eq!(url.query(), None);
    let url = PageUrl::parse("http://internal.com/?").unwrap();
    assert_eq!(url.path(), String::from("/"));
    assert_eq!(url.query(), Some(String::new()));
}

#[test]
fn join_resolves_against_the_url() {
    let base = PageUrl::parse("http://internal.com/a/b.html").unwrap();
    assert_eq!(base.join("c.png").unwrap().as_str(), "http://internal.com/a/c.png");
    assert_eq!(base.join("/v1/meta").unwrap().as_str(), "http://internal.com/v1/meta");
    assert_eq!(base.join("//external.com/b").unwrap().as_str(), "http://external.com/b");
    assert_eq!(base.join("https://external.com/b").unwrap().as_str(), "https://external.com/b");
    assert_eq!(base.join("/").unwrap().as_str(), "http://internal.com/");
    assert!(base.join("http://[broken").is_none());
    assert!(PageUrl::parse("mailto:someone@internal.com").unwrap().join("/").is_none());
}

#[test]
fn without_fragment_cuts_the_fragment_only() {
    let url = PageUrl::parse("http://internal.com/page?x=1#top").unwrap();
    let cut = url.without_fragment();
    assert_eq!(cut.as_str(), "http://internal.com/page?x=1");
    assert_eq!(cut.host(), Some(String::from("internal.com")));
    assert_eq!(cut.domain(), Some(String::from("internal.com")));
    assert_eq!(cut.fragment(), None);
    assert_eq!(cut.path(), String::from("/page"));
    assert_eq!(cut.query(), Some(String::from("x=1")));
    let plain = PageUrl::parse("http://internal.com/page").unwrap().without_fragment();
    assert_eq!(plain.as_str(), "http://internal.com/page");
    let address = PageUrl::parse("http://10.0.0.1:81/x#y").unwrap().without_fragment();
    assert_eq!(address.as_str(), "http://10.0.0.1:81/x");
    assert_eq!(address.host(), Some(String::from("10.0.0.1")));
    assert_eq!(address.domain(), None);
    assert_eq!(address.fragment(), None);
    let empty = PageUrl::parse("http://internal.com/x#").unwrap().without_fragment();
    assert_eq!(empty.as_str(), "http://internal.com/x");
    assert_eq!(empty.fragment(), None);
}

#[test]
fn without_query_cuts_the_query_only() {
    let url = PageUrl::parse("http://internal.com/page?x=1#top").unwrap();
    let cut = url.without_query();
    assert_eq!(cut.as_str(), "http://internal.com/page#top");
    assert_eq!(cut.query(), None);
    let plain = PageUrl::parse("http://internal.com/page").unwrap().without_query();
    assert_eq!(plain.as_str(), "http://internal.com/page");
}
