use webcrawler::distinct::distinct;
use webcrawler::frontier::needs_root;
use webcrawler::html::{can_read, MAX_DOCUMENT_BYTES};
use webcrawler::links::same_host;

fn strings(items: &[&str]) -> Vec<String> {
    items.iter().map(|item| String::from(*item)).collect()
}

#[test]
fn distinct_keeps_the_first_of_each() {
    assert_eq!(distinct(&strings(&["a", "b", "a", "c", "b", "a"])), strings(&["a", "b", "c"]));
    assert_eq!(distinct(&strings(&["b", "a"])), strings(&["b", "a"]));
    assert_eq!(distinct(&strings(&["a", "a", "a"])), strings(&["a"]));
    assert_eq!(distinct(&strings(&["", "a", ""])), strings(&["", "a"]));
    assert_eq!(distinct(&Vec::new()), Vec::<String>::new());
}

#[test]
fn distinct_tells_similar_strings_apart() {
    assert_eq!(
        distinct(&strings(&["http://a/", "http://a", "HTTP://a/", "http://a/ ", "http://a/"])),
        strings(&["http://a/", "http://a", "HTTP://a/", "http://a/ "])
    );
}

#[test]
fn same_host_compares_the_whole_host() {
    let internal = Some(String::from("internal.com"));
    assert!(same_host(&internal, &Some(String::from("internal.com"))));
    assert!(!same_host(&internal, &Some(String::from("sub.internal.com"))));
    assert!(!same_host(&internal, &Some(String::from("internal.co"))));
    assert!(!same_host(&internal, &Some(String::from("Internal.com"))));
    assert!(!same_host(&internal, &Some(String::new())));
    assert!(!same_host(&internal, &None));
    assert!(!same_host(&None, &internal));
    assert!(same_host(&None, &None));
    let address = Some(String::from("127.0.0.1"));
    assert!(same_host(&address, &Some(String::from("127.0.0.1"))));
    assert!(!same_host(&address, &Some(String::from("10.0.0.1"))));
    assert!(!same_host(&address, &Some(String::from("127.0.0.10"))));
    assert!(!same_host(&address, &internal));
    assert!(!same_host(&address, &None));
}

#[test]
fn needs_root_looks_at_path_and_query() {
    assert!(!needs_root(&String::from("/"), &None));
    assert!(needs_root(&String::from("/page"), &None));
    assert!(needs_root(&String::from("/"), &Some(String::from("x=1"))));
    assert!(needs_root(&String::from("/"), &Some(String::new())));
    assert!(needs_root(&String::from("/page"), &Some(String::from("x=1"))));
    assert!(needs_root(&String::from("//"), &None));
    assert!(needs_root(&String::new(), &None));
}

#[test]
fn can_read_counts_bytes() {
    assert_eq!(MAX_DOCUMENT_BYTES, 268_435_456);
    assert!(can_read(""));
    assert!(can_read("<a href=\"/x\">x</a>"));
    let mut document = "a".repeat(MAX_DOCUMENT_BYTES - 2);
    assert!(can_read(&document));
    document.push('\u{e9}');
    assert_eq!(document.len(), MAX_DOCUMENT_BYTES);
    assert!(can_read(&document));
    document.pop();
    document.push('\u{20ac}');
    assert_eq!(document.len(), MAX_DOCUMENT_BYTES + 1);
    assert_eq!(document.chars().count(), MAX_DOCUMENT_BYTES - 1);
    assert!(!can_read(&document));
}
