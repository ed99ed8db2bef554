//! Reading attributes out of an HTML document.
//!
//! Parsing the document and matching a CSS selector are the `scraper` crate's
//! work; this module hands the outcome over as plain strings.

use vstd::prelude::*;
use vstd::string::StringSliceAdditionalSpecFns;
use vstd::utf8::encode_utf8;

verus! {

/// The longest document that is handed to the parser, in bytes of UTF-8: a
/// quarter of a GiB. The parser keeps its buffers in `tendril`s, which hold
/// lengths and reference counts in 32 bits and round a capacity up to a
/// power of two, and it may write three bytes for one that it reads. A
/// document within this bound stays well clear of those limits.
pub const MAX_DOCUMENT_BYTES: usize = 0x1000_0000;

/// The length of a text in bytes of UTF-8.
pub open spec fn byte_len(text: Seq<char>) -> nat {
    encode_utf8(text).len()
}

/// Whether a document is short enough to be read.
pub open spec fn is_readable(html: Seq<char>) -> bool {
    byte_len(html) <= MAX_DOCUMENT_BYTES
}

/// Whether the document `html` is short enough to be read.
pub fn can_read(html: &str) -> (readable: bool)
    ensures
        readable == is_readable(html@),
{
    html.as_bytes().len() <= MAX_DOCUMENT_BYTES
}

/// For each element of the document `html` that the CSS selector `selector`
/// matches, in the order in which `scraper`'s `Html::select` yields them,
/// the value of its attribute `attr`, or `None` where the element has no such
/// attribute. The whole is `None` where `Selector::parse` rejects `selector`.
pub uninterp spec fn selected_attrs(
    html: Seq<char>,
    selector: Seq<char>,
    attr: Seq<char>,
) -> Option<Seq<Option<Seq<char>>>>;

/// `Html::parse_document`, `Selector::parse`, `Html::select` and, on each
/// element found, `ElementRef::value` and `Element::attr` of `scraper`.
/// Parsing a document does not fail, but it panics on one that is too long
/// for a `tendril`, so such a document is left out. A selector that does not
/// parse gives `None`. The outcome is a function of the three strings, which
/// the contract names.
#[verifier::external_body]
pub(crate) fn select_attr(html: &str, selector: &str, attr: &str) -> (r: Option<Vec<Option<String>>>)
    requires
        is_readable(html@),
    ensures
        r.deep_view() == selected_attrs(html@, selector@, attr@),
{
    let document = scraper::Html::parse_document(html);
    match scraper::Selector::parse(selector) {
        Ok(found) => Some(
            document.select(&found).map(|e| e.value().attr(attr).map(String::from)).collect(),
        ),
        Err(_) => None,
    }
}

} // verus!
