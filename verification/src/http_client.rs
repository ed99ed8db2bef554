//! What the crawl asks of a transport.

use vstd::prelude::*;

verus! {

/// What a fetch returned, as plain text.
pub open spec fn fetched_text(fetched: Result<String, String>) -> Result<Seq<char>, Seq<char>> {
    match fetched {
        Ok(document) => Ok(document@),
        Err(error) => Err(error@),
    }
}

/// A way to fetch a page.
///
/// The crawl asks one thing of it: that every call returns, with the text of
/// the page or with a message that says why there is none. How the page is
/// fetched is the implementation's affair; workers on several threads share
/// one client.
pub trait HTTPClient: Send + Sync {
    /// Whether `fetched` is something that this client may return for `url`.
    /// The client says what that is; the crawl only hands it on, so that
    /// what is said of a report can name the fetch that it came from. A
    /// client that says nothing may return anything.
    open spec fn answers(&self, url: Seq<char>, fetched: Result<Seq<char>, Seq<char>>) -> bool {
        true
    }

    /// Fetches the page at `url`.
    fn fetch(&self, url: &str) -> (fetched: Result<String, String>)
        ensures
            self.answers(url@, fetched_text(fetched)),
    ;
}

} // verus!
