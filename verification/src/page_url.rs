//! Absolute URLs.
//!
//! Parsing and resolving are the `url` crate's work. A [`PageUrl`] keeps the
//! parsed value next to its serialization, and the contracts speak of the
//! serialization alone: `url` compares, orders and hashes a URL by it.

use vstd::prelude::*;

verus! {

/// `url::Url`, carried as an opaque value.
#[verifier::external_type_specification]
#[verifier::external_body]
pub struct ExUrl(url::Url);

/// What `Url::parse` makes of `input`: the serialization of the URL that it
/// reads, or the message of the error with which it rejects the input.
pub uninterp spec fn parsed(input: Seq<char>) -> Result<Seq<char>, Seq<char>>;

/// The serialization of what `Url::join` makes of `reference` on the URL
/// serialized as `base`, or `None` where it fails.
pub uninterp spec fn joined(base: Seq<char>, reference: Seq<char>) -> Option<Seq<char>>;

/// What `Url::host_str` returns for the URL serialized as `url`: the host as
/// it stands in the serialization, a domain name or an IP address, or
/// `None` where the URL has no host.
pub uninterp spec fn host_of(url: Seq<char>) -> Option<Seq<char>>;

/// What `Url::domain` returns for the URL serialized as `url`.
pub uninterp spec fn domain_of(url: Seq<char>) -> Option<Seq<char>>;

/// What `Url::fragment` returns for the URL serialized as `url`.
pub uninterp spec fn fragment_of(url: Seq<char>) -> Option<Seq<char>>;

/// What `Url::path` returns for the URL serialized as `url`.
pub uninterp spec fn path_of(url: Seq<char>) -> Seq<char>;

/// What `Url::query` returns for the URL serialized as `url`.
pub uninterp spec fn query_of(url: Seq<char>) -> Option<Seq<char>>;

/// The serialization of the URL serialized as `url` after
/// `Url::set_fragment(None)`.
pub uninterp spec fn without_fragment(url: Seq<char>) -> Seq<char>;

/// The serialization of the URL serialized as `url` after
/// `Url::set_query(None)`.
pub uninterp spec fn without_query(url: Seq<char>) -> Seq<char>;

/// A parsed absolute URL.
///
/// `text` is the serialization of `parsed`. Both fields are private and every
/// value is made by one of the functions of this module that call into `url`,
/// which fill the two together.
#[derive(Debug)]
pub struct PageUrl {
    text: String,
    parsed: url::Url,
}

impl View for PageUrl {
    type V = Seq<char>;

    /// The URL's serialization.
    closed spec fn view(&self) -> Seq<char> {
        self.text@
    }
}

/// `Url::parse`. The result is a function of the input alone, which the
/// contract names. An error is handed on as the text that it displays.
#[verifier::external_body]
fn url_parse(input: &str) -> (r: Result<PageUrl, String>)
    ensures
        match r {
            Ok(url) => parsed(input@) == Ok::<Seq<char>, Seq<char>>(url@),
            Err(message) => parsed(input@) == Err::<Seq<char>, Seq<char>>(message@),
        },
{
    match url::Url::parse(input) {
        Ok(parsed) => Ok(PageUrl { text: String::from(parsed.as_str()), parsed }),
        Err(error) => Err(error.to_string()),
    }
}

/// `Url::join`. The result is a function of the base URL and the reference,
/// which the contract names; `None` stands for every parse error.
#[verifier::external_body]
fn url_join(base: &PageUrl, reference: &str) -> (r: Option<PageUrl>)
    ensures
        r.is_some() == joined(base@, reference@).is_some(),
        r matches Some(u) ==> joined(base@, reference@) == Some(u@),
{
    match base.parsed.join(reference) {
        Ok(parsed) => Some(PageUrl { text: String::from(parsed.as_str()), parsed }),
        Err(_) => None,
    }
}

/// `Url::host_str`, copied into a `String`. `Url::domain` reads the same part
/// of the serialization wherever it returns one, so a URL that has a domain
/// has it for its host.
#[verifier::external_body]
fn url_host(url: &PageUrl) -> (r: Option<String>)
    ensures
        r.deep_view() == host_of(url@),
        domain_of(url@) matches Some(name) ==> r.deep_view() == Some(name),
{
    url.parsed.host_str().map(String::from)
}

/// `Url::domain`, copied into a `String`.
#[verifier::external_body]
fn url_domain(url: &PageUrl) -> (r: Option<String>)
    ensures
        r.deep_view() == domain_of(url@),
{
    url.parsed.domain().map(String::from)
}

/// `Url::fragment`, copied into a `String`.
#[verifier::external_body]
fn url_fragment(url: &PageUrl) -> (r: Option<String>)
    ensures
        r.deep_view() == fragment_of(url@),
{
    url.parsed.fragment().map(String::from)
}

/// `Url::path`, copied into a `String`.
#[verifier::external_body]
fn url_path(url: &PageUrl) -> (r: String)
    ensures
        r@ == path_of(url@),
{
    String::from(url.parsed.path())
}

/// `Url::query`, copied into a `String`.
#[verifier::external_body]
fn url_query(url: &PageUrl) -> (r: Option<String>)
    ensures
        r.deep_view() == query_of(url@),
{
    url.parsed.query().map(String::from)
}

/// `Url::set_fragment(None)`. It cuts the serialization off where the
/// fragment begins, which is behind the host, and notes that there is no
/// fragment; the host, be it a domain or not, stays.
#[verifier::external_body]
fn url_drop_fragment(url: PageUrl) -> (r: PageUrl)
    ensures
        r@ == without_fragment(url@),
        host_of(r@) == host_of(url@),
        domain_of(r@) == domain_of(url@),
        fragment_of(r@).is_none(),
{
    let mut parsed = url.parsed;
    parsed.set_fragment(None);
    PageUrl { text: String::from(parsed.as_str()), parsed }
}

/// `Url::set_query(None)`.
#[verifier::external_body]
fn url_drop_query(url: PageUrl) -> (r: PageUrl)
    ensures
        r@ == without_query(url@),
{
    let mut parsed = url.parsed;
    parsed.set_query(None);
    PageUrl { text: String::from(parsed.as_str()), parsed }
}

impl PageUrl {
    /// Parses an absolute URL. Where `input` is not one, the error says
    /// why.
    pub fn parse(input: &str) -> (r: Result<PageUrl, String>)
        ensures
            match r {
                Ok(url) => parsed(input@) == Ok::<Seq<char>, Seq<char>>(url@),
                Err(message) => parsed(input@) == Err::<Seq<char>, Seq<char>>(message@),
            },
    {
        url_parse(input)
    }

    /// The serialization.
    pub fn as_str(&self) -> (r: &str)
        ensures
            r@ == self@,
    {
        self.text.as_str()
    }

    /// The serialization, as an owned string.
    pub fn into_string(self) -> (r: String)
        ensures
            r@ == self@,
    {
        self.text
    }

    /// The host: a domain name or an IP address. `None` where the URL has
    /// no host, as a `mailto:` or a `data:` URL.
    pub fn host(&self) -> (r: Option<String>)
        ensures
            r.deep_view() == host_of(self@),
            domain_of(self@) matches Some(name) ==> r.deep_view() == Some(name),
    {
        url_host(self)
    }

    /// The host, where it is a domain name and not an IP address.
    pub fn domain(&self) -> (r: Option<String>)
        ensures
            r.deep_view() == domain_of(self@),
    {
        url_domain(self)
    }

    /// The fragment, without the number sign.
    pub fn fragment(&self) -> (r: Option<String>)
        ensures
            r.deep_view() == fragment_of(self@),
    {
        url_fragment(self)
    }

    /// The path.
    pub fn path(&self) -> (r: String)
        ensures
            r@ == path_of(self@),
    {
        url_path(self)
    }

    /// The query string, without the question mark.
    pub fn query(&self) -> (r: Option<String>)
        ensures
            r.deep_view() == query_of(self@),
    {
        url_query(self)
    }

    /// Resolves `reference` against this URL. `None` where the result is
    /// not a URL.
    pub fn join(&self, reference: &str) -> (r: Option<PageUrl>)
        ensures
            r.is_some() == joined(self@, reference@).is_some(),
            r matches Some(u) ==> joined(self@, reference@) == Some(u@),
    {
        url_join(self, reference)
    }

    /// This URL without its fragment. Its host is what it was, and so is
    /// its domain.
    pub fn without_fragment(self) -> (r: PageUrl)
        ensures
            r@ == without_fragment(self@),
            host_of(r@) == host_of(self@),
            domain_of(r@) == domain_of(self@),
            fragment_of(r@).is_none(),
    {
        url_drop_fragment(self)
    }

    /// This URL without its query string.
    pub fn without_query(self) -> (r: PageUrl)
        ensures
            r@ == without_query(self@),
    {
        url_drop_query(self)
    }
}

} // verus!
