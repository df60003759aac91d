//! What the host and its plugins say to each other.

use vstd::prelude::*;
use vstd::string::*;

verus! {

/// A search that the host asks a source for.
#[derive(Debug)]
pub struct SearchQuery {
    pub text: String,
    pub format: Option<String>,
}

/// A book that a source offers.
#[derive(Debug)]
pub struct Candidate {
    pub source: String,
    pub title: String,
    pub author: Option<String>,
    pub format: String,
    pub size: Option<u64>,
    /// An opaque handle that the source understands, such as an address.
    pub reference: String,
}

#[verifier::ext_equal]
pub struct CandidateView {
    pub source: Seq<char>,
    pub title: Seq<char>,
    pub author: Option<Seq<char>>,
    pub format: Seq<char>,
    pub size: Option<u64>,
    pub reference: Seq<char>,
}

impl DeepView for Candidate {
    type V = CandidateView;

    open spec fn deep_view(&self) -> CandidateView {
        CandidateView {
            source: self.source@,
            title: self.title@,
            author: self.author.deep_view(),
            format: self.format@,
            size: self.size,
            reference: self.reference@,
        }
    }
}

/// How to get a book. The host fetches `url` where `bytes` is absent.
#[derive(Debug)]
pub struct Download {
    pub url: Option<String>,
    pub headers: Vec<(String, String)>,
    pub bytes: Option<Vec<u8>>,
}

/// A request that a plugin asks the host to make.
#[derive(Debug)]
pub struct HttpRequest {
    pub method: String,
    pub url: String,
    pub headers: Vec<(String, String)>,
    pub body: Option<Vec<u8>>,
}

/// What came back.
#[derive(Debug)]
pub struct HttpResponse {
    pub status: u16,
    pub headers: Vec<(String, String)>,
    pub body: Vec<u8>,
}

/// The method of a request that names none.
pub fn get() -> (r: String)
    ensures
        r@ == "GET"@,
{
    "GET".to_string()
}

/// A plain request for a page.
pub fn get_request(url: &str) -> (r: HttpRequest)
    ensures
        r.method@ == "GET"@,
        r.url@ == url@,
        r.headers@.len() == 0,
        r.body is None,
{
    HttpRequest { method: get(), url: url.to_string(), headers: Vec::new(), body: None }
}

/// A download that the host fetches from an address.
pub fn from_url(url: &str) -> (r: Download)
    ensures
        r.url.deep_view() == Some(url@),
        r.headers@.len() == 0,
        r.bytes is None,
{
    Download { url: Some(url.to_string()), headers: Vec::new(), bytes: None }
}

/// Every part of a candidate is seen as itself.
pub proof fn law_candidate_view(x: Candidate)
    ensures
        x.deep_view().source == x.source@,
        x.deep_view().title == x.title@,
        x.deep_view().author == x.author.deep_view(),
        x.deep_view().format == x.format@,
        x.deep_view().size == x.size,
        x.deep_view().reference == x.reference@,
{
}

} // verus!
