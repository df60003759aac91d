//! Sources of books. Project Gutenberg is searched through the Gutendex
//! catalogue.

use vstd::prelude::*;
use vstd::string::*;
use crate::json::{Json, JsonView};
use crate::sdk::{Candidate, CandidateView, Download};
use crate::encode;
use crate::json;
use crate::sdk;
use crate::text;

verus! {

/// The address of a search of the Gutendex catalogue.
pub fn search_url(query: &str) -> (r: String)
    ensures
        r@ == "https://gutendex.com/books/?search="@ + encode::url_encoded(query@),
{
    let mut u = "https://gutendex.com/books/?search=".to_string();
    u.append(encode::urlencoding(query).as_str());
    u
}

/// The value of the first member whose name begins as given, from `i` on.
pub open spec fn member_starting(v: Seq<(Seq<char>, JsonView)>, start: Seq<char>, i: int) -> Option<JsonView>
    decreases v.len() - i,
{
    if i < 0 || i >= v.len() {
        None
    } else if text::occurs_at(v[i].0, start, 0) {
        Some(v[i].1)
    } else {
        member_starting(v, start, i + 1)
    }
}

/// The epub address of a catalogue entry: that of its first format of that kind.
pub open spec fn epub_address(b: JsonView) -> Option<Seq<char>> {
    match json::field(b, "formats"@) {
        Some(JsonView::Object(v)) => json::text_value(member_starting(v, "application/epub+zip"@, 0)),
        _ => None,
    }
}

/// The first author of a catalogue entry.
pub open spec fn author_name(b: JsonView) -> Option<Seq<char>> {
    match json::array_value(json::field(b, "authors"@)) {
        Some(authors) => if authors.len() > 0 {
            json::text_value(json::field(authors[0], "name"@))
        } else {
            None
        },
        None => None,
    }
}

/// The book of a catalogue entry; an entry without an epub is none.
pub open spec fn catalogue_book(b: JsonView) -> Option<CandidateView> {
    match epub_address(b) {
        Some(url) => Some(
            CandidateView {
                source: "gutenberg"@,
                title: match json::text_value(json::field(b, "title"@)) {
                    Some(t) => t,
                    None => "Untitled"@,
                },
                author: author_name(b),
                format: "epub"@,
                size: None,
                reference: url,
            },
        ),
        None => None,
    }
}

pub open spec fn catalogue_books(results: Seq<JsonView>) -> Seq<CandidateView>
    decreases results.len(),
{
    if results.len() == 0 {
        seq![]
    } else {
        match catalogue_book(results.last()) {
            Some(c) => catalogue_books(results.drop_last()).push(c),
            None => catalogue_books(results.drop_last()),
        }
    }
}

/// The books of a Gutendex answer, in order.
pub open spec fn gutendex_books(body: JsonView) -> Seq<CandidateView> {
    match json::array_value(json::field(body, "results"@)) {
        Some(results) => catalogue_books(results),
        None => seq![],
    }
}

fn find_epub(b: &Json) -> (r: Option<String>)
    ensures
        r.deep_view() == epub_address(b.deep_view()),
{
    let v = match json::as_object(b.get("formats")) {
        Some(v) => v,
        None => {
            return None;
        },
    };
    let ghost members = json::field(b.deep_view(), "formats"@)->0->Object_0;
    let mut i: usize = 0;
    while i < v.len()
        invariant
            json::field(b.deep_view(), "formats"@) == Some(JsonView::Object(members)),
            members.len() == v.len(),
            forall|j: int|
                0 <= j < v.len() ==> members[j] == ((#[trigger] v@[j]).0@, json::json_view(
                    v@[j].1,
                )),
            i <= v.len(),
            member_starting(members, "application/epub+zip"@, 0) == member_starting(
                members,
                "application/epub+zip"@,
                i as int,
            ),
        decreases v.len() - i,
    {
        assert(members[i as int].0 == v@[i as int].0@);
        if text::starts_with(v[i].0.as_str(), "application/epub+zip") {
            return json::as_text(Some(&v[i].1));
        }
        i += 1;
    }
    None
}

fn find_author(b: &Json) -> (r: Option<String>)
    ensures
        r.deep_view() == author_name(b.deep_view()),
{
    match json::as_array(b.get("authors")) {
        Some(authors) => if authors.len() > 0 {
            json::as_text(authors[0].get("name"))
        } else {
            None
        },
        None => None,
    }
}

/// The books with an epub in a Gutendex answer.
pub fn parse_gutendex(body: &Json) -> (r: Vec<Candidate>)
    ensures
        r.deep_view() == gutendex_books(body.deep_view()),
{
    let mut out: Vec<Candidate> = Vec::new();
    let results = match json::as_array(body.get("results")) {
        Some(results) => results,
        None => {
            assert(out.deep_view() =~= seq![]);
            return out;
        },
    };
    let ghost all = results.deep_view();
    let mut i: usize = 0;
    while i < results.len()
        invariant
            all == results.deep_view(),
            i <= results.len(),
            out.deep_view() == catalogue_books(all.take(i as int)),
        decreases results.len() - i,
    {
        assert(all.take(i + 1).drop_last() =~= all.take(i as int));
        assert(all[i as int] == json::json_view(results@[i as int]));
        let b = &results[i];
        let ghost before = out.deep_view();
        if let Some(url) = find_epub(b) {
            let title = match json::as_text(b.get("title")) {
                Some(t) => t,
                None => "Untitled".to_string(),
            };
            let c = Candidate {
                source: "gutenberg".to_string(),
                title,
                author: find_author(b),
                format: "epub".to_string(),
                size: None,
                reference: url,
            };
            let ghost cv = c.deep_view();
            out.push(c);
            assert(out.deep_view() =~= before.push(cv));
        }
        i += 1;
    }
    assert(all.take(all.len() as int) =~= all);
    out
}

/// The books with an epub in the text of a Gutendex answer; nothing where it is
/// no JSON.
pub fn search(body: &str) -> (r: Option<Vec<Candidate>>)
    ensures
        match json::json_in(body@) {
            Some(v) => r matches Some(found) && found.deep_view() == gutendex_books(v),
            None => r is None,
        },
{
    match json::parse(body) {
        Some(v) => Some(parse_gutendex(&v)),
        None => None,
    }
}

/// How to get a Gutenberg book: its handle is the address of the epub.
pub fn resolve_download(reference: &str) -> (r: Download)
    ensures
        r.url.deep_view() == Some(reference@),
        r.headers@.len() == 0,
        r.bytes is None,
{
    sdk::from_url(reference)
}

// ---- what the catalogue's entries come to ----

proof fn lemma_member_starting(
    v: Seq<(Seq<char>, JsonView)>,
    start: Seq<char>,
    i: int,
    k: int,
)
    requires
        0 <= i <= k <= v.len(),
        k < v.len() ==> text::occurs_at(v[k].0, start, 0),
        forall|j: int| i <= j < k ==> !text::occurs_at((#[trigger] v[j]).0, start, 0),
    ensures
        member_starting(v, start, i) == if k < v.len() {
            Some(v[k].1)
        } else {
            None
        },
    decreases k - i,
{
    if i < k {
        assert(!text::occurs_at(v[i].0, start, 0));
        lemma_member_starting(v, start, i + 1, k);
    }
}

/// The book of a catalogue entry is handled by the address of its first epub
/// format, is an epub of this source, and has the title and the first author of
/// the entry. An entry without an epub format has no book.
pub proof fn law_catalogue_book(
    b: JsonView,
    formats: Seq<(Seq<char>, JsonView)>,
    k: int,
    url: Seq<char>,
)
    requires
        json::field(b, "formats"@) == Some(JsonView::Object(formats)),
        0 <= k <= formats.len(),
        k < formats.len() ==> text::occurs_at(formats[k].0, "application/epub+zip"@, 0)
            && formats[k].1 == JsonView::Text(url),
        forall|j: int|
            0 <= j < k ==> !text::occurs_at(
                (#[trigger] formats[j]).0,
                "application/epub+zip"@,
                0,
            ),
    ensures
        k == formats.len() ==> catalogue_book(b) is None,
        k < formats.len() ==> (catalogue_book(b) matches Some(c) && {
            &&& c.reference == url && c.format == "epub"@ && c.source == "gutenberg"@
            &&& c.size is None
            &&& json::field(b, "title"@) matches Some(JsonView::Text(t)) ==> c.title == t
            &&& json::field(b, "authors"@) matches Some(JsonView::Array(a)) ==> (a.len() > 0 ==> (
            json::field(a[0], "name"@) matches Some(JsonView::Text(n)) ==> c.author == Some(n)))
            &&& json::field(b, "authors"@) is None ==> c.author is None
        }),
{
    lemma_member_starting(formats, "application/epub+zip"@, 0, k);
}

/// No entry is lost: one more entry with a book is one more book at the end, and
/// one without changes nothing.
pub proof fn law_one_more_entry(results: Seq<JsonView>, b: JsonView)
    ensures
        catalogue_book(b) matches Some(c) ==> catalogue_books(results.push(b)) == catalogue_books(
            results,
        ).push(c),
        catalogue_book(b) is None ==> catalogue_books(results.push(b)) == catalogue_books(results),
        catalogue_books(seq![]).len() == 0,
{
    assert(results.push(b).drop_last() =~= results);
}

/// The books of an answer are those of its results, and an answer without
/// results has none.
pub proof fn law_answer_books(body: JsonView, results: Seq<JsonView>)
    ensures
        json::field(body, "results"@) == Some(JsonView::Array(results)) ==> gutendex_books(body)
            == catalogue_books(results),
        json::field(body, "results"@) is None ==> gutendex_books(body).len() == 0,
{
}

} // verus!
