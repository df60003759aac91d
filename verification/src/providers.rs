//! Online metadata: OpenLibrary and Google Books.

use vstd::prelude::*;
use vstd::string::*;
use crate::json::{Json, JsonView};
use crate::encode;
use crate::json;
use crate::text;

verus! {

/// What a provider says of a book.
#[derive(Debug, PartialEq)]
pub struct ProviderMeta {
    pub title: Option<String>,
    pub author: Option<String>,
    pub description: Option<String>,
    pub cover_url: Option<String>,
    pub isbn: Option<String>,
}

#[verifier::ext_equal]
pub struct ProviderMetaView {
    pub title: Option<Seq<char>>,
    pub author: Option<Seq<char>>,
    pub description: Option<Seq<char>>,
    pub cover_url: Option<Seq<char>>,
    pub isbn: Option<Seq<char>>,
}

impl DeepView for ProviderMeta {
    type V = ProviderMetaView;

    open spec fn deep_view(&self) -> ProviderMetaView {
        ProviderMetaView {
            title: self.title.deep_view(),
            author: self.author.deep_view(),
            description: self.description.deep_view(),
            cover_url: self.cover_url.deep_view(),
            isbn: self.isbn.deep_view(),
        }
    }
}

impl Default for ProviderMeta {
    fn default() -> (r: Self)
        ensures
            r.deep_view() == (ProviderMetaView {
                title: None,
                author: None,
                description: None,
                cover_url: None,
                isbn: None,
            }),
    {
        ProviderMeta { title: None, author: None, description: None, cover_url: None, isbn: None }
    }
}

/// Is a provider switched on? It is unless its setting is `0`.
pub fn enabled(setting: &Option<String>) -> (r: bool)
    ensures
        r == (setting.deep_view() != Some("0"@)),
{
    !text::is_text(setting, "0")
}

// ---- OpenLibrary ----

/// The address of the cover with the given number.
pub open spec fn cover_address(id: i64) -> Seq<char> {
    "https://covers.openlibrary.org/b/id/"@ + text::decimal_of(id as int) + "-L.jpg"@
}

/// What an OpenLibrary search says of its first hit.
pub open spec fn openlibrary_meta(search: JsonView) -> Option<ProviderMetaView> {
    match json::array_value(json::field(search, "docs"@)) {
        Some(docs) => if docs.len() > 0 {
            let doc = docs[0];
            Some(
                ProviderMetaView {
                    title: json::text_value(json::field(doc, "title"@)),
                    author: json::text_value(json::zeroth(json::field(doc, "author_name"@))),
                    description: None,
                    cover_url: match json::int_value(json::field(doc, "cover_i"@)) {
                        Some(id) => Some(cover_address(id)),
                        None => None,
                    },
                    isbn: json::text_value(json::zeroth(json::field(doc, "isbn"@))),
                },
            )
        } else {
            None
        },
        None => None,
    }
}

/// What an OpenLibrary search says of its first hit. The description is on
/// the record of the work.
pub fn parse_openlibrary(search: &Json) -> (r: Option<ProviderMeta>)
    ensures
        r.deep_view() == openlibrary_meta(search.deep_view()),
{
    let docs = match json::as_array(search.get("docs")) {
        Some(docs) => docs,
        None => {
            return None;
        },
    };
    if docs.len() == 0 {
        return None;
    }
    let doc = &docs[0];
    let cover_url = match json::as_int(doc.get("cover_i")) {
        Some(id) => {
            let mut u = "https://covers.openlibrary.org/b/id/".to_string();
            u.append(text::decimal(id).as_str());
            u.append("-L.jpg");
            Some(u)
        },
        None => None,
    };
    Some(
        ProviderMeta {
            title: json::as_text(doc.get("title")),
            author: json::as_text(json::first(doc.get("author_name"))),
            description: None,
            cover_url,
            isbn: json::as_text(json::first(doc.get("isbn"))),
        },
    )
}

/// The description on the record of a work: a text, or an object with a value.
pub open spec fn work_description(work: JsonView) -> Option<Seq<char>> {
    match json::field(work, "description"@) {
        Some(JsonView::Text(s)) => Some(s),
        Some(other) => json::text_value(json::field(other, "value"@)),
        None => None,
    }
}

/// The description on the record of a work.
pub fn parse_ol_work_description(work: &Json) -> (r: Option<String>)
    ensures
        r.deep_view() == work_description(work.deep_view()),
{
    match work.get("description") {
        Some(d) => match d {
            Json::Text(s) => Some(s.clone()),
            _ => json::as_text(d.get("value")),
        },
        None => None,
    }
}

/// The key of the work that the first hit of an OpenLibrary search belongs to.
pub fn work_key(search: &Json) -> (r: Option<String>)
    ensures
        r.deep_view() == json::text_value(json::field_of(json::zeroth(json::field(search.deep_view(), "docs"@)), "key"@)),
{
    json::as_text(json::get_in(json::first(search.get("docs")), "key"))
}

/// The address of the record of a work.
pub fn work_url(key: &str) -> (r: String)
    ensures
        r@ == "https://openlibrary.org"@ + key@ + ".json"@,
{
    let mut u = "https://openlibrary.org".to_string();
    u.append(key);
    u.append(".json");
    u
}

/// A parameter, where there is a value for it.
pub open spec fn parameter(name: Seq<char>, value: Option<&str>) -> Seq<char> {
    match value {
        Some(v) => name + encode::url_encoded(v@),
        None => seq![],
    }
}

/// The address of an OpenLibrary search.
pub fn openlibrary_url(title: &str, author: Option<&str>) -> (r: String)
    ensures
        r@ == "https://openlibrary.org/search.json?limit=3&title="@ + encode::url_encoded(title@)
            + parameter("&author="@, author),
{
    let mut u = "https://openlibrary.org/search.json?limit=3&title=".to_string();
    u.append(encode::urlencoding(title).as_str());
    let ghost base = u@;
    if let Some(a) = author {
        u.append("&author=");
        u.append(encode::urlencoding(a).as_str());
    }
    assert(u@ =~= base + parameter("&author="@, author));
    u
}

// ---- Google Books ----

/// The identifier to take: the first of the type ISBN_13 from `i` on.
pub open spec fn isbn_13(ids: Seq<JsonView>, i: int) -> Option<JsonView>
    decreases ids.len() - i,
{
    if i < 0 || i >= ids.len() {
        None
    } else if json::text_value(json::field(ids[i], "type"@)) == Some("ISBN_13"@) {
        Some(ids[i])
    } else {
        isbn_13(ids, i + 1)
    }
}

/// The ISBN of a volume: the first of thirteen digits, else the first at all.
pub open spec fn volume_isbn(info: JsonView) -> Option<Seq<char>> {
    match json::array_value(json::field(info, "industryIdentifiers"@)) {
        Some(ids) => {
            let id = match isbn_13(ids, 0) {
                Some(id) => Some(id),
                None => if ids.len() > 0 {
                    Some(ids[0])
                } else {
                    None
                },
            };
            json::text_value(json::field_of(id, "identifier"@))
        },
        None => None,
    }
}

/// What a Google Books search says of its first hit.
pub open spec fn googlebooks_meta(v: JsonView) -> Option<ProviderMetaView> {
    match json::field_of(json::zeroth(json::field(v, "items"@)), "volumeInfo"@) {
        Some(info) => Some(
            ProviderMetaView {
                title: json::text_value(json::field(info, "title"@)),
                author: json::text_value(json::zeroth(json::field(info, "authors"@))),
                description: json::text_value(json::field(info, "description"@)),
                cover_url: match json::text_value(
                    json::field_of(json::field(info, "imageLinks"@), "thumbnail"@),
                ) {
                    Some(u) => Some(text::replaced(u, "http://"@, "https://"@)),
                    None => None,
                },
                isbn: volume_isbn(info),
            },
        ),
        None => None,
    }
}

fn find_isbn(info: &Json) -> (r: Option<String>)
    ensures
        r.deep_view() == volume_isbn(info.deep_view()),
{
    let ids = match json::as_array(info.get("industryIdentifiers")) {
        Some(ids) => ids,
        None => {
            return None;
        },
    };
    let mut i: usize = 0;
    while i < ids.len()
        invariant
            json::array_value(json::field(info.deep_view(), "industryIdentifiers"@)) == Some(ids.deep_view()),
            i <= ids.len(),
            isbn_13(ids.deep_view(), 0) == isbn_13(ids.deep_view(), i as int),
        decreases ids.len() - i,
    {
        assert(ids.deep_view()[i as int] == json::json_view(ids@[i as int]));
        if text::is_text(&json::as_text(ids[i].get("type")), "ISBN_13") {
            return json::as_text(ids[i].get("identifier"));
        }
        i += 1;
    }
    if ids.len() > 0 {
        json::as_text(ids[0].get("identifier"))
    } else {
        None
    }
}

/// What a Google Books search says of its first hit.
pub fn parse_googlebooks(v: &Json) -> (r: Option<ProviderMeta>)
    ensures
        r.deep_view() == googlebooks_meta(v.deep_view()),
{
    proof {
        reveal_strlit("http://");
    }
    let info = match json::get_in(json::first(v.get("items")), "volumeInfo") {
        Some(info) => info,
        None => {
            return None;
        },
    };
    let cover_url = match json::as_text(json::get_in(info.get("imageLinks"), "thumbnail")) {
        Some(u) => Some(text::replace(u.as_str(), "http://", "https://")),
        None => None,
    };
    Some(
        ProviderMeta {
            title: json::as_text(info.get("title")),
            author: json::as_text(json::first(info.get("authors"))),
            description: json::as_text(info.get("description")),
            cover_url,
            isbn: find_isbn(info),
        },
    )
}

/// The address of a Google Books search.
pub fn googlebooks_url(title: &str, author: Option<&str>) -> (r: String)
    ensures
        r@ == "https://www.googleapis.com/books/v1/volumes?maxResults=3&q=intitle:"@ + encode::url_encoded(
            title@,
        ) + parameter("+inauthor:"@, author),
{
    let mut u = "https://www.googleapis.com/books/v1/volumes?maxResults=3&q=intitle:".to_string();
    u.append(encode::urlencoding(title).as_str());
    let ghost base = u@;
    if let Some(a) = author {
        u.append("+inauthor:");
        u.append(encode::urlencoding(a).as_str());
    }
    assert(u@ =~= base + parameter("+inauthor:"@, author));
    u
}

// ---- lookup ----

/// Where a lookup stands after a provider has answered.
pub enum Lookup {
    /// This is the answer.
    Found(ProviderMeta),
    /// Ask on; this is the answer if nothing better comes.
    AskOn(Option<ProviderMeta>),
}

/// A hit with a description ends the lookup; one without is kept unless
/// there is one already.
pub open spec fn offered(fallback: Option<ProviderMeta>, hit: Option<ProviderMeta>) -> Lookup {
    match hit {
        Some(m) => if m.description is Some {
            Lookup::Found(m)
        } else if fallback is Some {
            Lookup::AskOn(fallback)
        } else {
            Lookup::AskOn(Some(m))
        },
        None => Lookup::AskOn(fallback),
    }
}

/// Takes the answer of one provider into account.
pub fn offer(fallback: Option<ProviderMeta>, hit: Option<ProviderMeta>) -> (r: Lookup)
    ensures
        r == offered(fallback, hit),
{
    match hit {
        Some(m) => if m.description.is_some() {
            Lookup::Found(m)
        } else if fallback.is_some() {
            Lookup::AskOn(fallback)
        } else {
            Lookup::AskOn(Some(m))
        },
        None => Lookup::AskOn(fallback),
    }
}

/// The state of a lookup after the answers of the providers, in order.
pub open spec fn lookup_state(hits: Seq<Option<ProviderMeta>>) -> Lookup
    decreases hits.len(),
{
    if hits.len() == 0 {
        Lookup::AskOn(None)
    } else {
        match lookup_state(hits.drop_last()) {
            Lookup::Found(m) => Lookup::Found(m),
            Lookup::AskOn(fallback) => offered(fallback, hits.last()),
        }
    }
}

/// The first hit that has a description wins, else the first hit at all; and
/// nothing is found only where no provider has a hit.
pub proof fn law_lookup(hits: Seq<Option<ProviderMeta>>)
    ensures
        match lookup_state(hits) {
            Lookup::Found(m) => m.description is Some && exists|i: int|
                #![trigger hits[i]]
                {
                    &&& 0 <= i < hits.len()
                    &&& hits[i] == Some(m)
                    &&& forall|j: int|
                        0 <= j < i && (#[trigger] hits[j]) is Some ==> hits[j]->0.description is None
                },
            Lookup::AskOn(Some(m)) => (forall|j: int|
                0 <= j < hits.len() && (#[trigger] hits[j]) is Some
                    ==> hits[j]->0.description is None) && exists|i: int|
                #![trigger hits[i]]
                {
                    &&& 0 <= i < hits.len()
                    &&& hits[i] == Some(m)
                    &&& forall|j: int| 0 <= j < i ==> (#[trigger] hits[j]) is None
                },
            Lookup::AskOn(None) => forall|j: int|
                0 <= j < hits.len() ==> (#[trigger] hits[j]) is None,
        },
    decreases hits.len(),
{
    if hits.len() > 0 {
        let rest = hits.drop_last();
        law_lookup(rest);
        let n = hits.len() - 1;
        assert(forall|j: int| 0 <= j < n ==> rest[j] == #[trigger] hits[j]);
        assert(hits[n] == hits.last());
        match lookup_state(rest) {
            Lookup::Found(m) => {
                let i = choose|i: int|
                    #![trigger rest[i]]
                    {
                        &&& 0 <= i < rest.len()
                        &&& rest[i] == Some(m)
                        &&& forall|j: int|
                            0 <= j < i && (#[trigger] rest[j]) is Some
                                ==> rest[j]->0.description is None
                    };
                assert(hits[i] == Some(m));
                assert forall|j: int| 0 <= j < i && (#[trigger] hits[j]) is Some implies hits[j]->0.description is None by {
                    assert(rest[j] == hits[j]);
                }
            },
            Lookup::AskOn(Some(m)) => {
                let i = choose|i: int|
                    #![trigger rest[i]]
                    {
                        &&& 0 <= i < rest.len()
                        &&& rest[i] == Some(m)
                        &&& forall|j: int| 0 <= j < i ==> (#[trigger] rest[j]) is None
                    };
                assert(hits[i] == Some(m));
                assert forall|j: int| 0 <= j < i implies (#[trigger] hits[j]) is None by {
                    assert(rest[j] == hits[j]);
                }
                assert forall|j: int| 0 <= j < n && (#[trigger] hits[j]) is Some implies hits[j]->0.description is None by {
                    assert(rest[j] == hits[j]);
                }
            },
            Lookup::AskOn(None) => {
                assert forall|j: int| 0 <= j < n implies (#[trigger] hits[j]) is None by {
                    assert(rest[j] == hits[j]);
                }
            },
        }
    }
}

// ---- what the providers' answers come to ----

/// An OpenLibrary search is read from its first hit: the title from `title`, the
/// author from the first `author_name`, the ISBN from the first `isbn`, the
/// cover by its number, and never a description.
pub proof fn law_openlibrary(search: JsonView, docs: Seq<JsonView>, t: Seq<char>, n: i64)
    requires
        json::field(search, "docs"@) == Some(JsonView::Array(docs)),
        docs.len() > 0,
    ensures
        openlibrary_meta(search) matches Some(m) && {
            &&& m.description is None
            &&& json::field(docs[0], "title"@) == Some(JsonView::Text(t)) ==> m.title == Some(t)
            &&& json::field(docs[0], "title"@) is None ==> m.title is None
            &&& json::field(docs[0], "author_name"@) matches Some(JsonView::Array(a)) ==> (a.len()
                > 0 && a[0] == JsonView::Text(t) ==> m.author == Some(t))
            &&& json::field(docs[0], "author_name"@) is None ==> m.author is None
            &&& json::field(docs[0], "isbn"@) matches Some(JsonView::Array(a)) ==> (a.len() > 0
                && a[0] == JsonView::Text(t) ==> m.isbn == Some(t))
            &&& json::field(docs[0], "isbn"@) is None ==> m.isbn is None
            &&& json::field(docs[0], "cover_i"@) == Some(JsonView::Int(n)) ==> (
            m.cover_url matches Some(u) && text::ends(u, "/"@ + text::decimal_of(n as int)
                + "-L.jpg"@) && text::occurs_at(u, "https://covers.openlibrary.org/b/id/"@, 0))
            &&& json::field(docs[0], "cover_i"@) is None ==> m.cover_url is None
        },
{
    let u = cover_address(n);
    let tail = "/"@ + text::decimal_of(n as int) + "-L.jpg"@;
    let front = "https://covers.openlibrary.org/b/id/"@;
    reveal_strlit("/");
    reveal_strlit("https://covers.openlibrary.org/b/id/");
    assert(u.subrange(u.len() - tail.len(), u.len() as int) =~= tail);
    assert(u.subrange(0, front.len() as int) =~= front);
}

/// A search without a hit says nothing.
pub proof fn law_openlibrary_none(search: JsonView)
    requires
        json::field(search, "docs"@) is None || json::field(search, "docs"@) == Some(
            JsonView::Array(seq![]),
        ),
    ensures
        openlibrary_meta(search) is None,
{
}

/// The description of a work is its text, or the value of its object.
pub proof fn law_work_description(work: JsonView, d: JsonView, t: Seq<char>)
    ensures
        json::field(work, "description"@) == Some(JsonView::Text(t)) ==> work_description(work)
            == Some(t),
        json::field(work, "description"@) == Some(d) && json::field(d, "value"@) == Some(
            JsonView::Text(t),
        ) ==> work_description(work) == Some(t),
        json::field(work, "description"@) is None ==> work_description(work) is None,
{
}

/// A Google Books search is read from the volume of its first hit: title,
/// description, first author, and thumbnail each from its own member.
pub proof fn law_googlebooks(
    v: JsonView,
    items: Seq<JsonView>,
    info: JsonView,
    t: Seq<char>,
    links: JsonView,
)
    requires
        json::field(v, "items"@) == Some(JsonView::Array(items)),
        items.len() > 0,
        json::field(items[0], "volumeInfo"@) == Some(info),
    ensures
        googlebooks_meta(v) matches Some(m) && {
            &&& json::field(info, "title"@) == Some(JsonView::Text(t)) ==> m.title == Some(t)
            &&& json::field(info, "title"@) is None ==> m.title is None
            &&& json::field(info, "description"@) == Some(JsonView::Text(t)) ==> m.description
                == Some(t)
            &&& json::field(info, "description"@) is None ==> m.description is None
            &&& json::field(info, "authors"@) matches Some(JsonView::Array(a)) ==> (a.len() > 0
                && a[0] == JsonView::Text(t) ==> m.author == Some(t))
            &&& json::field(info, "authors"@) is None ==> m.author is None
            &&& json::field(info, "imageLinks"@) == Some(links) && json::field(links, "thumbnail"@)
                == Some(JsonView::Text(t)) ==> m.cover_url == Some(
                text::replaced(t, "http://"@, "https://"@),
            )
            &&& json::field(info, "imageLinks"@) is None ==> m.cover_url is None
        },
{
}

/// A cover is fetched in the clear nowhere: an address that begins with
/// `http://` is asked for with `https://`, and one that does already stays.
pub proof fn law_secure_cover(host: Seq<char>)
    requires
        !text::has(host, "http://"@),
    ensures
        text::replaced("http://"@ + host, "http://"@, "https://"@) == "https://"@ + host,
{
    reveal_strlit("http://");
    let p = "http://"@;
    let s = p + host;
    assert(s.subrange(0, p.len() as int) =~= p);
    assert(text::occurs_at(s, p, 0));
    assert(s.skip(p.len() as int) =~= host);
    text::law_replaced(host, p, "https://"@);
}

proof fn lemma_isbn_13(ids: Seq<JsonView>, i: int, k: int)
    requires
        0 <= i <= k <= ids.len(),
        k < ids.len() ==> json::field(ids[k], "type"@) == Some(JsonView::Text("ISBN_13"@)),
        forall|j: int|
            i <= j < k ==> json::field(#[trigger] ids[j], "type"@) != Some(
                JsonView::Text("ISBN_13"@),
            ),
    ensures
        isbn_13(ids, i) == if k < ids.len() {
            Some(ids[k])
        } else {
            None
        },
    decreases k - i,
{
    if i < k {
        assert(json::field(ids[i], "type"@) != Some(JsonView::Text("ISBN_13"@)));
        assert(json::text_value(json::field(ids[i], "type"@)) != Some("ISBN_13"@));
        lemma_isbn_13(ids, i + 1, k);
    }
}

/// The ISBN of a volume is its first one of thirteen digits, whatever stands
/// before it; without one its first identifier.
pub proof fn law_volume_isbn(info: JsonView, ids: Seq<JsonView>, k: int, t: Seq<char>)
    requires
        json::field(info, "industryIdentifiers"@) == Some(JsonView::Array(ids)),
        ids.len() > 0,
        0 <= k <= ids.len(),
        k < ids.len() ==> json::field(ids[k], "type"@) == Some(JsonView::Text("ISBN_13"@)),
        forall|j: int|
            0 <= j < k ==> json::field(#[trigger] ids[j], "type"@) != Some(
                JsonView::Text("ISBN_13"@),
            ),
    ensures
        k < ids.len() && json::field(ids[k], "identifier"@) == Some(JsonView::Text(t))
            ==> volume_isbn(info) == Some(t),
        k == ids.len() && json::field(ids[0], "identifier"@) == Some(JsonView::Text(t))
            ==> volume_isbn(info) == Some(t),
{
    lemma_isbn_13(ids, 0, k);
}

/// An answer is taken in by whether it has a description: one that has ends the
/// lookup, one that has not is kept only where nothing was, and no answer keeps
/// what there was.
pub proof fn law_offered(fallback: Option<ProviderMeta>, m: ProviderMeta)
    ensures
        m.description is Some ==> offered(fallback, Some(m)) == Lookup::Found(m),
        m.description is None && fallback is None ==> offered(fallback, Some(m)) == Lookup::AskOn(
            Some(m),
        ),
        m.description is None && fallback is Some ==> offered(fallback, Some(m)) == Lookup::AskOn(
            fallback,
        ),
        offered(fallback, None) == Lookup::AskOn(fallback),
{
}

/// Every part of a description by a provider is seen as itself.
pub proof fn law_provider_meta_view(x: ProviderMeta)
    ensures
        x.deep_view().title == x.title.deep_view(),
        x.deep_view().author == x.author.deep_view(),
        x.deep_view().description == x.description.deep_view(),
        x.deep_view().cover_url == x.cover_url.deep_view(),
        x.deep_view().isbn == x.isbn.deep_view(),
{
}

} // verus!
