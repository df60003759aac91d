//! The catalogue of the library as an OPDS feed.

use vstd::prelude::*;
use vstd::string::*;
use crate::books::Book;
use crate::text;
use crate::xml;

verus! {

/// The media type of a format.
pub open spec fn media_type(format: Seq<char>) -> Seq<char> {
    if format == "epub"@ {
        "application/epub+zip"@
    } else if format == "pdf"@ {
        "application/pdf"@
    } else if format == "cbz"@ {
        "application/x-cbz"@
    } else if format == "cbr"@ {
        "application/x-cbr"@
    } else if format == "mobi"@ {
        "application/x-mobipocket-ebook"@
    } else if format == "azw3"@ {
        "application/vnd.amazon.ebook"@
    } else {
        "application/octet-stream"@
    }
}

/// The media type of a format.
pub fn mime_for(format: &str) -> (r: &'static str)
    ensures
        r@ == media_type(format@),
{
    if text::same(format, "epub") {
        "application/epub+zip"
    } else if text::same(format, "pdf") {
        "application/pdf"
    } else if text::same(format, "cbz") {
        "application/x-cbz"
    } else if text::same(format, "cbr") {
        "application/x-cbr"
    } else if text::same(format, "mobi") {
        "application/x-mobipocket-ebook"
    } else if text::same(format, "azw3") {
        "application/vnd.amazon.ebook"
    } else {
        "application/octet-stream"
    }
}

/// The media type of the feed.
pub fn feed_type() -> (r: &'static str)
    ensures
        r@ == "application/atom+xml;profile=opds-catalog;kind=acquisition"@,
{
    "application/atom+xml;profile=opds-catalog;kind=acquisition"
}

/// What stands before the entries of the feed.
pub open spec fn feed_head() -> Seq<char> {
    "<?xml version=\"1.0\" encoding=\"UTF-8\"?>"@
        + "<feed xmlns=\"http://www.w3.org/2005/Atom\" xmlns:opds=\"http://opds-spec.org/2010/catalog\">"@
        + "<id>urn:shelfarrs:library</id>"@ + "<title>Shelfarrs Library</title>"@
        + "<link rel=\"self\" href=\"/opds\" type=\"application/atom+xml;profile=opds-catalog;kind=acquisition\"/>"@
        + "<link rel=\"start\" href=\"/opds\" type=\"application/atom+xml;profile=opds-catalog;kind=acquisition\"/>"@
}

/// The author of an entry; nothing where the book has none.
pub open spec fn author_element(author: Option<String>) -> Seq<char> {
    match author {
        Some(a) => "<author><name>"@ + xml::escaped(a@) + "</name></author>"@,
        None => seq![],
    }
}

/// The entry of a book.
pub open spec fn feed_entry(b: Book) -> Seq<char> {
    "<entry>"@ + "<id>urn:shelfarrs:book:"@ + text::decimal_of(b.id as int) + "</id>"@ + "<title>"@
        + xml::escaped(b.title@) + "</title>"@ + author_element(b.author)
        + "<dc:format xmlns:dc=\"http://purl.org/dc/terms/\">"@ + b.format@ + "</dc:format>"@
        + "<link rel=\"http://opds-spec.org/acquisition\" href=\"/books/"@ + text::decimal_of(
        b.id as int,
    ) + "/file\" type=\""@ + media_type(b.format@) + "\"/>"@ + "</entry>"@
}

/// The entries of books, in order.
pub open spec fn feed_entries(books: Seq<Book>) -> Seq<char>
    decreases books.len(),
{
    if books.len() == 0 {
        seq![]
    } else {
        feed_entries(books.drop_last()) + feed_entry(books.last())
    }
}

fn push_head(x: &mut String)
    ensures
        final(x)@ == old(x)@ + feed_head(),
{
    let ghost start = x@;
    x.append("<?xml version=\"1.0\" encoding=\"UTF-8\"?>");
    x.append(
        "<feed xmlns=\"http://www.w3.org/2005/Atom\" xmlns:opds=\"http://opds-spec.org/2010/catalog\">",
    );
    x.append("<id>urn:shelfarrs:library</id>");
    x.append("<title>Shelfarrs Library</title>");
    x.append(
        "<link rel=\"self\" href=\"/opds\" type=\"application/atom+xml;profile=opds-catalog;kind=acquisition\"/>",
    );
    x.append(
        "<link rel=\"start\" href=\"/opds\" type=\"application/atom+xml;profile=opds-catalog;kind=acquisition\"/>",
    );
    assert(x@ =~= start + feed_head());
}

fn push_author(x: &mut String, author: &Option<String>)
    ensures
        final(x)@ == old(x)@ + author_element(*author),
{
    let ghost start = x@;
    if let Some(a) = author {
        x.append("<author><name>");
        x.append(xml::esc(a.as_str()).as_str());
        x.append("</name></author>");
    }
    assert(x@ =~= start + author_element(*author));
}

fn push_entry(x: &mut String, b: &Book)
    ensures
        final(x)@ == old(x)@ + feed_entry(*b),
{
    let ghost start = x@;
    x.append("<entry>");
    x.append("<id>urn:shelfarrs:book:");
    x.append(text::decimal(b.id).as_str());
    x.append("</id>");
    x.append("<title>");
    x.append(xml::esc(b.title.as_str()).as_str());
    x.append("</title>");
    push_author(x, &b.author);
    x.append("<dc:format xmlns:dc=\"http://purl.org/dc/terms/\">");
    x.append(b.format.as_str());
    x.append("</dc:format>");
    x.append("<link rel=\"http://opds-spec.org/acquisition\" href=\"/books/");
    x.append(text::decimal(b.id).as_str());
    x.append("/file\" type=\"");
    x.append(mime_for(b.format.as_str()));
    x.append("\"/>");
    x.append("</entry>");
    assert(x@ =~= start + feed_entry(*b));
}

/// The catalogue feed: an entry for each book, in order.
pub fn feed(books: &Vec<Book>) -> (r: String)
    ensures
        r@ == feed_head() + feed_entries(books@) + "</feed>"@,
{
    let mut x: String = String::new();
    push_head(&mut x);
    assert(x@ =~= feed_head());
    let mut i: usize = 0;
    assert(feed_head() + feed_entries(books@.take(0)) =~= feed_head());
    while i < books.len()
        invariant
            i <= books.len(),
            x@ == feed_head() + feed_entries(books@.take(i as int)),
        decreases books.len() - i,
    {
        assert(books@.take(i + 1).drop_last() =~= books@.take(i as int));
        let ghost before = feed_entries(books@.take(i as int));
        push_entry(&mut x, &books[i]);
        assert(feed_head() + before + feed_entry(books@[i as int]) =~= feed_head() + (before
            + feed_entry(books@[i as int])));
        i += 1;
    }
    assert(books@.take(books@.len() as int) =~= books@);
    x.append("</feed>");
    x
}

// ---- what the feed holds ----

/// Each format that readers know has a media type of its own; every other is
/// plain bytes.
pub proof fn law_media_type(format: Seq<char>)
    ensures
        media_type("epub"@) == "application/epub+zip"@,
        media_type("pdf"@) == "application/pdf"@,
        media_type("cbz"@) == "application/x-cbz"@,
        media_type("cbr"@) == "application/x-cbr"@,
        media_type("mobi"@) == "application/x-mobipocket-ebook"@,
        media_type("azw3"@) == "application/vnd.amazon.ebook"@,
        format != "epub"@ && format != "pdf"@ && format != "cbz"@ && format != "cbr"@ && format
            != "mobi"@ && format != "azw3"@ ==> media_type(format) == "application/octet-stream"@,
{
    reveal_strlit("epub");
    reveal_strlit("pdf");
    reveal_strlit("cbz");
    reveal_strlit("cbr");
    reveal_strlit("mobi");
    reveal_strlit("azw3");
    assert("epub"@[0] == 'e' && "pdf"@[0] == 'p' && "mobi"@[0] == 'm' && "azw3"@[0] == 'a');
    assert("cbr"@[2] == 'r' && "cbz"@[2] == 'z');
    assert("cbr"@[0] == 'c' && "cbz"@[0] == 'c');
}

/// The entry of a book holds its title between title tags, its author between
/// author tags, and a link to its own file in the type of its format.
pub proof fn law_feed_entry(b: Book)
    ensures
        ({
            let id = text::decimal_of(b.id as int);
            &&& exists|i: int|
                #[trigger] text::occurs_at(
                    feed_entry(b),
                    "<title>"@ + xml::escaped(b.title@) + "</title>"@,
                    i,
                )
            &&& b.author matches Some(a) ==> exists|i: int|
                #[trigger] text::occurs_at(
                    feed_entry(b),
                    "<author><name>"@ + xml::escaped(a@) + "</name></author>"@,
                    i,
                )
            &&& exists|i: int|
                #[trigger] text::occurs_at(
                    feed_entry(b),
                    "href=\"/books/"@ + id + "/file\" type=\""@ + media_type(b.format@) + "\"/>"@,
                    i,
                )
        }),
{
    let e = feed_entry(b);
    let id = text::decimal_of(b.id as int);
    let title = "<title>"@ + xml::escaped(b.title@) + "</title>"@;
    let i = ("<entry>"@ + "<id>urn:shelfarrs:book:"@ + id + "</id>"@).len() as int;
    assert(e.subrange(i, i + title.len()) =~= title);
    assert(text::occurs_at(e, title, i));
    if let Some(a) = b.author {
        let name = "<author><name>"@ + xml::escaped(a@) + "</name></author>"@;
        let j = i + title.len();
        assert(e.subrange(j, j + name.len()) =~= name);
        assert(text::occurs_at(e, name, j));
    }
    reveal_strlit("<link rel=\"http://opds-spec.org/acquisition\" href=\"/books/");
    reveal_strlit("href=\"/books/");
    let rel = "<link rel=\"http://opds-spec.org/acquisition\" href=\"/books/"@;
    let href = "href=\"/books/"@;
    assert(rel.skip(rel.len() - href.len()) =~= href);
    let link = href + id + "/file\" type=\""@ + media_type(b.format@) + "\"/>"@;
    let n = e.len() - "</entry>"@.len() - link.len();
    assert(e.subrange(n, n + link.len()) =~= link);
    assert(text::occurs_at(e, link, n));
}

/// The feed holds the entries of all books in order, and no other: those of two
/// lists one after the other are those of the list that they make.
pub proof fn law_feed_entries(a: Seq<Book>, b: Seq<Book>, one: Book)
    ensures
        feed_entries(a + b) == feed_entries(a) + feed_entries(b),
        feed_entries(seq![one]) == feed_entry(one),
    decreases b.len(),
{
    let single = seq![one];
    assert(single.drop_last() =~= seq![]);
    assert(feed_entries(single.drop_last()) == Seq::<char>::empty());
    assert(feed_entries(single) =~= feed_entry(one));
    if b.len() == 0 {
        assert(a + b =~= a);
        assert(feed_entries(a) + feed_entries(b) =~= feed_entries(a));
    } else {
        law_feed_entries(a, b.drop_last(), one);
        assert((a + b).drop_last() =~= a + b.drop_last());
        assert(feed_entries(a + b) =~= feed_entries(a) + feed_entries(b));
    }
}

/// The feed is one document: it begins with its declaration, names itself, and
/// ends where its entries end.
pub proof fn law_feed_frame(books: Seq<Book>)
    ensures
        ({
            let feed = feed_head() + feed_entries(books) + "</feed>"@;
            &&& text::occurs_at(
                feed,
                "<?xml version=\"1.0\" encoding=\"UTF-8\"?>"@
                    + "<feed xmlns=\"http://www.w3.org/2005/Atom\""@,
                0,
            )
            &&& text::ends(feed, feed_entries(books) + "</feed>"@)
            &&& text::ends(
                feed_head(),
                "<link rel=\"start\" href=\"/opds\" type=\"application/atom+xml;profile=opds-catalog;kind=acquisition\"/>"@,
            )
            &&& exists|i: int|
                #[trigger] text::occurs_at(
                    feed_head(),
                    "<id>urn:shelfarrs:library</id>"@ + "<title>Shelfarrs Library</title>"@,
                    i,
                )
        }),
{
    let head = feed_head();
    let feed = head + feed_entries(books) + "</feed>"@;
    let declared = "<?xml version=\"1.0\" encoding=\"UTF-8\"?>"@;
    let front = declared + "<feed xmlns=\"http://www.w3.org/2005/Atom\""@;
    let opened = "<feed xmlns=\"http://www.w3.org/2005/Atom\" xmlns:opds=\"http://opds-spec.org/2010/catalog\">"@;
    reveal_strlit("<feed xmlns=\"http://www.w3.org/2005/Atom\"");
    reveal_strlit(
        "<feed xmlns=\"http://www.w3.org/2005/Atom\" xmlns:opds=\"http://opds-spec.org/2010/catalog\">",
    );
    let short = "<feed xmlns=\"http://www.w3.org/2005/Atom\""@;
    assert(opened.take(short.len() as int) =~= short);
    assert(feed.subrange(0, front.len() as int) =~= front);
    let back = feed_entries(books) + "</feed>"@;
    assert(feed.subrange(feed.len() - back.len(), feed.len() as int) =~= back);
    let start = "<link rel=\"start\" href=\"/opds\" type=\"application/atom+xml;profile=opds-catalog;kind=acquisition\"/>"@;
    assert(head.subrange(head.len() - start.len(), head.len() as int) =~= start);
    let named = "<id>urn:shelfarrs:library</id>"@ + "<title>Shelfarrs Library</title>"@;
    let i = (declared + opened).len() as int;
    assert(head.subrange(i, i + named.len()) =~= named);
    assert(text::occurs_at(head, named, i));
}

} // verus!
