use shelfarrs::books::{
    book_detail, book_format, discover, downloaded, fetch, library, sanitize, scanned,
    unknown_source, Book, DiscoverQ, Fetch, Poster,
};
use shelfarrs::opds::{feed, feed_type, mime_for};
use shelfarrs::paths::{
    components, extension, file_name, file_stem, join_path, last_piece, parent, starts_with_path,
};
use shelfarrs::sdk::{from_url, get, get_request, Candidate, Download};
use std::path::Path;

#[test]
fn sanitize_strips_path_separators() {
    for evil in ["../../etc/passwd", "a/b\\c", "C:\\x", "..", "  ", ""] {
        let s = sanitize(evil);
        assert!(!s.contains('/'), "{evil:?} -> {s:?}");
        assert!(!s.contains('\\'), "{evil:?} -> {s:?}");
        assert!(!s.is_empty());
        assert_ne!(s, "..");
    }
    assert_eq!(sanitize("Pride and Prejudice"), "Pride and Prejudice");
}

#[test]
fn sanitized_names() {
    assert_eq!(sanitize("../../etc/passwd"), "_.._etc_passwd");
    assert_eq!(sanitize("  .a: b?\u{0}\u{7f}. "), "a_ b___");
    assert_eq!(sanitize("..."), "book");
    assert_eq!(sanitize(""), "book");
    assert_eq!(sanitize(&"x".repeat(300)), "x".repeat(180));
    for dots in [". .. .", ". . .", ". .", " . ", ".. ..", "..\u{a0}."] {
        assert_eq!(sanitize(dots), "book");
    }
    assert_eq!(sanitize("a. ."), "a.");
    assert_eq!(sanitize(". .a"), ".a");
    assert_eq!(sanitize(". ... ."), "...");
    assert_eq!(sanitize(" ..hidden. v. 2 . "), "hidden. v. 2");
}

#[test]
fn format_detection() {
    assert_eq!(book_format("x/Book.EPUB").as_deref(), Some("epub"));
    assert_eq!(book_format("x/scan.cbz").as_deref(), Some("cbz"));
    assert_eq!(book_format("x/notes.docx"), None);
    assert_eq!(book_format("x/noext"), None);
}

#[test]
fn scanned_files() {
    let b = scanned("/books/A Tale.Mobi", Some(7)).unwrap();
    assert_eq!((b.title.as_str(), b.format.as_str(), b.size), ("A Tale", "mobi", Some(7)));
    assert_eq!(b.path, "/books/A Tale.Mobi");
    assert!(scanned("/books/cover.jpg", None).is_none());
}

#[test]
fn paths_agree_with_the_standard_library() {
    let samples = [
        "", "/", "a", "a/", "/a", "a/b", "a//b", "a/./b", "./a", "../a", "a/..", ".", "..", "a/.",
        "/a/b.c/", "a.b.c", ".hidden", ".hidden.txt", "a.", "..a", "a/..b", "//", "/./", "x/.y/z.",
        "a/b/.", "./", "a/./", "...", "a..b",
    ];
    for s in samples {
        let p = Path::new(s);
        
        assert_eq!(file_name(s), p.file_name().map(|t| t.to_str().unwrap().to_string()), "{s}");
        assert_eq!(extension(s), p.extension().map(|t| t.to_str().unwrap().to_string()), "{s}");
        assert_eq!(file_stem(s), p.file_stem().map(|t| t.to_str().unwrap().to_string()), "{s}");
        assert_eq!(parent(s), p.parent().map(|q| q.to_str().unwrap().to_string()), "{s}");
        let parts: Vec<String> =
            p.components().map(|c| c.as_os_str().to_str().unwrap().to_string()).collect();
        assert_eq!(components(s), parts, "{s}");
        for t in samples {
            assert_eq!(join_path(s, t), p.join(t).to_str().unwrap(), "{s} {t}");
            assert_eq!(starts_with_path(s, t), p.starts_with(t), "{s} {t}");
        }
    }
    assert_eq!(last_piece("a.b.c", '.'), "c");
    assert_eq!(last_piece("abc", '.'), "abc");
}

fn candidate() -> Candidate {
    Candidate {
        source: "gutenberg".into(),
        title: "A/B: C".into(),
        author: Some("X".into()),
        format: "epub".into(),
        size: None,
        reference: "r".into(),
    }
}

#[test]
fn downloads_become_books() {
    let b = downloaded(&candidate(), "/books", 12);
    assert_eq!(b.path, "/books/A_B_ C.epub");
    assert_eq!((b.title.as_str(), b.author.as_deref(), b.size), ("A/B: C", Some("X"), Some(12)));
    assert_eq!(unknown_source(&candidate()), "unknown source: gutenberg");
    assert!(matches!(fetch(from_url("u")), Fetch::From(u, h) if u == "u" && h.is_empty()));
    let d = Download { url: Some("u".into()), headers: vec![], bytes: Some(vec![1]) };
    assert!(matches!(fetch(d), Fetch::Bytes(b) if b == [1]));
    let d = Download { url: None, headers: vec![], bytes: None };
    assert!(matches!(fetch(d), Fetch::Nowhere(e) if e == "download had neither bytes nor url"));
    let r = get_request("u");
    assert_eq!((r.method.as_str(), r.url.as_str(), get().as_str()), ("GET", "u", "GET"));
    assert!(r.headers.is_empty() && r.body.is_none());
}

fn book(id: i64, cover: Option<&str>) -> Book {
    Book {
        id,
        title: "T <&>".into(),
        author: Some("A & B".into()),
        format: "epub".into(),
        size: Some(2047),
        description: Some("D".into()),
        cover: cover.map(String::from),
    }
}

#[test]
fn the_library_page() {
    assert!(library(&vec![]).is_none());
    let p = library(&vec![book(1, None)]).unwrap();
    assert_eq!(p.count, "1 Book");
    assert!(matches!(&p.cards[0].poster, Poster::Format(f) if f == "epub"));
    let p = library(&vec![book(1, None), book(2, Some("2.jpg"))]).unwrap();
    assert_eq!(p.count, "2 Books");
    assert_eq!(p.cards[1].href, "/books/2");
    assert!(matches!(&p.cards[1].poster, Poster::Image(s) if s == "/books/2/cover"));
}

#[test]
fn the_page_of_a_book() {
    let d = book_detail(&book(3, Some("3.png")), true);
    assert_eq!(d.meta, "epub · 1 KB");
    assert_eq!(d.cover.as_deref(), Some("/books/3/cover"));
    assert_eq!(d.read.as_deref(), Some("/read/3"));
    assert_eq!((d.file.as_str(), d.file_label.as_str()), ("/books/3/file", "Download epub"));
    let mut b = book(3, None);
    b.size = None;
    let d = book_detail(&b, false);
    assert_eq!((d.meta.as_str(), d.cover, d.read), ("epub", None, None));
    b.size = Some(-2048);
    assert_eq!(book_detail(&b, false).meta, "epub · -2 KB");
}

#[test]
fn what_discover_searches_for() {
    let q = |s: Option<&str>| discover(&DiscoverQ { q: s.map(String::from) });
    assert!(q(None).is_none() && q(Some("  ")).is_none());
    let s = q(Some(" dune ")).unwrap();
    assert_eq!((s.text.as_str(), s.format), (" dune ", None));
}

#[test]
fn the_catalogue_feed() {
    let x = feed(&vec![book(5, None)]);
    assert!(x.starts_with("<?xml version=\"1.0\" encoding=\"UTF-8\"?><feed xmlns=\"http://www.w3.org/2005/Atom\""));
    assert!(x.contains(
        "<entry><id>urn:shelfarrs:book:5</id><title>T &lt;&amp;&gt;</title>\
         <author><name>A &amp; B</name></author>\
         <dc:format xmlns:dc=\"http://purl.org/dc/terms/\">epub</dc:format>\
         <link rel=\"http://opds-spec.org/acquisition\" href=\"/books/5/file\" type=\"application/epub+zip\"/></entry>"
    ));
    assert!(x.ends_with("</entry></feed>"));
    assert_eq!(feed(&vec![]).matches("<entry>").count(), 0);
    assert_eq!(mime_for("pdf"), "application/pdf");
    assert_eq!(mime_for("cbz"), "application/x-cbz");
    assert_eq!(mime_for("cbr"), "application/x-cbr");
    assert_eq!(mime_for("mobi"), "application/x-mobipocket-ebook");
    assert_eq!(mime_for("azw3"), "application/vnd.amazon.ebook");
    assert_eq!(mime_for("x"), "application/octet-stream");
    assert_eq!(feed_type(), "application/atom+xml;profile=opds-catalog;kind=acquisition");
}
