use shelfarrs::json::parse;
use shelfarrs::libgen::{
    ads_url, find_author, find_ext, find_get_link, find_md5, find_title, host, mirrors_to_try,
    page_text, parse_libgen, resolve_download, search, search_step, search_url, MirrorStep,
};
use shelfarrs::page::{
    database_line, jobs_line, page, settings_page, test_badge, window_title, Tab, TabQ,
};
use shelfarrs::plugin::{PluginManifest, ViewerUi};
use shelfarrs::providers::{
    enabled, googlebooks_url, offer, openlibrary_url, parse_googlebooks, parse_ol_work_description,
    parse_openlibrary, work_key, work_url, Lookup, ProviderMeta,
};
use shelfarrs::reader::{no_viewer, read};
use shelfarrs::source::parse_gutendex;

#[test]
fn parses_epub_candidate_from_gutendex() {
    let json = parse(
        r#"{
            "results": [
                {
                    "title": "Pride and Prejudice",
                    "authors": [{ "name": "Austen, Jane" }],
                    "formats": {
                        "text/html": "https://x/1342.html",
                        "application/epub+zip": "https://x/1342.epub"
                    }
                },
                { "title": "No epub here", "authors": [], "formats": { "text/plain": "https://x/2.txt" } }
            ]
        }"#,
    )
    .unwrap();
    let c = parse_gutendex(&json);
    assert_eq!(c.len(), 1, "only the entry with an epub is a candidate");
    assert_eq!(c[0].title, "Pride and Prejudice");
    assert_eq!(c[0].author.as_deref(), Some("Austen, Jane"));
    assert_eq!(c[0].format, "epub");
    assert_eq!(c[0].reference, "https://x/1342.epub");
}

#[test]
fn parses_epub_candidate() {
    let json = parse(
        r#"{
            "results": [
                { "title": "Pride and Prejudice", "authors": [{ "name": "Austen, Jane" }],
                  "formats": { "text/html": "https://x/1.html", "application/epub+zip": "https://x/1.epub" } },
                { "title": "No epub", "authors": [], "formats": { "text/plain": "https://x/2.txt" } }
            ]
        }"#,
    )
    .unwrap();
    let c = parse_gutendex(&json);
    assert_eq!(c.len(), 1);
    assert_eq!(c[0].title, "Pride and Prejudice");
    assert_eq!(c[0].reference, "https://x/1.epub");
}

#[test]
fn gutendex_gaps() {
    let text = r#"{"results": [
        {"formats": {"application/epub+zip; images": "u"}},
        {"title": "T", "authors": [{}], "formats": {"application/epub+zip": 1}},
        {"title": "T", "authors": "A", "formats": {"application/epub+zip": "v"}}]}"#;
    let c = shelfarrs::source::search(text).unwrap();
    assert_eq!(c.len(), 2);
    assert_eq!((c[0].title.as_str(), c[0].reference.as_str()), ("Untitled", "u"));
    assert_eq!(c[1].author, None);
    assert!(shelfarrs::source::search("{}").unwrap().is_empty());
    assert!(shelfarrs::source::search("x").is_none());
    assert_eq!(
        shelfarrs::source::search_url("jane austen"),
        "https://gutendex.com/books/?search=jane%20austen"
    );
    let d = shelfarrs::source::resolve_download("u");
    assert_eq!(d.url.as_deref(), Some("u"));
}

const ROW: &str = r#"<tr> <td><a href="edition.php?id=1"><img></a></td>
      <td><a href="edition.php?id=1">The theology of Dracula <i></i></a></td>
      <td>Dracula;Stoker, Bram;Rarignac</td> <td>McFarland &amp; Co</td>
      <td>2012</td> <td>English</td> <td>241 pages</td>
      <td><a href="/file.php?id=9">5 MB</a></td> <td>pdf</td>
      <td><a href="/ads.php?md5=78e0dcf53cc3483ee60c8aa2f5779e1a">libgen</a></td> </tr>"#;

#[test]
fn parses_a_row() {
    let c = parse_libgen(ROW);
    assert_eq!(c.len(), 1);
    assert_eq!(c[0].title, "The theology of Dracula");
    assert_eq!(c[0].format, "pdf");
    assert_eq!(c[0].reference, "78e0dcf53cc3483ee60c8aa2f5779e1a");
    assert_eq!(c[0].author.as_deref(), Some("Dracula"));
}

#[test]
fn skips_rows_without_a_book() {
    assert!(parse_libgen("<tr><td>header</td></tr>").is_empty());
}

#[test]
fn extracts_get_link() {
    let ads = r#"<a href="get.php?md5=abc&amp;key=KEY9">GET</a>"#;
    assert_eq!(find_get_link(ads).as_deref(), Some("get.php?md5=abc&key=KEY9"));
}

#[test]
fn parts_of_a_row() {
    assert_eq!(find_md5(&format!("md5={}", "AB".repeat(16))), Some("ab".repeat(16)));
    assert_eq!(find_md5("md5=123"), None);
    assert_eq!(find_md5(&format!("md5={}", "zz".repeat(16))), None);
    assert_eq!(find_md5("none"), None);
    assert_eq!(find_title("href=\"edition.php?id=1\"> A &quot;B&quot; <").as_deref(), Some("A \"B\""));
    assert_eq!(find_title("href=\"edition.php"), None);
    assert_eq!(find_ext("<td> pdf</td><td>fb2</td>").as_deref(), Some("fb2"));
    assert_eq!(find_ext("<td>docx</td>"), None);
    assert_eq!(find_author("<td>no</td><td>a<b>;</td><td> ;x</td><td> Z ;Y</td>").as_deref(), Some("Z"));
    assert_eq!(find_author("<td>a;b"), None);
    let long = format!("<td>{};x</td>", "n".repeat(100));
    assert_eq!(find_author(&long), Some("n".repeat(80)));
}

#[test]
fn mirrors_and_downloads() {
    assert_eq!(host(""), "libgen.li");
    assert_eq!(host("x"), "x");
    assert_eq!(mirrors_to_try(""), ["libgen.li", "libgen.gs", "libgen.la"]);
    assert_eq!(mirrors_to_try("libgen.gs"), ["libgen.gs", "libgen.li", "libgen.la"]);
    assert_eq!(mirrors_to_try("x"), ["x", "libgen.li", "libgen.gs", "libgen.la"]);
    assert_eq!(search_url("h", "a b"), "https://h/index.php?req=a%20b&res=50");
    assert_eq!(ads_url("h", "m"), "https://h/ads.php?md5=m");
    assert_eq!(search(ROW, &Some("pdf".into())).len(), 1);
    assert_eq!(search(ROW, &Some("epub".into())).len(), 0);
    assert_eq!(search(ROW, &None).len(), 1);
    let d = resolve_download("h", "<a href=\"get.php?md5=a\">").unwrap();
    assert_eq!(d.url.as_deref(), Some("https://h/get.php?md5=a"));
    assert!(resolve_download("h", "nothing").is_none());
}

#[test]
fn the_next_mirror_is_asked_until_one_has_the_book() {
    let hosts = mirrors_to_try("");
    let pdf = Some("pdf".to_string());
    assert!(matches!(search_step(&hosts, 0, &None, &pdf), MirrorStep::Ask(1)));
    let empty = Some("<html></html>".to_string());
    assert!(matches!(search_step(&hosts, 1, &empty, &pdf), MirrorStep::Ask(2)));
    let row = Some(ROW.to_string());
    let epub = Some("epub".to_string());
    assert!(matches!(search_step(&hosts, 1, &row, &epub), MirrorStep::Ask(2)));
    match search_step(&hosts, 1, &row, &pdf) {
        MirrorStep::Found(books, host) => {
            assert_eq!((books.len(), host.as_str()), (1, "libgen.gs"));
            assert_eq!(books[0].title, "The theology of Dracula");
        }
        _ => panic!("not found"),
    }
    assert!(matches!(search_step(&hosts, 2, &None, &pdf), MirrorStep::Nothing));
    assert!(matches!(search_step(&hosts, 2, &row, &None), MirrorStep::Found(_, h) if h == "libgen.la"));
}

#[test]
fn pages_in_utf8_and_otherwise() {
    assert_eq!(page_text(&"<td>Ünder</td>".as_bytes().to_vec()), "<td>Ünder</td>");
    assert_eq!(page_text(&b"a\xffb".to_vec()), "a\u{fffd}b");
}

#[test]
fn openlibrary_parse() {
    let v = parse(
        r#"{"docs":[{"title":"Dune","author_name":["Frank Herbert"],
            "cover_i": 12345, "isbn":["9780441172719"], "key":"/works/OL893415W"}]}"#,
    )
    .unwrap();
    let m = parse_openlibrary(&v).unwrap();
    assert_eq!(m.title.as_deref(), Some("Dune"));
    assert_eq!(m.author.as_deref(), Some("Frank Herbert"));
    assert_eq!(m.cover_url.as_deref(), Some("https://covers.openlibrary.org/b/id/12345-L.jpg"));
    assert_eq!(m.isbn.as_deref(), Some("9780441172719"));

    assert_eq!(
        parse_ol_work_description(&parse(r#"{"description":"A desert planet."}"#).unwrap()).as_deref(),
        Some("A desert planet.")
    );
    assert_eq!(
        parse_ol_work_description(
            &parse(r#"{"description":{"type":"/type/text","value":"Wormsign."}}"#).unwrap()
        )
        .as_deref(),
        Some("Wormsign.")
    );
    assert_eq!(work_key(&v).as_deref(), Some("/works/OL893415W"));
}

#[test]
fn openlibrary_gaps() {
    assert!(parse_openlibrary(&parse(r#"{"docs":[]}"#).unwrap()).is_none());
    assert!(parse_openlibrary(&parse("[]").unwrap()).is_none());
    let m = parse_openlibrary(&parse(r#"{"docs":[{"cover_i": "x"}]}"#).unwrap()).unwrap();
    assert_eq!(m, ProviderMeta::default());
    assert_eq!(parse_ol_work_description(&parse("{}").unwrap()), None);
    assert_eq!(parse_ol_work_description(&parse(r#"{"description": 3}"#).unwrap()), None);
    assert_eq!(work_url("/works/1"), "https://openlibrary.org/works/1.json");
    assert_eq!(
        openlibrary_url("a b", Some("c&d")),
        "https://openlibrary.org/search.json?limit=3&title=a%20b&author=c%26d"
    );
}

#[test]
fn googlebooks_parse() {
    let v = parse(
        r#"{"items":[{"volumeInfo":{
            "title":"Dune","authors":["Frank Herbert"],
            "description":"Melange.","imageLinks":{"thumbnail":"http://books.google.com/x.jpg"},
            "industryIdentifiers":[{"type":"ISBN_10","identifier":"0441172717"},
                                   {"type":"ISBN_13","identifier":"9780441172719"}]}}]}"#,
    )
    .unwrap();
    let m = parse_googlebooks(&v).unwrap();
    assert_eq!(m.description.as_deref(), Some("Melange."));
    assert_eq!(m.isbn.as_deref(), Some("9780441172719"));
    assert!(m.cover_url.as_deref().unwrap().starts_with("https://"));
}

#[test]
fn googlebooks_gaps() {
    let v = parse(
        r#"{"items":[{"volumeInfo":{"industryIdentifiers":[{"type":"OTHER","identifier":"o"}]}}]}"#,
    )
    .unwrap();
    assert_eq!(parse_googlebooks(&v).unwrap().isbn.as_deref(), Some("o"));
    assert!(parse_googlebooks(&parse("{}").unwrap()).is_none());
    assert_eq!(
        googlebooks_url("t", None),
        "https://www.googleapis.com/books/v1/volumes?maxResults=3&q=intitle:t"
    );
    assert!(googlebooks_url("t", Some("a")).ends_with("intitle:t+inauthor:a"));
}

#[test]
fn the_first_description_wins() {
    let meta = |t: &str, d: Option<&str>| ProviderMeta {
        title: Some(t.into()),
        description: d.map(String::from),
        ..ProviderMeta::default()
    };
    assert!(matches!(offer(None, Some(meta("a", Some("d")))), Lookup::Found(m) if m.title.as_deref() == Some("a")));
    match offer(None, Some(meta("a", None))) {
        Lookup::AskOn(f) => {
            assert!(matches!(offer(f, Some(meta("b", None))), Lookup::AskOn(Some(m)) if m.title.as_deref() == Some("a")))
        }
        Lookup::Found(_) => panic!("no description"),
    }
    assert!(matches!(
        offer(Some(meta("a", None)), Some(meta("b", Some("d")))),
        Lookup::Found(m) if m.title.as_deref() == Some("b")
    ));
    assert!(matches!(offer(None, None), Lookup::AskOn(None)));
    assert!(enabled(&None) && enabled(&Some("1".into())) && !enabled(&Some("0".into())));
}

#[test]
fn the_reading_page() {
    let mut m = PluginManifest {
        id: "epub-viewer".into(),
        name: "E".into(),
        version: "1".into(),
        kind: "viewer".into(),
        wasm: None,
        ui: Some(ViewerUi { js: "v.js".into(), css: Some("v.css".into()), formats: vec!["epub".into()] }),
        capabilities: vec![],
        description: None,
    };
    let p = read(7, "epub", &m, &Some("{\"cfi\":1}".into())).unwrap();
    assert_eq!(
        p.bootstrap,
        r#"window.Shelfarr = {
  book: { id: 7, format: "epub", fileUrl: "/books/7/file" },
  saved: {"cfi":1},
  registerViewer(v) {
    const el = document.getElementById('viewer');
    v.mount(el, {
      fileUrl: this.book.fileUrl,
      progress: this.saved,
      onProgress: (p) => fetch('/progress/7', {
        method: 'POST', headers: { 'Content-Type': 'application/json' },
        body: JSON.stringify({ viewer: v.id, position: p, percent: p.percent })
      })
    });
  }
};"#
    );
    assert_eq!(p.css.as_deref(), Some("/plugins/epub-viewer/v.css"));
    assert_eq!(p.js, "/plugins/epub-viewer/v.js");
    let p = read(7, "e\"p\n", &m, &None).unwrap();
    assert!(p.bootstrap.contains("format: \"e\\\"p\\n\", fileUrl"));
    assert!(p.bootstrap.contains("saved: null,"));
    m.ui = None;
    assert!(read(7, "epub", &m, &None).is_none());
    assert_eq!(no_viewer("txt"), "No viewer for “txt”");
}

#[test]
fn the_navigation() {
    let active = |title: &str| -> Vec<&str> {
        page(title).into_iter().filter(|i| i.active).map(|i| i.href).collect()
    };
    assert_eq!(active("Library"), ["/?group=books", "/?group=books"]);
    assert_eq!(active("Collection"), ["/?group=books"]);
    assert_eq!(active("Wanted"), ["/wanted"]);
    assert_eq!(active("Settings"), ["/settings", "/settings?tab=plugins"]);
    assert_eq!(active("Account"), ["/settings", "/settings?tab=users"]);
    assert!(active("Some book").is_empty());
    assert_eq!(page("Wanted").len(), 8);
    assert_eq!(page("Series").len(), 11);
    assert_eq!(page("General").len(), 14);
    assert_eq!(page("x")[4].badge, Some("activity"));
    assert_eq!(window_title("Library"), "Library · Shelfarrs");
}

#[test]
fn the_settings_tabs() {
    let tab = |t: Option<&str>| settings_page(&TabQ { tab: t.map(String::from), preset: None });
    for t in [Tab::Plugins, Tab::Indexers, Tab::Clients, Tab::Profiles, Tab::Users, Tab::General] {
        assert_eq!(tab(Some(t.key())), t);
    }
    assert_eq!(tab(None), Tab::Plugins);
    assert_eq!(tab(Some("nonsense")), Tab::Plugins);
    assert_eq!(Tab::Clients.title(), "Download Clients");
    assert_eq!(jobs_line(3, 1), "3 done · 1 failed");
    assert_eq!(database_line(4095), "3 KB");
    let b = test_badge(Some(7), &Some("why".into()));
    assert_eq!((b.class.as_str(), b.label.as_str(), b.title.as_deref()), ("failed", "Failed", Some("why")));
}
