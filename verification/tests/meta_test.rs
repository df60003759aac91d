use shelfarrs::meta::{
    cover_href, cover_name, enrich, enrich_pending, extract, has_metadata, join_zip_path,
    meta_elements, series_from_opf, BookMeta, Extracted, Looked,
};
use shelfarrs::xml::{all_tags, attr, esc, find_tag, strip_tags, tag_text, unescape};
use std::io::Write;

fn zip_with(entries: &[(&str, &[u8])]) -> Vec<u8> {
    let mut buf = std::io::Cursor::new(Vec::new());
    {
        let mut w = zip::ZipWriter::new(&mut buf);
        let opts: zip::write::FileOptions<()> = zip::write::FileOptions::default();
        for (name, data) in entries {
            w.start_file(*name, opts).unwrap();
            w.write_all(data).unwrap();
        }
        w.finish().unwrap();
    }
    buf.into_inner()
}

#[test]
fn epub_metadata_and_cover() {
    let container = br#"<?xml version="1.0"?><container>
            <rootfiles><rootfile full-path="OEBPS/content.opf" media-type="application/oebps-package+xml"/></rootfiles>
        </container>"#;
    let opf = br#"<?xml version="1.0"?><package>
          <metadata>
            <dc:title>Alice's Adventures &amp; More</dc:title>
            <dc:creator opf:role="aut">Lewis Carroll</dc:creator>
            <dc:description>&lt;p&gt;A girl falls down a rabbit hole.&lt;/p&gt;</dc:description>
            <meta name="cover" content="cov"/>
          </metadata>
          <manifest>
            <item id="cov" href="images/cover.jpg" media-type="image/jpeg"/>
            <item id="c1" href="ch1.xhtml" media-type="application/xhtml+xml"/>
          </manifest>
        </package>"#;
    let z = zip_with(&[
        ("META-INF/container.xml", container.as_slice()),
        ("OEBPS/content.opf", opf.as_slice()),
        ("OEBPS/images/cover.jpg", b"JPEGBYTES"),
    ]);
    let ex = extract(&z, "epub");
    assert_eq!(ex.title.as_deref(), Some("Alice's Adventures & More"));
    assert_eq!(ex.author.as_deref(), Some("Lewis Carroll"));
    assert_eq!(ex.description.as_deref(), Some("A girl falls down a rabbit hole."));
    let (bytes, ext) = ex.cover.expect("cover found");
    assert_eq!(bytes, b"JPEGBYTES");
    assert_eq!(ext, "jpg");
}

fn number(s: &Option<String>) -> Option<f64> {
    s.as_ref().and_then(|t| t.parse().ok())
}

#[test]
fn series_calibre_and_epub3() {
    let calibre = r#"<metadata>
            <meta name="calibre:series" content="Wonderland Saga"/>
            <meta name="calibre:series_index" content="2.0"/>
        </metadata>"#;
    let (name, index) = series_from_opf(calibre);
    assert_eq!((name, number(&index)), (Some("Wonderland Saga".into()), Some(2.0)));

    let epub3 = r##"<metadata>
            <meta property="belongs-to-collection" id="c01">The Empyrean</meta>
            <meta refines="#c01" property="collection-type">series</meta>
            <meta refines="#c01" property="group-position">3</meta>
        </metadata>"##;
    let (name, index) = series_from_opf(epub3);
    assert_eq!((name, number(&index)), (Some("The Empyrean".into()), Some(3.0)));

    let (name, index) = series_from_opf("<metadata></metadata>");
    assert_eq!((name, number(&index)), (None, None));
}

#[test]
fn a_collection_without_position_overrides_the_index() {
    let opf = r##"<meta name="calibre:series_index" content="4"/>
        <meta property="belongs-to-collection" id="c"> Saga </meta>"##;
    assert_eq!(series_from_opf(opf), (Some("Saga".into()), None));
    let opf = r##"<meta name="calibre:series_index" content="4"/>
        <meta property="belongs-to-collection">Saga</meta>"##;
    assert_eq!(series_from_opf(opf), (Some("Saga".into()), Some("4".into())));
    let opf = r##"<meta name="calibre:series_index" content="4"/>
        <meta property="belongs-to-collection" id="c"> </meta>"##;
    assert_eq!(series_from_opf(opf), (None, Some("4".into())));
}

#[test]
fn cbz_first_page_is_cover() {
    let z = zip_with(&[("p02.png", b"PAGE2".as_slice()), ("p01.jpg", b"PAGE1")]);
    let ex = extract(&z, "cbz");
    let (bytes, ext) = ex.cover.expect("cover found");
    assert_eq!(bytes, b"PAGE1");
    assert_eq!(ext, "jpg");
    assert!(ex.title.is_none());
}

#[test]
fn cbz_skips_what_is_no_image() {
    let z = zip_with(&[("a.txt", b"t".as_slice()), ("z/B.JPEG", b"b"), ("z/a.webp", b"a")]);
    let (bytes, ext) = extract(&z, "cbz").cover.unwrap();
    assert_eq!((bytes.as_slice(), ext.as_str()), (b"b".as_slice(), "jpg"));
    assert!(extract(&zip_with(&[("a.txt", b"t".as_slice())]), "cbz").cover.is_none());
}

#[test]
fn unknown_format_is_empty() {
    let ex = extract(&[], "pdf");
    assert!(ex.title.is_none() && ex.cover.is_none());
    assert!(!has_metadata("pdf") && has_metadata("epub") && has_metadata("cbz"));
}

#[test]
fn broken_files_are_empty() {
    for format in ["epub", "cbz"] {
        let ex = extract(b"no archive", format);
        assert!(ex.title.is_none() && ex.cover.is_none());
    }
    let z = zip_with(&[("META-INF/container.xml", b"<container/>".as_slice())]);
    assert!(extract(&z, "epub").title.is_none());
    let z = zip_with(&[(
        "META-INF/container.xml",
        b"<rootfile full-path=\"gone.opf\"/>".as_slice(),
    )]);
    assert!(extract(&z, "epub").title.is_none());
}

#[test]
fn covers_with_spaces_in_their_names() {
    let z = zip_with(&[
        ("META-INF/container.xml", b"<rootfile full-path=\"x.opf\"/>".as_slice()),
        (
            "x.opf",
            b"<dc:title>T\xff</dc:title><item href=\"./a/../my%20cover.PNG\" properties=\"cover-image\"/>",
        ),
        ("my cover.PNG", b"P"),
    ]);
    let ex = extract(&z, "epub");
    assert_eq!(ex.title.as_deref(), Some("T\u{fffd}"));
    assert_eq!(ex.cover, Some((b"P".to_vec(), "png".to_string())));
}

#[test]
fn cover_by_declaration_id_or_name() {
    let opf = r#"<meta name="cover" content="c2"/>
        <item id="c1" href="a.png" media-type="image/png"/>
        <item id="c2" href="b.png"/>
        <item id="c3" href="c.png" properties="x cover-image"/>"#;
    assert_eq!(cover_href(opf).as_deref(), Some("c.png"));
    let opf = r#"<meta name="cover" content="c2"/><item id="c2" href="b.png"/>"#;
    assert_eq!(cover_href(opf).as_deref(), Some("b.png"));
    let opf = r#"<item id="x" href="cover.xhtml" media-type="text/html"/>
        <item id="My-Cover" href="d.png" media-type="image/png"/>"#;
    assert_eq!(cover_href(opf).as_deref(), Some("d.png"));
    assert_eq!(cover_href("<item id=\"x\"/>"), None);
}

#[test]
fn paths_inside_an_archive() {
    assert_eq!(join_zip_path("OEBPS", "images/c.jpg"), "OEBPS/images/c.jpg");
    assert_eq!(join_zip_path("OEBPS/text", "../images/./c.jpg"), "OEBPS/images/c.jpg");
    assert_eq!(join_zip_path("", "../../c.jpg"), "c.jpg");
    assert_eq!(join_zip_path("a\\b//", "/c"), "a/b/c");
}

#[test]
fn the_tag_scan() {
    let xml = "<itemref/><item a=\"1\"><item\tb='2'/><items><item";
    assert_eq!(all_tags(xml, "item"), ["<item a=\"1\">", "<item\tb='2'/>"]);
    assert_eq!(find_tag(xml, "items").as_deref(), Some("<items>"));
    assert_eq!(find_tag(xml, "x"), None);
    assert_eq!(tag_text("<a/><a> </a><a x=\"y\"> t &lt; </a>", "a").as_deref(), Some("t <"));
    assert_eq!(tag_text("<ab>1</ab><a>2", "a"), None);
    assert_eq!(tag_text("<a x/>1</a><a>2</a>", "a").as_deref(), Some("2"));
    assert_eq!(attr("<a href=\"x&amp;y\">", "href").as_deref(), Some("x&y"));
    assert_eq!(attr("<a href='x'>", "href"), None);
    assert_eq!(attr("<a href=\"x", "href"), None);
    assert_eq!(attr("<item uuid=\"9\" id=\"c\"/>", "id").as_deref(), Some("c"));
    assert_eq!(attr("<item uuid=\"9\"/>", "id"), None);
    assert_eq!(attr("<x a=\"1\"b=\"2\">", "b").as_deref(), Some("2"));
    assert_eq!(attr("id=\"c\"", "id").as_deref(), Some("c"));
    assert_eq!(attr("<x a=\"1\">", "").as_deref(), Some("1"));
    assert_eq!(attr("<x data-id=\"1\" xml:id=\"2\" \u{e9}id=\"3\" id=\"c\">", "id").as_deref(), Some("c"));
    assert_eq!(attr("<item\tuuid=\"9\"\nid=\"c\"/>", "id").as_deref(), Some("c"));
    assert_eq!(unescape("&lt;&gt;&quot;&apos;&#39;&amp;lt;"), "<>\"''<");
    let metas = meta_elements("<metadata><meta a=\"b\"/><meta>in</meta></metadata><meta x>");
    assert_eq!(metas.len(), 3);
    assert_eq!(metas[0], ("<meta a=\"b\"/>".to_string(), String::new()));
    assert_eq!(metas[1], ("<meta>".to_string(), "in".to_string()));
    assert_eq!(metas[2], ("<meta x>".to_string(), String::new()));
}

#[test]
fn markup_is_stripped_and_escaped() {
    assert_eq!(strip_tags("<p>A  b</p>\n<br/>c"), "A b c");
    assert_eq!(strip_tags("a > b < c"), "a b");
    assert_eq!(strip_tags("1<2>3<<4>>5"), "135");
    assert_eq!(esc("<a href=\"x&y\">"), "&lt;a href=&quot;x&amp;y&quot;&gt;");
    assert_eq!(esc("&amp;"), "&amp;amp;");
}

#[test]
fn what_the_file_says_wins() {
    let known = BookMeta {
        title: "file".into(),
        author: Some("source".into()),
        description: None,
        cover: Some("1.png".into()),
        series: None,
        series_index: None,
        done: false,
    };
    let mut found = Extracted::default();
    let m = enrich(&known, &found, &None);
    assert_eq!((m.title.as_str(), m.author.as_deref(), m.done), ("file", Some("source"), true));
    assert_eq!(m.cover.as_deref(), Some("1.png"));
    found.title = Some("Real".into());
    found.series = Some("S".into());
    let m = enrich(&known, &found, &Some(cover_name(1, "jpg")));
    assert_eq!((m.title.as_str(), m.series.as_deref()), ("Real", Some("S")));
    assert_eq!(m.cover.as_deref(), Some("1.jpg"));
}

#[test]
fn package_text_in_utf8_and_otherwise() {
    let container = br#"<rootfile full-path="p.opf"/>"#;
    let title_of = |opf: &[u8]| {
        let z = zip_with(&[("META-INF/container.xml", container.as_slice()), ("p.opf", opf)]);
        extract(&z, "epub").title
    };
    assert_eq!(title_of("<dc:title>Ünder</dc:title>".as_bytes()).as_deref(), Some("Ünder"));
    assert_eq!(title_of(b"<dc:title>a\xffb</dc:title>").as_deref(), Some("a\u{fffd}b"));
}

fn book(title: &str, author: Option<&str>, done: bool) -> BookMeta {
    BookMeta {
        title: title.into(),
        author: author.map(String::from),
        description: None,
        cover: None,
        series: None,
        series_index: None,
        done,
    }
}

#[test]
fn a_run_looks_at_every_pending_book_once() {
    let looked = |title: Option<&str>, cover: Option<&str>| {
        let mut found = Extracted::default();
        found.title = title.map(String::from);
        Looked { found, cover: cover.map(String::from) }
    };
    let mut books = vec![
        book("a", Some("x"), false),
        book("b", None, true),
        book("c", Some("z"), false),
        book("d", None, false),
    ];
    let what = vec![
        looked(Some("A"), Some("1.jpg")),
        looked(Some("B"), Some("2.jpg")),
        looked(None, None),
    ];
    assert_eq!(enrich_pending(&mut books, &what), 3);
    assert!(books.iter().all(|b| b.done));
    assert_eq!((books[0].title.as_str(), books[0].author.as_deref()), ("A", Some("x")));
    assert_eq!(books[0].cover.as_deref(), Some("1.jpg"));
    assert_eq!((books[1].title.as_str(), books[1].cover.as_deref()), ("b", None));
    assert_eq!((books[2].title.as_str(), books[2].author.as_deref()), ("c", Some("z")));
    assert_eq!(books[3].title, "d");
    // A second run finds nothing to do.
    let again = vec![looked(Some("new"), Some("9.jpg"))];
    assert_eq!(enrich_pending(&mut books, &again), 0);
    assert_eq!((books[0].title.as_str(), books[0].cover.as_deref()), ("A", Some("1.jpg")));
}

#[test]
fn escaping_piece_by_piece_and_back() {
    assert_eq!(esc("a<b") + &esc(">\"&"), esc("a<b>\"&"));
    assert_eq!(esc("<a href=\"x\">"), "&lt;a href=&quot;x&quot;&gt;");
    for s in ["", "a < b > c", "\"quoted\"", "'single'"] {
        assert_eq!(unescape(&esc(s)), s);
    }
    assert_eq!(esc("&amp;"), "&amp;amp;");
}

#[test]
fn stripped_text_is_closed_up() {
    let s = strip_tags("  <p> A  girl\n<b>falls</b> </p>  down. ");
    assert_eq!(s, "A girl falls down.");
    assert_eq!(strip_tags(&s), s);
    assert_eq!(strip_tags(" one\ttwo  three\n"), "one two three");
    assert_eq!(strip_tags("<p></p>"), "");
}
