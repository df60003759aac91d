use shelfarrs::indexer::{
    add, caps_url, enabled_indexers, fmt_size, indexers_body, merge, parse_rss, search_all,
    search_url, test_indexer, AddForm, Answer, Indexer, Release,
};

fn ix() -> Indexer {
    Indexer {
        id: 1,
        name: "Test".into(),
        protocol: "torrent".into(),
        url: "https://x".into(),
        api_key: Some("k".into()),
        categories: Some("7000,7020".into()),
        priority: 25,
        enabled: 1,
        last_test_ok: None,
        last_test_error: None,
    }
}

#[test]
fn builds_search_url() {
    let u = search_url(&ix(), "the hobbit");
    assert!(u.starts_with("https://x/api?t=search&q=the%20hobbit"));
    assert!(u.contains("&apikey=k") && u.contains("&cat=7000,7020"));
    assert_eq!(
        u,
        "https://x/api?t=search&q=the%20hobbit&limit=100&extended=1&apikey=k&cat=7000,7020"
    );
}

#[test]
fn search_url_without_key_and_categories() {
    let mut i = ix();
    i.url = "https://x///".into();
    i.api_key = None;
    i.categories = Some("  ".into());
    assert_eq!(search_url(&i, "a"), "https://x/api?t=search&q=a&limit=100&extended=1");
}

#[test]
fn parses_torznab_rss() {
    let xml = r#"<rss><channel>
          <item>
            <title>The Hobbit (1937) EPUB &amp; MOBI</title>
            <link>https://x/details/1</link>
            <pubDate>Tue, 01 Jul 2026 10:00:00 +0000</pubDate>
            <enclosure url="https://x/dl/1.torrent" length="2097152" type="application/x-bittorrent"/>
            <torznab:attr name="seeders" value="42"/>
            <torznab:attr name="grabs" value="7"/>
          </item>
          <item><title></title></item>
        </channel></rss>"#;
    let rel = parse_rss(xml, &ix());
    assert_eq!(rel.len(), 1);
    let r = &rel[0];
    assert_eq!(r.title, "The Hobbit (1937) EPUB & MOBI");
    assert_eq!(r.seeders, Some(42));
    assert_eq!(r.size, Some(2_097_152));
    assert_eq!(r.download_url, "https://x/dl/1.torrent");
    assert_eq!(r.grabs, Some(7));
    assert_eq!(r.indexer_id, 1);
    assert_eq!(r.indexer, "Test");
    assert_eq!(r.protocol, "torrent");
    assert_eq!(r.published.as_deref(), Some("Tue, 01 Jul 2026 10:00:00 +0000"));
}

#[test]
fn rss_size_and_link_fall_back() {
    let xml = "<item><title>A</title><link>https://x/1?a=1&amp;amp;b=2</link><size>12</size></item>\
               <item><title>B</title><link>l</link><newznab:attr name=\"size\" value=\"0\"/><size>9</size></item>\
               <item><title>C</title></item>\
               <item><title>D</title><enclosure url=\"\" length=\"5\"/><link>l</link></item>\
               <item><title>E</title><link>l</link><torznab:attr name=\"seeders\" value=\"1\"/><newznab:attr name=\"seeders\" value=\"x\"/></item>\
               <item><title>open</title>";
    let rel = parse_rss(xml, &ix());
    assert_eq!(rel.len(), 3);
    assert_eq!(rel[0].size, Some(12));
    assert_eq!(rel[0].download_url, "https://x/1?a=1&b=2");
    assert_eq!(rel[0].seeders, None);
    assert_eq!(rel[1].title, "B");
    assert_eq!(rel[1].size, None);
    assert_eq!(rel[2].title, "E");
    assert_eq!(rel[2].seeders, None);
}

#[test]
fn size_formatting() {
    assert_eq!(fmt_size(2_097_152), "2 MB");
    assert_eq!(fmt_size(1_610_612_736), "1.5 GB");
}

#[test]
fn sizes_are_written_as_the_standard_library_writes_them() {
    let by_float = |bytes: i64| {
        let b = bytes as f64;
        if b >= 1_073_741_824.0 {
            format!("{:.1} GB", b / 1_073_741_824.0)
        } else {
            format!("{:.0} MB", b / 1_048_576.0)
        }
    };
    let mut samples = vec![
        0, 1, -1, 524_287, 524_288, 524_289, 1_048_575, 1_048_576, 1_572_863, 1_572_864, 1_572_865,
        2_621_440, 1_073_741_823, 1_073_741_824, 1_127_428_915, 1_127_428_916, 1_181_116_006,
        1_181_116_007, 1_342_177_280, i64::MAX, i64::MIN, i64::MAX - 511, i64::MAX - 512,
        (1 << 53) - 1, 1 << 53, (1 << 53) + 1, (1 << 54) + 2, (1 << 54) + 6, -524_288, -1_572_864,
    ];
    let mut n: i64 = 7;
    for _ in 0..5000 {
        n = n.wrapping_mul(6364136223846793005).wrapping_add(1442695040888963407);
        samples.push(n);
        samples.push(n >> 20);
        samples.push(n >> 31);
        samples.push(n >> 40);
    }
    for s in samples {
        assert_eq!(fmt_size(s), by_float(s), "{s}");
    }
}

fn release(title: &str, seeders: Option<i64>) -> Release {
    Release {
        title: title.into(),
        indexer_id: 1,
        indexer: "t".into(),
        protocol: "torrent".into(),
        size: None,
        seeders,
        grabs: None,
        download_url: "u".into(),
        published: None,
    }
}

#[test]
fn merging_sorts_by_seeders_and_is_stable() {
    let batches = vec![
        vec![release("a", Some(1)), release("b", None), release("c", Some(5))],
        vec![],
        vec![release("d", Some(5)), release("e", Some(-1)), release("f", Some(0))],
    ];
    let titles: Vec<String> = merge(&batches).into_iter().map(|r| r.title).collect();
    assert_eq!(titles, ["c", "d", "a", "b", "f", "e"]);
}

#[test]
fn searching_merges_the_answers() {
    let body = |t: &str, n: i64| {
        format!("<item><title>{t}</title><link>l</link><torznab:attr name=\"seeders\" value=\"{n}\"/></item>")
    };
    let answers = vec![
        Answer { indexer: ix(), body: Some(body("low", 1)) },
        Answer { indexer: ix(), body: None },
        Answer { indexer: ix(), body: Some(body("high", 9)) },
    ];
    let found = search_all(&answers);
    assert_eq!(found.len(), 2);
    assert_eq!(found[0].title, "high");
    assert_eq!(found[1].title, "low");
}

#[test]
fn only_enabled_indexers_are_asked() {
    let mut off = ix();
    off.enabled = 0;
    assert_eq!(enabled_indexers(&vec![ix(), off, ix()]), [0, 2]);
}

#[test]
fn capabilities() {
    assert_eq!(caps_url(&ix()), "https://x/api?t=caps&apikey=k");
    assert_eq!(test_indexer("<?xml?><caps></caps>"), Ok(()));
    assert_eq!(test_indexer("<rss/>"), Ok(()));
    assert_eq!(test_indexer("<error>Bad key</error>"), Err("Bad key".to_string()));
    assert_eq!(
        test_indexer("<error code=\"100\" description=\"Incorrect &amp; wrong\"/>"),
        Err("Incorrect & wrong".to_string())
    );
    let other = Err("unexpected response (not torznab/newznab)".to_string());
    assert_eq!(test_indexer("<html>"), other);
    assert_eq!(test_indexer("<error/>"), other);
}

#[test]
fn adding_an_indexer_tidies_the_form() {
    let n = add(&AddForm {
        name: " N ".into(),
        url: " https://x/api/ ".into(),
        api_key: Some(" ".into()),
        protocol: "usenet".into(),
        categories: Some(" 7000 ".into()),
        priority: None,
    });
    assert_eq!(n.name, "N");
    assert_eq!(n.url, "https://x");
    assert_eq!(n.api_key, None);
    assert_eq!(n.protocol, "usenet");
    assert_eq!(n.categories.as_deref(), Some("7000"));
    assert_eq!(n.priority, 25);
}

#[test]
fn the_indexers_tab() {
    let mut bad = ix();
    bad.enabled = 0;
    bad.last_test_ok = Some(0);
    bad.last_test_error = Some("down".into());
    let mut good = ix();
    good.last_test_ok = Some(1);
    let b = indexers_body(&vec![ix(), bad, good], Some("nzbgeek"));
    assert_eq!(b.protocol, "usenet");
    assert_eq!(b.name, "NZBGeek");
    assert_eq!(b.url, "https://api.nzbgeek.info");
    assert_eq!(b.rows[0].line, "https://x · priority 25");
    assert_eq!(b.rows[0].badge.label, "Untested");
    assert_eq!(b.rows[0].toggle, "disable");
    assert_eq!(b.rows[0].confirm, "Remove indexer Test?");
    assert_eq!(b.rows[1].badge.class, "failed");
    assert_eq!(b.rows[1].badge.title.as_deref(), Some("down"));
    assert_eq!(b.rows[1].toggle, "enable");
    assert_eq!(b.rows[2].badge.label, "OK");
    let b = indexers_body(&vec![], None);
    assert_eq!((b.name.as_str(), b.url.as_str(), b.protocol.as_str()), ("", "", "torrent"));
}

#[test]
fn a_pasted_endpoint_is_tolerated() {
    let stored = |url: &str| {
        add(&AddForm {
            name: "n".into(),
            url: url.into(),
            api_key: None,
            protocol: "torrent".into(),
            categories: None,
            priority: None,
        })
        .url
    };
    for url in ["https://x", " https://x/1", "https://x/api", ""] {
        assert_eq!(stored(&format!("{url}/api")), stored(url));
    }
    assert_eq!(stored("https://x/api/"), "https://x");
}
