use shelfarrs::autosearch::{below_cutoff, grabbed, query_for, search_one, Outcome, WantedBook};
use shelfarrs::indexer::Release;
use shelfarrs::score::{
    add, default_profile, detect_format, fallback_profile, format_rank, pick_best, profile_for,
    profiles_body, score, words, Profile, ProfileForm,
};

fn rel(title: &str, protocol: &str, size: Option<i64>, seeders: Option<i64>) -> Release {
    Release {
        title: title.into(),
        indexer_id: 1,
        indexer: "t".into(),
        protocol: protocol.into(),
        size,
        seeders,
        grabs: None,
        download_url: "u".into(),
        published: None,
    }
}

fn profile() -> Profile {
    Profile {
        id: 1,
        name: "std".into(),
        formats: "epub,azw3,mobi,pdf".into(),
        cutoff: "epub".into(),
        min_size: None,
        max_size: Some(200 << 20),
        preferred_words: Some("retail".into()),
        must_contain: None,
        must_not_contain: Some("summary, workbook".into()),
        min_seeders: 2,
        is_default: 1,
    }
}

#[test]
fn scoring_ladder() {
    let p = profile();
    // epub retail w/ seeders beats bare pdf
    let a = score(&rel("Author - Title (retail) (epub)", "torrent", Some(1 << 20), Some(30)), &p);
    let b = score(&rel("Author - Title (pdf)", "torrent", Some(1 << 20), Some(30)), &p);
    assert!(a.rejected.is_none() && b.rejected.is_none());
    assert!(a.total > b.total, "{} !> {}", a.total, b.total);
    assert_eq!(a.total, 100 + 20 + 5 + 10);
    assert_eq!(b.total, 100 + 12 + 10);
}

#[test]
fn hard_rejects() {
    let p = profile();
    assert!(score(&rel("Title Summary epub", "torrent", None, Some(9)), &p).rejected.is_some());
    assert!(score(&rel("Title epub", "torrent", None, Some(1)), &p).rejected.is_some()); // seeders
    assert!(score(&rel("Title epub", "torrent", Some(300 << 20), Some(9)), &p).rejected.is_some()); // size
    // usenet exempt from seeders
    assert!(score(&rel("Title epub", "usenet", None, None), &p).rejected.is_none());
}

#[test]
fn every_rejection_says_why() {
    let mut p = profile();
    p.must_contain = Some("english".into());
    p.min_size = Some(1000);
    let why = |r: Release| {
        let s = score(&r, &p);
        assert_eq!(s.total, -1);
        s.rejected.unwrap()
    };
    assert_eq!(
        why(rel("A Workbook english", "torrent", None, Some(9))),
        "contains forbidden word 'workbook'"
    );
    assert_eq!(why(rel("A epub", "torrent", None, Some(9))), "missing required word 'english'");
    assert_eq!(why(rel("A English epub", "torrent", Some(999), Some(9))), "below minimum size");
    assert_eq!(
        why(rel("A English epub", "torrent", Some((200 << 20) + 1), Some(9))),
        "above maximum size"
    );
    assert_eq!(why(rel("A English epub", "torrent", Some(1000), None)), "not enough seeders");
    assert_eq!(
        why(rel("A English txt", "usenet", Some(1000), None)),
        "format 'txt' not allowed by profile"
    );
}

#[test]
fn unstated_format_is_a_mild_penalty() {
    let s = score(&rel("Title", "usenet", None, None), &profile());
    assert_eq!(s.rejected, None);
    assert_eq!(s.total, 92);
    let s = score(&rel("Title", "usenet", None, Some(-5)), &profile());
    assert_eq!(s.total, 87);
}

#[test]
fn picks_best() {
    let p = profile();
    let rels = vec![
        rel("Title (pdf)", "torrent", None, Some(50)),
        rel("Title (retail) (epub)", "usenet", Some(5 << 20), None),
        rel("Title workbook epub", "torrent", None, Some(99)),
    ];
    let (best, _) = pick_best(&rels, &p).unwrap();
    assert!(best.title.contains("retail"));
}

#[test]
fn the_last_of_equals_is_picked() {
    let p = profile();
    let rels = vec![
        rel("first epub", "usenet", None, None),
        rel("second epub", "usenet", None, None),
        rel("third pdf", "usenet", None, None),
    ];
    let (best, total) = pick_best(&rels, &p).unwrap();
    assert_eq!(best.title, "second epub");
    assert_eq!(total, 120);
    assert!(pick_best(&[], &p).is_none());
    assert!(pick_best(&[rel("x summary", "usenet", None, None)], &p).is_none());
}

#[test]
fn formats_and_their_ranks() {
    let ladder = ["epub", "azw3", "mobi", "pdf", "cbz", "txt", "doc"];
    for w in ladder.windows(2) {
        assert!(format_rank(w[0]) > format_rank(w[1]));
    }
    assert_eq!(format_rank("cbr"), format_rank("cbz"));
    assert_eq!(format_rank("EPUB"), 0);
    assert_eq!(detect_format("Title [EPUB]"), Some("epub"));
    assert_eq!(detect_format("Title.azw3.mobi"), Some("azw3"));
    assert_eq!(detect_format("a pdf and a cbz"), Some("pdf"));
    assert_eq!(detect_format("book_txt"), Some("txt"));
    assert_eq!(detect_format("republic"), None);
    assert_eq!(detect_format("kepub republic"), None);
    assert_eq!(detect_format("kepub republic epub"), Some("epub"));
    assert_eq!(detect_format(""), None);
}

#[test]
fn word_lists() {
    assert_eq!(words(&Some(" A, b ,,C d ".into())), ["a", "b", "c d"]);
    assert!(words(&None).is_empty());
    assert!(words(&Some(" , ".into())).is_empty());
}

#[test]
fn choosing_a_profile() {
    let mut a = profile();
    a.id = 5;
    a.is_default = 0;
    let mut b = profile();
    b.id = 7;
    let mut c = profile();
    c.id = 6;
    let list = vec![a, b, c];
    assert_eq!(default_profile(&list), Some(2));
    assert_eq!(profile_for(&list, None), Some(2));
    assert_eq!(profile_for(&list, Some(5)), Some(0));
    assert_eq!(profile_for(&list, Some(99)), Some(2));
    assert_eq!(default_profile(&vec![]), None);
    let f = fallback_profile();
    assert_eq!((f.cutoff.as_str(), f.min_seeders), ("epub", 1));
}

#[test]
fn adding_a_profile_tidies_the_form() {
    let n = add(&ProfileForm {
        name: " P ".into(),
        formats: Some("  ".into()),
        cutoff: Some(" pdf ".into()),
        min_size_mb: Some(" 1.5 ".into()),
        max_size_mb: None,
        preferred_words: Some("".into()),
        must_contain: None,
        must_not_contain: Some(" x ".into()),
        min_seeders: None,
    });
    assert_eq!(n.name, "P");
    assert_eq!(n.formats, "epub,azw3,mobi,pdf");
    assert_eq!(n.cutoff, "pdf");
    assert_eq!(n.min_size_mb.as_deref(), Some("1.5"));
    assert_eq!(n.max_size_mb, None);
    assert_eq!(n.preferred_words, None);
    assert_eq!(n.must_not_contain.as_deref(), Some("x"));
    assert_eq!(n.min_seeders, 1);
}

#[test]
fn the_profiles_tab() {
    let mut other = profile();
    other.is_default = 0;
    other.preferred_words = None;
    let rows = profiles_body(&vec![profile(), other]);
    assert_eq!(
        rows[0].line,
        "formats epub,azw3,mobi,pdf · cutoff epub · min seeders 2 · prefers: retail"
    );
    assert!(rows[0].is_default && rows[0].confirm.is_none());
    assert_eq!(rows[1].line, "formats epub,azw3,mobi,pdf · cutoff epub · min seeders 2");
    assert_eq!(rows[1].confirm.as_deref(), Some("Delete profile std?"));
}

fn wanted(format: &str) -> WantedBook {
    WantedBook {
        id: 1,
        title: "Dune".into(),
        author: Some("Frank Herbert".into()),
        format: format.into(),
        profile_id: None,
    }
}

#[test]
fn books_below_their_cutoff() {
    let books = vec![wanted("pdf"), wanted("epub"), wanted("txt")];
    assert_eq!(below_cutoff(&books, &vec![profile()]), [0, 2]);
    assert_eq!(below_cutoff(&books, &vec![]), [0, 2]);
    assert_eq!(query_for(&books[0]), "Dune Frank Herbert");
}

#[test]
fn only_upgrades_are_grabbed() {
    let found = vec![
        rel("Dune pdf", "usenet", None, None),
        rel("Dune mobi", "usenet", None, None),
        rel("Dune summary epub", "usenet", None, None),
    ];
    match search_one(&wanted("pdf"), &found, &profile()) {
        Outcome::Grab(r, total) => {
            assert_eq!(r.title, "Dune mobi");
            assert_eq!(total, 116);
            assert_eq!(grabbed(&r, total), "grabbed 'Dune mobi' (score 116)");
        }
        Outcome::Nothing(m) => panic!("{m}"),
    }
    match search_one(&wanted("epub"), &found, &profile()) {
        Outcome::Nothing(m) => assert_eq!(m, "no acceptable upgrade for 'Dune'"),
        Outcome::Grab(r, _) => panic!("{}", r.title),
    }
    match search_one(&wanted("pdf"), &vec![], &profile()) {
        Outcome::Nothing(m) => assert_eq!(m, "no releases found for 'Dune'"),
        Outcome::Grab(r, _) => panic!("{}", r.title),
    }
}
