use shelfarrs::discovery::{
    acquire, follow_add, follow_remove, following, import_list, no_candidate, queued_heading,
    AuthorForm, ImportForm, PendingJob,
};
use shelfarrs::jobs::{
    acquire_payload, activity_page, finish, job_status, job_title, nav_badge, notif_recent, run,
    titled, ActivityQ, Job, Run, StoredDownload, StoredJob,
};
use shelfarrs::json::{member_text, parse, read_list, write_list, write_member, Json};
use shelfarrs::sdk::Candidate;

fn job(kind: &str, payload: &str) -> Job {
    Job { id: 1, kind: kind.into(), payload: payload.into() }
}

#[test]
fn what_running_a_job_means() {
    assert!(matches!(run(&job("scan", "")), Run::Scan));
    assert!(matches!(run(&job("download", "{}")), Run::Download));
    assert!(matches!(run(&job("acquire", r#"{"query":"Dune"}"#)), Run::Acquire(q) if q == "Dune"));
    assert!(matches!(run(&job("acquire", "{}")), Run::Acquire(q) if q.is_empty()));
    assert!(matches!(run(&job("acquire", "nope")), Run::BadPayload));
    assert!(matches!(run(&job("x", "")), Run::Unknown(e) if e == "unknown job kind: x"));
}

#[test]
fn what_is_queued_is_what_is_looked_for() {
    for q in ["Dune", "a \"quoted\" \\ title\n", "Ünï", ""] {
        let payload = acquire_payload(q);
        assert!(matches!(run(&job("acquire", &payload)), Run::Acquire(r) if r == q));
        assert_eq!(job_title("acquire", &payload), format!("Acquire: {q}"));
    }
    assert_eq!(acquire_payload("Dune"), r#"{"query":"Dune"}"#);
}

#[test]
fn titles_of_jobs() {
    assert_eq!(job_title("download", r#"{"title":"Emma"}"#), "Emma");
    assert_eq!(job_title("download", r#"{"title":3}"#), "Download");
    assert_eq!(job_title("download", "broken"), "Download");
    assert_eq!(job_title("acquire", "[]"), "Acquire");
    assert_eq!(job_title("scan", "{}"), "Library scan");
    assert_eq!(job_title("other", "{}"), "other");
    assert_eq!(titled("download", None), "Download");
    assert_eq!(finish(&None), ("done".to_string(), None));
    assert_eq!(finish(&Some("e".into())), ("failed".to_string(), Some("e".to_string())));
}

#[test]
fn states_of_jobs() {
    let show = |k: &str, s: &str| {
        let r = job_status(k, s);
        (r.class, r.label, r.percent)
    };
    assert_eq!(show("scan", "queued"), ("queued", "Queued", 0));
    assert_eq!(show("scan", "running"), ("processing", "Processing", 50));
    assert_eq!(show("download", "running"), ("downloading", "Downloading", 50));
    assert_eq!(show("download", "done"), ("completed", "Completed", 100));
    assert_eq!(show("download", "failed"), ("failed", "Failed", 100));
}

fn stored(kind: &str, payload: &str, status: &str) -> StoredJob {
    StoredJob {
        kind: kind.into(),
        payload: payload.into(),
        status: status.into(),
        error: None,
        updated_at: "now".into(),
    }
}

fn download(title: &str, state: &str) -> StoredDownload {
    StoredDownload {
        title: title.into(),
        protocol: "torrent".into(),
        state: state.into(),
        percent: 42,
        error: Some("e".into()),
        updated_at: "now".into(),
    }
}

#[test]
fn the_activity_page() {
    let jobs = vec![
        stored("download", r#"{"title":"Emma"}"#, "done"),
        stored("scan", "{}", "running"),
    ];
    let dls = vec![download("DUNE", "imported"), download("Emma", "weird")];
    let p = activity_page(&jobs, &dls, &ActivityQ { f: None });
    assert_eq!((p.downloads.len(), p.jobs.len()), (2, 2));
    assert_eq!(p.downloads[0].class, "completed");
    assert_eq!((p.downloads[0].percent, p.downloads[0].kind.as_str()), (42, "torrent"));
    assert_eq!(p.downloads[1].class, "failed");
    assert_eq!(p.downloads[1].label, "weird");
    assert_eq!(p.jobs[1].title, "Library scan");
    assert_eq!(p.jobs[0].percent, 100);
    let p = activity_page(&jobs, &dls, &ActivityQ { f: Some("Du".into()) });
    assert_eq!(p.filter, "du");
    assert_eq!((p.downloads.len(), p.jobs.len()), (1, 0));
    for (state, class) in [
        ("queued", "queued"),
        ("downloading", "downloading"),
        ("completed", "processing"),
        ("importing", "processing"),
    ] {
        let p = activity_page(&vec![], &vec![download("x", state)], &ActivityQ { f: None });
        assert_eq!(p.downloads[0].class, class);
    }
}

#[test]
fn counts_and_notices() {
    assert_eq!(nav_badge("activity", 2, 3, 9).as_deref(), Some("5"));
    assert_eq!(nav_badge("activity", i64::MAX, i64::MAX, 0).as_deref(), Some("18446744073709551614"));
    assert_eq!(nav_badge("wanted", 2, 3, 9).as_deref(), Some("9"));
    assert_eq!(nav_badge("wanted", 2, 3, 0), None);
    assert_eq!(nav_badge("x", 2, 3, 9), None);
    let n = notif_recent(&vec![stored("scan", "{}", "done"), stored("x", "{}", "failed")]);
    assert!(n[0].ok && !n[1].ok);
    assert_eq!(n[0].title, "Library scan");
}

#[test]
fn stored_lists_read_back() {
    let list = vec!["a".to_string(), "b \"c\"".into(), "".into()];
    assert_eq!(write_list(&list), r#"["a","b \"c\"",""]"#);
    assert_eq!(read_list(&Some(write_list(&list))), list);
    assert!(read_list(&None).is_empty());
    assert!(read_list(&Some("{}".into())).is_empty());
    assert!(read_list(&Some(r#"["a", 1]"#.into())).is_empty());
    assert!(read_list(&Some("[".into())).is_empty());
    assert_eq!(member_text(&write_member("k", "v"), "k").as_deref(), Some("v"));
    assert_eq!(write_member("k", "v"), r#"{"k":"v"}"#);
    assert_eq!(write_list(&vec![]), "[]");
}

#[test]
fn json_values() {
    let v = parse(r#"{"b": [1, -2.5, 18446744073709551615, true, null, "x"], "a": {"0": "zero"}}"#)
        .unwrap();
    match v.get("b") {
        Some(Json::Array(items)) => {
            assert!(matches!(items[0], Json::Int(1)));
            assert!(matches!(&items[1], Json::Number(n) if n == "-2.5"));
            assert!(matches!(&items[2], Json::Number(n) if n == "18446744073709551615"));
            assert!(matches!(items[3], Json::Bool(true)));
            assert!(matches!(items[4], Json::Null));
            assert!(matches!(&items[5], Json::Text(s) if s == "x"));
        }
        _ => panic!("no array"),
    }
    assert!(v.get("c").is_none());
    assert!(parse("{").is_none());
}

fn candidate(format: &str) -> Candidate {
    Candidate {
        source: "s".into(),
        title: format.into(),
        author: None,
        format: format.into(),
        size: None,
        reference: "r".into(),
    }
}

#[test]
fn the_best_match_is_an_epub() {
    assert!(acquire(&vec![]).is_none());
    assert!(acquire(&vec![vec![], vec![]]).is_none());
    let found = vec![vec![candidate("pdf"), candidate("mobi")]];
    assert_eq!(acquire(&found).unwrap().title, "pdf");
    let found = vec![vec![candidate("pdf"), candidate("epub"), candidate("epub")]];
    assert_eq!(acquire(&found).unwrap().title, "epub");
    assert_eq!(no_candidate("x"), "no candidate found for 'x'");
}

#[test]
fn an_epub_of_a_later_source_wins() {
    let from = |source: &str, format: &str| {
        let mut c = candidate(format);
        c.source = source.into();
        c
    };
    let found = vec![vec![from("a", "pdf")], vec![], vec![from("b", "mobi"), from("b", "epub")]];
    let best = acquire(&found).unwrap();
    assert_eq!((best.source.as_str(), best.format.as_str()), ("b", "epub"));
    let found = vec![vec![from("a", "pdf"), from("a", "epub")], vec![from("b", "epub")]];
    assert_eq!(acquire(&found).unwrap().source, "a");
    let found = vec![vec![], vec![from("b", "mobi")], vec![from("c", "pdf")]];
    assert_eq!(acquire(&found).unwrap().source, "b");
}

#[test]
fn followed_authors() {
    let mut list = vec![];
    let form = |a: &str| AuthorForm { author: a.into() };
    assert!(follow_add(&mut list, &form(" Jane Austen ")));
    assert!(!follow_add(&mut list, &form("JANE AUSTEN")));
    assert!(!follow_add(&mut list, &form("  ")));
    assert!(follow_add(&mut list, &form("Bram Stoker")));
    assert_eq!(list, ["Jane Austen", "Bram Stoker"]);
    assert_eq!(follow_remove(&list, &form("jane austen")), list);
    assert_eq!(follow_remove(&list, &form("Jane Austen")), ["Bram Stoker"]);
}

#[test]
fn import_lists() {
    let f = ImportForm { titles: " The Hobbit \r\n\n\tDune\n".into() };
    assert_eq!(import_list(&f), ["The Hobbit", "Dune"]);
    assert!(import_list(&ImportForm { titles: "".into() }).is_empty());
    assert_eq!(queued_heading(1), "Queued 1 title");
    assert_eq!(queued_heading(2), "Queued 2 titles");
    assert_eq!(queued_heading(0), "Queued 0 titles");
}

#[test]
fn the_wanted_page() {
    let pending = |p: &str, s: &str| PendingJob { payload: p.into(), status: s.into() };
    let jobs = vec![
        pending(r#"{"query":"Dune"}"#, "running"),
        pending("{}", "queued"),
        pending("{}", "failed"),
        pending("{}", "other"),
    ];
    let w = following(&jobs, &vec!["Le Guin".into()]);
    assert_eq!((w.pending[0].title.as_str(), w.pending[0].class), ("Dune", Some("downloading")));
    assert_eq!((w.pending[1].title.as_str(), w.pending[1].class), ("…", Some("queued")));
    assert_eq!(w.pending[2].class, Some("failed"));
    assert_eq!((w.pending[3].class, w.pending[3].status.as_str()), (None, "other"));
    assert_eq!(w.authors[0].href, "/add-new?q=Le%20Guin");
}
