use shelfarrs::downloads::{
    add, add_verdict, after_import, book_file, clients_body, credentials, hash_in, import_download,
    judge, login_verdict, map_path, mapping_add, pick_client, poll_once, qbit_status,
    qbit_version_verdict, question, sab_add_url, sab_add_verdict, sab_history_status,
    sab_list_url, sab_queue_status, sab_status, sab_url, sab_version_verdict, session_cookie, torrent_form,
    torrents_path, unreachable_path,
    watched, AddClientForm, DownloadClient, Mapping, MappingForm, Pending, Poll, PollAction,
    PollEvent, Progress, QbitTorrent, Question, SabList, SabStep, Status,
};
use shelfarrs::indexer::Release;
use shelfarrs::json::parse;
use std::path::{Path, PathBuf};

#[test]
fn maps_longest_prefix() {
    let maps = vec![
        ("/media/tank".into(), r"Z:\tank".into()),
        ("/media/tank/Downloads".into(), r"Z:\dl".into()),
    ];
    assert_eq!(
        PathBuf::from(map_path(&maps, "/media/tank/Downloads/books/x.epub")),
        Path::new(r"Z:\dl").join("books").join("x.epub")
    );
    assert_eq!(
        PathBuf::from(map_path(&maps, "/media/tank/other/y.epub")),
        Path::new(r"Z:\tank").join("other").join("y.epub")
    );
    // unmapped passes through
    assert_eq!(PathBuf::from(map_path(&[], "/data/z.epub")), PathBuf::from("/data/z.epub"));
}

#[test]
fn of_equal_prefixes_the_first_applies() {
    let maps = vec![("/a".to_string(), "/x".to_string()), ("/a".to_string(), "/y".to_string())];
    assert_eq!(map_path(&maps, "/a/b"), "/x/b");
    assert_eq!(map_path(&maps, "/a"), "/x/");
    assert_eq!(map_path(&[("/a".to_string(), "/x/".to_string())], "/a\\//b"), "/x/b");
}

fn client(id: i64, kind: &str) -> DownloadClient {
    DownloadClient {
        id,
        name: format!("c{id}"),
        kind: kind.into(),
        host: "h".into(),
        port: 8080,
        username: None,
        password: Some("key".into()),
        category: Some("books".into()),
        use_ssl: 0,
        enabled: 1,
        last_test_ok: None,
        last_test_error: None,
    }
}

#[test]
fn addresses_of_clients() {
    let mut c = client(1, "sabnzbd");
    assert_eq!(c.base(), "http://h:8080");
    assert_eq!(c.protocol(), "usenet");
    assert_eq!(
        sab_url(&c, "queue", "&x=1"),
        "http://h:8080/api?mode=queue&output=json&apikey=key&x=1"
    );
    assert_eq!(
        sab_add_url(&c, "http://n/a b"),
        "http://h:8080/api?mode=addurl&output=json&apikey=key&name=http%3A%2F%2Fn%2Fa%20b&cat=books"
    );
    c.use_ssl = 1;
    c.kind = "qbittorrent".into();
    c.category = None;
    assert_eq!(c.base(), "https://h:8080");
    assert_eq!(c.protocol(), "torrent");
    assert_eq!(torrents_path(&c), "/api/v2/torrents/info?category=");
}

#[test]
fn logging_in_to_qbittorrent() {
    let mut c = client(1, "qbittorrent");
    assert_eq!(credentials(&c), None);
    c.username = Some("".into());
    assert_eq!(credentials(&c), None);
    c.username = Some("u".into());
    assert_eq!(credentials(&c), Some(("u".into(), "key".into())));
    assert_eq!(session_cookie("SID=abc; HttpOnly"), "SID=abc");
    assert_eq!(login_verdict(" Ok.\n", None), Ok(None));
    assert_eq!(login_verdict("no", Some("SID=1".into())), Ok(Some("SID=1".into())));
    assert_eq!(login_verdict("Fails.", None), Err("qBittorrent login refused".to_string()));
    assert_eq!(add_verdict("Ok."), Ok(()));
    assert_eq!(add_verdict("Fails."), Err("qBittorrent rejected the torrent".to_string()));
    assert_eq!(qbit_version_verdict(" v4.6"), Ok(()));
    assert_eq!(
        qbit_version_verdict("Forbidden"),
        Err("unexpected qBittorrent response".to_string())
    );
}

fn torrent(name: &str, hash: &str, done: bool, state: &str) -> QbitTorrent {
    QbitTorrent {
        name: name.into(),
        hash: hash.into(),
        done,
        state: state.into(),
        content_path: None,
        save_path: Some("/save".into()),
    }
}

#[test]
fn torrents_are_found_by_hash_and_by_name() {
    let list = vec![
        torrent("Dune", "AAA", false, "downloading"),
        torrent("Other", "BBB", true, "error"),
        torrent("Third", "CCC", true, "uploading"),
    ];
    let s = qbit_status(&list, &Some("bbb".into()), "Dune").unwrap();
    assert!(s.done);
    assert_eq!(s.error.as_deref(), Some("qBittorrent state: error"));
    assert!(matches!(s.progress, Progress::Torrent(1)));
    let s = qbit_status(&list, &Some("zzz".into()), "Dune").unwrap();
    assert!(!s.done && s.error.is_none());
    assert_eq!(s.path.as_deref(), Some("/save"));
    let s = qbit_status(&list, &None, "Third").unwrap();
    assert!(s.done && s.error.is_none());
    assert!(matches!(
        qbit_status(&list, &None, "none"),
        Err(e) if e == "torrent not found in client yet"
    ));
}

#[test]
fn answers_of_sabnzbd() {
    let v = parse(r#"{"status": true, "nzo_ids": ["n1", "n2"]}"#).unwrap();
    assert_eq!(sab_add_verdict(&v), Ok("n1".to_string()));
    let v = parse(r#"{"status": true, "nzo_ids": []}"#).unwrap();
    assert_eq!(sab_add_verdict(&v), Err("SABnzbd returned no nzo_id".to_string()));
    let v = parse(r#"{"status": false, "error": "API Key Incorrect"}"#).unwrap();
    assert_eq!(sab_add_verdict(&v), Err("SABnzbd refused: API Key Incorrect".to_string()));
    let v = parse(r#"{"status": "true"}"#).unwrap();
    assert_eq!(sab_add_verdict(&v), Err("SABnzbd refused: unknown".to_string()));
    assert_eq!(sab_version_verdict(&parse(r#"{"version": "4"}"#).unwrap()), Ok(()));
    assert_eq!(
        sab_version_verdict(&parse("{}").unwrap()),
        Err("no version in response".to_string())
    );

    let q = parse(r#"{"queue": {"slots": [{"nzo_id": "a"}, {"nzo_id": "b", "percentage": "42"}]}}"#)
        .unwrap();
    let s = sab_queue_status(&q, "b").unwrap();
    assert!(matches!(&s.progress, Progress::Hundredths(p) if p == "42"));
    assert!(!s.done && s.path.is_none());
    assert!(matches!(sab_queue_status(&q, "a").unwrap().progress, Progress::Zero));
    assert!(sab_queue_status(&q, "c").is_none());

    let h = parse(
        r#"{"history": {"slots": [
            {"nzo_id": "a", "status": "Completed", "storage": "/d/a"},
            {"nzo_id": "b", "status": "Failed"},
            {"nzo_id": "c", "status": "Extracting"}]}}"#,
    )
    .unwrap();
    let s = sab_history_status(&h, "a").unwrap_or_else(|e| panic!("{e}"));
    assert!(s.done && s.error.is_none());
    assert_eq!(s.path.as_deref(), Some("/d/a"));
    let s = sab_history_status(&h, "b").unwrap_or_else(|e| panic!("{e}"));
    assert_eq!(s.error.as_deref(), Some("SABnzbd reported failure"));
    let s = sab_history_status(&h, "c").unwrap_or_else(|e| panic!("{e}"));
    assert!(!s.done && matches!(s.progress, Progress::Nearly));
    assert!(matches!(
        sab_history_status(&h, "d"),
        Err(e) if e == "nzo d not found in queue or history"
    ));
}

#[test]
fn the_history_is_asked_where_the_queue_does_not_know() {
    let c = client(1, "sabnzbd");
    assert_eq!(sab_list_url(&c, SabList::Queue), sab_url(&c, "queue", ""));
    assert_eq!(sab_list_url(&c, SabList::History), sab_url(&c, "history", "&limit=100"));
    let q = parse(r#"{"queue": {"slots": [{"nzo_id": "a", "percentage": "42"}]}}"#).unwrap();
    let h = parse(r#"{"history": {"slots": [{"nzo_id": "b", "status": "Completed"}]}}"#).unwrap();
    match sab_status(SabList::Queue, &q, "a") {
        SabStep::Known(s) => {
            assert!(!s.done && matches!(s.progress, Progress::Hundredths(p) if p == "42"))
        }
        _ => panic!("not known"),
    }
    assert!(matches!(sab_status(SabList::Queue, &q, "b"), SabStep::AskHistory));
    assert!(matches!(sab_status(SabList::History, &h, "b"), SabStep::Known(s) if s.done));
    assert!(matches!(
        sab_status(SabList::History, &h, "a"),
        SabStep::Unknown(e) if e == "nzo a not found in queue or history"
    ));
}

fn release(protocol: &str) -> Release {
    Release {
        title: "t".into(),
        indexer_id: 1,
        indexer: "i".into(),
        protocol: protocol.into(),
        size: None,
        seeders: None,
        grabs: None,
        download_url: "u".into(),
        published: None,
    }
}

#[test]
fn the_client_for_a_release() {
    let mut off = client(1, "sabnzbd");
    off.enabled = 0;
    let list = vec![off, client(2, "qbittorrent"), client(3, "sabnzbd"), client(4, "sabnzbd")];
    assert_eq!(pick_client(&list, &release("usenet")).unwrap().id, 3);
    assert_eq!(pick_client(&list, &release("torrent")).unwrap().id, 2);
    assert_eq!(
        pick_client(&vec![], &release("usenet")).unwrap_err(),
        "no enabled usenet download client"
    );
    let url = format!("magnet:?xt=urn:btih:{}&dn=x", "AbCdE".repeat(8));
    assert_eq!(hash_in(&url), Some("abcde".repeat(8)));
    assert_eq!(hash_in("http://x/1.torrent"), None);
    assert_eq!(hash_in("btih:AB").as_deref(), Some("ab"));
}

fn pending(client_id: i64, external_id: Option<&str>) -> Pending {
    Pending {
        id: 9,
        client_id,
        external_id: external_id.map(String::from),
        title: "Dune".into(),
    }
}

fn status(done: bool, error: Option<&str>) -> Status {
    Status {
        progress: Progress::Nearly,
        done,
        error: error.map(String::from),
        path: Some("/p".into()),
    }
}

#[test]
fn a_download_moves_from_state_to_state() {
    let list = vec![client(1, "qbittorrent"), client(2, "sabnzbd")];
    match question(&pending(7, None), &list) {
        Question::Settle(u) => {
            assert_eq!(u.state, "failed");
            assert_eq!(u.error.as_deref(), Some("client removed"));
        }
        _ => panic!("not settled"),
    }
    assert!(matches!(question(&pending(2, Some("n")), &list), Question::Sab(1, n) if n == "n"));
    assert!(matches!(question(&pending(2, None), &list), Question::NoJob));
    assert!(matches!(question(&pending(1, None), &list), Question::Qbit(0)));

    let v = judge(status(true, None));
    assert!(v.import && v.update.state == "importing");
    let v = judge(status(true, Some("bad")));
    assert!(!v.import && v.update.state == "failed");
    assert_eq!(v.update.error.as_deref(), Some("bad"));
    let v = judge(status(false, None));
    assert!(!v.import && v.update.state == "downloading" && watched(&v.update.state));
    assert_eq!(after_import(None, None).state, "imported");
    assert_eq!(after_import(Some("e".into()), None).error.as_deref(), Some("e"));
    for s in ["importing", "imported", "failed"] {
        assert!(!watched(s));
    }
}

#[test]
fn the_monitor_steps_through_a_download() {
    let list = vec![client(1, "qbittorrent"), client(2, "sabnzbd")];
    let d = pending(2, Some("n"));
    let (s, a) = poll_once(&d, &list, Poll::Start, PollEvent::Begin);
    assert!(matches!(a, PollAction::AskSab(1, n) if n == "n"));
    let (s, a) = poll_once(&d, &list, s, PollEvent::Answer(Ok(status(true, None))));
    assert!(matches!(&a, PollAction::Import(u, 1, p) if u.state == "importing" && p.as_deref() == Some("/p")));
    let (s, a) = poll_once(&d, &list, s, PollEvent::Imported(None));
    assert!(matches!(&a, PollAction::Write(u) if u.state == "imported"));
    assert!(matches!(s, Poll::Over));
    let (s, a) = poll_once(&d, &list, s, PollEvent::Begin);
    assert!(matches!((s, a), (Poll::Over, PollAction::Nothing)));

    let (s, a) = poll_once(&pending(1, None), &list, Poll::Start, PollEvent::Begin);
    assert!(matches!(a, PollAction::AskQbit(0)));
    let (_, a) = poll_once(&pending(1, None), &list, s, PollEvent::Answer(Err("x".into())));
    assert!(matches!(a, PollAction::Warn(e) if e == "x"));
    let (_, a) = poll_once(&pending(2, None), &list, Poll::Start, PollEvent::Begin);
    assert!(matches!(a, PollAction::Warn(e) if e == "missing nzo_id"));
    let (_, a) = poll_once(&pending(5, None), &list, Poll::Start, PollEvent::Begin);
    assert!(matches!(&a, PollAction::Write(u) if u.state == "failed"));
}

#[test]
fn only_book_files_are_imported() {
    assert!(book_file("/d/Book.EPUB") && book_file("x.azw3") && !book_file("x.nfo"));
    assert!(!book_file("/d/.epub") && !book_file("epub") && !book_file("/d/a.epub/.."));
    let files = vec!["/d/a/Book.EPUB".to_string(), "/d/a/n.nfo".into(), "/d/b.txt".into()];
    let copies = import_download(&files, "/d", "/books").unwrap_or_else(|e| panic!("{e}"));
    assert_eq!(copies.len(), 2);
    assert_eq!((copies[0].from.as_str(), copies[0].to.as_str()), ("/d/a/Book.EPUB", "/books/Book.EPUB"));
    assert_eq!(copies[1].to, "/books/b.txt");
    assert!(matches!(
        import_download(&vec!["/d/x.nfo".into()], "/d", "/books"),
        Err(e) if e == "no book files found in /d"
    ));
    assert_eq!(
        unreachable_path("/x", &client(3, "sabnzbd")),
        "path not reachable: /x (add a remote path mapping for c3)"
    );
}

#[test]
fn the_clients_tab() {
    let maps = vec![Mapping { id: 4, client_id: 1, remote_path: "/r".into(), local_path: "/l".into() }];
    let b = clients_body(&vec![client(1, "sabnzbd")], &maps);
    assert_eq!(b.clients[0].line, "h:8080 · category books");
    assert_eq!(b.clients[0].confirm, "Remove client c1?");
    assert_eq!(b.clients[0].badge.class, "queued");
    assert_eq!(b.mappings[0].client, "client #1");
    assert_eq!(b.choices, [(1, "c1".to_string())]);
    let n = add(&AddClientForm {
        name: " N ".into(),
        kind: "other".into(),
        host: " h ".into(),
        port: 1,
        username: Some(" ".into()),
        password: Some(" p ".into()),
        category: None,
        use_ssl: Some("1".into()),
    });
    assert_eq!((n.kind.as_str(), n.category.as_str(), n.use_ssl), ("qbittorrent", "shelfarrs", 1));
    assert_eq!((n.name.as_str(), n.host.as_str()), ("N", "h"));
    assert_eq!((n.username, n.password.as_deref()), (None, Some("p")));
    let m = mapping_add(&MappingForm {
        client_id: 2,
        remote_path: " /a ".into(),
        local_path: " /b ".into(),
    });
    assert_eq!((m.client_id, m.remote_path.as_str(), m.local_path.as_str()), (2, "/a", "/b"));
}

#[test]
fn the_form_that_adds_a_torrent() {
    let mut c = client(1, "qbittorrent");
    c.category = None;
    assert_eq!(torrent_form(&c, "magnet:x"), [("urls", "magnet:x".to_string())]);
    c.category = Some("books".into());
    assert_eq!(
        torrent_form(&c, "magnet:x"),
        [("urls", "magnet:x".to_string()), ("category", "books".to_string())]
    );
}
