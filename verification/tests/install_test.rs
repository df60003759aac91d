use shelfarrs::install::{
    check_package, checksum, enclosed, find_entry, install_dir, install_entry, plugin_id,
    plugins_page, repos_add, repos_remove, safe_extract, staging_dir, uninstall_dir, ExtractError,
    InstallError, Package, RepoEntry, RepoIndex, Step, UrlForm,
};
use shelfarrs::package::{check, entry_name, index_entry, pack, zip_name, PackError, PackFile};
use shelfarrs::plugin::{
    granted, load_sources, viewer_for, HostCtx, Installed, KvStore, Powers, PluginManifest,
    ViewerUi,
};
use std::io::Write;

fn zip_with(entries: &[(&str, &[u8])]) -> Vec<u8> {
    let mut buf = std::io::Cursor::new(Vec::new());
    {
        let mut w = zip::ZipWriter::new(&mut buf);
        let opts: zip::write::FileOptions<()> = zip::write::FileOptions::default();
        for (name, data) in entries {
            w.start_file(*name, opts).unwrap();
            w.write_all(data).unwrap();
        }
        w.finish().unwrap();
    }
    buf.into_inner()
}

#[test]
fn extracts_safely() {
    let z = zip_with(&[("plugin.json", b"{}"), ("ui/x.js", b"hi")]);
    let plan = safe_extract(&z).unwrap();
    assert!(plan.failed.is_none());
    assert_eq!(
        plan.steps,
        [
            Step::Parents("plugin.json".into()),
            Step::Copy("plugin.json".into(), 0),
            Step::Parents("ui/x.js".into()),
            Step::Copy("ui/x.js".into(), 1),
        ]
    );
}

#[test]
fn blocks_zip_slip() {
    let z = zip_with(&[("../evil.txt", b"pwned")]);
    let plan = safe_extract(&z).unwrap();
    assert!(
        matches!(&plan.failed, Some(ExtractError::UnsafePath(n)) if n == "../evil.txt"),
        "zip-slip must be rejected"
    );
    // and nothing is written
    assert!(plan.steps.is_empty());
    assert_eq!(plan.failed.unwrap().message(), "unsafe path in zip: ../evil.txt");
}

#[test]
fn unpacking_stops_at_the_first_bad_entry() {
    let z = zip_with(&[("a/", b"".as_slice()), ("b", b"1"), ("c/../../d", b"2"), ("e", b"3")]);
    let plan = safe_extract(&z).unwrap();
    assert_eq!(
        plan.steps,
        [
            Step::Directory("a/".into()),
            Step::Parents("b".into()),
            Step::Copy("b".into(), 1),
        ]
    );
    assert!(matches!(plan.failed, Some(ExtractError::UnsafePath(_))));
}

#[test]
fn names_that_stay_inside() {
    for good in ["a", "a/b", "./a", "a/../b", "a/b/../../c", "a//b/", "", "..a", "a\\..\\b"] {
        assert!(enclosed(good), "{good}");
    }
    for bad in ["..", "../a", "a/../..", "/a", "a/../../b", "a\0b", "a/b/../../../c/d/e"] {
        assert!(!enclosed(bad), "{bad}");
    }
}

#[test]
fn enclosing_agrees_with_the_archive_reader() {
    let names = [
        "a", "a/b", "./a", "a/../b", "a//b", "..a", "../a", "a/../..", "/a", "a/../../b", "a/./..",
        "./..", "a/..", "...", "a/.../b",
    ];
    for n in names {
        let z = zip_with(&[(n, b"x".as_slice())]);
        let mut a = zip::ZipArchive::new(std::io::Cursor::new(z)).unwrap();
        let f = a.by_index(0).unwrap();
        assert_eq!(f.name(), n);
        assert_eq!(enclosed(n), f.enclosed_name().is_some(), "{n}");
    }
}

#[test]
fn not_an_archive() {
    assert!(matches!(safe_extract(b"PK nothing"), Err(ExtractError::NotZip(_))));
}

#[test]
fn too_many_entries() {
    let names: Vec<String> = (0..5001).map(|i| format!("f{i}")).collect();
    let entries: Vec<(&str, &[u8])> = names.iter().map(|n| (n.as_str(), b"".as_slice())).collect();
    match safe_extract(&zip_with(&entries)) {
        Err(e) => assert_eq!(e.message(), "zip has too many entries (5001)"),
        Ok(_) => panic!("accepted"),
    }
    assert!(safe_extract(&zip_with(&entries[..5000])).is_ok());
}

#[test]
fn too_large_unpacked() {
    let zeros = vec![0u8; 110 * 1024 * 1024];
    let z = zip_with(&[("a", zeros.as_slice()), ("d/b", zeros.as_slice())]);
    let plan = safe_extract(&z).unwrap();
    assert!(matches!(plan.failed, Some(ExtractError::TooLarge)));
    assert_eq!(
        plan.steps,
        [
            Step::Parents("a".into()),
            Step::Copy("a".into(), 0),
            Step::Parents("d/b".into()),
        ]
    );
    assert_eq!(plan.failed.unwrap().message(), "zip exceeds unpacked size cap");
}

#[test]
fn an_entry_that_cannot_be_opened_ends_unpacking() {
    let mut z = zip_with(&[("a", b"1".as_slice()), ("b", b"2".as_slice())]);
    // The local header of the second entry loses its signature.
    let second = z.windows(4).rposition(|w| w == b"PK\x03\x04").unwrap();
    z[second] = b'X';
    let plan = safe_extract(&z).unwrap();
    assert_eq!(plan.steps.len(), 2);
    assert!(matches!(plan.failed, Some(ExtractError::Unreadable(_))));
}

fn entry(sha256: String) -> RepoEntry {
    RepoEntry {
        id: "p".into(),
        kind: "source".into(),
        version: "2".into(),
        package: "https://x/p-2.zip".into(),
        sha256,
        capabilities: vec!["http".into(), "kv".into()],
        author: Some("A".into()),
        description: Some("D".into()),
    }
}

#[test]
fn checksums() {
    assert_eq!(
        checksum(b"abc"),
        "ba7816bf8f01cfea414140de5dae2223b00361a396177a9cb410ff61f20015ad"
    );
    assert_eq!(
        checksum(b""),
        "e3b0c44298fc1c149afbf4c8996fb92427ae41e4649b934ca495991b7852b855"
    );
}

#[test]
fn a_package_is_checked_before_it_is_unpacked() {
    let z = zip_with(&[("plugin.json", b"{}".as_slice())]);
    assert!(install_entry(&z, &entry(checksum(&z).to_uppercase())).is_ok());
    match install_entry(&z, &entry("00".into())) {
        Err(InstallError::Checksum(m)) => assert_eq!(
            m,
            format!("sha256 mismatch for p: expected 00, got {}", checksum(&z))
        ),
        _ => panic!("accepted"),
    }
    assert!(matches!(
        install_entry(b"x", &entry(checksum(b"x"))),
        Err(InstallError::Extract(ExtractError::NotZip(_)))
    ));
    // The id has no part in it; which directory it stands for is tested apart.
    let mut nested = entry(checksum(&z));
    nested.id = "a/b".into();
    assert_eq!(install_entry(&z, &nested).unwrap().steps.len(), 2);
    assert!(check_package("p", "p").is_ok());
    assert_eq!(check_package("q", "p"), Err("package id q != index id p".to_string()));
}

#[test]
fn directories_of_plugins() {
    assert_eq!(staging_dir("/data/plugins", "p").as_deref(), Some("/data/plugins/.tmp-p"));
    assert_eq!(install_dir("/data/plugins", "p").as_deref(), Some("/data/plugins/p"));
    assert_eq!(uninstall_dir("/data/plugins", "p").as_deref(), Some("/data/plugins/p"));
    assert_eq!(uninstall_dir("data/plugins/", "p").as_deref(), Some("data/plugins/p"));
    assert_eq!(uninstall_dir("/data/plugins", "..p").as_deref(), Some("/data/plugins/..p"));
    for bad in ["/etc", "/data/plugins/p", "../books", "a/../..", "a/b", "a/", ".", "..", "", "/"] {
        assert!(!plugin_id(bad), "{bad}");
        assert_eq!(uninstall_dir("/data/plugins", bad), None, "{bad}");
        assert_eq!(install_dir("/data/plugins", bad), None, "{bad}");
        assert_eq!(staging_dir("/data/plugins", bad), None, "{bad}");
    }
}

#[test]
fn the_bytes_of_an_entry() {
    let z = zip_with(&[("plugin.json", b"{}".as_slice()), ("ui/x.js", b"hi".as_slice())]);
    let mut p = Package::open(&z).unwrap_or_else(|e| panic!("{}", e.message()));
    assert_eq!(p.read(1).unwrap(), b"hi");
    assert_eq!(p.read(0).unwrap(), b"{}");
    assert_eq!(p.read(1).unwrap(), b"hi");
    assert!(matches!(p.read(2), Err(ExtractError::Unreadable(_))));
    assert!(matches!(Package::open(b"no archive"), Err(ExtractError::NotZip(_))));
}

#[test]
fn no_more_is_copied_than_a_package_may_hold() {
    let zeros = vec![0u8; 200 * 1024 * 1024 + 1];
    let mut p = Package::open(&zip_with(&[("a", zeros.as_slice())])).unwrap_or_else(|e| panic!("{}", e.message()));
    assert_eq!(p.read(0).unwrap().len(), 200 * 1024 * 1024);
}

#[test]
fn the_list_of_repositories() {
    let mut urls = vec![];
    assert!(repos_add(&mut urls, UrlForm { url: "a".into() }));
    assert!(repos_add(&mut urls, UrlForm { url: "b".into() }));
    assert!(!repos_add(&mut urls, UrlForm { url: "a".into() }));
    assert_eq!(urls, ["a", "b"]);
    assert_eq!(repos_remove(&urls, &UrlForm { url: "a".into() }), ["b"]);
    assert_eq!(repos_remove(&urls, &UrlForm { url: "c".into() }), ["a", "b"]);
}

fn manifest(id: &str, version: &str, kind: &str) -> PluginManifest {
    PluginManifest {
        id: id.into(),
        name: format!("Plugin {id}"),
        version: version.into(),
        kind: kind.into(),
        wasm: None,
        ui: None,
        capabilities: vec![],
        description: None,
    }
}

#[test]
fn the_plugins_page() {
    let mut e1 = entry("".into());
    e1.id = "new".into();
    let mut e2 = entry("".into());
    e2.capabilities = vec![];
    e2.author = None;
    e2.description = None;
    let mut e3 = entry("".into());
    e3.id = "same".into();
    let mut m = manifest("same", "2", "viewer");
    m.capabilities = vec!["http".into()];
    m.description = Some("shows".into());
    let page = plugins_page(&vec![e1, e2, e3], &vec![manifest("p", "1", "source"), m]);
    assert_eq!(page.available.len(), 2);
    assert_eq!(page.available[0].line, "v2 · A — D");
    assert_eq!(page.available[0].grants, "grants: http, kv");
    assert_eq!(page.available[0].button, "Install");
    assert_eq!(page.available[1].line, "v2");
    assert_eq!(page.available[1].grants, "grants: none");
    assert_eq!(page.available[1].button, "Update");
    assert_eq!(page.installed[0].grants, None);
    assert_eq!(page.installed[1].line, "v2 — shows");
    assert_eq!(page.installed[1].grants.as_deref(), Some("grants: http"));
    let index = RepoIndex { name: "r".into(), plugins: vec![entry("1".into()), entry("2".into())] };
    assert_eq!(find_entry(&index, "p").unwrap().sha256, "1");
    assert!(find_entry(&index, "q").is_none());
}

#[test]
fn the_first_viewer_of_a_format() {
    let installed = |kind: &str, id: &str, formats: &[&str]| {
        let mut m = manifest(id, "1", kind);
        m.ui = Some(ViewerUi {
            js: "v.js".into(),
            css: None,
            formats: formats.iter().map(|f| f.to_string()).collect(),
        });
        Installed { manifest: m, dir: format!("/p/{id}") }
    };
    let list = vec![
        installed("source", "s", &["epub"]),
        Installed { manifest: manifest("n", "1", "viewer"), dir: "/p/n".into() },
        installed("viewer", "a", &["pdf"]),
        installed("viewer", "b", &["epub", "pdf"]),
    ];
    assert_eq!(viewer_for(&list, "epub").unwrap().id, "b");
    assert_eq!(viewer_for(&list, "pdf").unwrap().id, "a");
    assert!(viewer_for(&list, "txt").is_none());
}

#[test]
fn the_sources_to_load() {
    let mut with = manifest("s", "1", "source");
    with.wasm = Some("s.wasm".into());
    with.capabilities = vec!["kv".into()];
    let mut viewer = manifest("v", "1", "viewer");
    viewer.wasm = Some("v.wasm".into());
    let list = vec![
        Installed { manifest: viewer, dir: "/p/v".into() },
        Installed { manifest: manifest("none", "1", "source"), dir: "/p/n".into() },
        Installed { manifest: with, dir: "/p/s".into() },
    ];
    let modules = load_sources(&list);
    assert_eq!(modules.len(), 1);
    assert_eq!((modules[0].id.as_str(), modules[0].wasm.as_str()), ("s", "/p/s/s.wasm"));
    assert_eq!(modules[0].powers, Powers { http: false, kv: true });
}

#[test]
fn a_plugin_gets_the_powers_that_it_lists() {
    let asking = |caps: &[&str]| {
        let mut m = manifest("s", "1", "source");
        m.capabilities = caps.iter().map(|c| c.to_string()).collect();
        granted(&m)
    };
    assert_eq!(asking(&[]), Powers { http: false, kv: false });
    assert_eq!(asking(&["http", "kv"]), Powers { http: true, kv: true });
    assert_eq!(asking(&["log", "http"]), Powers { http: true, kv: false });
    assert_eq!(asking(&["HTTP", "kv2"]), Powers { http: false, kv: false });
}

#[test]
fn plugins_do_not_see_each_others_values() {
    let mut kv = KvStore::new();
    let a = HostCtx { plugin_id: "a".into() };
    let b = HostCtx { plugin_id: "b".into() };
    assert_eq!(a.kv_get(&kv, "host"), "");
    a.kv_set(&mut kv, "host", "one");
    b.kv_set(&mut kv, "host", "two");
    a.kv_set(&mut kv, "host", "three");
    a.kv_set(&mut kv, "other", "x");
    assert_eq!(a.kv_get(&kv, "host"), "three");
    assert_eq!(b.kv_get(&kv, "host"), "two");
    kv.forget("a");
    assert_eq!(a.kv_get(&kv, "host"), "");
    assert_eq!(a.kv_get(&kv, "other"), "");
    assert_eq!(b.kv_get(&kv, "host"), "two");
}

#[test]
fn packing() {
    assert_eq!(zip_name("p", "1.0"), "p-1.0.zip");
    assert_eq!(entry_name("ui\\x.js"), "ui/x.js");
    let e = index_entry(manifest("p", "1.0", "source"), None, b"abc", "https://base");
    assert_eq!(e.package, "https://base/p-1.0.zip");
    assert_eq!(e.sha256, checksum(b"abc"));
    assert!(check(b"abc", &e) && !check(b"abd", &e));
}

fn pack_file(path: &str, data: &[u8]) -> PackFile {
    PackFile { path: path.into(), data: data.to_vec() }
}

#[test]
fn what_is_packed_can_be_unpacked() {
    let files = vec![pack_file("plugin.json", b"{}"), pack_file("ui\\\u{fc}.js", b"hi")];
    let z = pack(&files).unwrap();
    let plan = safe_extract(&z).unwrap();
    assert!(plan.failed.is_none());
    assert_eq!(
        plan.steps,
        [
            Step::Parents("plugin.json".into()),
            Step::Copy("plugin.json".into(), 0),
            Step::Parents("ui/\u{fc}.js".into()),
            Step::Copy("ui/\u{fc}.js".into(), 1),
        ]
    );
    let mut p = Package::open(&z).unwrap_or_else(|e| panic!("{}", e.message()));
    assert_eq!(p.read(0).unwrap(), b"{}");
    assert_eq!(p.read(1).unwrap(), b"hi");
    assert_eq!(z, zip_with(&[("plugin.json", b"{}".as_slice()), ("ui/\u{fc}.js", b"hi".as_slice())]));
    assert_eq!(z, pack(&files).unwrap());
    assert!(safe_extract(&pack(&vec![]).unwrap()).unwrap().steps.is_empty());
}

#[test]
fn what_cannot_be_packed() {
    let twice = vec![pack_file("a/b", b"1"), pack_file("a\\b", b"2")];
    assert!(matches!(pack(&twice), Err(PackError::Zip(_))));
    let long = "x".repeat(65536);
    assert!(matches!(pack(&vec![pack_file(&long, b"")]), Err(PackError::LongName(n)) if n == long));
    assert!(pack(&vec![pack_file(&long[1..], b"")]).is_ok());
}
