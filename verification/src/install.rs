//! Plugin repositories and packages: a package is checked against its
//! checksum, unpacked with nothing outside its directory and nothing beyond the
//! size limits, and removed with everything it stored.

use vstd::prelude::*;
use vstd::string::*;
use sha2::Digest;
use crate::archive::EntryView;
use crate::plugin::PluginManifest;
use crate::archive;
use crate::encode;
use crate::meta;
use crate::paths;
use crate::text;

verus! {

// ---- data ----

/// The index of a repository.
#[derive(Debug)]
pub struct RepoIndex {
    pub name: String,
    pub plugins: Vec<RepoEntry>,
}

/// A plugin that a repository offers.
#[derive(Debug)]
pub struct RepoEntry {
    pub id: String,
    pub kind: String,
    pub version: String,
    /// The address of the package.
    pub package: String,
    pub sha256: String,
    pub capabilities: Vec<String>,
    pub author: Option<String>,
    pub description: Option<String>,
}

/// The form that names a plugin.
pub struct IdForm {
    pub id: String,
}

/// The form that names a repository.
pub struct UrlForm {
    pub url: String,
}

/// The most entries that a package may have.
pub const MAX_FILES: usize = 5000;

/// The most bytes that a package may have unpacked.
pub const MAX_TOTAL: u64 = 209_715_200;

// ---- checksums ----

/// The SHA-256 digest of bytes.
pub uninterp spec fn sha256_of(bytes: Seq<u8>) -> Seq<u8>;

/// `Sha256::digest` is a function of the bytes alone, and gives 32 bytes.
#[verifier::external_body]
fn sha256(bytes: &[u8]) -> (r: Vec<u8>)
    ensures
        r@ == sha256_of(bytes@),
        r@.len() == 32,
{
    sha2::Sha256::digest(bytes).to_vec()
}

/// The SHA-256 digest of bytes in lowercase hexadecimal.
pub fn checksum(bytes: &[u8]) -> (r: String)
    ensures
        r@ == encode::hex_of(sha256_of(bytes@)),
        r@.len() == 64,
{
    encode::hex(sha256(bytes).as_slice())
}

// ---- unpacking ----

/// How deep a path goes after the given segments: a name goes one down, `..`
/// one up; nothing where it goes above its start.
pub open spec fn depth(segs: Seq<Seq<char>>) -> Option<nat>
    decreases segs.len(),
{
    if segs.len() == 0 {
        Some(0)
    } else {
        match depth(segs.drop_last()) {
            Some(d) => if segs.last().len() == 0 || segs.last() == "."@ {
                Some(d)
            } else if segs.last() == ".."@ {
                if d == 0 {
                    None
                } else {
                    Some((d - 1) as nat)
                }
            } else {
                Some(d + 1)
            },
            None => None,
        }
    }
}

/// The name of an entry stays inside the directory that it is unpacked to: it
/// holds no NUL, is not absolute, and goes nowhere above its start.
pub open spec fn is_enclosed(name: Seq<char>) -> bool {
    &&& !name.contains('\0')
    &&& !(name.len() > 0 && name[0] == '/')
    &&& depth(text::pieces(name, '/')) is Some
}

/// The name of an entry is that of a directory.
pub open spec fn is_directory(name: Seq<char>) -> bool {
    name.len() > 0 && (name.last() == '/' || name.last() == '\\')
}

/// One step of unpacking. Paths are relative to the target directory.
#[derive(Debug, PartialEq)]
pub enum Step {
    /// Make this directory.
    Directory(String),
    /// Make the directory that this file is to lie in.
    Parents(String),
    /// Copy the entry at this position to this file.
    Copy(String, usize),
}

#[verifier::ext_equal]
pub enum StepView {
    Directory(Seq<char>),
    Parents(Seq<char>),
    Copy(Seq<char>, usize),
}

impl DeepView for Step {
    type V = StepView;

    open spec fn deep_view(&self) -> StepView {
        match self {
            Step::Directory(p) => StepView::Directory(p@),
            Step::Parents(p) => StepView::Parents(p@),
            Step::Copy(p, i) => StepView::Copy(p@, *i),
        }
    }
}

/// Why a package is not unpacked, or not to the end.
#[derive(Debug)]
pub enum ExtractError {
    /// It is no zip archive; the text says why.
    NotZip(String),
    /// It has more entries than it may have; this many.
    TooMany(usize),
    /// An entry cannot be opened; the text says why.
    Unreadable(String),
    /// The name of an entry leads outside.
    UnsafePath(String),
    /// It is larger unpacked than it may be.
    TooLarge,
}

/// Why unpacking stops, without the wording of the archive reader.
#[verifier::ext_equal]
pub enum StopView {
    Unreadable,
    UnsafePath(Seq<char>),
    TooLarge,
}

pub open spec fn stop_view(e: Option<ExtractError>) -> Option<StopView> {
    match e {
        Some(ExtractError::Unreadable(_)) => Some(StopView::Unreadable),
        Some(ExtractError::UnsafePath(name)) => Some(StopView::UnsafePath(name@)),
        Some(ExtractError::TooLarge) => Some(StopView::TooLarge),
        _ => None,
    }
}

/// The steps that unpack a package, and why they stop early, if they do.
pub struct ExtractPlan {
    pub steps: Vec<Step>,
    pub failed: Option<ExtractError>,
}

/// How far unpacking has come: the steps, the bytes copied, and why it stopped.
#[verifier::ext_equal]
pub struct Progress {
    pub steps: Seq<StepView>,
    pub total: int,
    pub stopped: Option<StopView>,
}

/// How far unpacking has come with the next entry, at position `i`.
pub open spec fn advanced(p: Progress, e: EntryView, i: int) -> Progress {
    if p.stopped is Some {
        p
    } else if !e.opens {
        Progress { stopped: Some(StopView::Unreadable), ..p }
    } else if !is_enclosed(e.name) {
        Progress { stopped: Some(StopView::UnsafePath(e.name)), ..p }
    } else if is_directory(e.name) {
        Progress { steps: p.steps.push(StepView::Directory(e.name)), ..p }
    } else if p.total + e.size > MAX_TOTAL {
        Progress {
            steps: p.steps.push(StepView::Parents(e.name)),
            total: p.total + e.size,
            stopped: Some(StopView::TooLarge),
        }
    } else {
        Progress {
            steps: p.steps.push(StepView::Parents(e.name)).push(
                StepView::Copy(e.name, i as usize),
            ),
            total: p.total + e.size,
            stopped: None,
        }
    }
}

/// How far unpacking has come after the first `n` entries.
pub open spec fn unpacked(entries: Seq<EntryView>, n: int) -> Progress
    decreases n,
{
    if n <= 0 {
        Progress { steps: seq![], total: 0, stopped: None }
    } else {
        advanced(unpacked(entries, n - 1), entries[n - 1], n - 1)
    }
}

fn holds_nul(s: &[char]) -> (r: bool)
    ensures
        r == s@.contains('\0'),
{
    proof {
        text::lemma_first_char(s@, '\0', 0);
    }
    match text::find_char(s, '\0', 0) {
        Some(_) => true,
        None => false,
    }
}

/// Does the name of an entry stay inside the directory it is unpacked to?
pub fn enclosed(name: &str) -> (r: bool)
    ensures
        r == is_enclosed(name@),
{
    let cs = text::chars_of(name);
    if holds_nul(&cs) || (cs.len() > 0 && cs[0] == '/') {
        return false;
    }
    let segs = text::split(name, '/');
    let ghost all = segs.deep_view();
    let mut d: usize = 0;
    let mut i: usize = 0;
    while i < segs.len()
        invariant
            all == segs.deep_view(),
            all == text::pieces(name@, '/'),
            i <= segs.len(),
            d <= i,
            depth(all.take(i as int)) == Some(d as nat),
        decreases segs.len() - i,
    {
        assert(all.take(i + 1).drop_last() =~= all.take(i as int));
        assert(all[i as int] == segs@[i as int]@);
        let seg = segs[i].as_str();
        if text::empty(seg) || text::same(seg, ".") {
        } else if text::same(seg, "..") {
            if d == 0 {
                proof {
                    lemma_depth_none(all, i + 1);
                }
                return false;
            }
            d -= 1;
        } else {
            d += 1;
        }
        i += 1;
    }
    assert(all.take(all.len() as int) =~= all);
    true
}

proof fn lemma_depth_none(segs: Seq<Seq<char>>, n: int)
    requires
        0 <= n <= segs.len(),
        depth(segs.take(n)) is None,
    ensures
        depth(segs) is None,
    decreases segs.len() - n,
{
    if n < segs.len() {
        assert(segs.take(n + 1).drop_last() =~= segs.take(n));
        lemma_depth_none(segs, n + 1);
    } else {
        assert(segs.take(n) =~= segs);
    }
}

fn directory(name: &str) -> (r: bool)
    ensures
        r == is_directory(name@),
{
    let cs = text::chars_of(name);
    cs.len() > 0 && (cs[cs.len() - 1] == '/' || cs[cs.len() - 1] == '\\')
}

/// Plans how to unpack a package. Bytes that are no archive, and an archive
/// with too many entries, are refused as a whole; an entry that cannot be
/// opened, leads outside or goes beyond the size limit ends the steps.
pub fn safe_extract(bytes: &[u8]) -> (r: Result<ExtractPlan, ExtractError>)
    ensures
        match archive::archive_in(bytes@) {
            Some(entries) => if entries.len() > MAX_FILES {
                r matches Err(ExtractError::TooMany(n)) && n == entries.len()
            } else {
                r matches Ok(plan) && plan.steps.deep_view() == unpacked(
                    entries,
                    entries.len() as int,
                ).steps && stop_view(plan.failed) == unpacked(
                    entries,
                    entries.len() as int,
                ).stopped
            },
            None => r matches Err(ExtractError::NotZip(_)),
        },
{
    let mut a = match archive::open(bytes) {
        Ok(a) => a,
        Err(e) => {
            return Err(ExtractError::NotZip(archive::error_text(&e)));
        },
    };
    let ghost entries = archive::entries_of(a);
    let n = archive::count(&a);
    if n > MAX_FILES {
        return Err(ExtractError::TooMany(n));
    }
    let mut steps: Vec<Step> = Vec::new();
    let mut total: u64 = 0;
    let mut i: usize = 0;
    assert(steps.deep_view() =~= seq![]);
    while i < n
        invariant
            i <= n,
            n == entries.len(),
            n <= MAX_FILES,
            archive::archive_in(bytes@) == Some(entries),
            archive::entries_of(a) == entries,
            total <= MAX_TOTAL,
            unpacked(entries, i as int) == (Progress {
                steps: steps.deep_view(),
                total: total as int,
                stopped: None,
            }),
        decreases n - i,
    {
        let ghost before = steps.deep_view();
        let e = match archive::entry_at(&mut a, i) {
            Ok(e) => e,
            Err(e) => {
                proof {
                    lemma_stays_stopped(entries, i + 1, n as int);
                }
                let failed = Some(ExtractError::Unreadable(archive::error_text(&e)));
                return Ok(ExtractPlan { steps, failed });
            },
        };
        if !enclosed(e.name.as_str()) {
            proof {
                lemma_stays_stopped(entries, i + 1, n as int);
            }
            return Ok(ExtractPlan { steps, failed: Some(ExtractError::UnsafePath(e.name)) });
        }
        if directory(e.name.as_str()) {
            let ghost name = e.name@;
            steps.push(Step::Directory(e.name));
            assert(steps.deep_view() =~= before.push(StepView::Directory(name)));
        } else {
            let ghost name = e.name@;
            steps.push(Step::Parents(e.name.clone()));
            assert(steps.deep_view() =~= before.push(StepView::Parents(name)));
            if e.size > MAX_TOTAL - total {
                proof {
                    lemma_stays_stopped(entries, i + 1, n as int);
                }
                return Ok(ExtractPlan { steps, failed: Some(ExtractError::TooLarge) });
            }
            total += e.size;
            let ghost parents = steps.deep_view();
            steps.push(Step::Copy(e.name, i));
            assert(steps.deep_view() =~= parents.push(StepView::Copy(name, i)));
        }
        i += 1;
    }
    Ok(ExtractPlan { steps, failed: None })
}

/// A package that is open for unpacking. Its view is its entries.
pub struct Package {
    archive: zip::ZipArchive<std::io::Cursor<Vec<u8>>>,
}

impl View for Package {
    type V = Seq<EntryView>;

    closed spec fn view(&self) -> Seq<EntryView> {
        archive::entries_of(self.archive)
    }
}

impl Package {
    /// Opens a package; bytes that are no archive are refused.
    pub fn open(bytes: &[u8]) -> (r: Result<Package, ExtractError>)
        ensures
            match archive::archive_in(bytes@) {
                Some(entries) => r matches Ok(p) && p@ == entries,
                None => r matches Err(ExtractError::NotZip(_)),
            },
    {
        match archive::open(bytes) {
            Ok(archive) => Ok(Package { archive }),
            Err(e) => Err(ExtractError::NotZip(archive::error_text(&e))),
        }
    }

    /// The bytes to copy of the entry at a position: all of them, but never
    /// more than a package may have. An entry that is there, can be opened and
    /// can be read is given. Of one that can be opened but not read to the end
    /// there may be a part.
    pub fn read(&mut self, i: usize) -> (r: Result<Vec<u8>, ExtractError>)
        ensures
            final(self)@ == old(self)@,
            match r {
                Ok(d) => i < old(self)@.len() && old(self)@[i as int].opens && d@.len() <= MAX_TOTAL
                    && (old(self)@[i as int].data matches Some(all) ==> d@ == archive::first_bytes(
                    all,
                    MAX_TOTAL as int,
                )),
                Err(e) => e is Unreadable && (i < old(self)@.len() ==> !old(self)@[i as int].opens
                    || old(self)@[i as int].data is None),
            },
    {
        match archive::read_at(&mut self.archive, i, MAX_TOTAL) {
            Ok(d) => Ok(d),
            Err(e) => Err(ExtractError::Unreadable(archive::error_text(&e))),
        }
    }
}

proof fn lemma_stays_stopped(entries: Seq<EntryView>, m: int, n: int)
    requires
        0 <= m <= n,
        unpacked(entries, m).stopped is Some,
    ensures
        unpacked(entries, n) == unpacked(entries, m),
    decreases n - m,
{
    if m < n {
        lemma_stays_stopped(entries, m, n - 1);
    }
}

/// The path of a step.
pub open spec fn step_path(s: StepView) -> Seq<char> {
    match s {
        StepView::Directory(p) => p,
        StepView::Parents(p) => p,
        StepView::Copy(p, _) => p,
    }
}

/// No step of unpacking leads outside: every path is enclosed.
pub proof fn law_unpacked_enclosed(entries: Seq<EntryView>, n: int)
    ensures
        forall|i: int|
            0 <= i < unpacked(entries, n).steps.len() ==> is_enclosed(
                step_path(#[trigger] unpacked(entries, n).steps[i]),
            ),
    decreases n,
{
    if n > 0 {
        law_unpacked_enclosed(entries, n - 1);
        let p = unpacked(entries, n - 1);
        let q = unpacked(entries, n);
        assert forall|i: int| 0 <= i < q.steps.len() implies is_enclosed(
            step_path(#[trigger] q.steps[i]),
        ) by {
            if i < p.steps.len() {
                assert(q.steps[i] == p.steps[i]);
            }
        }
    }
}

/// Walking along an enclosed name from a directory never leaves the
/// directory: after every part of the way its own parts are still there.
pub proof fn law_enclosed_stays_inside(dir: Seq<Seq<char>>, name: Seq<char>, n: int)
    requires
        is_enclosed(name),
        0 <= n <= text::pieces(name, '/').len(),
    ensures
        dir.is_prefix_of(meta::walk(dir, text::pieces(name, '/').take(n))),
{
    let segs = text::pieces(name, '/');
    if depth(segs.take(n)) is None {
        lemma_depth_none(segs, n);
    }
    lemma_walk_depth(dir, segs.take(n));
}

proof fn lemma_walk_depth(dir: Seq<Seq<char>>, segs: Seq<Seq<char>>)
    requires
        depth(segs) is Some,
    ensures
        meta::walk(dir, segs).len() == dir.len() + depth(segs)->0,
        dir.is_prefix_of(meta::walk(dir, segs)),
    decreases segs.len(),
{
    if segs.len() > 0 {
        lemma_walk_depth(dir, segs.drop_last());
        let before = meta::walk(dir, segs.drop_last());
        let after = meta::walk(dir, segs);
        assert(after.subrange(0, dir.len() as int) =~= before.subrange(0, dir.len() as int));
    } else {
        assert(dir.subrange(0, dir.len() as int) =~= dir);
    }
}

/// The sizes of the entries that steps copy, added up.
pub open spec fn copied(steps: Seq<StepView>, entries: Seq<EntryView>) -> int
    decreases steps.len(),
{
    if steps.len() == 0 {
        0
    } else {
        copied(steps.drop_last(), entries) + match steps.last() {
            StepView::Copy(_, i) => entries[i as int].size as int,
            _ => 0,
        }
    }
}

/// The entries that are copied stay within the size limit, as their sizes
/// are stated.
pub proof fn law_unpacked_size(entries: Seq<EntryView>, n: int)
    requires
        n <= entries.len() <= MAX_FILES,
    ensures
        copied(unpacked(entries, n).steps, entries) <= MAX_TOTAL,
        unpacked(entries, n).stopped is None ==> copied(unpacked(entries, n).steps, entries)
            == unpacked(entries, n).total,
    decreases n,
{
    if n > 0 {
        law_unpacked_size(entries, n - 1);
        let p = unpacked(entries, n - 1);
        let q = unpacked(entries, n);
        let e = entries[n - 1];
        if p.stopped is None && e.opens && is_enclosed(e.name) {
            if is_directory(e.name) {
                assert(q.steps.drop_last() =~= p.steps);
                assert(copied(q.steps, entries) == copied(p.steps, entries));
            } else {
                let parents = p.steps.push(StepView::Parents(e.name));
                assert(parents.drop_last() =~= p.steps);
                assert(copied(parents, entries) == copied(p.steps, entries));
                if p.total + e.size <= MAX_TOTAL {
                    assert(q.steps.drop_last() =~= parents);
                    assert(q.steps.last() == StepView::Copy(e.name, (n - 1) as usize));
                    assert(copied(q.steps, entries) == copied(parents, entries) + e.size);
                } else {
                    assert(q.steps =~= parents);
                }
            }
        }
    }
}

// ---- installing ----

/// Why a package is not installed.
#[derive(Debug)]
pub enum InstallError {
    /// Its checksum is not that of the index; the message says which it is.
    Checksum(String),
    /// It cannot be unpacked.
    Extract(ExtractError),
}

/// The bytes of a package have the checksum that the index states.
pub open spec fn checksum_matches(bytes: Seq<u8>, sha256: Seq<char>) -> bool {
    encode::hex_of(sha256_of(bytes)) == text::lowered(sha256)
}

pub open spec fn checksum_message(id: Seq<char>, expected: Seq<char>, got: Seq<char>) -> Seq<char> {
    "sha256 mismatch for "@ + id + ": expected "@ + expected + ", got "@ + got
}

/// Checks a package against its index entry and plans how to unpack it.
/// Nothing is unpacked of a package whose checksum is wrong.
pub fn install_entry(bytes: &[u8], entry: &RepoEntry) -> (r: Result<ExtractPlan, InstallError>)
    ensures
        if !checksum_matches(bytes@, entry.sha256@) {
            r matches Err(InstallError::Checksum(message)) && message@ == checksum_message(
                entry.id@,
                entry.sha256@,
                encode::hex_of(sha256_of(bytes@)),
            )
        } else {
            match archive::archive_in(bytes@) {
                Some(entries) => if entries.len() > MAX_FILES {
                    r matches Err(InstallError::Extract(ExtractError::TooMany(n))) && n
                        == entries.len()
                } else {
                    r matches Ok(plan) && plan.steps.deep_view() == unpacked(
                        entries,
                        entries.len() as int,
                    ).steps && stop_view(plan.failed) == unpacked(
                        entries,
                        entries.len() as int,
                    ).stopped
                },
                None => r matches Err(InstallError::Extract(ExtractError::NotZip(_))),
            }
        },
{
    let got = checksum(bytes);
    let expected = text::lower(entry.sha256.as_str());
    if !text::same(got.as_str(), expected.as_str()) {
        let mut message = "sha256 mismatch for ".to_string();
        message.append(entry.id.as_str());
        message.append(": expected ");
        message.append(entry.sha256.as_str());
        message.append(", got ");
        message.append(got.as_str());
        return Err(InstallError::Checksum(message));
    }
    match safe_extract(bytes) {
        Ok(plan) => Ok(plan),
        Err(e) => Err(InstallError::Extract(e)),
    }
}

impl ExtractError {
    /// What to tell the user.
    pub fn message(&self) -> (r: String)
        ensures
            match *self {
                ExtractError::NotZip(text) => r@ == text@,
                ExtractError::TooMany(n) => r@ == "zip has too many entries ("@ + text::decimal_nat(
                    n as nat,
                ) + ")"@,
                ExtractError::Unreadable(text) => r@ == text@,
                ExtractError::UnsafePath(name) => r@ == "unsafe path in zip: "@ + name@,
                ExtractError::TooLarge => r@ == "zip exceeds unpacked size cap"@,
            },
    {
        match self {
            ExtractError::NotZip(text) => text.clone(),
            ExtractError::TooMany(n) => {
                let mut s = "zip has too many entries (".to_string();
                text::push_decimal(&mut s, *n as u64);
                s.append(")");
                s
            },
            ExtractError::Unreadable(text) => text.clone(),
            ExtractError::UnsafePath(name) => {
                let mut s = "unsafe path in zip: ".to_string();
                s.append(name.as_str());
                s
            },
            ExtractError::TooLarge => "zip exceeds unpacked size cap".to_string(),
        }
    }
}

/// Is the unpacked package the one that the index names?
pub fn check_package(package_id: &str, index_id: &str) -> (r: Result<(), String>)
    ensures
        match r {
            Ok(_) => package_id@ == index_id@,
            Err(message) => package_id@ != index_id@ && message@ == "package id "@ + package_id@
                + " != index id "@ + index_id@,
        },
{
    if text::same(package_id, index_id) {
        return Ok(());
    }
    let mut message = "package id ".to_string();
    message.append(package_id);
    message.append(" != index id ");
    message.append(index_id);
    Err(message)
}

/// The id of a plugin is the name of its directory: one plain name.
pub open spec fn is_plugin_id(id: Seq<char>) -> bool {
    meta::is_name(id) && !id.contains('/')
}

/// Is this the name of a directory that a plugin can have?
pub fn plugin_id(id: &str) -> (r: bool)
    ensures
        r == is_plugin_id(id@),
{
    let cs = text::chars_of(id);
    proof {
        text::lemma_first_char(id@, '/', 0);
    }
    !text::empty(id) && !text::same(id, ".") && !text::same(id, "..") && text::find_char(
        &cs,
        '/',
        0,
    ).is_none()
}

/// The directory that a plugin is installed in; nothing where its id is no
/// plain name.
pub fn install_dir(plugins_dir: &str, id: &str) -> (r: Option<String>)
    ensures
        r.deep_view() == if is_plugin_id(id@) {
            Some(paths::joined_path(plugins_dir@, id@))
        } else {
            None
        },
{
    if plugin_id(id) {
        Some(paths::join_path(plugins_dir, id))
    } else {
        None
    }
}

/// The directory that a package is unpacked to before it takes its place;
/// nothing where its id is no plain name.
pub fn staging_dir(plugins_dir: &str, id: &str) -> (r: Option<String>)
    ensures
        r.deep_view() == if is_plugin_id(id@) {
            Some(paths::joined_path(plugins_dir@, ".tmp-"@ + id@))
        } else {
            None
        },
{
    if !plugin_id(id) {
        return None;
    }
    let mut name = ".tmp-".to_string();
    name.append(id);
    Some(paths::join_path(plugins_dir, name.as_str()))
}

/// The directory that is removed with a plugin; nothing where its id is no
/// plain name, so that nothing outside and not the plugins directory itself is.
pub fn uninstall_dir(plugins_dir: &str, id: &str) -> (r: Option<String>)
    ensures
        r.deep_view() == if meta::is_name(id@) && !id@.contains('/') {
            Some(paths::joined_path(plugins_dir@, id@))
        } else {
            None
        },
{
    install_dir(plugins_dir, id)
}

/// The directory of a plugin and the one it is unpacked to lie directly in the
/// plugins directory, and the directory of one plugin holds neither that of
/// another nor the plugins directory: what is removed with a plugin is its own.
pub proof fn law_plugin_dirs(plugins_dir: Seq<char>, id: Seq<char>, other: Seq<char>)
    requires
        is_plugin_id(id),
        is_plugin_id(other),
        id != other,
    ensures
        paths::components_of(paths::joined_path(plugins_dir, id)) == paths::components_of(
            plugins_dir,
        ).push(id),
        paths::components_of(paths::joined_path(plugins_dir, ".tmp-"@ + id))
            == paths::components_of(plugins_dir).push(".tmp-"@ + id),
        !paths::is_under(
            paths::joined_path(plugins_dir, other),
            paths::joined_path(plugins_dir, id),
        ),
        !paths::is_under(plugins_dir, paths::joined_path(plugins_dir, id)),
{
    reveal_strlit(".tmp-");
    reveal_strlit(".");
    let staged = ".tmp-"@ + id;
    assert(!staged.contains('/')) by {
        assert forall|i: int| 0 <= i < staged.len() implies staged[i] != '/' by {
            if i >= 5 {
                assert(staged[i] == id[i - 5]);
                assert(id.contains(id[i - 5]));
            }
        }
    }
    paths::law_join_name(plugins_dir, id);
    paths::law_join_name(plugins_dir, other);
    paths::law_join_name(plugins_dir, staged);
    let base = paths::components_of(plugins_dir);
    let a = base.push(id);
    let b = base.push(other);
    if a.is_prefix_of(b) {
        assert(b.subrange(0, a.len() as int) =~= b);
        assert(a.last() == b.last());
    }
}

/// Every step of unpacking lies under the target directory.
pub proof fn law_unpacked_under(entries: Seq<EntryView>, n: int, dest: Seq<char>, i: int)
    requires
        0 <= i < unpacked(entries, n).steps.len(),
    ensures
        paths::is_under(paths::joined_path(dest, step_path(unpacked(entries, n).steps[i])), dest),
{
    law_unpacked_enclosed(entries, n);
    paths::law_join_under(dest, step_path(unpacked(entries, n).steps[i]));
}

// ---- repositories ----

/// The position of the first entry with the given id, from `i` on.
pub open spec fn entry_position(s: Seq<RepoEntry>, id: Seq<char>, i: int) -> Option<int>
    decreases s.len() - i,
{
    if i < 0 || i >= s.len() {
        None
    } else if s[i].id@ == id {
        Some(i)
    } else {
        entry_position(s, id, i + 1)
    }
}

/// The entry of an index with the given id.
pub fn find_entry<'a>(index: &'a RepoIndex, id: &str) -> (r: Option<&'a RepoEntry>)
    ensures
        match entry_position(index.plugins@, id@, 0) {
            Some(i) => r matches Some(e) && *e == index.plugins@[i],
            None => r is None,
        },
{
    let mut i: usize = 0;
    while i < index.plugins.len()
        invariant
            i <= index.plugins.len(),
            entry_position(index.plugins@, id@, 0) == entry_position(
                index.plugins@,
                id@,
                i as int,
            ),
        decreases index.plugins.len() - i,
    {
        if text::same(index.plugins[i].id.as_str(), id) {
            return Some(&index.plugins[i]);
        }
        i += 1;
    }
    None
}

/// The list with `url` at its end, unless it is in it already.
pub open spec fn with_repo(urls: Seq<Seq<char>>, url: Seq<char>) -> Seq<Seq<char>> {
    if urls.contains(url) {
        urls
    } else {
        urls.push(url)
    }
}

/// The list without `url`.
pub open spec fn without_repo(urls: Seq<Seq<char>>, url: Seq<char>) -> Seq<Seq<char>> {
    urls.filter(|u: Seq<char>| u != url)
}

fn lists_url(urls: &Vec<String>, url: &str) -> (r: bool)
    ensures
        r == urls.deep_view().contains(url@),
{
    let mut i: usize = 0;
    while i < urls.len()
        invariant
            i <= urls.len(),
            forall|j: int| 0 <= j < i ==> #[trigger] urls.deep_view()[j] != url@,
        decreases urls.len() - i,
    {
        assert(urls.deep_view()[i as int] == urls@[i as int]@);
        if text::same(urls[i].as_str(), url) {
            return true;
        }
        i += 1;
    }
    false
}

/// Adds a repository to the list. Says whether the list has changed.
pub fn repos_add(urls: &mut Vec<String>, f: UrlForm) -> (changed: bool)
    ensures
        final(urls).deep_view() == with_repo(old(urls).deep_view(), f.url@),
        changed == !old(urls).deep_view().contains(f.url@),
{
    if lists_url(urls, f.url.as_str()) {
        return false;
    }
    let ghost before = urls.deep_view();
    let ghost url = f.url@;
    urls.push(f.url);
    assert(urls.deep_view() =~= before.push(url));
    true
}

/// The list without a repository.
pub fn repos_remove(urls: &Vec<String>, f: &UrlForm) -> (r: Vec<String>)
    ensures
        r.deep_view() == without_repo(urls.deep_view(), f.url@),
{
    let ghost all = urls.deep_view();
    let ghost keep = |u: Seq<char>| u != f.url@;
    let mut out: Vec<String> = Vec::new();
    let mut i: usize = 0;
    proof {
        reveal(Seq::filter);
    }
    while i < urls.len()
        invariant
            all == urls.deep_view(),
            keep == (|u: Seq<char>| u != f.url@),
            i <= urls.len(),
            out.deep_view() == all.take(i as int).filter(keep),
        decreases urls.len() - i,
    {
        proof {
            reveal(Seq::filter);
            assert(all.take(i + 1).drop_last() =~= all.take(i as int));
            assert(all[i as int] == urls@[i as int]@);
        }
        let ghost before = out.deep_view();
        if !text::same(urls[i].as_str(), f.url.as_str()) {
            out.push(urls[i].clone());
            assert(out.deep_view() =~= before.push(all[i as int]));
        }
        i += 1;
    }
    assert(all.take(all.len() as int) =~= all);
    out
}

/// Adding a repository keeps the list free of repetitions, and the list then
/// holds it.
pub proof fn law_repo_added(urls: Seq<Seq<char>>, url: Seq<char>)
    requires
        urls.no_duplicates(),
    ensures
        with_repo(urls, url).no_duplicates(),
        with_repo(urls, url).contains(url),
{
    let added = with_repo(urls, url);
    if !urls.contains(url) {
        assert(added[urls.len() as int] == url);
        assert forall|i: int, j: int|
            0 <= i < added.len() && 0 <= j < added.len() && i != j implies added[i]
            != added[j] by {
            if i < urls.len() && j < urls.len() {
                assert(urls[i] != urls[j]);
            }
        }
    }
}

/// A removed repository is gone, and every other one is still there.
pub proof fn law_repo_removed(urls: Seq<Seq<char>>, url: Seq<char>, other: Seq<char>)
    ensures
        !without_repo(urls, url).contains(url),
        other != url ==> (without_repo(urls, url).contains(other) <==> urls.contains(other)),
{
    broadcast use Seq::lemma_filter_contains;
    broadcast use Seq::lemma_filter_contains_rev;

    let keep = |u: Seq<char>| u != url;
    assert forall|i: int| 0 <= i < urls.filter(keep).len() implies keep(
        #[trigger] urls.filter(keep)[i],
    ) by {
        urls.lemma_filter_pred(keep, i);
    }
}

// ---- the plugins page ----

/// The version of the installed plugin with the given id; of several the last.
pub open spec fn installed_version(s: Seq<PluginManifest>, id: Seq<char>) -> Option<Seq<char>>
    decreases s.len(),
{
    if s.len() == 0 {
        None
    } else if s.last().id@ == id {
        Some(s.last().version@)
    } else {
        installed_version(s.drop_last(), id)
    }
}

/// What a plugin is granted.
pub open spec fn grants(capabilities: Seq<Seq<char>>) -> Seq<char> {
    "grants: "@ + if capabilities.len() == 0 {
        "none"@
    } else {
        text::joined(capabilities, ", "@)
    }
}

/// Text with something before it; nothing where there is no text.
pub open spec fn prefixed(before: Seq<char>, o: Option<String>) -> Seq<char> {
    match o {
        Some(s) => before + s@,
        None => seq![],
    }
}

/// A plugin that can be installed or updated.
pub struct AvailableRow {
    pub id: String,
    pub kind: String,
    pub line: String,
    pub grants: String,
    /// What the button does.
    pub button: String,
}

#[verifier::ext_equal]
pub struct AvailableRowView {
    pub id: Seq<char>,
    pub kind: Seq<char>,
    pub line: Seq<char>,
    pub grants: Seq<char>,
    pub button: Seq<char>,
}

impl DeepView for AvailableRow {
    type V = AvailableRowView;

    open spec fn deep_view(&self) -> AvailableRowView {
        AvailableRowView {
            id: self.id@,
            kind: self.kind@,
            line: self.line@,
            grants: self.grants@,
            button: self.button@,
        }
    }
}

/// How an offered plugin is shown: one that is not installed as installable,
/// one that is installed in another version as an update, and one that is
/// installed in this version not at all.
pub open spec fn available_row(e: RepoEntry, installed: Seq<PluginManifest>) -> Option<
    AvailableRowView,
> {
    let version = installed_version(installed, e.id@);
    if version == Some(e.version@) {
        None
    } else {
        Some(
            AvailableRowView {
                id: e.id@,
                kind: e.kind@,
                line: "v"@ + e.version@ + prefixed(" · "@, e.author) + prefixed(
                    " — "@,
                    e.description,
                ),
                grants: grants(e.capabilities.deep_view()),
                button: if version is Some {
                    "Update"@
                } else {
                    "Install"@
                },
            },
        )
    }
}

pub open spec fn available_rows(s: Seq<RepoEntry>, installed: Seq<PluginManifest>) -> Seq<
    AvailableRowView,
>
    decreases s.len(),
{
    if s.len() == 0 {
        seq![]
    } else {
        match available_row(s.last(), installed) {
            Some(row) => available_rows(s.drop_last(), installed).push(row),
            None => available_rows(s.drop_last(), installed),
        }
    }
}

/// A plugin that is installed.
pub struct InstalledRow {
    pub id: String,
    pub name: String,
    pub kind: String,
    pub line: String,
    pub grants: Option<String>,
}

#[verifier::ext_equal]
pub struct InstalledRowView {
    pub id: Seq<char>,
    pub name: Seq<char>,
    pub kind: Seq<char>,
    pub line: Seq<char>,
    pub grants: Option<Seq<char>>,
}

impl DeepView for InstalledRow {
    type V = InstalledRowView;

    open spec fn deep_view(&self) -> InstalledRowView {
        InstalledRowView {
            id: self.id@,
            name: self.name@,
            kind: self.kind@,
            line: self.line@,
            grants: self.grants.deep_view(),
        }
    }
}

/// How an installed plugin is shown.
pub open spec fn installed_row(m: PluginManifest) -> InstalledRowView {
    InstalledRowView {
        id: m.id@,
        name: m.name@,
        kind: m.kind@,
        line: "v"@ + m.version@ + prefixed(" — "@, m.description),
        grants: if m.capabilities.deep_view().len() > 0 {
            Some(grants(m.capabilities.deep_view()))
        } else {
            None
        },
    }
}

/// The plugins page.
pub struct PluginsPage {
    pub available: Vec<AvailableRow>,
    pub installed: Vec<InstalledRow>,
}

fn find_version<'a>(installed: &'a Vec<PluginManifest>, id: &str) -> (r: Option<&'a String>)
    ensures
        match r {
            Some(v) => installed_version(installed@, id@) == Some(v@),
            None => installed_version(installed@, id@) is None,
        },
{
    let mut i: usize = installed.len();
    assert(installed@.take(i as int) =~= installed@);
    while i > 0
        invariant
            i <= installed.len(),
            installed_version(installed@, id@) == installed_version(
                installed@.take(i as int),
                id@,
            ),
        decreases i,
    {
        assert(installed@.take(i as int).drop_last() =~= installed@.take(i - 1));
        if text::same(installed[i - 1].id.as_str(), id) {
            return Some(&installed[i - 1].version);
        }
        i -= 1;
    }
    None
}

fn granted(capabilities: &Vec<String>) -> (r: String)
    ensures
        r@ == grants(capabilities.deep_view()),
{
    let mut s = "grants: ".to_string();
    if capabilities.len() == 0 {
        s.append("none");
    } else {
        s.append(text::join(capabilities, ", ").as_str());
    }
    s
}

fn append_prefixed(s: &mut String, before: &str, o: &Option<String>)
    ensures
        final(s)@ == old(s)@ + prefixed(before@, *o),
{
    let ghost start = s@;
    if let Some(t) = o {
        s.append(before);
        s.append(t.as_str());
    }
    assert(s@ =~= start + prefixed(before@, *o));
}

fn show_available(e: &RepoEntry, installed: &Vec<PluginManifest>) -> (r: Option<AvailableRow>)
    ensures
        r.deep_view() == available_row(*e, installed@),
{
    let version = find_version(installed, e.id.as_str());
    if let Some(v) = version {
        if text::same(v.as_str(), e.version.as_str()) {
            return None;
        }
    }
    let mut line = "v".to_string();
    line.append(e.version.as_str());
    append_prefixed(&mut line, " · ", &e.author);
    append_prefixed(&mut line, " — ", &e.description);
    Some(
        AvailableRow {
            id: e.id.clone(),
            kind: e.kind.clone(),
            line,
            grants: granted(&e.capabilities),
            button: if version.is_some() {
                "Update".to_string()
            } else {
                "Install".to_string()
            },
        },
    )
}

fn show_installed(m: &PluginManifest) -> (r: InstalledRow)
    ensures
        r.deep_view() == installed_row(*m),
{
    let mut line = "v".to_string();
    line.append(m.version.as_str());
    append_prefixed(&mut line, " — ", &m.description);
    InstalledRow {
        id: m.id.clone(),
        name: m.name.clone(),
        kind: m.kind.clone(),
        line,
        grants: if m.capabilities.len() > 0 {
            Some(granted(&m.capabilities))
        } else {
            None
        },
    }
}

/// The plugins page: what the repositories offer that is not installed in the
/// same version, and what is installed.
pub fn plugins_page(available: &Vec<RepoEntry>, installed: &Vec<PluginManifest>) -> (r: PluginsPage)
    ensures
        r.available.deep_view() == available_rows(available@, installed@),
        r.installed.deep_view() == installed@.map_values(|m: PluginManifest| installed_row(m)),
{
    let mut offers: Vec<AvailableRow> = Vec::new();
    let mut i: usize = 0;
    while i < available.len()
        invariant
            i <= available.len(),
            offers.deep_view() == available_rows(available@.take(i as int), installed@),
        decreases available.len() - i,
    {
        assert(available@.take(i + 1).drop_last() =~= available@.take(i as int));
        let ghost before = offers.deep_view();
        if let Some(row) = show_available(&available[i], installed) {
            let ghost rv = row.deep_view();
            offers.push(row);
            assert(offers.deep_view() =~= before.push(rv));
        }
        i += 1;
    }
    assert(available@.take(available@.len() as int) =~= available@);
    let mut rows: Vec<InstalledRow> = Vec::new();
    let mut k: usize = 0;
    while k < installed.len()
        invariant
            k <= installed.len(),
            rows.len() == k,
            forall|j: int|
                0 <= j < k ==> (#[trigger] rows@[j]).deep_view() == installed_row(installed@[j]),
        decreases installed.len() - k,
    {
        rows.push(show_installed(&installed[k]));
        k += 1;
    }
    assert(rows.deep_view() =~= installed@.map_values(|m: PluginManifest| installed_row(m)));
    PluginsPage { available: offers, installed: rows }
}

// ---- what a package becomes ----

/// A name of plain parts stays inside; one that is absolute, holds a NUL or goes
/// up first does not.
pub proof fn law_enclosed(name: Seq<char>)
    ensures
        !name.contains('\0') && (forall|i: int|
            0 <= i < text::pieces(name, '/').len() ==> meta::is_name(
                #[trigger] text::pieces(name, '/')[i],
            )) ==> is_enclosed(name),
        name.contains('\0') ==> !is_enclosed(name),
        name.len() > 0 && name[0] == '/' ==> !is_enclosed(name),
        text::pieces(name, '/').len() > 0 && text::pieces(name, '/')[0] == ".."@ ==> !is_enclosed(
            name,
        ),
{
    reveal_strlit(".");
    reveal_strlit("..");
    let segs = text::pieces(name, '/');
    text::law_pieces_joined(name, '/');
    if forall|i: int| 0 <= i < segs.len() ==> meta::is_name(#[trigger] segs[i]) {
        lemma_depth_names(segs);
        if name.len() > 0 && name[0] == '/' {
            text::lemma_first_char(name, '/', 0);
            assert(text::first_char(name, '/', 0) == Some(0int));
            assert(segs[0] == name.subrange(0, 0));
            assert(segs[0].len() == 0);
        }
    }
    if segs.len() > 0 && segs[0] == ".."@ {
        assert(segs.take(1).drop_last() =~= seq![]);
        assert(".."@.len() == 2 && "."@.len() == 1);
        assert(depth(segs.take(1).drop_last()) == Some(0nat));
        assert(segs.take(1).last() == ".."@);
        assert(depth(segs.take(1)) is None);
        lemma_depth_none(segs, 1);
    }
}

proof fn lemma_depth_names(segs: Seq<Seq<char>>)
    requires
        forall|i: int| 0 <= i < segs.len() ==> meta::is_name(#[trigger] segs[i]),
    ensures
        depth(segs) == Some(segs.len()),
    decreases segs.len(),
{
    if segs.len() > 0 {
        assert forall|i: int| 0 <= i < segs.drop_last().len() implies meta::is_name(
            #[trigger] segs.drop_last()[i],
        ) by {
            assert(segs.drop_last()[i] == segs[i]);
        }
        lemma_depth_names(segs.drop_last());
        assert(meta::is_name(segs[segs.len() - 1]));
    }
}

/// An entry is a directory exactly where its name ends in a slash or a backslash.
pub proof fn law_directory(name: Seq<char>, c: char)
    ensures
        is_directory(name.push(c)) <==> c == '/' || c == '\\',
        !is_directory(seq![]),
{
}

/// A package that is unpacked to the end is unpacked whole: every file of it is
/// copied from its own position to its own name, and every directory is made.
pub proof fn law_unpacked_whole(entries: Seq<EntryView>, n: int, i: int)
    requires
        0 <= i < n <= entries.len(),
        unpacked(entries, n).stopped is None,
    ensures
        entries[i].opens,
        is_enclosed(entries[i].name),
        is_directory(entries[i].name) ==> unpacked(entries, n).steps.contains(
            StepView::Directory(entries[i].name),
        ),
        !is_directory(entries[i].name) ==> unpacked(entries, n).steps.contains(
            StepView::Copy(entries[i].name, i as usize),
        ) && unpacked(entries, n).steps.contains(StepView::Parents(entries[i].name)),
    decreases n,
{
    let before = unpacked(entries, n - 1);
    let after = unpacked(entries, n);
    if i < n - 1 {
        law_unpacked_whole(entries, n - 1, i);
        assert forall|s: StepView| before.steps.contains(s) implies #[trigger] after.steps.contains(
            s,
        ) by {
            let k = choose|k: int| 0 <= k < before.steps.len() && before.steps[k] == s;
            assert(after.steps[k] == s);
        }
    } else {
        let name = entries[i].name;
        if is_directory(name) {
            assert(after.steps.last() == StepView::Directory(name));
        } else {
            assert(after.steps.last() == StepView::Copy(name, i as usize));
            assert(after.steps[after.steps.len() - 2] == StepView::Parents(name));
        }
    }
}

/// Every file that is copied is one of the package, under its own name.
pub proof fn law_unpacked_own(entries: Seq<EntryView>, n: int, k: int)
    requires
        0 <= n <= entries.len() <= usize::MAX,
        0 <= k < unpacked(entries, n).steps.len(),
    ensures
        unpacked(entries, n).steps[k] matches StepView::Copy(name, i) ==> i < n && entries[i as int].name
            == name && !is_directory(name),
    decreases n,
{
    if n > 0 {
        let before = unpacked(entries, n - 1);
        let after = unpacked(entries, n);
        if k < before.steps.len() {
            assert(after.steps[k] == before.steps[k]);
            law_unpacked_own(entries, n - 1, k);
        }
    }
}

/// The sizes of the first `n` entries that are files, added up.
pub open spec fn file_sizes(entries: Seq<EntryView>, n: int) -> int
    decreases n,
{
    if n <= 0 {
        0
    } else {
        file_sizes(entries, n - 1) + if is_directory(entries[n - 1].name) {
            0
        } else {
            entries[n - 1].size as int
        }
    }
}

/// A package is unpacked to the end exactly where every entry can be opened and
/// stays inside, and its files together stay within the limit.
pub proof fn law_unpacked_end(entries: Seq<EntryView>, n: int)
    requires
        0 <= n <= entries.len(),
    ensures
        unpacked(entries, n).stopped is None <==> (forall|i: int|
            0 <= i < n ==> (#[trigger] entries[i]).opens && is_enclosed(entries[i].name))
            && file_sizes(entries, n) <= MAX_TOTAL,
        unpacked(entries, n).stopped is None ==> unpacked(entries, n).total == file_sizes(
            entries,
            n,
        ),
    decreases n,
{
    if n > 0 {
        law_unpacked_end(entries, n - 1);
        let last = entries[n - 1];
        assert(file_sizes(entries, n - 1) <= file_sizes(entries, n));
    }
}

/// What stops unpacking is told as it is: an unsafe name is that of an entry which
/// leads outside, and an unreadable entry cannot be opened.
pub proof fn law_unpacked_stop(entries: Seq<EntryView>, n: int)
    requires
        0 <= n <= entries.len(),
    ensures
        unpacked(entries, n).stopped matches Some(StopView::UnsafePath(name)) ==> exists|i: int|
            0 <= i < n && (#[trigger] entries[i]).name == name && !is_enclosed(name),
        unpacked(entries, n).stopped matches Some(StopView::Unreadable) ==> exists|i: int|
            0 <= i < n && !(#[trigger] entries[i]).opens,
        unpacked(entries, n).stopped matches Some(StopView::TooLarge) ==> file_sizes(entries, n)
            > MAX_TOTAL,
    decreases n,
{
    if n > 0 {
        law_unpacked_stop(entries, n - 1);
        law_unpacked_end(entries, n - 1);
        let last = entries[n - 1];
        assert(file_sizes(entries, n - 1) <= file_sizes(entries, n));
    }
}

/// A checksum decides: packages that pass under the same one have the same
/// digest, and a package passes under its own digest in lowercase only where the
/// digits are the very same.
pub proof fn law_checksum_decides(a: Seq<u8>, b: Seq<u8>, sha256: Seq<char>)
    ensures
        checksum_matches(a, sha256) && checksum_matches(b, sha256) ==> sha256_of(a) == sha256_of(b),
        checksum_matches(a, sha256) <==> text::lowered(sha256) == encode::hex_of(sha256_of(a)),
{
    if checksum_matches(a, sha256) && checksum_matches(b, sha256) {
        encode::law_hex_injective(sha256_of(a), sha256_of(b));
    }
}

/// A plain id names a directory, and one with a slash, an empty one and the two
/// names that lead elsewhere do not.
pub proof fn law_plugin_id(id: Seq<char>)
    ensures
        is_plugin_id(id) <==> id.len() > 0 && id != "."@ && id != ".."@ && !id.contains('/'),
{
}

/// The entry with an id is the first of the index that has it.
pub proof fn law_entry(s: Seq<RepoEntry>, id: Seq<char>, i: int)
    requires
        0 <= i <= s.len(),
    ensures
        match entry_position(s, id, i) {
            Some(k) => i <= k < s.len() && s[k].id@ == id && forall|j: int|
                i <= j < k ==> (#[trigger] s[j]).id@ != id,
            None => forall|j: int| i <= j < s.len() ==> (#[trigger] s[j]).id@ != id,
        },
    decreases s.len() - i,
{
    if i < s.len() {
        law_entry(s, id, i + 1);
    }
}

/// The list of repositories changes by that one address: it is put at the end
/// where it is new, and nothing else happens.
pub proof fn law_repo_list(urls: Seq<Seq<char>>, url: Seq<char>)
    ensures
        urls.contains(url) ==> with_repo(urls, url) == urls,
        !urls.contains(url) ==> with_repo(urls, url) == urls.push(url),
{
}

/// The installed version of a plugin is that of the last installed one with its
/// id, and there is none only where none has it.
pub proof fn law_installed_version(s: Seq<PluginManifest>, id: Seq<char>, k: int)
    requires
        -1 <= k < s.len(),
        k >= 0 ==> s[k].id@ == id,
        forall|j: int| k < j < s.len() ==> (#[trigger] s[j]).id@ != id,
    ensures
        k >= 0 ==> installed_version(s, id) == Some(s[k].version@),
        k == -1 ==> installed_version(s, id) is None,
    decreases s.len(),
{
    if s.len() > 0 && k < s.len() - 1 {
        let rest = s.drop_last();
        assert(s[s.len() - 1].id@ != id);
        assert forall|j: int| k < j < rest.len() implies (#[trigger] rest[j]).id@ != id by {
            assert(rest[j] == s[j]);
        }
        law_installed_version(rest, id, k);
    }
}

/// A plugin is offered unless it is installed in the very version that is
/// offered: to be installed where it is not, and to be updated where it is.
pub proof fn law_offered(e: RepoEntry, installed: Seq<PluginManifest>)
    ensures
        available_row(e, installed) is None <==> installed_version(installed, e.id@) == Some(
            e.version@,
        ),
        available_row(e, installed) matches Some(row) ==> {
            &&& row.id == e.id@ && row.kind == e.kind@
            &&& row.button == "Install"@ <==> installed_version(installed, e.id@) is None
            &&& row.button == "Update"@ <==> installed_version(installed, e.id@) is Some
            &&& row.grants == grants(e.capabilities.deep_view())
            &&& text::occurs_at(row.line, "v"@ + e.version@, 0)
        },
{
    reveal_strlit("Install");
    reveal_strlit("Update");
    assert("Install"@.len() == 7 && "Update"@.len() == 6);
    if let Some(row) = available_row(e, installed) {
        let v = "v"@ + e.version@;
        assert(row.line.subrange(0, v.len() as int) =~= v);
    }
}

/// No offer is lost: one more that is shown is one more row at the end.
pub proof fn law_one_more_offer(
    s: Seq<RepoEntry>,
    e: RepoEntry,
    installed: Seq<PluginManifest>,
)
    ensures
        available_row(e, installed) matches Some(row) ==> available_rows(s.push(e), installed)
            == available_rows(s, installed).push(row),
        available_row(e, installed) is None ==> available_rows(s.push(e), installed)
            == available_rows(s, installed),
        available_rows(seq![], installed).len() == 0,
{
    assert(s.push(e).drop_last() =~= s);
}

/// What a plugin is granted is told in full: no capability as none, and each of
/// several in its place.
pub proof fn law_grants(capabilities: Seq<Seq<char>>)
    ensures
        capabilities.len() == 0 ==> grants(capabilities) == "grants: "@ + "none"@,
        capabilities.len() > 0 ==> text::ends(grants(capabilities), capabilities.last()),
        capabilities.len() > 0 ==> grants(capabilities) == "grants: "@ + text::joined(
            capabilities,
            ", "@,
        ),
{
    if capabilities.len() > 0 {
        let g = grants(capabilities);
        let last = capabilities.last();
        assert(g.subrange(g.len() - last.len(), g.len() as int) =~= last);
    }
}

/// An installed plugin is listed under its own id, name and kind, in its own
/// version, and with what it is granted where that is anything.
pub proof fn law_installed_row(m: PluginManifest)
    ensures
        installed_row(m).id == m.id@,
        installed_row(m).name == m.name@,
        installed_row(m).kind == m.kind@,
        text::occurs_at(installed_row(m).line, "v"@ + m.version@, 0),
        installed_row(m).grants is None <==> m.capabilities@.len() == 0,
        installed_row(m).grants matches Some(g) ==> g == grants(m.capabilities.deep_view()),
{
    let v = "v"@ + m.version@;
    assert(installed_row(m).line.subrange(0, v.len() as int) =~= v);
}

/// Every part of a row of an offered plugin is seen as itself.
pub proof fn law_available_row_view(x: AvailableRow)
    ensures
        x.deep_view().id == x.id@,
        x.deep_view().kind == x.kind@,
        x.deep_view().line == x.line@,
        x.deep_view().grants == x.grants@,
        x.deep_view().button == x.button@,
{
}

/// Every part of a row of an installed plugin is seen as itself.
pub proof fn law_installed_row_view(x: InstalledRow)
    ensures
        x.deep_view().id == x.id@,
        x.deep_view().name == x.name@,
        x.deep_view().kind == x.kind@,
        x.deep_view().line == x.line@,
        x.deep_view().grants == x.grants.deep_view(),
{
}

/// A refused package is told with its id, the checksum that it should have and
/// the one that it has.
pub proof fn law_checksum_message(id: Seq<char>, expected: Seq<char>, got: Seq<char>)
    ensures
        text::occurs_at(
            checksum_message(id, expected, got),
            "sha256 mismatch for "@ + id + ": expected "@ + expected,
            0,
        ),
        text::ends(checksum_message(id, expected, got), ", got "@ + got),
{
    let m = checksum_message(id, expected, got);
    let front = "sha256 mismatch for "@ + id + ": expected "@ + expected;
    let back = ", got "@ + got;
    assert(m.subrange(0, front.len() as int) =~= front);
    assert(m.subrange(m.len() - back.len(), m.len() as int) =~= back);
}

/// A package is unpacked only where its checksum is the one of the index, and only
/// one that opens as an archive of not too many entries; a wrong checksum is told as
/// such, whatever the package holds.
pub proof fn law_install_entry(
    bytes: &[u8],
    entry: &RepoEntry,
    r: Result<ExtractPlan, InstallError>,
)
    requires
        call_ensures(install_entry, (bytes, entry), r),
    ensures
        r is Ok ==> text::lowered(entry.sha256@) == encode::hex_of(sha256_of(bytes@)) && (
        archive::archive_in(bytes@) matches Some(entries) && entries.len() <= MAX_FILES),
        r matches Err(InstallError::Checksum(_)) <==> text::lowered(entry.sha256@)
            != encode::hex_of(sha256_of(bytes@)),
        r matches Ok(plan) ==> (stop_view(plan.failed) is None <==> (forall|i: int|
            0 <= i < archive::archive_in(bytes@)->0.len() ==> (
            #[trigger] archive::archive_in(bytes@)->0[i]).opens && is_enclosed(
                archive::archive_in(bytes@)->0[i].name,
            )) && file_sizes(
            archive::archive_in(bytes@)->0,
            archive::archive_in(bytes@)->0.len() as int,
        ) <= MAX_TOTAL),
{
    law_checksum_decides(bytes@, bytes@, entry.sha256@);
    if let Some(entries) = archive::archive_in(bytes@) {
        law_unpacked_end(entries, entries.len() as int);
    }
}

/// What is looked up in the index under an id has that id, and a package goes under
/// the id of the index only where it has the same one.
pub proof fn law_same_id(
    index: &RepoIndex,
    id: &str,
    e: Option<&RepoEntry>,
    package_id: &str,
    r: Result<(), String>,
)
    requires
        call_ensures(find_entry, (index, id), e),
        call_ensures(check_package, (package_id, id), r),
    ensures
        e matches Some(found) ==> found.id@ == id@ && index.plugins@.contains(*found),
        e is None ==> forall|j: int|
            0 <= j < index.plugins@.len() ==> (#[trigger] index.plugins@[j]).id@ != id@,
        r is Ok <==> package_id@ == id@,
{
    law_entry(index.plugins@, id@, 0);
}

} // verus!
