//! Download clients: what to ask qBittorrent and SABnzbd, what their answers
//! mean, how a download moves from state to state, and which files of a
//! finished one are imported.

use vstd::prelude::*;
use vstd::string::*;
use crate::indexer::Release;
use crate::json::{Json, JsonView};
use crate::encode;
use crate::json;
use crate::paths;
use crate::text;
use crate::page;

verus! {

// ---- data ----

/// A download client that the user has set up.
#[derive(Debug)]
pub struct DownloadClient {
    pub id: i64,
    pub name: String,
    /// `qbittorrent` or `sabnzbd`.
    pub kind: String,
    pub host: String,
    pub port: i64,
    pub username: Option<String>,
    /// The password of qBittorrent, or the API key of SABnzbd.
    pub password: Option<String>,
    pub category: Option<String>,
    pub use_ssl: i64,
    pub enabled: i64,
    pub last_test_ok: Option<i64>,
    pub last_test_error: Option<String>,
}

/// The root of a client's addresses.
pub open spec fn base_address(c: DownloadClient) -> Seq<char> {
    (if c.use_ssl == 1 {
        "https"@
    } else {
        "http"@
    }) + "://"@ + c.host@ + ":"@ + text::decimal_of(c.port as int)
}

/// The protocol that a client serves.
pub open spec fn client_protocol(c: DownloadClient) -> Seq<char> {
    if c.kind@ == "sabnzbd"@ {
        "usenet"@
    } else {
        "torrent"@
    }
}

/// Optional text, empty where it is absent.
pub open spec fn or_empty(o: Option<String>) -> Seq<char> {
    match o {
        Some(s) => s@,
        None => ""@,
    }
}

fn text_or_empty(o: &Option<String>) -> (r: String)
    ensures
        r@ == or_empty(*o),
{
    match o {
        Some(s) => s.clone(),
        None => "".to_string(),
    }
}

impl DownloadClient {
    /// The root of the client's addresses.
    pub fn base(&self) -> (r: String)
        ensures
            r@ == base_address(*self),
    {
        let mut u = if self.use_ssl == 1 {
            "https".to_string()
        } else {
            "http".to_string()
        };
        u.append("://");
        u.append(self.host.as_str());
        u.append(":");
        u.append(text::decimal(self.port).as_str());
        u
    }

    /// The protocol that the client serves.
    pub fn protocol(&self) -> (r: &'static str)
        ensures
            r@ == client_protocol(*self),
    {
        if text::same(self.kind.as_str(), "sabnzbd") {
            "usenet"
        } else {
            "torrent"
        }
    }
}

// ---- path mappings ----

/// The position, among the first `n` mappings, of the one that applies to a
/// path: of those whose remote path begins it the longest, and of several of
/// that length the first.
pub open spec fn best_mapping(maps: Seq<(String, String)>, path: Seq<char>, n: int) -> Option<int>
    decreases n,
{
    if n <= 0 {
        None
    } else {
        let best = best_mapping(maps, path, n - 1);
        if text::occurs_at(path, maps[n - 1].0@, 0) && (best is None || maps[n - 1].0@.len()
            > maps[best->0].0@.len()) {
            Some(n - 1)
        } else {
            best
        }
    }
}

/// A path of the client as the host sees it: the mapping that applies replaces
/// its beginning, and a path without one stays as it is.
pub open spec fn mapped_path(maps: Seq<(String, String)>, path: Seq<char>) -> Seq<char> {
    match best_mapping(maps, path, maps.len() as int) {
        Some(k) => paths::joined_path(
            maps[k].1@,
            text::trimmed_start(path.skip(maps[k].0@.len() as int), text::CharSet::AnySlash),
        ),
        None => path,
    }
}

/// Applies the client's path mappings; the longest remote prefix wins.
pub fn map_path(mappings: &[(String, String)], path: &str) -> (r: String)
    ensures
        r@ == mapped_path(mappings@, path@),
{
    let mut best: Option<usize> = None;
    let mut i: usize = 0;
    while i < mappings.len()
        invariant
            i <= mappings@.len(),
            match best {
                Some(k) => k < i && best_mapping(mappings@, path@, i as int) == Some(k as int),
                None => best_mapping(mappings@, path@, i as int) is None,
            },
        decreases mappings@.len() - i,
    {
        if text::starts_with(path, mappings[i].0.as_str()) {
            let longer = match best {
                Some(k) => mappings[i].0.as_str().unicode_len()
                    > mappings[k].0.as_str().unicode_len(),
                None => true,
            };
            if longer {
                best = Some(i);
            }
        }
        i += 1;
    }
    match best {
        Some(k) => {
            proof {
                law_best_mapping(mappings@, path@, mappings@.len() as int);
            }
            let rest = match text::after_prefix(path, mappings[k].0.as_str()) {
                Some(rest) => rest,
                None => path.to_string(),
            };
            let rest = text::trim_start_of(rest.as_str(), text::CharSet::AnySlash);
            paths::join_path(mappings[k].1.as_str(), rest.as_str())
        },
        None => path.to_string(),
    }
}

/// The mapping that applies begins the path, and no other that does is longer;
/// none applies only where none begins the path.
pub proof fn law_best_mapping(maps: Seq<(String, String)>, path: Seq<char>, n: int)
    requires
        0 <= n <= maps.len(),
    ensures
        match best_mapping(maps, path, n) {
            Some(k) => 0 <= k < n && text::occurs_at(path, maps[k].0@, 0) && forall|j: int|
                0 <= j < n && text::occurs_at(path, (#[trigger] maps[j]).0@, 0) ==> maps[j].0@.len()
                    <= maps[k].0@.len(),
            None => forall|j: int|
                0 <= j < n ==> !text::occurs_at(path, (#[trigger] maps[j]).0@, 0),
        },
    decreases n,
{
    if n > 0 {
        law_best_mapping(maps, path, n - 1);
    }
}

/// Where no mapping begins the path, it passes through unchanged.
pub proof fn law_unmapped_unchanged(maps: Seq<(String, String)>, path: Seq<char>)
    requires
        forall|j: int| 0 <= j < maps.len() ==> !text::occurs_at(path, (#[trigger] maps[j]).0@, 0),
    ensures
        mapped_path(maps, path) == path,
{
    law_best_mapping(maps, path, maps.len() as int);
}

// ---- qBittorrent ----

/// The user name and password to log in with; nothing where the client has
/// none, or an empty user name.
pub fn credentials(c: &DownloadClient) -> (r: Option<(String, String)>)
    ensures
        match r {
            Some(up) => c.username.deep_view() == Some(up.0@) && c.password.deep_view() == Some(
                up.1@,
            ) && up.0@.len() > 0,
            None => c.username is None || c.password is None || c.username->0@.len() == 0,
        },
{
    match (&c.username, &c.password) {
        (Some(u), Some(p)) => if text::empty(u.as_str()) {
            None
        } else {
            Some((u.clone(), p.clone()))
        },
        _ => None,
    }
}

/// The session cookie: the cookie header up to its first semicolon.
pub fn session_cookie(header: &str) -> (r: String)
    ensures
        r@ == text::pieces(header@, ';')[0],
{
    let parts = text::split(header, ';');
    proof {
        text::lemma_some_piece(header@, ';');
    }
    assert(parts.deep_view()[0] == parts@[0]@);
    parts[0].clone()
}

/// Judges the answer to a login: it is accepted where it says so or where it
/// comes with a cookie, and then the cookie, if any, is used.
pub fn login_verdict(body: &str, cookie: Option<String>) -> (r: Result<Option<String>, String>)
    ensures
        match r {
            Ok(c) => c == cookie && (text::trimmed(body@) == "Ok."@ || cookie is Some),
            Err(e) => text::trimmed(body@) != "Ok."@ && cookie is None && e@
                == "qBittorrent login refused"@,
        },
{
    if text::same(text::trim(body).as_str(), "Ok.") || cookie.is_some() {
        Ok(cookie)
    } else {
        Err("qBittorrent login refused".to_string())
    }
}

/// The form that adds a torrent: its address, and the category where the client
/// has one.
pub fn torrent_form(c: &DownloadClient, url: &str) -> (r: Vec<(&'static str, String)>)
    ensures
        r.len() == if c.category is Some {
            2int
        } else {
            1int
        },
        r@[0].0@ == "urls"@ && r@[0].1@ == url@,
        c.category matches Some(category) ==> r@[1].0@ == "category"@ && r@[1].1@ == category@,
{
    let mut form: Vec<(&'static str, String)> = Vec::new();
    form.push(("urls", url.to_string()));
    if let Some(category) = &c.category {
        form.push(("category", category.clone()));
    }
    form
}

/// Judges the answer to an added torrent.
pub fn add_verdict(body: &str) -> (r: Result<(), String>)
    ensures
        match r {
            Ok(_) => !text::has(body@, "Fails"@),
            Err(e) => text::has(body@, "Fails"@) && e@ == "qBittorrent rejected the torrent"@,
        },
{
    if text::contains(body, "Fails") {
        Err("qBittorrent rejected the torrent".to_string())
    } else {
        Ok(())
    }
}

/// The path of the list of the client's torrents.
pub fn torrents_path(c: &DownloadClient) -> (r: String)
    ensures
        r@ == "/api/v2/torrents/info?category="@ + or_empty(c.category),
{
    let mut p = "/api/v2/torrents/info?category=".to_string();
    p.append(text_or_empty(&c.category).as_str());
    p
}

/// A torrent as qBittorrent lists it.
pub struct QbitTorrent {
    pub name: String,
    pub hash: String,
    /// Is everything downloaded?
    pub done: bool,
    pub state: String,
    pub content_path: Option<String>,
    pub save_path: Option<String>,
}

/// How far a download is.
pub enum Progress {
    /// Nothing known yet.
    Zero,
    /// So many hundredths, as the client writes it.
    Hundredths(String),
    /// All downloaded, and still being verified or unpacked.
    Nearly,
    /// All done.
    Full,
    /// What the torrent at this position of the list reports.
    Torrent(usize),
}

/// What a client says of a download.
pub struct Status {
    pub progress: Progress,
    pub done: bool,
    pub error: Option<String>,
    pub path: Option<String>,
}

#[verifier::ext_equal]
pub enum ProgressView {
    Zero,
    Hundredths(Seq<char>),
    Nearly,
    Full,
    Torrent(usize),
}

#[verifier::ext_equal]
pub struct StatusView {
    pub progress: ProgressView,
    pub done: bool,
    pub error: Option<Seq<char>>,
    pub path: Option<Seq<char>>,
}

impl DeepView for Progress {
    type V = ProgressView;

    open spec fn deep_view(&self) -> ProgressView {
        match self {
            Progress::Zero => ProgressView::Zero,
            Progress::Hundredths(s) => ProgressView::Hundredths(s@),
            Progress::Nearly => ProgressView::Nearly,
            Progress::Full => ProgressView::Full,
            Progress::Torrent(k) => ProgressView::Torrent(*k),
        }
    }
}

impl DeepView for Status {
    type V = StatusView;

    open spec fn deep_view(&self) -> StatusView {
        StatusView {
            progress: self.progress.deep_view(),
            done: self.done,
            error: self.error.deep_view(),
            path: self.path.deep_view(),
        }
    }
}

/// The first torrent with the given hash, in any case, from `i` on.
pub open spec fn by_hash(list: Seq<QbitTorrent>, hash: Seq<char>, i: int) -> Option<int>
    decreases list.len() - i,
{
    if i < 0 || i >= list.len() {
        None
    } else if text::ascii_lowered(list[i].hash@) == text::ascii_lowered(hash) {
        Some(i)
    } else {
        by_hash(list, hash, i + 1)
    }
}

/// The first torrent with the given name, from `i` on.
pub open spec fn by_name(list: Seq<QbitTorrent>, title: Seq<char>, i: int) -> Option<int>
    decreases list.len() - i,
{
    if i < 0 || i >= list.len() {
        None
    } else if list[i].name@ == title {
        Some(i)
    } else {
        by_name(list, title, i + 1)
    }
}

/// The torrent of a download: by its hash where one is known and listed, else
/// by its name.
pub open spec fn torrent_of(
    list: Seq<QbitTorrent>,
    hash: Option<Seq<char>>,
    title: Seq<char>,
) -> Option<int> {
    let hit = match hash {
        Some(h) => by_hash(list, h, 0),
        None => None,
    };
    if hit is Some {
        hit
    } else {
        by_name(list, title, 0)
    }
}

/// What a listed torrent says of its download.
pub open spec fn torrent_status(t: QbitTorrent, k: int) -> StatusView {
    StatusView {
        progress: ProgressView::Torrent(k as usize),
        done: t.done,
        error: if text::has(t.state@, "error"@) || t.state@ == "missingFiles"@ {
            Some("qBittorrent state: "@ + t.state@)
        } else {
            None
        },
        path: if t.content_path is Some {
            t.content_path.deep_view()
        } else {
            t.save_path.deep_view()
        },
    }
}

/// What the list of a client's torrents says of a download.
pub fn qbit_status(list: &Vec<QbitTorrent>, hash: &Option<String>, title: &str) -> (r: Result<
    Status,
    String,
>)
    ensures
        match torrent_of(list@, hash.deep_view(), title@) {
            Some(k) => r matches Ok(s) && s.deep_view() == torrent_status(list@[k], k),
            None => r matches Err(e) && e@ == "torrent not found in client yet"@,
        },
{
    let mut found: Option<usize> = None;
    if let Some(h) = hash {
        let mut i: usize = 0;
        while i < list.len() && found.is_none()
            invariant
                i <= list.len(),
                match found {
                    Some(k) => k < list.len() && by_hash(list@, h@, 0) == Some(k as int),
                    None => by_hash(list@, h@, 0) == by_hash(list@, h@, i as int),
                },
            decreases list.len() - i,
        {
            if text::same_but_case(list[i].hash.as_str(), h.as_str()) {
                found = Some(i);
            }
            i += 1;
        }
    }
    if found.is_none() {
        let mut i: usize = 0;
        while i < list.len() && found.is_none()
            invariant
                i <= list.len(),
                match found {
                    Some(k) => k < list.len() && by_name(list@, title@, 0) == Some(k as int),
                    None => by_name(list@, title@, 0) == by_name(list@, title@, i as int),
                },
            decreases list.len() - i,
        {
            if text::same(list[i].name.as_str(), title) {
                found = Some(i);
            }
            i += 1;
        }
    }
    let k: usize = match found {
        Some(k) => k,
        None => {
            return Err("torrent not found in client yet".to_string());
        },
    };
    let t = &list[k];
    let failed = text::contains(t.state.as_str(), "error") || text::same(t.state.as_str(), "missingFiles");
    let error = if failed {
        let mut e = "qBittorrent state: ".to_string();
        e.append(t.state.as_str());
        Some(e)
    } else {
        None
    };
    let path = if t.content_path.is_some() {
        t.content_path.clone()
    } else {
        t.save_path.clone()
    };
    Ok(Status { progress: Progress::Torrent(k), done: t.done, error, path })
}

// ---- SABnzbd ----

/// The address of a SABnzbd request.
pub open spec fn sab_address(c: DownloadClient, mode: Seq<char>, extra: Seq<char>) -> Seq<char> {
    base_address(c) + "/api?mode="@ + mode + "&output=json&apikey="@ + or_empty(c.password) + extra
}

/// The address of a SABnzbd request.
pub fn sab_url(c: &DownloadClient, mode: &str, extra: &str) -> (r: String)
    ensures
        r@ == sab_address(*c, mode@, extra@),
{
    let mut u = c.base();
    u.append("/api?mode=");
    u.append(mode);
    u.append("&output=json&apikey=");
    u.append(text_or_empty(&c.password).as_str());
    u.append(extra);
    u
}

/// The address that hands SABnzbd the address of an NZB file.
pub fn sab_add_url(c: &DownloadClient, nzb_url: &str) -> (r: String)
    ensures
        r@ == sab_address(
            *c,
            "addurl"@,
            "&name="@ + encode::url_encoded(nzb_url@) + "&cat="@ + or_empty(c.category),
        ),
{
    let mut extra = "&name=".to_string();
    extra.append(encode::urlencoding(nzb_url).as_str());
    extra.append("&cat=");
    extra.append(text_or_empty(&c.category).as_str());
    sab_url(c, "addurl", extra.as_str())
}

/// Judges SABnzbd's answer to an added NZB: the id of the job, or what is wrong.
pub open spec fn sab_added(v: JsonView) -> Result<Seq<char>, Seq<char>> {
    if json::field(v, "status"@) != Some(JsonView::Bool(true)) {
        Err(
            "SABnzbd refused: "@ + match json::text_value(json::field(v, "error"@)) {
                Some(e) => e,
                None => "unknown"@,
            },
        )
    } else {
        let id = match json::array_value(json::field(v, "nzo_ids"@)) {
            Some(ids) => if ids.len() > 0 {
                json::text_value(Some(ids[0]))
            } else {
                None
            },
            None => None,
        };
        match id {
            Some(id) => Ok(id),
            None => Err("SABnzbd returned no nzo_id"@),
        }
    }
}

/// Judges SABnzbd's answer to an added NZB.
pub fn sab_add_verdict(v: &Json) -> (r: Result<String, String>)
    ensures
        match r {
            Ok(id) => sab_added(v.deep_view()) == Ok::<Seq<char>, Seq<char>>(id@),
            Err(e) => sab_added(v.deep_view()) == Err::<Seq<char>, Seq<char>>(e@),
        },
{
    let accepted = match v.get("status") {
        Some(Json::Bool(b)) => *b,
        _ => false,
    };
    if !accepted {
        let mut e = "SABnzbd refused: ".to_string();
        match json::as_text(v.get("error")) {
            Some(t) => e.append(t.as_str()),
            None => e.append("unknown"),
        }
        return Err(e);
    }
    if let Some(ids) = json::as_array(v.get("nzo_ids")) {
        if ids.len() > 0 {
            if let Some(id) = json::as_text(Some(&ids[0])) {
                return Ok(id);
            }
        }
    }
    Err("SABnzbd returned no nzo_id".to_string())
}

/// The first slot with the given job id, from `i` on.
pub open spec fn slot_of(slots: Seq<JsonView>, nzo: Seq<char>, i: int) -> Option<JsonView>
    decreases slots.len() - i,
{
    if i < 0 || i >= slots.len() {
        None
    } else if json::text_value(json::field(slots[i], "nzo_id"@)) == Some(nzo) {
        Some(slots[i])
    } else {
        slot_of(slots, nzo, i + 1)
    }
}

/// The slot of a job in the queue or in the history.
pub open spec fn slot_in(v: JsonView, section: Seq<char>, nzo: Seq<char>) -> Option<JsonView> {
    match json::array_value(json::field_of(json::field(v, section), "slots"@)) {
        Some(slots) => slot_of(slots, nzo, 0),
        None => None,
    }
}

fn find_slot<'a>(v: &'a Json, section: &str, nzo: &str) -> (r: Option<&'a Json>)
    ensures
        json::pointed(r) == slot_in(v.deep_view(), section@, nzo@),
{
    let slots = match json::as_array(json::get_in(v.get(section), "slots")) {
        Some(slots) => slots,
        None => {
            return None;
        },
    };
    let mut i: usize = 0;
    while i < slots.len()
        invariant
            json::array_value(json::field_of(json::field(v.deep_view(), section@), "slots"@)) == Some(slots.deep_view()),
            i <= slots.len(),
            slot_of(slots.deep_view(), nzo@, 0) == slot_of(slots.deep_view(), nzo@, i as int),
        decreases slots.len() - i,
    {
        assert(slots.deep_view()[i as int] == json::json_view(slots@[i as int]));
        if text::is_text(&json::as_text(slots[i].get("nzo_id")), nzo) {
            return Some(&slots[i]);
        }
        i += 1;
    }
    None
}

/// What the queue says of a job, where it is in the queue.
pub open spec fn queued_status(q: JsonView, nzo: Seq<char>) -> Option<StatusView> {
    match slot_in(q, "queue"@, nzo) {
        Some(slot) => Some(
            StatusView {
                progress: match json::text_value(json::field(slot, "percentage"@)) {
                    Some(p) => ProgressView::Hundredths(p),
                    None => ProgressView::Zero,
                },
                done: false,
                error: None,
                path: None,
            },
        ),
        None => None,
    }
}

/// What the history says of a job, where it is in the history.
pub open spec fn finished_status(h: JsonView, nzo: Seq<char>) -> Option<StatusView> {
    match slot_in(h, "history"@, nzo) {
        Some(slot) => {
            let status = match json::text_value(json::field(slot, "status"@)) {
                Some(s) => s,
                None => ""@,
            };
            let path = json::text_value(json::field(slot, "storage"@));
            Some(
                if status == "Completed"@ {
                    StatusView { progress: ProgressView::Full, done: true, error: None, path }
                } else if status == "Failed"@ {
                    StatusView {
                        progress: ProgressView::Full,
                        done: true,
                        error: Some("SABnzbd reported failure"@),
                        path,
                    }
                } else {
                    StatusView { progress: ProgressView::Nearly, done: false, error: None, path }
                },
            )
        },
        None => None,
    }
}

/// What SABnzbd's queue says of a job, where it is in the queue.
pub fn sab_queue_status(q: &Json, nzo: &str) -> (r: Option<Status>)
    ensures
        r.deep_view() == queued_status(q.deep_view(), nzo@),
{
    match find_slot(q, "queue", nzo) {
        Some(slot) => {
            let progress = match json::as_text(slot.get("percentage")) {
                Some(p) => Progress::Hundredths(p),
                None => Progress::Zero,
            };
            Some(Status { progress, done: false, error: None, path: None })
        },
        None => None,
    }
}

/// What SABnzbd's history says of a job.
pub fn sab_history_status(h: &Json, nzo: &str) -> (r: Result<Status, String>)
    ensures
        match finished_status(h.deep_view(), nzo@) {
            Some(s) => r matches Ok(status) && status.deep_view() == s,
            None => r matches Err(e) && e@ == "nzo "@ + nzo@ + " not found in queue or history"@,
        },
{
    let slot = match find_slot(h, "history", nzo) {
        Some(slot) => slot,
        None => {
            let mut e = "nzo ".to_string();
            e.append(nzo);
            e.append(" not found in queue or history");
            return Err(e);
        },
    };
    let status = match json::as_text(slot.get("status")) {
        Some(s) => s,
        None => "".to_string(),
    };
    let path = json::as_text(slot.get("storage"));
    if text::same(status.as_str(), "Completed") {
        Ok(Status { progress: Progress::Full, done: true, error: None, path })
    } else if text::same(status.as_str(), "Failed") {
        Ok(
            Status {
                progress: Progress::Full,
                done: true,
                error: Some("SABnzbd reported failure".to_string()),
                path,
            },
        )
    } else {
        Ok(Status { progress: Progress::Nearly, done: false, error: None, path })
    }
}

/// Which list of SABnzbd is asked about a job.
#[derive(Clone, Copy, Debug, PartialEq, Eq, Structural)]
pub enum SabList {
    Queue,
    History,
}

/// What follows SABnzbd's answer about a job.
pub enum SabStep {
    /// This is how the job stands.
    Known(Status),
    /// The job is not in the queue: ask the history.
    AskHistory,
    /// The job is in neither list; the text says so.
    Unknown(String),
}

#[verifier::ext_equal]
pub enum SabStepView {
    Known(StatusView),
    AskHistory,
    Unknown(Seq<char>),
}

impl DeepView for SabStep {
    type V = SabStepView;

    open spec fn deep_view(&self) -> SabStepView {
        match self {
            SabStep::Known(s) => SabStepView::Known(s.deep_view()),
            SabStep::AskHistory => SabStepView::AskHistory,
            SabStep::Unknown(e) => SabStepView::Unknown(e@),
        }
    }
}

/// What follows SABnzbd's answer about a job: the queue is asked first, and the
/// history where the job is not in the queue.
pub open spec fn sab_step(list: SabList, v: JsonView, nzo: Seq<char>) -> SabStepView {
    match list {
        SabList::Queue => match queued_status(v, nzo) {
            Some(s) => SabStepView::Known(s),
            None => SabStepView::AskHistory,
        },
        SabList::History => match finished_status(v, nzo) {
            Some(s) => SabStepView::Known(s),
            None => SabStepView::Unknown("nzo "@ + nzo + " not found in queue or history"@),
        },
    }
}

/// The address of one of SABnzbd's lists.
pub fn sab_list_url(c: &DownloadClient, list: SabList) -> (r: String)
    ensures
        r@ == match list {
            SabList::Queue => sab_address(*c, "queue"@, ""@),
            SabList::History => sab_address(*c, "history"@, "&limit=100"@),
        },
{
    match list {
        SabList::Queue => sab_url(c, "queue", ""),
        SabList::History => sab_url(c, "history", "&limit=100"),
    }
}

/// What follows SABnzbd's answer about a job.
pub fn sab_status(list: SabList, answer: &Json, nzo: &str) -> (r: SabStep)
    ensures
        r.deep_view() == sab_step(list, answer.deep_view(), nzo@),
{
    match list {
        SabList::Queue => match sab_queue_status(answer, nzo) {
            Some(s) => SabStep::Known(s),
            None => SabStep::AskHistory,
        },
        SabList::History => match sab_history_status(answer, nzo) {
            Ok(s) => SabStep::Known(s),
            Err(e) => SabStep::Unknown(e),
        },
    }
}

// ---- grabbing ----

/// The first client, from `i` on, that is switched on and serves a protocol.
pub open spec fn client_for(s: Seq<DownloadClient>, protocol: Seq<char>, i: int) -> Option<int>
    decreases s.len() - i,
{
    if i < 0 || i >= s.len() {
        None
    } else if s[i].enabled == 1 && client_protocol(s[i]) == protocol {
        Some(i)
    } else {
        client_for(s, protocol, i + 1)
    }
}

/// The client that a release is handed to, or what is wrong.
pub fn pick_client<'a>(clients: &'a Vec<DownloadClient>, rel: &Release) -> (r: Result<
    &'a DownloadClient,
    String,
>)
    ensures
        match client_for(clients@, rel.protocol@, 0) {
            Some(k) => r matches Ok(c) && *c == clients@[k],
            None => r matches Err(e) && e@ == "no enabled "@ + rel.protocol@ + " download client"@,
        },
{
    let mut i: usize = 0;
    while i < clients.len()
        invariant
            i <= clients.len(),
            client_for(clients@, rel.protocol@, 0) == client_for(
                clients@,
                rel.protocol@,
                i as int,
            ),
        decreases clients.len() - i,
    {
        if clients[i].enabled == 1 && text::same(clients[i].protocol(), rel.protocol.as_str()) {
            return Ok(&clients[i]);
        }
        i += 1;
    }
    let mut e = "no enabled ".to_string();
    e.append(rel.protocol.as_str());
    e.append(" download client");
    Err(e)
}

/// The hash that a magnet link carries: the forty characters after the first
/// `btih:`, in lowercase.
pub open spec fn magnet_hash(url: Seq<char>) -> Option<Seq<char>> {
    match text::first_at(url, "btih:"@, 0) {
        Some(i) => Some(text::lowered(text::cut(url.skip(i + 5), 40))),
        None => None,
    }
}

/// The hash that a magnet link carries.
pub fn hash_in(url: &str) -> (r: Option<String>)
    ensures
        r.deep_view() == magnet_hash(url@),
{
    proof {
        reveal_strlit("btih:");
    }
    let cs = text::chars_of(url);
    let mark = text::chars_of("btih:");
    match text::find_from(&cs, &mark, 0) {
        Some(i) => {
            assert(i + 5 <= cs.len());
            let rest = text::string_of(&cs[i + 5..cs.len()]);
            assert(rest@ =~= url@.skip(i + 5));
            Some(text::lower(text::first_chars(rest.as_str(), 40).as_str()))
        },
        None => None,
    }
}

// ---- the monitor ----

/// A download that is not settled yet.
pub struct Pending {
    pub id: i64,
    pub client_id: i64,
    pub external_id: Option<String>,
    pub title: String,
}

/// What to write down about a download.
pub struct Update {
    pub state: String,
    pub progress: Progress,
    pub error: Option<String>,
    /// Where it is saved; nothing leaves what is written there.
    pub path: Option<String>,
}

#[verifier::ext_equal]
pub struct UpdateView {
    pub state: Seq<char>,
    pub progress: ProgressView,
    pub error: Option<Seq<char>>,
    pub path: Option<Seq<char>>,
}

impl DeepView for Update {
    type V = UpdateView;

    open spec fn deep_view(&self) -> UpdateView {
        UpdateView {
            state: self.state@,
            progress: self.progress.deep_view(),
            error: self.error.deep_view(),
            path: self.path.deep_view(),
        }
    }
}

/// What to do first about a pending download.
pub enum Question {
    /// Its client is gone: write this down.
    Settle(Update),
    /// Ask the SABnzbd client at this position about this job.
    Sab(usize, String),
    /// It is one of SABnzbd but its job is unknown: leave it.
    NoJob,
    /// Ask the qBittorrent client at this position.
    Qbit(usize),
}

/// The first client with the given id, from `i` on.
pub open spec fn client_with(s: Seq<DownloadClient>, id: i64, i: int) -> Option<int>
    decreases s.len() - i,
{
    if i < 0 || i >= s.len() {
        None
    } else if s[i].id == id {
        Some(i)
    } else {
        client_with(s, id, i + 1)
    }
}

/// A failed download.
pub open spec fn failed_update(
    progress: ProgressView,
    error: Seq<char>,
    path: Option<Seq<char>>,
) -> UpdateView {
    UpdateView { state: "failed"@, progress, error: Some(error), path }
}

/// Whom to ask about a pending download. One whose client is gone has failed.
pub fn question(d: &Pending, clients: &Vec<DownloadClient>) -> (r: Question)
    ensures
        match client_with(clients@, d.client_id, 0) {
            Some(k) => if clients@[k].kind@ == "sabnzbd"@ {
                match d.external_id {
                    Some(nzo) => r matches Question::Sab(c, job) && c == k && job@ == nzo@,
                    None => r is NoJob,
                }
            } else {
                r matches Question::Qbit(c) && c == k
            },
            None => r matches Question::Settle(u) && u.deep_view() == failed_update(
                ProgressView::Zero,
                "client removed"@,
                None,
            ),
        },
{
    let mut i: usize = 0;
    while i < clients.len()
        invariant
            i <= clients.len(),
            client_with(clients@, d.client_id, 0) == client_with(clients@, d.client_id, i as int),
        decreases clients.len() - i,
    {
        if clients[i].id == d.client_id {
            if text::same(clients[i].kind.as_str(), "sabnzbd") {
                return match &d.external_id {
                    Some(nzo) => Question::Sab(i, nzo.clone()),
                    None => Question::NoJob,
                };
            }
            return Question::Qbit(i);
        }
        i += 1;
    }
    Question::Settle(
        Update {
            state: "failed".to_string(),
            progress: Progress::Zero,
            error: Some("client removed".to_string()),
            path: None,
        },
    )
}

/// What to write down about a download, and whether it is then imported.
pub struct Verdict {
    pub update: Update,
    pub import: bool,
}

/// What a status means: a reported error fails the download, a finished one is
/// imported, and any other goes on.
pub open spec fn judged(s: StatusView) -> UpdateView {
    match s.error {
        Some(e) => failed_update(s.progress, e, s.path),
        None => if s.done {
            UpdateView {
                state: "importing"@,
                progress: ProgressView::Full,
                error: None,
                path: s.path,
            }
        } else {
            UpdateView { state: "downloading"@, progress: s.progress, error: None, path: s.path }
        },
    }
}

/// Judges the status of a download. It is imported exactly when it is done and
/// no error is reported.
pub fn judge(s: Status) -> (r: Verdict)
    ensures
        r.update.deep_view() == judged(s.deep_view()),
        r.import == (s.done && s.error is None),
{
    match s.error {
        Some(e) => Verdict {
            update: Update {
                state: "failed".to_string(),
                progress: s.progress,
                error: Some(e),
                path: s.path,
            },
            import: false,
        },
        None => if s.done {
            Verdict {
                update: Update {
                    state: "importing".to_string(),
                    progress: Progress::Full,
                    error: None,
                    path: s.path,
                },
                import: true,
            }
        } else {
            Verdict {
                update: Update {
                    state: "downloading".to_string(),
                    progress: s.progress,
                    error: None,
                    path: s.path,
                },
                import: false,
            }
        },
    }
}

/// What to write down after an import: it went well, or it failed with an error.
pub fn after_import(error: Option<String>, path: Option<String>) -> (r: Update)
    ensures
        r.deep_view() == match error {
            Some(e) => failed_update(ProgressView::Full, e@, path.deep_view()),
            None => (UpdateView {
                state: "imported"@,
                progress: ProgressView::Full,
                error: None,
                path: path.deep_view(),
            }),
        },
{
    Update {
        state: if error.is_some() {
            "failed".to_string()
        } else {
            "imported".to_string()
        },
        progress: Progress::Full,
        error,
        path,
    }
}

/// Where the monitor stands with a download.
pub enum Poll {
    /// Nothing has been asked yet.
    Start,
    /// The client at this position has been asked.
    Asked(usize),
    /// The download of the client at this position is being imported from this
    /// path.
    Importing(usize, Option<String>),
    /// Nothing more is to do this time.
    Over,
}

/// What the monitor learns about a download.
pub enum PollEvent {
    /// Its turn has come.
    Begin,
    /// The client has answered, or could not be asked.
    Answer(Result<Status, String>),
    /// The import is over, with this error, if any.
    Imported(Option<String>),
}

/// What the monitor does about a download.
pub enum PollAction {
    Nothing,
    /// Write this down.
    Write(Update),
    /// Ask the SABnzbd client at this position about this job.
    AskSab(usize, String),
    /// Ask the qBittorrent client at this position.
    AskQbit(usize),
    /// Write this down, then import from this path of the client.
    Import(Update, usize, Option<String>),
    /// Note in the log that the client could not tell.
    Warn(String),
}

#[verifier::ext_equal]
pub enum PollView {
    Start,
    Asked(usize),
    Importing(usize, Option<Seq<char>>),
    Over,
}

#[verifier::ext_equal]
pub enum PollEventView {
    Begin,
    Answer(Result<StatusView, Seq<char>>),
    Imported(Option<Seq<char>>),
}

#[verifier::ext_equal]
pub enum PollActionView {
    Nothing,
    Write(UpdateView),
    AskSab(usize, Seq<char>),
    AskQbit(usize),
    Import(UpdateView, usize, Option<Seq<char>>),
    Warn(Seq<char>),
}

impl DeepView for Poll {
    type V = PollView;

    open spec fn deep_view(&self) -> PollView {
        match self {
            Poll::Start => PollView::Start,
            Poll::Asked(k) => PollView::Asked(*k),
            Poll::Importing(k, path) => PollView::Importing(*k, path.deep_view()),
            Poll::Over => PollView::Over,
        }
    }
}

impl DeepView for PollEvent {
    type V = PollEventView;

    open spec fn deep_view(&self) -> PollEventView {
        match self {
            PollEvent::Begin => PollEventView::Begin,
            PollEvent::Answer(Ok(s)) => PollEventView::Answer(Ok(s.deep_view())),
            PollEvent::Answer(Err(e)) => PollEventView::Answer(Err(e@)),
            PollEvent::Imported(e) => PollEventView::Imported(e.deep_view()),
        }
    }
}

impl DeepView for PollAction {
    type V = PollActionView;

    open spec fn deep_view(&self) -> PollActionView {
        match self {
            PollAction::Nothing => PollActionView::Nothing,
            PollAction::Write(u) => PollActionView::Write(u.deep_view()),
            PollAction::AskSab(k, nzo) => PollActionView::AskSab(*k, nzo@),
            PollAction::AskQbit(k) => PollActionView::AskQbit(*k),
            PollAction::Import(u, k, path) => PollActionView::Import(
                u.deep_view(),
                *k,
                path.deep_view(),
            ),
            PollAction::Warn(e) => PollActionView::Warn(e@),
        }
    }
}

/// What is written down after an import.
pub open spec fn import_update(error: Option<Seq<char>>, path: Option<Seq<char>>) -> UpdateView {
    match error {
        Some(e) => failed_update(ProgressView::Full, e, path),
        None => UpdateView {
            state: "imported"@,
            progress: ProgressView::Full,
            error: None,
            path,
        },
    }
}

/// How the monitor begins with a download: one whose client is gone has
/// failed, and for any other the client is asked.
pub open spec fn poll_begin(d: Pending, clients: Seq<DownloadClient>) -> (PollView, PollActionView) {
    match client_with(clients, d.client_id, 0) {
        Some(k) => if clients[k].kind@ == "sabnzbd"@ {
            match d.external_id {
                Some(nzo) => (
                    PollView::Asked(k as usize),
                    PollActionView::AskSab(k as usize, nzo@),
                ),
                None => (PollView::Over, PollActionView::Warn("missing nzo_id"@)),
            }
        } else {
            (PollView::Asked(k as usize), PollActionView::AskQbit(k as usize))
        },
        None => (
            PollView::Over,
            PollActionView::Write(failed_update(ProgressView::Zero, "client removed"@, None)),
        ),
    }
}

/// What the monitor does next about a download, and where it then stands.
pub open spec fn poll_next(
    d: Pending,
    clients: Seq<DownloadClient>,
    state: PollView,
    event: PollEventView,
) -> (PollView, PollActionView) {
    match (state, event) {
        (PollView::Start, PollEventView::Begin) => poll_begin(d, clients),
        (PollView::Asked(k), PollEventView::Answer(Ok(s))) => if s.done && s.error is None {
            (
                PollView::Importing(k, s.path),
                PollActionView::Import(judged(s), k, s.path),
            )
        } else {
            (PollView::Over, PollActionView::Write(judged(s)))
        },
        (PollView::Asked(_), PollEventView::Answer(Err(e))) => (
            PollView::Over,
            PollActionView::Warn(e),
        ),
        (PollView::Importing(_, path), PollEventView::Imported(error)) => (
            PollView::Over,
            PollActionView::Write(import_update(error, path)),
        ),
        _ => (state, PollActionView::Nothing),
    }
}

/// One step of the monitor with a download.
pub fn poll_once(
    d: &Pending,
    clients: &Vec<DownloadClient>,
    state: Poll,
    event: PollEvent,
) -> (r: (Poll, PollAction))
    ensures
        (r.0.deep_view(), r.1.deep_view()) == poll_next(
            *d,
            clients@,
            state.deep_view(),
            event.deep_view(),
        ),
{
    match (state, event) {
        (Poll::Start, PollEvent::Begin) => match question(d, clients) {
            Question::Settle(u) => (Poll::Over, PollAction::Write(u)),
            Question::Sab(k, nzo) => (Poll::Asked(k), PollAction::AskSab(k, nzo)),
            Question::NoJob => (Poll::Over, PollAction::Warn("missing nzo_id".to_string())),
            Question::Qbit(k) => (Poll::Asked(k), PollAction::AskQbit(k)),
        },
        (Poll::Asked(k), PollEvent::Answer(Ok(s))) => {
            let path = s.path.clone();
            let saved = s.path.clone();
            let v = judge(s);
            if v.import {
                (Poll::Importing(k, path), PollAction::Import(v.update, k, saved))
            } else {
                (Poll::Over, PollAction::Write(v.update))
            }
        },
        (Poll::Asked(_), PollEvent::Answer(Err(e))) => (Poll::Over, PollAction::Warn(e)),
        (Poll::Importing(_, path), PollEvent::Imported(error)) => (
            Poll::Over,
            PollAction::Write(after_import(error, path)),
        ),
        (state, _) => (state, PollAction::Nothing),
    }
}

/// A download is written down as imported only at the end of an import without
/// an error, and an import begins only where the client reports the download
/// done and no error.
pub proof fn law_imported(
    d: Pending,
    clients: Seq<DownloadClient>,
    state: PollView,
    event: PollEventView,
)
    ensures
        ({
            let (next, action) = poll_next(d, clients, state, event);
            &&& (action matches PollActionView::Write(u) && u.state == "imported"@) ==> state
                is Importing && event == PollEventView::Imported(None)
            &&& (next is Importing && !(state is Importing)) ==> state is Asked && (
            event matches PollEventView::Answer(Ok(s)) && s.done && s.error is None)
        }),
{
    reveal_strlit("imported");
    reveal_strlit("importing");
    reveal_strlit("downloading");
    reveal_strlit("failed");
    assert("imported"@.len() == 8 && "importing"@.len() == 9 && "downloading"@.len() == 11
        && "failed"@.len() == 6);
}

/// The states in which the monitor looks at a download.
pub open spec fn is_watched(state: Seq<char>) -> bool {
    state == "queued"@ || state == "downloading"@ || state == "completed"@
}

/// Does the monitor look at a download in this state?
pub fn watched(state: &str) -> (r: bool)
    ensures
        r == is_watched(state@),
{
    text::same(state, "queued") || text::same(state, "downloading") || text::same(state, "completed")
}

/// A download that has failed or that is being imported is not looked at
/// again; one that is still downloading is.
pub proof fn law_settled(s: StatusView)
    ensures
        is_watched(judged(s).state) <==> s.error is None && !s.done,
{
    reveal_strlit("queued");
    reveal_strlit("downloading");
    reveal_strlit("completed");
    reveal_strlit("importing");
    reveal_strlit("failed");
    assert("queued"@[0] == 'q' && "downloading"@[0] == 'd' && "completed"@[0] == 'c'
        && "importing"@[0] == 'i' && "failed"@[0] == 'f');
}

// ---- import ----

/// The extension of a book file.
pub open spec fn is_book_extension(ext: Seq<char>) -> bool {
    ext == "epub"@ || ext == "pdf"@ || ext == "cbz"@ || ext == "cbr"@ || ext == "mobi"@ || ext
        == "azw3"@ || ext == "txt"@
}

/// The path is that of a book file.
pub open spec fn is_book_file(path: Seq<char>) -> bool {
    match paths::extension_of(path) {
        Some(ext) => is_book_extension(text::lowered(ext)),
        None => false,
    }
}

/// Is this the extension of a book file?
pub fn book_extension(e: &str) -> (r: bool)
    ensures
        r == is_book_extension(e@),
{
    text::same(e, "epub") || text::same(e, "pdf") || text::same(e, "cbz") || text::same(e, "cbr") || text::same(e, "mobi")
        || text::same(e, "azw3") || text::same(e, "txt")
}

/// Is this the path of a book file?
pub fn book_file(path: &str) -> (r: bool)
    ensures
        r == is_book_file(path@),
{
    match paths::extension(path) {
        Some(ext) => book_extension(text::lower(ext.as_str()).as_str()),
        None => false,
    }
}

/// A file to copy into the library.
pub struct CopyFile {
    pub from: String,
    pub to: String,
}

#[verifier::ext_equal]
pub struct CopyFileView {
    pub from: Seq<char>,
    pub to: Seq<char>,
}

impl DeepView for CopyFile {
    type V = CopyFileView;

    open spec fn deep_view(&self) -> CopyFileView {
        CopyFileView { from: self.from@, to: self.to@ }
    }
}

/// The book files among `files`, each with its place in the library.
pub open spec fn imports(files: Seq<Seq<char>>, books_dir: Seq<char>) -> Seq<CopyFileView>
    decreases files.len(),
{
    if files.len() == 0 {
        seq![]
    } else {
        let rest = imports(files.drop_last(), books_dir);
        let f = files.last();
        if is_book_file(f) {
            rest.push(CopyFileView { from: f, to: paths::joined_path(books_dir, paths::file_name_of(f)->0) })
        } else {
            rest
        }
    }
}

/// The files of a finished download to copy into the library, or that there
/// are none.
pub fn import_download(files: &Vec<String>, local: &str, books_dir: &str) -> (r: Result<
    Vec<CopyFile>,
    String,
>)
    ensures
        match r {
            Ok(copies) => copies.deep_view() == imports(files.deep_view(), books_dir@)
                && copies.len() > 0,
            Err(e) => imports(files.deep_view(), books_dir@).len() == 0 && e@
                == "no book files found in "@ + local@,
        },
{
    let ghost all = files.deep_view();
    let mut out: Vec<CopyFile> = Vec::new();
    let mut i: usize = 0;
    while i < files.len()
        invariant
            all == files.deep_view(),
            i <= files.len(),
            out.deep_view() == imports(all.take(i as int), books_dir@),
        decreases files.len() - i,
    {
        assert(all.take(i + 1).drop_last() =~= all.take(i as int));
        assert(all[i as int] == files@[i as int]@);
        let ghost before = out.deep_view();
        if book_file(files[i].as_str()) {
            if let Some(name) = paths::file_name(files[i].as_str()) {
                let c = CopyFile {
                    from: files[i].clone(),
                    to: paths::join_path(books_dir, name.as_str()),
                };
                let ghost cv = c.deep_view();
                out.push(c);
                assert(out.deep_view() =~= before.push(cv));
            }
        }
        i += 1;
    }
    assert(all.take(all.len() as int) =~= all);
    if out.len() == 0 {
        let mut e = "no book files found in ".to_string();
        e.append(local);
        return Err(e);
    }
    Ok(out)
}

/// What to tell where the path of a finished download cannot be reached.
pub fn unreachable_path(local: &str, client: &DownloadClient) -> (r: String)
    ensures
        r@ == "path not reachable: "@ + local@ + " (add a remote path mapping for "@ + client.name@
            + ")"@,
{
    let mut e = "path not reachable: ".to_string();
    e.append(local);
    e.append(" (add a remote path mapping for ");
    e.append(client.name.as_str());
    e.append(")");
    e
}

// ---- connection test ----

/// Judges SABnzbd's answer to a version request.
pub fn sab_version_verdict(v: &Json) -> (r: Result<(), String>)
    ensures
        match r {
            Ok(_) => json::field(v.deep_view(), "version"@) is Some,
            Err(e) => json::field(v.deep_view(), "version"@) is None && e@ == "no version in response"@,
        },
{
    match v.get("version") {
        Some(_) => Ok(()),
        None => Err("no version in response".to_string()),
    }
}

/// Judges qBittorrent's answer to a version request.
pub fn qbit_version_verdict(body: &str) -> (r: Result<(), String>)
    ensures
        ({
            let text = text::trimmed_start(body@, text::CharSet::White);
            let good = text.len() > 0 && text[0] == 'v';
            match r {
                Ok(_) => good,
                Err(e) => !good && e@ == "unexpected qBittorrent response"@,
            }
        }),
{
    let cs = text::chars_of(text::trim_start_of(body, text::CharSet::White).as_str());
    if cs.len() > 0 && cs[0] == 'v' {
        Ok(())
    } else {
        Err("unexpected qBittorrent response".to_string())
    }
}

// ---- settings ----

/// The form that adds a client.
pub struct AddClientForm {
    pub name: String,
    pub kind: String,
    pub host: String,
    pub port: i64,
    pub username: Option<String>,
    pub password: Option<String>,
    pub category: Option<String>,
    pub use_ssl: Option<String>,
}

/// The form that names a client or a mapping.
pub struct IdForm {
    pub id: i64,
}

/// The form that adds a path mapping.
pub struct MappingForm {
    pub client_id: i64,
    pub remote_path: String,
    pub local_path: String,
}

/// The values of a new client, as they are stored.
pub struct NewClient {
    pub name: String,
    pub kind: String,
    pub host: String,
    pub port: i64,
    pub username: Option<String>,
    pub password: Option<String>,
    pub category: String,
    pub use_ssl: i64,
}

/// Tidies the form that adds a client.
pub fn add(f: &AddClientForm) -> (r: NewClient)
    ensures
        r.name@ == text::trimmed(f.name@),
        r.kind@ == if f.kind@ == "sabnzbd"@ {
            "sabnzbd"@
        } else {
            "qbittorrent"@
        },
        r.host@ == text::trimmed(f.host@),
        r.port == f.port,
        r.username.deep_view() == text::filled(f.username.deep_view()),
        r.password.deep_view() == text::filled(f.password.deep_view()),
        r.category@ == match text::filled(f.category.deep_view()) {
            Some(c) => c,
            None => "shelfarrs"@,
        },
        r.use_ssl == if f.use_ssl is Some {
            1i64
        } else {
            0i64
        },
{
    NewClient {
        name: text::trim(f.name.as_str()),
        kind: if text::same(f.kind.as_str(), "sabnzbd") {
            "sabnzbd".to_string()
        } else {
            "qbittorrent".to_string()
        },
        host: text::trim(f.host.as_str()),
        port: f.port,
        username: text::blank(&f.username),
        password: text::blank(&f.password),
        category: match text::blank(&f.category) {
            Some(c) => c,
            None => "shelfarrs".to_string(),
        },
        use_ssl: if f.use_ssl.is_some() {
            1
        } else {
            0
        },
    }
}

/// Tidies the form that adds a path mapping.
pub fn mapping_add(f: &MappingForm) -> (r: MappingForm)
    ensures
        r.client_id == f.client_id,
        r.remote_path@ == text::trimmed(f.remote_path@),
        r.local_path@ == text::trimmed(f.local_path@),
{
    MappingForm {
        client_id: f.client_id,
        remote_path: text::trim(f.remote_path.as_str()),
        local_path: text::trim(f.local_path.as_str()),
    }
}

/// One client on the settings page.
pub struct ClientRow {
    pub id: i64,
    pub name: String,
    pub kind: String,
    pub line: String,
    pub badge: page::Badge,
    pub confirm: String,
}

#[verifier::ext_equal]
pub struct ClientRowView {
    pub id: i64,
    pub name: Seq<char>,
    pub kind: Seq<char>,
    pub line: Seq<char>,
    pub badge: page::BadgeView,
    pub confirm: Seq<char>,
}

impl DeepView for ClientRow {
    type V = ClientRowView;

    open spec fn deep_view(&self) -> ClientRowView {
        ClientRowView {
            id: self.id,
            name: self.name@,
            kind: self.kind@,
            line: self.line@,
            badge: self.badge.deep_view(),
            confirm: self.confirm@,
        }
    }
}

/// How a client is shown on the settings page.
pub open spec fn client_row(c: DownloadClient) -> ClientRowView {
    ClientRowView {
        id: c.id,
        name: c.name@,
        kind: c.kind@,
        line: c.host@ + ":"@ + text::decimal_of(c.port as int) + " · category "@ + or_empty(c.category),
        badge: page::tested(c.last_test_ok, c.last_test_error.deep_view()),
        confirm: "Remove client "@ + c.name@ + "?"@,
    }
}

/// A stored path mapping.
pub struct Mapping {
    pub id: i64,
    pub client_id: i64,
    pub remote_path: String,
    pub local_path: String,
}

/// One path mapping on the settings page.
pub struct MappingRow {
    pub id: i64,
    pub remote_path: String,
    pub local_path: String,
    pub client: String,
}

#[verifier::ext_equal]
pub struct MappingRowView {
    pub id: i64,
    pub remote_path: Seq<char>,
    pub local_path: Seq<char>,
    pub client: Seq<char>,
}

impl DeepView for MappingRow {
    type V = MappingRowView;

    open spec fn deep_view(&self) -> MappingRowView {
        MappingRowView {
            id: self.id,
            remote_path: self.remote_path@,
            local_path: self.local_path@,
            client: self.client@,
        }
    }
}

/// How a path mapping is shown on the settings page.
pub open spec fn mapping_row(m: Mapping) -> MappingRowView {
    MappingRowView {
        id: m.id,
        remote_path: m.remote_path@,
        local_path: m.local_path@,
        client: "client #"@ + text::decimal_of(m.client_id as int),
    }
}

/// The clients tab of the settings.
pub struct ClientsBody {
    pub clients: Vec<ClientRow>,
    pub mappings: Vec<MappingRow>,
    /// The clients that a new mapping can be for.
    pub choices: Vec<(i64, String)>,
}

/// The clients tab: the clients, the path mappings, and the clients that a new
/// mapping can be for.
pub fn clients_body(list: &Vec<DownloadClient>, maps: &Vec<Mapping>) -> (r: ClientsBody)
    ensures
        r.clients.deep_view() == list@.map_values(|c: DownloadClient| client_row(c)),
        r.mappings.deep_view() == maps@.map_values(|m: Mapping| mapping_row(m)),
        r.choices.len() == list.len(),
        forall|i: int|
            0 <= i < list.len() ==> (#[trigger] r.choices@[i]).0 == list@[i].id && r.choices@[i].1@
                == list@[i].name@,
{
    let mut clients: Vec<ClientRow> = Vec::new();
    let mut choices: Vec<(i64, String)> = Vec::new();
    let mut i: usize = 0;
    while i < list.len()
        invariant
            i <= list.len(),
            clients.len() == i,
            choices.len() == i,
            forall|j: int|
                0 <= j < i ==> (#[trigger] clients@[j]).deep_view() == client_row(list@[j]),
            forall|j: int|
                0 <= j < i ==> (#[trigger] choices@[j]).0 == list@[j].id && choices@[j].1@
                    == list@[j].name@,
        decreases list.len() - i,
    {
        let c = &list[i];
        let mut line = c.host.clone();
        line.append(":");
        line.append(text::decimal(c.port).as_str());
        line.append(" · category ");
        line.append(text_or_empty(&c.category).as_str());
        let mut confirm = "Remove client ".to_string();
        confirm.append(c.name.as_str());
        confirm.append("?");
        clients.push(
            ClientRow {
                id: c.id,
                name: c.name.clone(),
                kind: c.kind.clone(),
                line,
                badge: page::test_badge(c.last_test_ok, &c.last_test_error),
                confirm,
            },
        );
        choices.push((c.id, c.name.clone()));
        i += 1;
    }
    assert(clients.deep_view() =~= list@.map_values(|c: DownloadClient| client_row(c)));
    let mut mappings: Vec<MappingRow> = Vec::new();
    let mut k: usize = 0;
    while k < maps.len()
        invariant
            k <= maps.len(),
            mappings.len() == k,
            forall|j: int|
                0 <= j < k ==> (#[trigger] mappings@[j]).deep_view() == mapping_row(maps@[j]),
        decreases maps.len() - k,
    {
        let m = &maps[k];
        let mut client = "client #".to_string();
        client.append(text::decimal(m.client_id).as_str());
        mappings.push(
            MappingRow {
                id: m.id,
                remote_path: m.remote_path.clone(),
                local_path: m.local_path.clone(),
                client,
            },
        );
        k += 1;
    }
    assert(mappings.deep_view() =~= maps@.map_values(|m: Mapping| mapping_row(m)));
    ClientsBody { clients, mappings, choices }
}

// ---- what the clients' answers come to ----

proof fn lemma_by_hash(list: Seq<QbitTorrent>, hash: Seq<char>, i: int)
    requires
        0 <= i <= list.len(),
    ensures
        match by_hash(list, hash, i) {
            Some(k) => i <= k < list.len() && text::ascii_lowered(list[k].hash@)
                == text::ascii_lowered(hash) && forall|j: int|
                i <= j < k ==> text::ascii_lowered((#[trigger] list[j]).hash@)
                    != text::ascii_lowered(hash),
            None => forall|j: int|
                i <= j < list.len() ==> text::ascii_lowered((#[trigger] list[j]).hash@)
                    != text::ascii_lowered(hash),
        },
    decreases list.len() - i,
{
    if i < list.len() {
        lemma_by_hash(list, hash, i + 1);
    }
}

proof fn lemma_by_name(list: Seq<QbitTorrent>, title: Seq<char>, i: int)
    requires
        0 <= i <= list.len(),
    ensures
        match by_name(list, title, i) {
            Some(k) => i <= k < list.len() && list[k].name@ == title && forall|j: int|
                i <= j < k ==> (#[trigger] list[j]).name@ != title,
            None => forall|j: int| i <= j < list.len() ==> (#[trigger] list[j]).name@ != title,
        },
    decreases list.len() - i,
{
    if i < list.len() {
        lemma_by_name(list, title, i + 1);
    }
}

/// A download whose hash is known and listed is the first torrent with that
/// hash, whatever the names of the others are.
pub proof fn law_torrent_by_hash(
    list: Seq<QbitTorrent>,
    hash: Seq<char>,
    title: Seq<char>,
    k: int,
)
    requires
        0 <= k < list.len(),
        text::ascii_lowered(list[k].hash@) == text::ascii_lowered(hash),
        forall|j: int|
            0 <= j < k ==> text::ascii_lowered((#[trigger] list[j]).hash@) != text::ascii_lowered(
                hash,
            ),
    ensures
        torrent_of(list, Some(hash), title) == Some(k),
{
    lemma_by_hash(list, hash, 0);
    let f = by_hash(list, hash, 0)->0;
    if f < k {
        assert(text::ascii_lowered(list[f].hash@) != text::ascii_lowered(hash));
    }
}

/// A download without a hash, or whose hash is not listed, is the first torrent
/// with its title for a name; where none has it, there is no torrent.
pub proof fn law_torrent_by_name(
    list: Seq<QbitTorrent>,
    hash: Option<Seq<char>>,
    title: Seq<char>,
    k: int,
)
    requires
        hash matches Some(h) ==> forall|j: int|
            0 <= j < list.len() ==> text::ascii_lowered((#[trigger] list[j]).hash@)
                != text::ascii_lowered(h),
        0 <= k <= list.len(),
        k < list.len() ==> list[k].name@ == title,
        forall|j: int| 0 <= j < k ==> (#[trigger] list[j]).name@ != title,
    ensures
        torrent_of(list, hash, title) == if k < list.len() {
            Some(k)
        } else {
            None
        },
{
    if let Some(h) = hash {
        lemma_by_hash(list, h, 0);
    }
    lemma_by_name(list, title, 0);
    if by_name(list, title, 0) is Some {
        let f = by_name(list, title, 0)->0;
        if f < k {
            assert(list[f].name@ != title);
        }
    }
}

/// The path of a torrent is that of its content, whatever directory it is saved
/// in; the directory stands in only where the content has no path.
pub proof fn law_torrent_path(t: QbitTorrent, k: int)
    ensures
        t.content_path matches Some(p) ==> torrent_status(t, k).path == Some(p@),
        t.content_path is None ==> (t.save_path matches Some(p) ==> torrent_status(t, k).path
            == Some(p@)),
        t.content_path is None && t.save_path is None ==> torrent_status(t, k).path is None,
{
}

/// A torrent is done exactly when the client says so, its progress is its own,
/// and an error is reported exactly where its state tells of one: the error
/// names that state.
pub proof fn law_torrent_state(t: QbitTorrent, k: usize)
    ensures
        torrent_status(t, k as int).done == t.done,
        torrent_status(t, k as int).progress == ProgressView::Torrent(k),
        torrent_status(t, k as int).error is Some <==> text::has(t.state@, "error"@) || t.state@
            == "missingFiles"@,
        torrent_status(t, k as int).error matches Some(e) ==> text::ends(e, t.state@),
{
    let e = "qBittorrent state: "@ + t.state@;
    assert(e.subrange(e.len() - t.state@.len(), e.len() as int) =~= t.state@);
}

/// An NZB was added exactly where SABnzbd says so and gives a job: the job is
/// the first of its list.
pub proof fn law_sab_added(v: JsonView, id: Seq<char>)
    ensures
        sab_added(v) == Ok::<Seq<char>, Seq<char>>(id) <==> json::field(v, "status"@) == Some(
            JsonView::Bool(true),
        ) && (json::field(v, "nzo_ids"@) matches Some(JsonView::Array(ids)) && ids.len() > 0
            && ids[0] == JsonView::Text(id)),
{
}

/// Where SABnzbd refuses an NZB, its own error is told.
pub proof fn law_sab_refused(v: JsonView, why: Seq<char>)
    requires
        json::field(v, "status"@) != Some(JsonView::Bool(true)),
        json::field(v, "error"@) == Some(JsonView::Text(why)),
    ensures
        sab_added(v) matches Err(e) && text::ends(e, why),
{
    let e = "SABnzbd refused: "@ + why;
    assert(e.subrange(e.len() - why.len(), e.len() as int) =~= why);
}

proof fn lemma_slot(slots: Seq<JsonView>, nzo: Seq<char>, i: int, k: int)
    requires
        0 <= i <= k <= slots.len(),
        k < slots.len() ==> json::field(slots[k], "nzo_id"@) == Some(JsonView::Text(nzo)),
        forall|j: int|
            i <= j < k ==> json::field(#[trigger] slots[j], "nzo_id"@) != Some(JsonView::Text(nzo)),
    ensures
        slot_of(slots, nzo, i) == if k < slots.len() {
            Some(slots[k])
        } else {
            None
        },
    decreases k - i,
{
    if i < k {
        assert(json::field(slots[i], "nzo_id"@) != Some(JsonView::Text(nzo)));
        assert(json::text_value(json::field(slots[i], "nzo_id"@)) != Some(nzo));
        lemma_slot(slots, nzo, i + 1, k);
    }
}

/// A job in the queue is not done and has no error, and is as far as the first
/// slot with its id says; a job that no slot of the queue has is to be looked
/// for in the history.
pub proof fn law_sab_queue(v: JsonView, q: JsonView, slots: Seq<JsonView>, nzo: Seq<char>, k: int)
    requires
        json::field(v, "queue"@) == Some(q),
        json::field(q, "slots"@) == Some(JsonView::Array(slots)),
        0 <= k <= slots.len(),
        k < slots.len() ==> json::field(slots[k], "nzo_id"@) == Some(JsonView::Text(nzo)),
        forall|j: int|
            0 <= j < k ==> json::field(#[trigger] slots[j], "nzo_id"@) != Some(JsonView::Text(nzo)),
    ensures
        k == slots.len() ==> sab_step(SabList::Queue, v, nzo) is AskHistory,
        k < slots.len() ==> (sab_step(SabList::Queue, v, nzo) matches SabStepView::Known(s)
            && !s.done && s.error is None && s.path is None && (json::field(
            slots[k],
            "percentage"@,
        ) matches Some(JsonView::Text(p)) ==> s.progress == ProgressView::Hundredths(p))),
{
    lemma_slot(slots, nzo, 0, k);
}

/// A job in the history is done exactly when it is completed or has failed,
/// has an error exactly when it has failed, and lies where its slot says; a job
/// that no slot has is unknown.
pub proof fn law_sab_history(
    v: JsonView,
    h: JsonView,
    slots: Seq<JsonView>,
    nzo: Seq<char>,
    k: int,
)
    requires
        json::field(v, "history"@) == Some(h),
        json::field(h, "slots"@) == Some(JsonView::Array(slots)),
        0 <= k <= slots.len(),
        k < slots.len() ==> json::field(slots[k], "nzo_id"@) == Some(JsonView::Text(nzo)),
        forall|j: int|
            0 <= j < k ==> json::field(#[trigger] slots[j], "nzo_id"@) != Some(JsonView::Text(nzo)),
    ensures
        k == slots.len() ==> (sab_step(SabList::History, v, nzo) matches SabStepView::Unknown(e)
            && text::occurs_at(e, "nzo "@ + nzo, 0)),
        k < slots.len() ==> (sab_step(SabList::History, v, nzo) matches SabStepView::Known(s) && {
            let completed = json::field(slots[k], "status"@) == Some(
                JsonView::Text("Completed"@),
            );
            let failed = json::field(slots[k], "status"@) == Some(JsonView::Text("Failed"@));
            &&& s.done <==> completed || failed
            &&& s.error is Some <==> failed
            &&& s.done <==> s.progress == ProgressView::Full
            &&& json::field(slots[k], "storage"@) matches Some(JsonView::Text(p)) ==> s.path
                == Some(p)
            &&& !(json::field(slots[k], "storage"@) matches Some(JsonView::Text(p)))
                ==> s.path is None
        }),
{
    let unknown = "nzo "@ + nzo + " not found in queue or history"@;
    assert(unknown.subrange(0, ("nzo "@ + nzo).len() as int) =~= "nzo "@ + nzo);
    lemma_slot(slots, nzo, 0, k);
    reveal_strlit("Completed");
    reveal_strlit("Failed");
    reveal_strlit("");
    assert("Completed"@.len() == 9 && "Failed"@.len() == 6 && ""@.len() == 0);
}

/// A client of SABnzbd serves usenet, and every other one torrents.
pub proof fn law_client_protocol(c: DownloadClient)
    ensures
        c.kind@ == "sabnzbd"@ <==> client_protocol(c) == "usenet"@,
        c.kind@ != "sabnzbd"@ <==> client_protocol(c) == "torrent"@,
{
    reveal_strlit("usenet");
    reveal_strlit("torrent");
    assert("usenet"@.len() == 6 && "torrent"@.len() == 7);
}

/// A release goes to the first client that is switched on and serves its
/// protocol: one of usenet to a client of SABnzbd, a torrent to another. Where
/// no client does, it goes nowhere.
pub proof fn law_client_for(s: Seq<DownloadClient>, protocol: Seq<char>, i: int)
    requires
        0 <= i <= s.len(),
    ensures
        match client_for(s, protocol, i) {
            Some(k) => {
                &&& i <= k < s.len() && s[k].enabled == 1
                &&& protocol == "usenet"@ ==> s[k].kind@ == "sabnzbd"@
                &&& protocol == "torrent"@ ==> s[k].kind@ != "sabnzbd"@
                &&& forall|j: int|
                    i <= j < k && (#[trigger] s[j]).enabled == 1 ==> client_protocol(s[j])
                        != protocol
            },
            None => forall|j: int|
                i <= j < s.len() && (#[trigger] s[j]).enabled == 1 ==> client_protocol(s[j])
                    != protocol,
        },
    decreases s.len() - i,
{
    if i < s.len() {
        law_client_protocol(s[i]);
        law_client_for(s, protocol, i + 1);
    }
}

/// The hash of a magnet link is the text after the first `btih:`, in lowercase,
/// and has at most forty characters; a link without that mark has none.
pub proof fn law_magnet_hash(before: Seq<char>, hash: Seq<char>, rest: Seq<char>)
    requires
        hash.len() == 40,
        text::first_at(before + "btih:"@ + hash + rest, "btih:"@, 0) == Some(before.len() as int),
    ensures
        magnet_hash(before + "btih:"@ + hash + rest) == Some(text::lowered(hash)),
{
    reveal_strlit("btih:");
    let url = before + "btih:"@ + hash + rest;
    assert("btih:"@.len() == 5);
    assert(text::cut(url.skip(before.len() as int + 5), 40) =~= hash);
}

/// The mapping that applies is the first of the longest, and the rest of the
/// path follows its local directory: a path that is the remote one, a slash and
/// a rest comes out as the local one, a slash and that rest.
pub proof fn law_mapped_path(
    maps: Seq<(String, String)>,
    path: Seq<char>,
    k: int,
    rest: Seq<char>,
)
    requires
        0 <= k < maps.len(),
        path == maps[k].0@ + "/"@ + rest,
        rest.len() > 0,
        rest[0] != '/' && rest[0] != '\\',
        maps[k].1@.len() > 0,
        maps[k].1@.last() != '/',
        forall|j: int|
            0 <= j < maps.len() && text::occurs_at(path, (#[trigger] maps[j]).0@, 0)
                ==> maps[j].0@.len() < maps[k].0@.len() || (maps[j].0@.len() == maps[k].0@.len()
                && k <= j),
    ensures
        mapped_path(maps, path) == maps[k].1@ + "/"@ + rest,
{
    reveal_strlit("/");
    let n = maps.len() as int;
    assert("/"@.len() == 1 && "/"@[0] == '/');
    assert(path.subrange(0, maps[k].0@.len() as int) =~= maps[k].0@);
    assert(text::occurs_at(path, maps[k].0@, 0));
    law_best_mapping(maps, path, n);
    lemma_first_best(maps, path, n);
    let b = best_mapping(maps, path, n)->0;
    assert(maps[k].0@.len() <= maps[b].0@.len());
    assert(b == k);
    let tail = path.skip(maps[k].0@.len() as int);
    assert(tail =~= "/"@ + rest);
    assert(tail.skip(1) =~= rest);
    assert(text::trimmed_start(rest, text::CharSet::AnySlash) == rest);
    assert(text::trimmed_start(tail, text::CharSet::AnySlash) == rest);
}

proof fn lemma_first_best(maps: Seq<(String, String)>, path: Seq<char>, n: int)
    requires
        0 <= n <= maps.len(),
    ensures
        best_mapping(maps, path, n) matches Some(b) ==> forall|j: int|
            0 <= j < b && text::occurs_at(path, (#[trigger] maps[j]).0@, 0) ==> maps[j].0@.len()
                < maps[b].0@.len(),
    decreases n,
{
    if n > 0 {
        lemma_first_best(maps, path, n - 1);
        law_best_mapping(maps, path, n - 1);
    }
}

/// What is written down of a status: a reported error fails the download with
/// that very error, whether it is done or not; a done one without an error is
/// being imported; any other is downloading, as far as the client says. The path
/// is always the one that the client reports.
pub proof fn law_judged(s: StatusView)
    ensures
        judged(s).path == s.path,
        judged(s).error == s.error,
        s.error is Some <==> judged(s).state == "failed"@,
        s.error is None && s.done <==> judged(s).state == "importing"@,
        s.error is None && !s.done <==> judged(s).state == "downloading"@,
        !(s.error is None && s.done) ==> judged(s).progress == s.progress,
        s.error is None && s.done ==> judged(s).progress == ProgressView::Full,
{
    reveal_strlit("importing");
    reveal_strlit("downloading");
    reveal_strlit("failed");
    assert("importing"@.len() == 9 && "downloading"@.len() == 11 && "failed"@.len() == 6);
}

proof fn lemma_client_with(s: Seq<DownloadClient>, id: i64, i: int, k: int)
    requires
        0 <= i <= k <= s.len(),
        k < s.len() ==> s[k].id == id,
        forall|j: int| i <= j < k ==> (#[trigger] s[j]).id != id,
    ensures
        client_with(s, id, i) == if k < s.len() {
            Some(k)
        } else {
            None
        },
    decreases k - i,
{
    if i < k {
        assert(s[i].id != id);
        lemma_client_with(s, id, i + 1, k);
    }
}

/// About a pending download its own client is asked: SABnzbd by the job that
/// the download is, and qBittorrent otherwise. Without a job SABnzbd is not
/// asked, and a download whose client is gone has failed.
pub proof fn law_poll_asks(d: Pending, clients: Seq<DownloadClient>, k: int)
    requires
        0 <= k <= clients.len(),
        clients.len() <= usize::MAX,
        k < clients.len() ==> clients[k].id == d.client_id,
        forall|j: int| 0 <= j < k ==> (#[trigger] clients[j]).id != d.client_id,
    ensures
        ({
            let (next, action) = poll_next(d, clients, PollView::Start, PollEventView::Begin);
            &&& k == clients.len() ==> next is Over && (action matches PollActionView::Write(u)
                && u.state == "failed"@ && u.error == Some("client removed"@) && u.path is None)
            &&& k < clients.len() && clients[k].kind@ != "sabnzbd"@ ==> next == PollView::Asked(
                k as usize,
            ) && action == PollActionView::AskQbit(k as usize)
            &&& k < clients.len() && clients[k].kind@ == "sabnzbd"@ ==> (
            d.external_id matches Some(job) ==> next == PollView::Asked(k as usize) && action
                == PollActionView::AskSab(k as usize, job@))
            &&& k < clients.len() && clients[k].kind@ == "sabnzbd"@ && d.external_id is None
                ==> next is Over && action == PollActionView::Warn("missing nzo_id"@)
        }),
{
    lemma_client_with(clients, d.client_id, 0, k);
}

/// What follows a client's answer: a download that is done without an error is
/// imported from the path that the client reports, of the client that was asked;
/// any other answer is written down, and a client that could not be asked
/// changes nothing.
pub proof fn law_poll_answer(
    d: Pending,
    clients: Seq<DownloadClient>,
    k: usize,
    s: StatusView,
    why: Seq<char>,
)
    ensures
        ({
            let answer = PollEventView::Answer(Ok(s));
            let (next, action) = poll_next(d, clients, PollView::Asked(k), answer);
            &&& s.done && s.error is None ==> next == PollView::Importing(k, s.path) && (
            action matches PollActionView::Import(u, c, path) && c == k && path == s.path && u.state
                == "importing"@ && u.path == s.path)
            &&& !(s.done && s.error is None) ==> next is Over && (
            action matches PollActionView::Write(u) && u.error == s.error && u.path == s.path && (
            s.error is Some ==> u.state == "failed"@) && (s.error is None ==> u.state
                == "downloading"@))
        }),
        poll_next(d, clients, PollView::Asked(k), PollEventView::Answer(Err(why))) == (
            PollView::Over,
            PollActionView::Warn(why),
        ),
{
}

/// What follows an import: without an error the download is written down as
/// imported, and with one it has failed with that error; its path stays.
pub proof fn law_poll_imported(
    d: Pending,
    clients: Seq<DownloadClient>,
    k: usize,
    path: Option<Seq<char>>,
    error: Option<Seq<char>>,
)
    ensures
        ({
            let (next, action) = poll_next(
                d,
                clients,
                PollView::Importing(k, path),
                PollEventView::Imported(error),
            );
            &&& next is Over
            &&& action matches PollActionView::Write(u) && u.path == path && u.error == error
                && u.progress == ProgressView::Full && (error is None <==> u.state == "imported"@)
                && (error is Some <==> u.state == "failed"@)
        }),
{
    reveal_strlit("imported");
    reveal_strlit("failed");
    assert("imported"@.len() == 8 && "failed"@.len() == 6);
}

/// A download with which the monitor is through is left alone.
pub proof fn law_poll_over(d: Pending, clients: Seq<DownloadClient>, event: PollEventView)
    ensures
        poll_next(d, clients, PollView::Over, event) == (PollView::Over, PollActionView::Nothing),
{
}

/// The monitor looks at what is queued, downloading or completed, and at nothing
/// that has been imported, is being imported or has failed.
pub proof fn law_watched(state: Seq<char>)
    ensures
        is_watched(state) <==> ["queued"@, "downloading"@, "completed"@]@.contains(state),
        state == "importing"@ || state == "imported"@ || state == "failed"@ ==> !is_watched(state),
{
    let known = ["queued"@, "downloading"@, "completed"@]@;
    assert(known[0] == "queued"@ && known[1] == "downloading"@ && known[2] == "completed"@);
    reveal_strlit("queued");
    reveal_strlit("downloading");
    reveal_strlit("completed");
    reveal_strlit("importing");
    reveal_strlit("imported");
    reveal_strlit("failed");
    assert("queued"@[0] == 'q' && "downloading"@[0] == 'd' && "completed"@[0] == 'c');
    assert("importing"@[0] == 'i' && "imported"@[0] == 'i' && "failed"@[0] == 'f');
}

/// Exactly the book files of a download are copied, in their order, and each
/// keeps its own name in the books directory.
pub proof fn law_imports(files: Seq<Seq<char>>, books_dir: Seq<char>)
    ensures
        imports(files, books_dir).map_values(|c: CopyFileView| c.from) == files.filter(
            |f: Seq<char>| is_book_file(f),
        ),
        forall|i: int|
            0 <= i < imports(files, books_dir).len() ==> {
                let c = #[trigger] imports(files, books_dir)[i];
                paths::file_name_of(c.from) matches Some(name) && c.to == paths::joined_path(
                    books_dir,
                    name,
                )
            },
    decreases files.len(),
{
    reveal(Seq::filter);
    let all = imports(files, books_dir);
    let from = |c: CopyFileView| c.from;
    if files.len() > 0 {
        let rest = imports(files.drop_last(), books_dir);
        law_imports(files.drop_last(), books_dir);
        if is_book_file(files.last()) {
            assert(all.map_values(from) =~= rest.map_values(from).push(files.last()));
            assert forall|i: int| 0 <= i < all.len() implies {
                let c = #[trigger] all[i];
                paths::file_name_of(c.from) matches Some(name) && c.to == paths::joined_path(
                    books_dir,
                    name,
                )
            } by {
                if i < rest.len() {
                    assert(all[i] == rest[i]);
                }
            }
        }
    } else {
        assert(all.map_values(from) =~= files.filter(|f: Seq<char>| is_book_file(f)));
    }
}

/// A file whose name ends in a dot and the extension of a book format, in any
/// case, is a book file; one with another extension or none is not.
pub proof fn law_book_file(path: Seq<char>)
    ensures
        paths::extension_of(path) is None ==> !is_book_file(path),
        paths::extension_of(path) matches Some(e) ==> (is_book_file(path) <==> [
            "epub"@,
            "pdf"@,
            "cbz"@,
            "cbr"@,
            "mobi"@,
            "azw3"@,
            "txt"@,
        ]@.contains(text::lowered(e))),
{
    let known = ["epub"@, "pdf"@, "cbz"@, "cbr"@, "mobi"@, "azw3"@, "txt"@]@;
    assert(known[0] == "epub"@ && known[1] == "pdf"@ && known[2] == "cbz"@ && known[3] == "cbr"@);
    assert(known[4] == "mobi"@ && known[5] == "azw3"@ && known[6] == "txt"@);
}

/// A client is listed under its own id, name and kind, with its host in front of
/// the line; a mapping with its own remote and local path.
pub proof fn law_rows(c: DownloadClient, m: Mapping)
    ensures
        client_row(c).id == c.id && client_row(c).name == c.name@ && client_row(c).kind == c.kind@,
        text::occurs_at(
            client_row(c).line,
            c.host@ + ":"@ + text::decimal_of(c.port as int) + " · category "@,
            0,
        ),
        c.category matches Some(k) ==> text::ends(client_row(c).line, " · category "@ + k@),
        c.last_test_ok is None ==> client_row(c).badge.label == "Untested"@,
        c.last_test_ok == Some(1i64) ==> client_row(c).badge.label == "OK"@,
        c.last_test_ok matches Some(n) ==> (n != 1 ==> client_row(c).badge.label == "Failed"@
            && client_row(c).badge.title == c.last_test_error.deep_view()),
        text::occurs_at(client_row(c).confirm, "Remove client "@ + c.name@, 0),
        mapping_row(m).id == m.id,
        mapping_row(m).remote_path == m.remote_path@,
        mapping_row(m).local_path == m.local_path@,
        text::ends(mapping_row(m).client, "#"@ + text::decimal_of(m.client_id as int)),
{
    reveal_strlit("client #");
    reveal_strlit("#");
    let line = client_row(c).line;
    let whose = mapping_row(m).client;
    let tail = "#"@ + text::decimal_of(m.client_id as int);
    assert(whose.subrange(whose.len() - tail.len(), whose.len() as int) =~= tail);
    let address = c.host@ + ":"@ + text::decimal_of(c.port as int) + " · category "@;
    assert(line.subrange(0, address.len() as int) =~= address);
    if let Some(k) = c.category {
        let end = " · category "@ + k@;
        assert(line.subrange(line.len() - end.len(), line.len() as int) =~= end);
    }
    let question = client_row(c).confirm;
    let asked = "Remove client "@ + c.name@;
    assert(question.subrange(0, asked.len() as int) =~= asked);
}

/// A client is asked at its own host and port, over TLS exactly where that is
/// set; a SABnzbd request carries its own mode and the client's key.
pub proof fn law_client_address(c: DownloadClient, mode: Seq<char>, extra: Seq<char>)
    ensures
        c.use_ssl == 1 ==> text::occurs_at(base_address(c), "https://"@ + c.host@ + ":"@, 0),
        c.use_ssl != 1 ==> text::occurs_at(base_address(c), "http://"@ + c.host@ + ":"@, 0),
        text::ends(base_address(c), ":"@ + text::decimal_of(c.port as int)),
        text::occurs_at(
            sab_address(c, mode, extra),
            base_address(c) + "/api?mode="@ + mode + "&"@,
            0,
        ),
        c.password matches Some(key) ==> text::ends(
            sab_address(c, mode, extra),
            "&apikey="@ + key@ + extra,
        ),
        c.password is None ==> text::ends(sab_address(c, mode, extra), "&apikey="@ + extra),
{
    reveal_strlit("https");
    reveal_strlit("http");
    reveal_strlit("://");
    reveal_strlit("https://");
    reveal_strlit("http://");
    reveal_strlit("&");
    reveal_strlit("&output=json&apikey=");
    reveal_strlit("&apikey=");
    let a = base_address(c);
    let scheme = if c.use_ssl == 1 {
        "https://"@
    } else {
        "http://"@
    };
    let front = scheme + c.host@ + ":"@;
    assert(a.subrange(0, front.len() as int) =~= front);
    let port = ":"@ + text::decimal_of(c.port as int);
    assert(a.subrange(a.len() - port.len(), a.len() as int) =~= port);
    let s = sab_address(c, mode, extra);
    let start = a + "/api?mode="@ + mode + "&"@;
    assert(s.subrange(0, start.len() as int) =~= start);
    if let Some(key) = c.password {
        let tail = "&apikey="@ + key@ + extra;
        assert(s.subrange(s.len() - tail.len(), s.len() as int) =~= tail);
    } else {
        reveal_strlit("");
        let tail = "&apikey="@ + extra;
        assert(s.subrange(s.len() - tail.len(), s.len() as int) =~= tail);
    }
}

/// Every part of a state of a download is seen as itself.
pub proof fn law_status_view(x: Status)
    ensures
        x.deep_view().progress == x.progress.deep_view(),
        x.deep_view().done == x.done,
        x.deep_view().error == x.error.deep_view(),
        x.deep_view().path == x.path.deep_view(),
{
}

/// Every part of an update of a download is seen as itself.
pub proof fn law_update_view(x: Update)
    ensures
        x.deep_view().state == x.state@,
        x.deep_view().progress == x.progress.deep_view(),
        x.deep_view().error == x.error.deep_view(),
        x.deep_view().path == x.path.deep_view(),
{
}

/// Every part of a copy is seen as itself.
pub proof fn law_copy_file_view(x: CopyFile)
    ensures
        x.deep_view().from == x.from@,
        x.deep_view().to == x.to@,
{
}

/// Every part of a row of a client is seen as itself.
pub proof fn law_client_row_view(x: ClientRow)
    ensures
        x.deep_view().id == x.id,
        x.deep_view().name == x.name@,
        x.deep_view().kind == x.kind@,
        x.deep_view().line == x.line@,
        x.deep_view().badge == x.badge.deep_view(),
        x.deep_view().confirm == x.confirm@,
{
}

/// Every part of a row of a path mapping is seen as itself.
pub proof fn law_mapping_row_view(x: MappingRow)
    ensures
        x.deep_view().id == x.id,
        x.deep_view().remote_path == x.remote_path@,
        x.deep_view().local_path == x.local_path@,
        x.deep_view().client == x.client@,
{
}

/// Where a torrent is found, its files are looked for at the path of its content,
/// and at the path that it was saved to only where it has none; its state and its
/// progress are its own.
pub proof fn law_qbit_status(
    list: &Vec<QbitTorrent>,
    hash: &Option<String>,
    title: &str,
    r: Result<Status, String>,
    k: int,
)
    requires
        call_ensures(qbit_status, (list, hash, title), r),
        0 <= k < list.len(),
        hash matches Some(h) && text::ascii_lowered(list@[k].hash@) == text::ascii_lowered(h@)
            && forall|j: int|
            0 <= j < k ==> text::ascii_lowered((#[trigger] list@[j]).hash@) != text::ascii_lowered(
                h@,
            ),
    ensures
        r matches Ok(s) && {
            let t = list@[k];
            &&& t.content_path is Some ==> s.path.deep_view() == t.content_path.deep_view()
            &&& t.content_path is None ==> s.path.deep_view() == t.save_path.deep_view()
            &&& s.done == t.done
            &&& s.error is Some <==> text::has(t.state@, "error"@) || t.state@ == "missingFiles"@
        },
{
    law_torrent_by_hash(list@, hash->0@, title@, k);
    law_torrent_path(list@[k], k);
    law_status_view(r->Ok_0);
}

/// A release goes to a client of its own protocol that is switched on, and to none
/// only where there is no such client.
pub proof fn law_pick_client(
    clients: &Vec<DownloadClient>,
    rel: &Release,
    r: Result<&DownloadClient, String>,
)
    requires
        call_ensures(pick_client, (clients, rel), r),
    ensures
        r matches Ok(c) ==> clients@.contains(*c) && c.enabled == 1 && (rel.protocol@ == "usenet"@
            ==> c.kind@ == "sabnzbd"@) && (rel.protocol@ == "torrent"@ ==> c.kind@ != "sabnzbd"@),
        r is Err ==> forall|j: int|
            0 <= j < clients@.len() && (#[trigger] clients@[j]).enabled == 1 ==> client_protocol(
                clients@[j],
            ) != rel.protocol@,
{
    law_client_for(clients@, rel.protocol@, 0);
}

/// A download that ended with an error has failed, and one that ended without is
/// imported from where its client put it; one that goes on is left alone.
pub proof fn law_judge(s: Status, r: Verdict)
    requires
        call_ensures(judge, (s,), r),
    ensures
        r.import <==> s.done && s.error is None,
        r.update.state@ == "failed"@ <==> s.error is Some,
        r.update.state@ == "importing"@ <==> r.import,
        r.update.path.deep_view() == s.path.deep_view(),
        r.update.error.deep_view() == s.error.deep_view(),
{
    law_judged(s.deep_view());
    law_status_view(s);
    law_update_view(r.update);
}

/// An import that failed is told with its error; one that did not is over.
pub proof fn law_after_import(error: Option<String>, path: Option<String>, r: Update)
    requires
        call_ensures(after_import, (error, path), r),
    ensures
        error is Some <==> r.state@ == "failed"@,
        error is None <==> r.state@ == "imported"@,
        r.error.deep_view() == error.deep_view(),
        r.path.deep_view() == path.deep_view(),
{
    reveal_strlit("failed");
    reveal_strlit("imported");
    assert("failed"@[0] == 'f' && "imported"@[0] == 'i');
    law_update_view(r);
}

/// What is imported is every book file of the download and nothing else, each
/// under its own name in the library; a download without one is refused.
pub proof fn law_import_download(
    files: &Vec<String>,
    local: &str,
    books_dir: &str,
    r: Result<Vec<CopyFile>, String>,
)
    requires
        call_ensures(import_download, (files, local, books_dir), r),
    ensures
        r matches Ok(copies) ==> copies.deep_view().map_values(|c: CopyFileView| c.from)
            == files.deep_view().filter(|f: Seq<char>| is_book_file(f)) && forall|i: int|
            0 <= i < copies.len() ==> (paths::file_name_of(
                (#[trigger] copies@[i]).from@,
            ) matches Some(name) && copies@[i].to@ == paths::joined_path(books_dir@, name)),
        r is Err <==> files.deep_view().filter(|f: Seq<char>| is_book_file(f)).len() == 0,
{
    law_imports(files.deep_view(), books_dir@);
    let all = imports(files.deep_view(), books_dir@);
    assert(all.map_values(|c: CopyFileView| c.from).len() == all.len());
    if let Ok(copies) = r {
        assert forall|i: int| 0 <= i < copies.len() implies (paths::file_name_of(
            (#[trigger] copies@[i]).from@,
        ) matches Some(name) && copies@[i].to@ == paths::joined_path(books_dir@, name)) by {
            assert(copies.deep_view()[i] == copies@[i].deep_view());
            assert(all[i] == copies@[i].deep_view());
        }
    }
}

/// A new client is kept as the form has it, without the blanks around its name and
/// its host; a kind that is not known is qBittorrent's, and TLS is on only where
/// the form says so.
pub proof fn law_new_client(f: &AddClientForm, r: NewClient)
    requires
        call_ensures(add, (f,), r),
    ensures
        r.name@ == text::trimmed(f.name@) && r.host@ == text::trimmed(f.host@) && r.port == f.port,
        r.kind@ == "sabnzbd"@ <==> f.kind@ == "sabnzbd"@,
        r.kind@ == "qbittorrent"@ <==> f.kind@ != "sabnzbd"@,
        r.use_ssl == 1 <==> f.use_ssl is Some,
        f.username is None ==> r.username is None,
        f.password is None ==> r.password is None,
        f.category is None ==> r.category@ == "shelfarrs"@,
{
    reveal_strlit("sabnzbd");
    reveal_strlit("qbittorrent");
    assert("sabnzbd"@[0] == 's' && "qbittorrent"@[0] == 'q');
}

/// The monitor imports a download exactly when its client says that it is done
/// without an error, from the path that the client gave; what failed it writes down
/// as failed, and after the answer to an import it is done with the download.
pub proof fn law_poll_once(
    d: &Pending,
    clients: &Vec<DownloadClient>,
    k: usize,
    s: Status,
    r: (Poll, PollAction),
    path: Option<String>,
    error: Option<String>,
    last: (Poll, PollAction),
)
    requires
        call_ensures(
            poll_once,
            (d, clients, Poll::Asked(k), PollEvent::Answer(Ok::<Status, String>(s))),
            r,
        ),
        call_ensures(
            poll_once,
            (d, clients, Poll::Importing(k, path), PollEvent::Imported(error)),
            last,
        ),
    ensures
        r.1 is Import <==> s.done && s.error is None,
        r.1 matches PollAction::Import(u, c, from) ==> c == k && from.deep_view()
            == s.path.deep_view() && u.state@ == "importing"@,
        r.1 matches PollAction::Write(u) ==> (u.state@ == "failed"@ <==> s.error is Some)
            && u.error.deep_view() == s.error.deep_view(),
        r.1 is Import || r.1 is Write,
        last.0 is Over,
        last.1 matches PollAction::Write(u) && (u.state@ == "imported"@ <==> error is None)
            && u.path.deep_view() == path.deep_view() && u.error.deep_view() == error.deep_view(),
{
    let seen = s.deep_view();
    law_poll_answer(*d, clients@, k, seen, seq![]);
    law_poll_imported(*d, clients@, k, path.deep_view(), error.deep_view());
    law_status_view(s);
    assert(Poll::Asked(k).deep_view() == PollView::Asked(k));
    assert(PollEvent::Answer(Ok::<Status, String>(s)).deep_view() == PollEventView::Answer(
        Ok::<StatusView, Seq<char>>(seen),
    ));
    assert(Poll::Importing(k, path).deep_view() == PollView::Importing(k, path.deep_view()));
    assert(PollEvent::Imported(error).deep_view() == PollEventView::Imported(error.deep_view()));
    reveal_strlit("failed");
    reveal_strlit("downloading");
    assert("failed"@[0] == 'f' && "downloading"@[0] == 'd');
}

/// A path below a mapped directory is the same path below the directory that it is
/// mapped to, by the longest mapping that fits.
pub proof fn law_map_path(
    maps: &[(String, String)],
    path: &str,
    r: String,
    k: int,
    rest: Seq<char>,
)
    requires
        call_ensures(map_path, (maps, path), r),
        0 <= k < maps@.len(),
        path@ == maps@[k].0@ + "/"@ + rest,
        rest.len() > 0,
        rest[0] != '/' && rest[0] != '\\',
        maps@[k].1@.len() > 0,
        maps@[k].1@.last() != '/',
        forall|j: int|
            0 <= j < maps@.len() && text::occurs_at(path@, (#[trigger] maps@[j]).0@, 0)
                ==> maps@[j].0@.len() < maps@[k].0@.len() || (maps@[j].0@.len()
                == maps@[k].0@.len() && k <= j),
    ensures
        r@ == maps@[k].1@ + "/"@ + rest,
{
    law_mapped_path(maps@, path@, k, rest);
}

/// A refusal without a reason is told as unknown, and an answer that is accepted but
/// names no job is none.
pub proof fn law_sab_unknown(v: JsonView)
    ensures
        json::field(v, "status"@) != Some(JsonView::Bool(true)) && json::field(v, "error"@) is None
            ==> (sab_added(v) matches Err(e) && text::ends(e, "unknown"@)),
        json::field(v, "nzo_ids"@) is None ==> sab_added(v) is Err,
{
    let e = "SABnzbd refused: "@ + "unknown"@;
    assert(e.subrange(e.len() - "unknown"@.len(), e.len() as int) =~= "unknown"@);
}

} // verus!
