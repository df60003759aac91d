//! The background queue: what a job is, what running it means, and what the
//! activity page shows.

use vstd::prelude::*;
use vstd::string::*;
use crate::json::JsonView;
use crate::json;
use crate::text;

verus! {

/// A job of the queue.
pub struct Job {
    pub id: i64,
    pub kind: String,
    /// What to do, as JSON text.
    pub payload: String,
}

// ---- running ----

/// What running a job means.
pub enum Run {
    /// Scan the books directory.
    Scan,
    /// Download the candidate that the payload spells.
    Download,
    /// Search every source for this, and download the best match.
    Acquire(String),
    /// The payload is no JSON: the job fails.
    BadPayload,
    /// There is no such kind of job: it fails with this message.
    Unknown(String),
}

#[verifier::ext_equal]
pub enum RunView {
    Scan,
    Download,
    Acquire(Seq<char>),
    BadPayload,
    Unknown(Seq<char>),
}

impl DeepView for Run {
    type V = RunView;

    open spec fn deep_view(&self) -> RunView {
        match self {
            Run::Scan => RunView::Scan,
            Run::Download => RunView::Download,
            Run::Acquire(q) => RunView::Acquire(q@),
            Run::BadPayload => RunView::BadPayload,
            Run::Unknown(e) => RunView::Unknown(e@),
        }
    }
}

/// What running a job means. The payload of an `acquire` job is an object whose
/// `query` says what to look for.
pub open spec fn run_of(kind: Seq<char>, payload: Seq<char>) -> RunView {
    if kind == "scan"@ {
        RunView::Scan
    } else if kind == "download"@ {
        RunView::Download
    } else if kind == "acquire"@ {
        if json::json_in(payload) is None {
            RunView::BadPayload
        } else {
            match json::text_member(payload, "query"@) {
                Some(q) => RunView::Acquire(q),
                None => RunView::Acquire(""@),
            }
        }
    } else {
        RunView::Unknown("unknown job kind: "@ + kind)
    }
}

/// What running a job means.
pub fn run(job: &Job) -> (r: Run)
    ensures
        r.deep_view() == run_of(job.kind@, job.payload@),
{
    let kind = job.kind.as_str();
    if text::same(kind, "scan") {
        Run::Scan
    } else if text::same(kind, "download") {
        Run::Download
    } else if text::same(kind, "acquire") {
        match json::parse(job.payload.as_str()) {
            Some(v) => match json::as_text(v.get("query")) {
                Some(q) => Run::Acquire(q),
                None => Run::Acquire("".to_string()),
            },
            None => Run::BadPayload,
        }
    } else {
        let mut e = "unknown job kind: ".to_string();
        e.append(kind);
        Run::Unknown(e)
    }
}

/// The payload of a job that acquires what is asked for.
pub fn acquire_payload(query: &str) -> (r: String)
    ensures
        json::json_in(r@) == Some(JsonView::Object(seq![("query"@, JsonView::Text(query@))])),
        json::text_member(r@, "query"@) == Some(query@),
{
    proof {
        reveal_strlit("query");
        reveal_strlit("$serde_json::private::");
    }
    json::write_member("query", query)
}

/// How a job ends: done, or failed with an error.
pub fn finish(error: &Option<String>) -> (r: (String, Option<String>))
    ensures
        r.0@ == if error is Some {
            "failed"@
        } else {
            "done"@
        },
        r.1.deep_view() == error.deep_view(),
{
    let status = if error.is_some() {
        "failed".to_string()
    } else {
        "done".to_string()
    };
    (status, error.clone())
}

/// Running an `acquire` job looks for exactly what its payload was made of, and
/// its title names it.
pub proof fn law_acquire_round_trip(payload: Seq<char>, query: Seq<char>)
    requires
        json::text_member(payload, "query"@) == Some(query),
    ensures
        run_of("acquire"@, payload) == RunView::Acquire(query),
        title_of("acquire"@, payload) == "Acquire: "@ + query,
{
    reveal_strlit("scan");
    reveal_strlit("download");
    reveal_strlit("acquire");
    assert("scan"@[0] == 's' && "download"@[0] == 'd' && "acquire"@[0] == 'a');
}

// ---- titles and states ----

/// The title of a job, given the text of the payload that it is made of.
pub open spec fn title_with(kind: Seq<char>, field: Option<Seq<char>>) -> Seq<char> {
    if kind == "download"@ {
        match field {
            Some(t) => t,
            None => "Download"@,
        }
    } else if kind == "acquire"@ {
        match field {
            Some(q) => "Acquire: "@ + q,
            None => "Acquire"@,
        }
    } else if kind == "scan"@ {
        "Library scan"@
    } else {
        kind
    }
}

/// The member of the payload that the title of a job is made of.
pub open spec fn title_key(kind: Seq<char>) -> Seq<char> {
    if kind == "download"@ {
        "title"@
    } else {
        "query"@
    }
}

/// The title of a job: what a download or an acquisition is of, and for other
/// kinds the kind itself in words.
pub open spec fn title_of(kind: Seq<char>, payload: Seq<char>) -> Seq<char> {
    title_with(kind, json::text_member(payload, title_key(kind)))
}

/// The title of a job, given the text of the payload that it is made of.
pub fn titled(kind: &str, field: Option<String>) -> (r: String)
    ensures
        r@ == title_with(kind@, field.deep_view()),
{
    if text::same(kind, "download") {
        match field {
            Some(t) => t,
            None => "Download".to_string(),
        }
    } else if text::same(kind, "acquire") {
        match field {
            Some(q) => {
                let mut s = "Acquire: ".to_string();
                s.append(q.as_str());
                s
            },
            None => "Acquire".to_string(),
        }
    } else if text::same(kind, "scan") {
        "Library scan".to_string()
    } else {
        kind.to_string()
    }
}

/// The title of a job, from its payload.
pub fn job_title(kind: &str, payload: &str) -> (r: String)
    ensures
        r@ == title_of(kind@, payload@),
{
    let key = if text::same(kind, "download") {
        "title"
    } else {
        "query"
    };
    titled(kind, json::member_text(payload, key))
}

/// How the state of a job is shown.
pub struct JobStatus {
    pub class: &'static str,
    pub label: &'static str,
    pub percent: u8,
}

/// The style of the state of a job.
pub open spec fn job_class(kind: Seq<char>, status: Seq<char>) -> Seq<char> {
    if status == "queued"@ {
        "queued"@
    } else if status == "running"@ {
        if kind == "scan"@ {
            "processing"@
        } else {
            "downloading"@
        }
    } else if status == "done"@ {
        "completed"@
    } else {
        "failed"@
    }
}

/// The state of a job in words.
pub open spec fn job_label(kind: Seq<char>, status: Seq<char>) -> Seq<char> {
    if status == "queued"@ {
        "Queued"@
    } else if status == "running"@ {
        if kind == "scan"@ {
            "Processing"@
        } else {
            "Downloading"@
        }
    } else if status == "done"@ {
        "Completed"@
    } else {
        "Failed"@
    }
}

/// How far a job is shown to be.
pub open spec fn job_percent(status: Seq<char>) -> u8 {
    if status == "queued"@ {
        0
    } else if status == "running"@ {
        50
    } else {
        100
    }
}

/// How the state of a job is shown.
pub fn job_status(kind: &str, status: &str) -> (r: JobStatus)
    ensures
        r.class@ == job_class(kind@, status@),
        r.label@ == job_label(kind@, status@),
        r.percent == job_percent(status@),
{
    if text::same(status, "queued") {
        JobStatus { class: "queued", label: "Queued", percent: 0 }
    } else if text::same(status, "running") {
        if text::same(kind, "scan") {
            JobStatus { class: "processing", label: "Processing", percent: 50 }
        } else {
            JobStatus { class: "downloading", label: "Downloading", percent: 50 }
        }
    } else if text::same(status, "done") {
        JobStatus { class: "completed", label: "Completed", percent: 100 }
    } else {
        JobStatus { class: "failed", label: "Failed", percent: 100 }
    }
}

// ---- the activity page ----

/// The query of the activity page.
pub struct ActivityQ {
    pub f: Option<String>,
}

/// A job, as it is stored.
pub struct StoredJob {
    pub kind: String,
    pub payload: String,
    pub status: String,
    pub error: Option<String>,
    pub updated_at: String,
}

/// A download, as it is stored, with its progress in whole percents.
pub struct StoredDownload {
    pub title: String,
    pub protocol: String,
    pub state: String,
    pub percent: i64,
    pub error: Option<String>,
    pub updated_at: String,
}

/// A row of the activity page.
pub struct ActivityRow {
    pub title: String,
    /// The kind of the job, or the protocol of the download.
    pub kind: String,
    pub class: String,
    pub percent: i64,
    pub updated_at: String,
    pub error: Option<String>,
    pub label: String,
}

#[verifier::ext_equal]
pub struct ActivityRowView {
    pub title: Seq<char>,
    pub kind: Seq<char>,
    pub class: Seq<char>,
    pub percent: i64,
    pub updated_at: Seq<char>,
    pub error: Option<Seq<char>>,
    pub label: Seq<char>,
}

impl DeepView for ActivityRow {
    type V = ActivityRowView;

    open spec fn deep_view(&self) -> ActivityRowView {
        ActivityRowView {
            title: self.title@,
            kind: self.kind@,
            class: self.class@,
            percent: self.percent,
            updated_at: self.updated_at@,
            error: self.error.deep_view(),
            label: self.label@,
        }
    }
}

/// The style of the state of a download.
pub open spec fn download_class(state: Seq<char>) -> Seq<char> {
    if state == "queued"@ {
        "queued"@
    } else if state == "downloading"@ {
        "downloading"@
    } else if state == "completed"@ || state == "importing"@ {
        "processing"@
    } else if state == "imported"@ {
        "completed"@
    } else {
        "failed"@
    }
}

/// A row with this title passes the filter: an empty filter passes all, any
/// other those whose title holds it, in any case.
pub open spec fn passes(filter: Seq<char>, title: Seq<char>) -> bool {
    filter.len() == 0 || text::has(text::lowered(title), filter)
}

/// The filter of the activity page.
pub open spec fn filter_of(q: ActivityQ) -> Seq<char> {
    match q.f {
        Some(f) => text::lowered(f@),
        None => text::lowered(""@),
    }
}

/// How a download is shown on the activity page.
pub open spec fn download_row(d: StoredDownload) -> ActivityRowView {
    ActivityRowView {
        title: d.title@,
        kind: d.protocol@,
        class: download_class(d.state@),
        percent: d.percent,
        updated_at: d.updated_at@,
        error: d.error.deep_view(),
        label: d.state@,
    }
}

/// How a job is shown on the activity page.
pub open spec fn job_row(j: StoredJob) -> ActivityRowView {
    ActivityRowView {
        title: title_of(j.kind@, j.payload@),
        kind: j.kind@,
        class: job_class(j.kind@, j.status@),
        percent: job_percent(j.status@) as i64,
        updated_at: j.updated_at@,
        error: j.error.deep_view(),
        label: job_label(j.kind@, j.status@),
    }
}

/// The downloads that pass the filter.
pub open spec fn download_rows(s: Seq<StoredDownload>, filter: Seq<char>) -> Seq<ActivityRowView>
    decreases s.len(),
{
    if s.len() == 0 {
        seq![]
    } else if passes(filter, s.last().title@) {
        download_rows(s.drop_last(), filter).push(download_row(s.last()))
    } else {
        download_rows(s.drop_last(), filter)
    }
}

/// The jobs that pass the filter.
pub open spec fn job_rows(s: Seq<StoredJob>, filter: Seq<char>) -> Seq<ActivityRowView>
    decreases s.len(),
{
    if s.len() == 0 {
        seq![]
    } else if passes(filter, title_of(s.last().kind@, s.last().payload@)) {
        job_rows(s.drop_last(), filter).push(job_row(s.last()))
    } else {
        job_rows(s.drop_last(), filter)
    }
}

/// The activity page.
pub struct ActivityPage {
    pub filter: String,
    pub downloads: Vec<ActivityRow>,
    pub jobs: Vec<ActivityRow>,
}

fn show_class(state: &str) -> (r: &'static str)
    ensures
        r@ == download_class(state@),
{
    if text::same(state, "queued") {
        "queued"
    } else if text::same(state, "downloading") {
        "downloading"
    } else if text::same(state, "completed") || text::same(state, "importing") {
        "processing"
    } else if text::same(state, "imported") {
        "completed"
    } else {
        "failed"
    }
}

fn shown(filter: &str, title: &str) -> (r: bool)
    ensures
        r == passes(filter@, title@),
{
    text::empty(filter) || text::contains(text::lower(title).as_str(), filter)
}

/// The activity page: the downloads and the jobs that pass the filter.
pub fn activity_page(
    jobs: &Vec<StoredJob>,
    downloads: &Vec<StoredDownload>,
    q: &ActivityQ,
) -> (r: ActivityPage)
    ensures
        r.filter@ == filter_of(*q),
        r.downloads.deep_view() == download_rows(downloads@, filter_of(*q)),
        r.jobs.deep_view() == job_rows(jobs@, filter_of(*q)),
{
    let filter = match &q.f {
        Some(f) => text::lower(f.as_str()),
        None => text::lower(""),
    };
    let mut first: Vec<ActivityRow> = Vec::new();
    let mut i: usize = 0;
    while i < downloads.len()
        invariant
            i <= downloads.len(),
            first.deep_view() == download_rows(downloads@.take(i as int), filter@),
        decreases downloads.len() - i,
    {
        assert(downloads@.take(i + 1).drop_last() =~= downloads@.take(i as int));
        let d = &downloads[i];
        let ghost before = first.deep_view();
        if shown(filter.as_str(), d.title.as_str()) {
            let row = ActivityRow {
                title: d.title.clone(),
                kind: d.protocol.clone(),
                class: show_class(d.state.as_str()).to_string(),
                percent: d.percent,
                updated_at: d.updated_at.clone(),
                error: d.error.clone(),
                label: d.state.clone(),
            };
            let ghost rv = row.deep_view();
            first.push(row);
            assert(first.deep_view() =~= before.push(rv));
        }
        i += 1;
    }
    assert(downloads@.take(downloads@.len() as int) =~= downloads@);
    let mut second: Vec<ActivityRow> = Vec::new();
    let mut k: usize = 0;
    while k < jobs.len()
        invariant
            k <= jobs.len(),
            second.deep_view() == job_rows(jobs@.take(k as int), filter@),
        decreases jobs.len() - k,
    {
        assert(jobs@.take(k + 1).drop_last() =~= jobs@.take(k as int));
        let j = &jobs[k];
        let ghost before = second.deep_view();
        let title = job_title(j.kind.as_str(), j.payload.as_str());
        if shown(filter.as_str(), title.as_str()) {
            let status = job_status(j.kind.as_str(), j.status.as_str());
            let row = ActivityRow {
                title,
                kind: j.kind.clone(),
                class: status.class.to_string(),
                percent: status.percent as i64,
                updated_at: j.updated_at.clone(),
                error: j.error.clone(),
                label: status.label.to_string(),
            };
            let ghost rv = row.deep_view();
            second.push(row);
            assert(second.deep_view() =~= before.push(rv));
        }
        k += 1;
    }
    assert(jobs@.take(jobs@.len() as int) =~= jobs@);
    ActivityPage { filter, downloads: first, jobs: second }
}

// ---- counts and notices ----

/// The count that a navigation item shows: the unfinished jobs and downloads at
/// the activity, the unfinished acquisitions at the wanted list, nothing
/// elsewhere.
pub open spec fn badge_count(id: Seq<char>, jobs: i64, downloads: i64, acquires: i64) -> int {
    if id == "activity"@ {
        jobs + downloads
    } else if id == "wanted"@ {
        acquires as int
    } else {
        0
    }
}

/// The count that a navigation item shows; nothing where it is not positive.
pub fn nav_badge(id: &str, jobs: i64, downloads: i64, acquires: i64) -> (r: Option<String>)
    ensures
        r.deep_view() == if badge_count(id@, jobs, downloads, acquires) > 0 {
            Some(text::decimal_of(badge_count(id@, jobs, downloads, acquires)))
        } else {
            None
        },
{
    let n: i128 = if text::same(id, "activity") {
        jobs as i128 + downloads as i128
    } else if text::same(id, "wanted") {
        acquires as i128
    } else {
        0
    };
    if n > 0 {
        let mut s: String = String::new();
        text::push_decimal(&mut s, n as u64);
        assert(s@ =~= text::decimal_of(n as int));
        Some(s)
    } else {
        None
    }
}

/// A finished job in the list of notices.
pub struct Notice {
    pub ok: bool,
    pub title: String,
}

/// The notices of finished jobs: whether each went well, and its title.
pub fn notif_recent(jobs: &Vec<StoredJob>) -> (r: Vec<Notice>)
    ensures
        r.len() == jobs.len(),
        forall|i: int|
            0 <= i < jobs.len() ==> (#[trigger] r@[i]).ok == (jobs@[i].status@ == "done"@)
                && r@[i].title@ == title_of(jobs@[i].kind@, jobs@[i].payload@),
{
    let mut out: Vec<Notice> = Vec::new();
    let mut i: usize = 0;
    while i < jobs.len()
        invariant
            i <= jobs.len(),
            out.len() == i,
            forall|j: int|
                0 <= j < i ==> (#[trigger] out@[j]).ok == (jobs@[j].status@ == "done"@)
                    && out@[j].title@ == title_of(jobs@[j].kind@, jobs@[j].payload@),
        decreases jobs.len() - i,
    {
        let j = &jobs[i];
        out.push(
            Notice {
                ok: text::same(j.status.as_str(), "done"),
                title: job_title(j.kind.as_str(), j.payload.as_str()),
            },
        );
        i += 1;
    }
    out
}

// ---- what the queue does and shows ----

/// Each kind of job runs as what it is, and only a kind that there is not is
/// unknown; an acquisition whose payload is no JSON fails, and one that names no
/// query looks for nothing in particular.
pub proof fn law_run(kind: Seq<char>, payload: Seq<char>)
    ensures
        kind == "scan"@ <==> run_of(kind, payload) is Scan,
        kind == "download"@ <==> run_of(kind, payload) is Download,
        kind == "acquire"@ && json::json_in(payload) is None <==> run_of(kind, payload)
            is BadPayload,
        kind == "acquire"@ && json::json_in(payload) is Some <==> run_of(kind, payload) is Acquire,
        kind == "acquire"@ && json::json_in(payload) is Some && json::text_member(
            payload,
            "query"@,
        ) is None ==> run_of(kind, payload) == RunView::Acquire(""@),
        run_of(kind, payload) matches RunView::Unknown(e) ==> text::ends(e, kind),
{
    reveal_strlit("scan");
    reveal_strlit("download");
    reveal_strlit("acquire");
    assert("scan"@[0] == 's' && "download"@[0] == 'd' && "acquire"@[0] == 'a');
    let e = "unknown job kind: "@ + kind;
    assert(e.subrange(e.len() - kind.len(), e.len() as int) =~= kind);
}

/// A download is titled by the `title` of its payload, a scan as such, and a job
/// of an unknown kind by its kind.
pub proof fn law_titles(kind: Seq<char>, payload: Seq<char>, t: Seq<char>)
    ensures
        json::text_member(payload, "title"@) == Some(t) ==> title_of("download"@, payload) == t,
        json::text_member(payload, "title"@) is None ==> title_of("download"@, payload)
            == "Download"@,
        json::text_member(payload, "query"@) == Some(t) ==> title_of("acquire"@, payload)
            == "Acquire: "@ + t,
        json::text_member(payload, "query"@) is None ==> title_of("acquire"@, payload)
            == "Acquire"@,
        title_of("scan"@, payload) == "Library scan"@,
        kind != "scan"@ && kind != "download"@ && kind != "acquire"@ ==> title_of(kind, payload)
            == kind,
{
    reveal_strlit("scan");
    reveal_strlit("download");
    reveal_strlit("acquire");
    assert("scan"@[0] == 's' && "download"@[0] == 'd' && "acquire"@[0] == 'a');
}

/// The state of a job is shown in style, words and percent alike: queued at
/// nothing, running half way, done and failed at the end. A scan that runs is
/// processing, any other job downloads, and a state that is not known counts as
/// failed.
pub proof fn law_job_state(kind: Seq<char>, status: Seq<char>)
    ensures
        status == "queued"@ ==> job_class(kind, status) == "queued"@ && job_label(kind, status)
            == "Queued"@ && job_percent(status) == 0,
        status == "running"@ && kind == "scan"@ ==> job_class(kind, status) == "processing"@
            && job_label(kind, status) == "Processing"@,
        status == "running"@ && kind != "scan"@ ==> job_class(kind, status) == "downloading"@
            && job_label(kind, status) == "Downloading"@,
        status == "running"@ ==> job_percent(status) == 50,
        status == "done"@ ==> job_class(kind, status) == "completed"@ && job_label(kind, status)
            == "Completed"@ && job_percent(status) == 100,
        status != "queued"@ && status != "running"@ && status != "done"@ ==> job_class(kind, status)
            == "failed"@ && job_label(kind, status) == "Failed"@ && job_percent(status) == 100,
{
    reveal_strlit("queued");
    reveal_strlit("running");
    reveal_strlit("done");
    assert("queued"@[0] == 'q' && "running"@[0] == 'r' && "done"@[0] == 'd');
}

/// A download that is completed or being imported is processing, only an
/// imported one is shown as completed, and a state that is not known as failed.
pub proof fn law_download_state(state: Seq<char>)
    ensures
        download_class("queued"@) == "queued"@,
        download_class("downloading"@) == "downloading"@,
        download_class("completed"@) == "processing"@ && download_class("importing"@)
            == "processing"@,
        download_class(state) == "completed"@ <==> state == "imported"@,
        state != "queued"@ && state != "downloading"@ && state != "completed"@ && state
            != "importing"@ && state != "imported"@ ==> download_class(state) == "failed"@,
{
    reveal_strlit("queued");
    reveal_strlit("downloading");
    reveal_strlit("completed");
    reveal_strlit("importing");
    reveal_strlit("imported");
    reveal_strlit("processing");
    reveal_strlit("failed");
    assert("queued"@[0] == 'q' && "downloading"@[0] == 'd' && "completed"@[0] == 'c');
    assert("importing"@[0] == 'i' && "imported"@[0] == 'i' && "processing"@[0] == 'p');
    assert("importing"@.len() == 9 && "imported"@.len() == 8 && "failed"@[0] == 'f');
}

/// The activity page shows every download whose title passes the filter, in
/// order, with its own title, protocol, percent, error and date.
pub proof fn law_download_rows(s: Seq<StoredDownload>, filter: Seq<char>)
    ensures
        download_rows(s, filter).len() == s.filter(
            |d: StoredDownload| filter.len() == 0 || text::has(text::lowered(d.title@), filter),
        ).len(),
        forall|i: int|
            0 <= i < download_rows(s, filter).len() ==> {
                let row = #[trigger] download_rows(s, filter)[i];
                let d = s.filter(
                    |d: StoredDownload|
                        filter.len() == 0 || text::has(text::lowered(d.title@), filter),
                )[i];
                &&& row.title == d.title@ && row.kind == d.protocol@ && row.percent == d.percent
                &&& row.updated_at == d.updated_at@ && row.label == d.state@
                &&& row.class == download_class(d.state@)
                &&& d.error matches Some(e) ==> row.error == Some(e@)
                &&& d.error is None ==> row.error is None
            },
    decreases s.len(),
{
    reveal(Seq::filter);
    let keep = |d: StoredDownload|
        filter.len() == 0 || text::has(text::lowered(d.title@), filter);
    if s.len() > 0 {
        let rest = s.drop_last();
        law_download_rows(rest, filter);
        let rows = download_rows(s, filter);
        assert forall|i: int| 0 <= i < rows.len() implies {
            let row = #[trigger] rows[i];
            let d = s.filter(keep)[i];
            &&& row.title == d.title@ && row.kind == d.protocol@ && row.percent == d.percent
            &&& row.updated_at == d.updated_at@ && row.label == d.state@
            &&& row.class == download_class(d.state@)
            &&& d.error matches Some(e) ==> row.error == Some(e@)
            &&& d.error is None ==> row.error is None
        } by {
            if i < download_rows(rest, filter).len() {
                assert(rows[i] == download_rows(rest, filter)[i]);
                assert(s.filter(keep)[i] == rest.filter(keep)[i]);
            }
        }
    }
}

/// The activity page shows every job whose title passes the filter, in order,
/// with its own title, kind, error and date.
pub proof fn law_job_rows(s: Seq<StoredJob>, filter: Seq<char>)
    ensures
        job_rows(s, filter).len() == s.filter(
            |j: StoredJob|
                filter.len() == 0 || text::has(
                    text::lowered(title_of(j.kind@, j.payload@)),
                    filter,
                ),
        ).len(),
        forall|i: int|
            0 <= i < job_rows(s, filter).len() ==> {
                let row = #[trigger] job_rows(s, filter)[i];
                let j = s.filter(
                    |j: StoredJob|
                        filter.len() == 0 || text::has(
                            text::lowered(title_of(j.kind@, j.payload@)),
                            filter,
                        ),
                )[i];
                &&& row.title == title_of(j.kind@, j.payload@) && row.kind == j.kind@
                &&& row.updated_at == j.updated_at@
                &&& row.class == job_class(j.kind@, j.status@)
                &&& row.label == job_label(j.kind@, j.status@)
                &&& row.percent == job_percent(j.status@)
                &&& j.error matches Some(e) ==> row.error == Some(e@)
                &&& j.error is None ==> row.error is None
            },
    decreases s.len(),
{
    reveal(Seq::filter);
    let keep = |j: StoredJob|
        filter.len() == 0 || text::has(text::lowered(title_of(j.kind@, j.payload@)), filter);
    if s.len() > 0 {
        let rest = s.drop_last();
        law_job_rows(rest, filter);
        let rows = job_rows(s, filter);
        assert forall|i: int| 0 <= i < rows.len() implies {
            let row = #[trigger] rows[i];
            let j = s.filter(keep)[i];
            &&& row.title == title_of(j.kind@, j.payload@) && row.kind == j.kind@
            &&& row.updated_at == j.updated_at@
            &&& row.class == job_class(j.kind@, j.status@)
            &&& row.label == job_label(j.kind@, j.status@)
            &&& row.percent == job_percent(j.status@)
            &&& j.error matches Some(e) ==> row.error == Some(e@)
            &&& j.error is None ==> row.error is None
        } by {
            if i < job_rows(rest, filter).len() {
                assert(rows[i] == job_rows(rest, filter)[i]);
                assert(s.filter(keep)[i] == rest.filter(keep)[i]);
            }
        }
    }
}

/// The filter is what was asked for in lowercase; without one everything is
/// shown.
pub proof fn law_filter(q: ActivityQ, title: Seq<char>)
    ensures
        q.f matches Some(f) ==> filter_of(q) == text::lowered(f@),
        q.f is None ==> passes(filter_of(q), title),
{
    reveal_strlit("");
    assert(""@.len() == 0);
    text::law_lowered_ascii(""@);
}

/// The badge of the activity counts jobs and downloads together, that of the
/// wanted list the acquisitions, and no other item has one.
pub proof fn law_badge(id: Seq<char>, jobs: i64, downloads: i64, acquires: i64)
    ensures
        badge_count("activity"@, jobs, downloads, acquires) == jobs + downloads,
        badge_count("wanted"@, jobs, downloads, acquires) == acquires,
        id != "activity"@ && id != "wanted"@ ==> badge_count(id, jobs, downloads, acquires) == 0,
{
    reveal_strlit("activity");
    reveal_strlit("wanted");
    assert("activity"@.len() == 8 && "wanted"@.len() == 6);
}

/// Every part of a row of the activity page is seen as itself.
pub proof fn law_activity_row_view(x: ActivityRow)
    ensures
        x.deep_view().title == x.title@,
        x.deep_view().kind == x.kind@,
        x.deep_view().class == x.class@,
        x.deep_view().percent == x.percent,
        x.deep_view().updated_at == x.updated_at@,
        x.deep_view().error == x.error.deep_view(),
        x.deep_view().label == x.label@,
{
}

/// A job has failed exactly where it ended with an error, which is kept.
pub proof fn law_finish(error: &Option<String>, r: (String, Option<String>))
    requires
        call_ensures(finish, (error,), r),
    ensures
        r.0@ == "failed"@ <==> error is Some,
        r.0@ == "done"@ <==> error is None,
        r.1.deep_view() == error.deep_view(),
{
    reveal_strlit("failed");
    reveal_strlit("done");
    assert("failed"@[0] == 'f' && "done"@[0] == 'd');
}

/// A badge is shown only where it counts something, and tells just that number;
/// every job has a notice, which is a good one only for a job that is done.
pub proof fn law_notices(
    id: &str,
    waiting: i64,
    downloads: i64,
    acquires: i64,
    badge: Option<String>,
    jobs: &Vec<StoredJob>,
    notices: Vec<Notice>,
    i: int,
)
    requires
        call_ensures(nav_badge, (id, waiting, downloads, acquires), badge),
        call_ensures(notif_recent, (jobs,), notices),
        0 <= i < jobs.len(),
    ensures
        badge is Some <==> badge_count(id@, waiting, downloads, acquires) > 0,
        badge matches Some(n) ==> n@ == text::decimal_of(
            badge_count(id@, waiting, downloads, acquires),
        ),
        notices.len() == jobs.len(),
        notices@[i].ok <==> jobs@[i].status@ == "done"@,
        notices@[i].title@ == title_of(jobs@[i].kind@, jobs@[i].payload@),
{
    assert(notices@[i].title@ == title_of(jobs@[i].kind@, jobs@[i].payload@));
}

} // verus!
