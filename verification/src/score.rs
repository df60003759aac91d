//! Scoring of releases against a quality profile: hard rejects (forbidden and
//! missing words, size range, seeders, format) and, from a base of 100, bonuses
//! for the format, for preferred words and for seeders.

use vstd::prelude::*;
use vstd::string::*;
use crate::indexer::{Release, ReleaseView};
use crate::indexer;
use crate::text;

verus! {

// ---- data ----

/// A quality profile. Sizes are in bytes.
#[derive(Debug)]
pub struct Profile {
    pub id: i64,
    pub name: String,
    /// The allowed formats, comma-separated.
    pub formats: String,
    /// The format from which on a book is good enough.
    pub cutoff: String,
    pub min_size: Option<i64>,
    pub max_size: Option<i64>,
    pub preferred_words: Option<String>,
    pub must_contain: Option<String>,
    pub must_not_contain: Option<String>,
    pub min_seeders: i64,
    pub is_default: i64,
}

/// The score of a release, and why it is rejected, if it is.
#[derive(Debug, PartialEq)]
pub struct Scored {
    pub total: i64,
    pub rejected: Option<String>,
}

#[verifier::ext_equal]
pub struct ScoredView {
    pub total: i64,
    pub rejected: Option<Seq<char>>,
}

impl DeepView for Scored {
    type V = ScoredView;

    open spec fn deep_view(&self) -> ScoredView {
        ScoredView { total: self.total, rejected: self.rejected.deep_view() }
    }
}

// ---- formats ----

/// How good an ebook format is; unknown formats rank zero.
pub open spec fn rank(fmt: Seq<char>) -> i64 {
    if fmt == "epub"@ {
        100
    } else if fmt == "azw3"@ {
        90
    } else if fmt == "mobi"@ {
        80
    } else if fmt == "pdf"@ {
        60
    } else if fmt == "cbz"@ || fmt == "cbr"@ {
        50
    } else if fmt == "txt"@ {
        30
    } else {
        0
    }
}

/// Higher is the better ebook format. Unknown formats rank zero.
pub fn format_rank(fmt: &str) -> (r: i64)
    ensures
        r == rank(fmt@),
        0 <= r <= 100,
{
    if text::same(fmt, "epub") {
        100
    } else if text::same(fmt, "azw3") {
        90
    } else if text::same(fmt, "mobi") {
        80
    } else if text::same(fmt, "pdf") {
        60
    } else if text::same(fmt, "cbz") || text::same(fmt, "cbr") {
        50
    } else if text::same(fmt, "txt") {
        30
    } else {
        0
    }
}

/// The ladder of formats: epub over azw3 over mobi over pdf over the comic
/// formats over txt, and every known format over an unknown one.
pub proof fn law_format_ladder(fmt: Seq<char>)
    ensures
        rank("epub"@) > rank("azw3"@) > rank("mobi"@) > rank("pdf"@) > rank("cbz"@),
        rank("cbz"@) == rank("cbr"@),
        rank("cbr"@) > rank("txt"@) > 0,
        rank(fmt) == 0 <==> !(fmt == "epub"@ || fmt == "azw3"@ || fmt == "mobi"@ || fmt == "pdf"@
            || fmt == "cbz"@ || fmt == "cbr"@ || fmt == "txt"@),
{
    reveal_strlit("epub");
    reveal_strlit("azw3");
    reveal_strlit("mobi");
    reveal_strlit("pdf");
    reveal_strlit("cbz");
    reveal_strlit("cbr");
    reveal_strlit("txt");
    assert("epub"@[0] == 'e' && "azw3"@[0] == 'a' && "mobi"@[0] == 'm' && "pdf"@[0] == 'p'
        && "cbz"@[0] == 'c' && "cbr"@[0] == 'c' && "txt"@[0] == 't');
}

/// Position `i` of `s` is outside the text or holds no letter or digit.
pub open spec fn boundary(s: Seq<char>, i: int) -> bool {
    i < 0 || i >= s.len() || !text::is_word_char(s[i])
}

/// `w` stands in `s` as a word: no ASCII letter or digit touches it.
pub open spec fn word_at(s: Seq<char>, w: Seq<char>, i: int) -> bool {
    text::occurs_at(s, w, i) && boundary(s, i - 1) && boundary(s, i + w.len())
}

pub open spec fn has_word(s: Seq<char>, w: Seq<char>) -> bool {
    exists|i: int| #[trigger] word_at(s, w, i)
}

/// The best format that the title names as a word, in any case.
pub open spec fn detected(title: Seq<char>) -> Option<Seq<char>> {
    let t = text::lowered(title);
    if has_word(t, "epub"@) {
        Some("epub"@)
    } else if has_word(t, "azw3"@) {
        Some("azw3"@)
    } else if has_word(t, "mobi"@) {
        Some("mobi"@)
    } else if has_word(t, "pdf"@) {
        Some("pdf"@)
    } else if has_word(t, "cbz"@) {
        Some("cbz"@)
    } else if has_word(t, "cbr"@) {
        Some("cbr"@)
    } else if has_word(t, "txt"@) {
        Some("txt"@)
    } else {
        None
    }
}

fn names_word(s: &[char], word: &str) -> (r: bool)
    ensures
        r == has_word(s@, word@),
{
    let w = text::chars_of(word);
    let mut i: usize = 0;
    while i <= s.len() && w.len() <= s.len() - i
        invariant
            w@ == word@,
            i <= s@.len() + 1,
            s@.len() == s.len(),
            forall|j: int| 0 <= j < i ==> !#[trigger] word_at(s@, w@, j),
        decreases s@.len() + 1 - i,
    {
        if text::matches_at(s, &w, i) && (i == 0 || !text::word_char(s[i - 1])) && (i + w.len() >= s.len()
            || !text::word_char(s[i + w.len()])) {
            assert(word_at(s@, w@, i as int));
            return true;
        }
        if i == s.len() {
            assert forall|j: int| !#[trigger] word_at(s@, w@, j) by {}
            return false;
        }
        i += 1;
    }
    false
}

/// The first known format that a release title names as a word, in any case.
pub fn detect_format(title: &str) -> (r: Option<&'static str>)
    ensures
        match r {
            Some(f) => detected(title@) == Some(f@),
            None => detected(title@) is None,
        },
{
    let t = text::chars_of(text::lower(title).as_str());
    if names_word(&t, "epub") {
        Some("epub")
    } else if names_word(&t, "azw3") {
        Some("azw3")
    } else if names_word(&t, "mobi") {
        Some("mobi")
    } else if names_word(&t, "pdf") {
        Some("pdf")
    } else if names_word(&t, "cbz") {
        Some("cbz")
    } else if names_word(&t, "cbr") {
        Some("cbr")
    } else if names_word(&t, "txt") {
        Some("txt")
    } else {
        None
    }
}

// ---- word lists ----

/// The parts, trimmed and in lowercase, without those that are then empty.
pub open spec fn tidied(parts: Seq<Seq<char>>) -> Seq<Seq<char>>
    decreases parts.len(),
{
    if parts.len() == 0 {
        seq![]
    } else {
        let word = text::lowered(text::trimmed(parts.last()));
        if word.len() > 0 {
            tidied(parts.drop_last()).push(word)
        } else {
            tidied(parts.drop_last())
        }
    }
}

/// The words of a comma-separated list, in lowercase.
pub open spec fn listed(list: Option<Seq<char>>) -> Seq<Seq<char>> {
    match list {
        Some(s) => tidied(text::pieces(s, ',')),
        None => tidied(text::pieces(""@, ',')),
    }
}

/// The words of a comma-separated list, in lowercase.
pub fn words(list: &Option<String>) -> (r: Vec<String>)
    ensures
        r.deep_view() == listed(list.deep_view()),
{
    let parts = match list {
        Some(s) => text::split(s.as_str(), ','),
        None => text::split("", ','),
    };
    let ghost all = parts.deep_view();
    let mut out: Vec<String> = Vec::new();
    let mut i: usize = 0;
    while i < parts.len()
        invariant
            all == parts.deep_view(),
            i <= parts.len(),
            out.deep_view() == tidied(all.take(i as int)),
        decreases parts.len() - i,
    {
        assert(all.take(i + 1).drop_last() =~= all.take(i as int));
        assert(all[i as int] == parts@[i as int]@);
        let ghost before = out.deep_view();
        let word = text::lower(text::trim(parts[i].as_str()).as_str());
        if !text::empty(word.as_str()) {
            out.push(word);
            assert(out.deep_view() =~= before.push(word@));
        }
        i += 1;
    }
    assert(all.take(all.len() as int) =~= all);
    out
}

/// The first of `ws` that stands in `title`, or that does not, as `present` says.
pub open spec fn first_word(ws: Seq<Seq<char>>, title: Seq<char>, present: bool) -> Option<
    Seq<char>,
>
    decreases ws.len(),
{
    if ws.len() == 0 {
        None
    } else if text::has(title, ws[0]) == present {
        Some(ws[0])
    } else {
        first_word(ws.skip(1), title, present)
    }
}

/// How many of `ws` stand in `title`.
pub open spec fn matching(ws: Seq<Seq<char>>, title: Seq<char>) -> nat
    decreases ws.len(),
{
    if ws.len() == 0 {
        0
    } else {
        matching(ws.drop_last(), title) + if text::has(title, ws.last()) {
            1nat
        } else {
            0nat
        }
    }
}

fn find_word(ws: &Vec<String>, title: &str, present: bool) -> (r: Option<String>)
    ensures
        r.deep_view() == first_word(ws.deep_view(), title@, present),
{
    let ghost all = ws.deep_view();
    let mut i: usize = 0;
    assert(all.skip(0) =~= all);
    while i < ws.len()
        invariant
            all == ws.deep_view(),
            i <= ws.len(),
            first_word(all, title@, present) == first_word(all.skip(i as int), title@, present),
        decreases ws.len() - i,
    {
        assert(all[i as int] == ws@[i as int]@);
        assert(all.skip(i as int).skip(1) =~= all.skip(i + 1));
        if text::contains(title, ws[i].as_str()) == present {
            return Some(ws[i].clone());
        }
        i += 1;
    }
    None
}

fn count_matching(ws: &Vec<String>, title: &str) -> (r: usize)
    ensures
        r == matching(ws.deep_view(), title@),
{
    let ghost all = ws.deep_view();
    let mut n: usize = 0;
    let mut i: usize = 0;
    while i < ws.len()
        invariant
            all == ws.deep_view(),
            i <= ws.len(),
            n <= i,
            n == matching(all.take(i as int), title@),
        decreases ws.len() - i,
    {
        assert(all.take(i + 1).drop_last() =~= all.take(i as int));
        assert(all[i as int] == ws@[i as int]@);
        if text::contains(title, ws[i].as_str()) {
            n += 1;
        }
        i += 1;
    }
    assert(all.take(all.len() as int) =~= all);
    n
}

// ---- scoring ----

pub open spec fn rejection(why: Seq<char>) -> ScoredView {
    ScoredView { total: -1i64, rejected: Some(why) }
}

/// Why the size of a release rules it out; a release without a size is not.
pub open spec fn size_rejection(size: Option<i64>, p: Profile) -> Option<Seq<char>> {
    match size {
        Some(bytes) => if p.min_size is Some && bytes < p.min_size->0 {
            Some("below minimum size"@)
        } else if p.max_size is Some && bytes > p.max_size->0 {
            Some("above maximum size"@)
        } else {
            None
        },
        None => None,
    }
}

/// The points of a release that is not rejected: a base of 100; a fifth of the
/// rank of its format, or eight less where it states none; five for each
/// preferred word; and one for each seeder up to ten.
pub open spec fn points(r: ReleaseView, p: Profile) -> int {
    100 + (match detected(r.title) {
        Some(f) => rank(f) as int / 5,
        None => -8,
    }) + 5 * matching(listed(p.preferred_words.deep_view()), text::lowered(r.title)) + if indexer::seeds(r) < 10 {
        indexer::seeds(r) as int
    } else {
        10
    }
}

/// The score of a release: the first of the rejections that applies, else its
/// points.
pub open spec fn score_of(r: ReleaseView, p: Profile) -> ScoredView {
    let title = text::lowered(r.title);
    let forbidden = first_word(listed(p.must_not_contain.deep_view()), title, true);
    let missing = first_word(listed(p.must_contain.deep_view()), title, false);
    let size = size_rejection(r.size, p);
    let format = detected(r.title);
    if forbidden is Some {
        rejection("contains forbidden word '"@ + forbidden->0 + "'"@)
    } else if missing is Some {
        rejection("missing required word '"@ + missing->0 + "'"@)
    } else if size is Some {
        rejection(size->0)
    } else if r.protocol == "torrent"@ && indexer::seeds(r) < p.min_seeders {
        rejection("not enough seeders"@)
    } else if format is Some && !listed(Some(p.formats@)).contains(format->0) {
        rejection("format '"@ + format->0 + "' not allowed by profile"@)
    } else {
        ScoredView {
            total: if points(r, p) > i64::MAX {
                i64::MAX
            } else {
                points(r, p) as i64
            },
            rejected: None,
        }
    }
}

fn reject(why: String) -> (r: Scored)
    ensures
        r.deep_view() == rejection(why@),
{
    Scored { total: -1, rejected: Some(why) }
}

fn quoting(before: &str, word: &str, after: &str) -> (r: String)
    ensures
        r@ == before@ + word@ + after@,
{
    let mut s = before.to_string();
    s.append(word);
    s.append(after);
    s
}

fn lists(ws: &Vec<String>, word: &str) -> (r: bool)
    ensures
        r == ws.deep_view().contains(word@),
{
    let mut i: usize = 0;
    while i < ws.len()
        invariant
            i <= ws.len(),
            forall|j: int| 0 <= j < i ==> #[trigger] ws.deep_view()[j] != word@,
        decreases ws.len() - i,
    {
        assert(ws.deep_view()[i as int] == ws@[i as int]@);
        if text::same(ws[i].as_str(), word) {
            return true;
        }
        i += 1;
    }
    false
}

/// Scores a release against a profile.
pub fn score(rel: &Release, p: &Profile) -> (r: Scored)
    ensures
        r.deep_view() == score_of(rel.deep_view(), *p),
{
    let title = text::lower(rel.title.as_str());
    if let Some(w) = find_word(&words(&p.must_not_contain), title.as_str(), true) {
        return reject(quoting("contains forbidden word '", w.as_str(), "'"));
    }
    if let Some(w) = find_word(&words(&p.must_contain), title.as_str(), false) {
        return reject(quoting("missing required word '", w.as_str(), "'"));
    }
    if let Some(bytes) = rel.size {
        if let Some(min) = p.min_size {
            if bytes < min {
                return reject("below minimum size".to_string());
            }
        }
        if let Some(max) = p.max_size {
            if bytes > max {
                return reject("above maximum size".to_string());
            }
        }
    }
    let seeders: i64 = match rel.seeders {
        Some(n) => n,
        None => 0,
    };
    if text::same(rel.protocol.as_str(), "torrent") && seeders < p.min_seeders {
        return reject("not enough seeders".to_string());
    }
    let mut total: i128 = 100;
    match detect_format(rel.title.as_str()) {
        Some(f) => {
            if !lists(&words(&Some(p.formats.clone())), f) {
                return reject(quoting("format '", f, "' not allowed by profile"));
            }
            total += (format_rank(f) / 5) as i128;
        },
        None => {
            total -= 8;
        },
    }
    let preferred = count_matching(&words(&p.preferred_words), title.as_str());
    total += 5 * (preferred as i128);
    total += if seeders < 10 {
        seeders as i128
    } else {
        10
    };
    let total: i64 = if total > i64::MAX as i128 {
        i64::MAX
    } else {
        total as i64
    };
    Scored { total, rejected: None }
}

/// A release that is not a torrent and states no size is exempt from the
/// seeder and size rejections: words and format alone can rule it out.
pub proof fn law_usenet_exempt(r: ReleaseView, p: Profile)
    requires
        r.protocol != "torrent"@,
        r.size is None,
        first_word(listed(p.must_not_contain.deep_view()), text::lowered(r.title), true) is None,
        first_word(listed(p.must_contain.deep_view()), text::lowered(r.title), false) is None,
        detected(r.title) is Some ==> listed(Some(p.formats@)).contains(detected(r.title)->0),
    ensures
        score_of(r, p).rejected is None,
{
}

/// Every rejected release scores -1.
pub proof fn law_rejected_total(r: ReleaseView, p: Profile)
    ensures
        score_of(r, p).rejected is Some ==> score_of(r, p).total == -1,
{
}

/// The better format scores more: of two releases that are not rejected, name a
/// format each, and are alike in seeders and preferred words, the one whose
/// format ranks higher has the higher score.
pub proof fn law_better_format(a: ReleaseView, b: ReleaseView, p: Profile)
    requires
        score_of(a, p).rejected is None,
        score_of(b, p).rejected is None,
        detected(a.title) is Some,
        detected(b.title) is Some,
        rank(detected(a.title)->0) > rank(detected(b.title)->0),
        indexer::seeds(a) == indexer::seeds(b),
        matching(listed(p.preferred_words.deep_view()), text::lowered(a.title)) == matching(
            listed(p.preferred_words.deep_view()),
            text::lowered(b.title),
        ),
        points(a, p) <= i64::MAX,
    ensures
        score_of(a, p).total > score_of(b, p).total,
{
}

// ---- choosing ----

/// The views of releases.
pub open spec fn release_views(s: Seq<Release>) -> Seq<ReleaseView> {
    s.map_values(|r: Release| r.deep_view())
}

/// The position of the best of the first `n` releases: the last one that is
/// not rejected and scores no less than any other that is not.
pub open spec fn best_of(s: Seq<ReleaseView>, p: Profile, n: int) -> Option<int>
    decreases n,
{
    if n <= 0 {
        None
    } else {
        let last = score_of(s[n - 1], p);
        let best = best_of(s, p, n - 1);
        if last.rejected is None && (best is None || score_of(s[best->0], p).total <= last.total) {
            Some(n - 1)
        } else {
            best
        }
    }
}

/// The best release that is not rejected, and its score.
pub fn pick_best<'a>(releases: &'a [Release], p: &Profile) -> (r: Option<(&'a Release, i64)>)
    ensures
        match best_of(release_views(releases@), *p, releases@.len() as int) {
            Some(i) => r matches Some((release, total)) && *release == releases@[i] && total
                == score_of(releases@[i].deep_view(), *p).total,
            None => r is None,
        },
{
    let ghost views = release_views(releases@);
    let mut best: Option<(usize, i64)> = None;
    let mut i: usize = 0;
    while i < releases.len()
        invariant
            views == release_views(releases@),
            i <= releases@.len(),
            match best {
                Some((k, total)) => k < i && best_of(views, *p, i as int) == Some(k as int)
                    && total == score_of(views[k as int], *p).total,
                None => best_of(views, *p, i as int) is None,
            },
        decreases releases@.len() - i,
    {
        assert(views[i as int] == releases@[i as int].deep_view());
        let s = score(&releases[i], p);
        if s.rejected.is_none() {
            let better = match best {
                Some((_, total)) => total <= s.total,
                None => true,
            };
            if better {
                best = Some((i, s.total));
            }
        }
        i += 1;
    }
    match best {
        Some((k, total)) => Some((&releases[k], total)),
        None => None,
    }
}

/// What is picked is not rejected and scores at least as much as everything
/// else that is not; nothing is picked only where everything is rejected.
pub proof fn law_best(s: Seq<ReleaseView>, p: Profile, n: int)
    requires
        0 <= n <= s.len(),
    ensures
        match best_of(s, p, n) {
            Some(i) => {
                &&& 0 <= i < n
                &&& score_of(s[i], p).rejected is None
                &&& forall|j: int|
                    0 <= j < n && score_of(#[trigger] s[j], p).rejected is None ==> score_of(
                        s[j],
                        p,
                    ).total <= score_of(s[i], p).total
            },
            None => forall|j: int|
                0 <= j < n ==> score_of(#[trigger] s[j], p).rejected is Some,
        },
    decreases n,
{
    if n > 0 {
        law_best(s, p, n - 1);
    }
}

// ---- profiles ----

/// The profile that stands in where none is stored.
pub fn fallback_profile() -> (r: Profile)
    ensures
        r.id == 0,
        r.name@ == "fallback"@,
        r.formats@ == "epub,azw3,mobi,pdf"@,
        r.cutoff@ == "epub"@,
        r.min_size is None,
        r.max_size is None,
        r.preferred_words is None,
        r.must_contain is None,
        r.must_not_contain is None,
        r.min_seeders == 1,
        r.is_default == 1,
{
    Profile {
        id: 0,
        name: "fallback".to_string(),
        formats: "epub,azw3,mobi,pdf".to_string(),
        cutoff: "epub".to_string(),
        min_size: None,
        max_size: None,
        preferred_words: None,
        must_contain: None,
        must_not_contain: None,
        min_seeders: 1,
        is_default: 1,
    }
}

/// The position of the profile that a list of stored profiles has as its
/// default: of those with the highest `is_default`, the one with the lowest id,
/// and of several with that id the first.
pub open spec fn default_position(s: Seq<Profile>, n: int) -> Option<int>
    decreases n,
{
    if n <= 0 {
        None
    } else {
        match default_position(s, n - 1) {
            Some(k) => if s[n - 1].is_default > s[k].is_default || (s[n - 1].is_default
                == s[k].is_default && s[n - 1].id < s[k].id) {
                Some(n - 1)
            } else {
                Some(k)
            },
            None => Some(n - 1),
        }
    }
}

/// The position of the default profile, if any profile is stored.
pub fn default_profile(profiles: &Vec<Profile>) -> (r: Option<usize>)
    ensures
        match r {
            Some(k) => k < profiles.len() && default_position(
                profiles@,
                profiles@.len() as int,
            ) == Some(k as int),
            None => profiles.len() == 0,
        },
{
    let mut best: Option<usize> = None;
    let mut i: usize = 0;
    while i < profiles.len()
        invariant
            i <= profiles.len(),
            match best {
                Some(k) => k < i && default_position(profiles@, i as int) == Some(k as int),
                None => i == 0,
            },
        decreases profiles.len() - i,
    {
        best = match best {
            Some(k) => if profiles[i].is_default > profiles[k].is_default || (
            profiles[i].is_default == profiles[k].is_default && profiles[i].id < profiles[k].id) {
                Some(i)
            } else {
                Some(k)
            },
            None => Some(i),
        };
        i += 1;
    }
    best
}

/// The default is a profile with the highest `is_default`, and among those the
/// one with the lowest id.
pub proof fn law_default_profile(s: Seq<Profile>, n: int)
    requires
        0 < n <= s.len(),
    ensures
        default_position(s, n) matches Some(k) && 0 <= k < n && forall|j: int|
            0 <= j < n ==> (#[trigger] s[j]).is_default < s[k].is_default || (s[j].is_default
                == s[k].is_default && s[k].id <= s[j].id),
    decreases n,
{
    if n > 1 {
        law_default_profile(s, n - 1);
    } else {
        assert(default_position(s, 0) is None);
    }
}

/// The first stored profile with the given id.
pub open spec fn profile_position(s: Seq<Profile>, id: i64, n: int) -> Option<int>
    decreases n,
{
    if n <= 0 {
        None
    } else {
        match profile_position(s, id, n - 1) {
            Some(k) => Some(k),
            None => if s[n - 1].id == id {
                Some(n - 1)
            } else {
                None
            },
        }
    }
}

/// The position of the profile for a book: its own, where it has one that is
/// stored, else the default.
pub fn profile_for(profiles: &Vec<Profile>, book_profile: Option<i64>) -> (r: Option<usize>)
    ensures
        ({
            let n = profiles@.len() as int;
            let own = match book_profile {
                Some(id) => profile_position(profiles@, id, n),
                None => None,
            };
            let wanted = if own is Some {
                own
            } else {
                default_position(profiles@, n)
            };
            match r {
                Some(k) => k < profiles.len() && wanted == Some(k as int),
                None => wanted is None,
            }
        }),
{
    if let Some(id) = book_profile {
        let mut i: usize = 0;
        while i < profiles.len()
            invariant
                book_profile == Some(id),
                i <= profiles.len(),
                profile_position(profiles@, id, i as int) is None,
            decreases profiles.len() - i,
        {
            if profiles[i].id == id {
                proof {
                    lemma_profile_position(profiles@, id, i + 1, profiles@.len() as int);
                }
                return Some(i);
            }
            i += 1;
        }
    }
    default_profile(profiles)
}

proof fn lemma_profile_position(s: Seq<Profile>, id: i64, m: int, n: int)
    requires
        0 <= m <= n,
        profile_position(s, id, m) is Some,
    ensures
        profile_position(s, id, n) == profile_position(s, id, m),
    decreases n - m,
{
    if m < n {
        lemma_profile_position(s, id, m, n - 1);
    }
}

/// The form that adds a profile. Sizes are in mebibytes, as typed.
pub struct ProfileForm {
    pub name: String,
    pub formats: Option<String>,
    pub cutoff: Option<String>,
    pub min_size_mb: Option<String>,
    pub max_size_mb: Option<String>,
    pub preferred_words: Option<String>,
    pub must_contain: Option<String>,
    pub must_not_contain: Option<String>,
    pub min_seeders: Option<i64>,
}

/// The form that names a profile.
pub struct IdForm {
    pub id: i64,
}

/// The values of a new profile. The sizes are still text, to be read as
/// decimal fractions of mebibytes.
pub struct NewProfile {
    pub name: String,
    pub formats: String,
    pub cutoff: String,
    pub min_size_mb: Option<String>,
    pub max_size_mb: Option<String>,
    pub preferred_words: Option<String>,
    pub must_contain: Option<String>,
    pub must_not_contain: Option<String>,
    pub min_seeders: i64,
}

/// The text of a form field, or `default` where it is absent or blank.
pub open spec fn filled_or(field: Option<Seq<char>>, default: Seq<char>) -> Seq<char> {
    match text::filled(field) {
        Some(s) => s,
        None => default,
    }
}

fn blank_or(field: &Option<String>, default: &str) -> (r: String)
    ensures
        r@ == filled_or(field.deep_view(), default@),
{
    match text::blank(field) {
        Some(s) => s,
        None => default.to_string(),
    }
}

/// Tidies the form that adds a profile.
pub fn add(f: &ProfileForm) -> (r: NewProfile)
    ensures
        r.name@ == text::trimmed(f.name@),
        r.formats@ == filled_or(f.formats.deep_view(), "epub,azw3,mobi,pdf"@),
        r.cutoff@ == filled_or(f.cutoff.deep_view(), "epub"@),
        r.min_size_mb.deep_view() == text::filled(f.min_size_mb.deep_view()),
        r.max_size_mb.deep_view() == text::filled(f.max_size_mb.deep_view()),
        r.preferred_words.deep_view() == text::filled(f.preferred_words.deep_view()),
        r.must_contain.deep_view() == text::filled(f.must_contain.deep_view()),
        r.must_not_contain.deep_view() == text::filled(f.must_not_contain.deep_view()),
        r.min_seeders == match f.min_seeders {
            Some(n) => n,
            None => 1,
        },
{
    NewProfile {
        name: text::trim(f.name.as_str()),
        formats: blank_or(&f.formats, "epub,azw3,mobi,pdf"),
        cutoff: blank_or(&f.cutoff, "epub"),
        min_size_mb: text::blank(&f.min_size_mb),
        max_size_mb: text::blank(&f.max_size_mb),
        preferred_words: text::blank(&f.preferred_words),
        must_contain: text::blank(&f.must_contain),
        must_not_contain: text::blank(&f.must_not_contain),
        min_seeders: match f.min_seeders {
            Some(n) => n,
            None => 1,
        },
    }
}

/// One profile on the settings page.
pub struct ProfileRow {
    pub id: i64,
    pub name: String,
    pub is_default: bool,
    pub line: String,
    /// What removing the profile asks; the default profile cannot be removed.
    pub confirm: Option<String>,
}

#[verifier::ext_equal]
pub struct ProfileRowView {
    pub id: i64,
    pub name: Seq<char>,
    pub is_default: bool,
    pub line: Seq<char>,
    pub confirm: Option<Seq<char>>,
}

impl DeepView for ProfileRow {
    type V = ProfileRowView;

    open spec fn deep_view(&self) -> ProfileRowView {
        ProfileRowView {
            id: self.id,
            name: self.name@,
            is_default: self.is_default,
            line: self.line@,
            confirm: self.confirm.deep_view(),
        }
    }
}

/// The line that sums a profile up.
pub open spec fn profile_line(p: Profile) -> Seq<char> {
    "formats "@ + p.formats@ + " · cutoff "@ + p.cutoff@ + " · min seeders "@ + text::decimal_of(
        p.min_seeders as int,
    ) + match p.preferred_words {
        Some(w) => " · prefers: "@ + w@,
        None => seq![],
    }
}

/// How a profile is shown on the settings page.
pub open spec fn profile_row(p: Profile) -> ProfileRowView {
    ProfileRowView {
        id: p.id,
        name: p.name@,
        is_default: p.is_default == 1,
        line: profile_line(p),
        confirm: if p.is_default != 1 {
            Some("Delete profile "@ + p.name@ + "?"@)
        } else {
            None
        },
    }
}

fn describe(p: &Profile) -> (r: String)
    ensures
        r@ == profile_line(*p),
{
    let mut line = "formats ".to_string();
    line.append(p.formats.as_str());
    line.append(" · cutoff ");
    line.append(p.cutoff.as_str());
    line.append(" · min seeders ");
    line.append(text::decimal(p.min_seeders).as_str());
    let ghost base = line@;
    if let Some(w) = &p.preferred_words {
        line.append(" · prefers: ");
        line.append(w.as_str());
        assert(line@ =~= base + (" · prefers: "@ + w@));
    } else {
        assert(line@ =~= base + seq![]);
    }
    line
}

/// The profiles tab of the settings.
pub fn profiles_body(profiles: &Vec<Profile>) -> (r: Vec<ProfileRow>)
    ensures
        r.deep_view() == profiles@.map_values(|p: Profile| profile_row(p)),
{
    let mut rows: Vec<ProfileRow> = Vec::new();
    let mut i: usize = 0;
    while i < profiles.len()
        invariant
            i <= profiles.len(),
            rows.len() == i,
            forall|j: int|
                0 <= j < i ==> (#[trigger] rows@[j]).deep_view() == profile_row(profiles@[j]),
        decreases profiles.len() - i,
    {
        let p = &profiles[i];
        rows.push(
            ProfileRow {
                id: p.id,
                name: p.name.clone(),
                is_default: p.is_default == 1,
                line: describe(p),
                confirm: if p.is_default != 1 {
                    Some(quoting("Delete profile ", p.name.as_str(), "?"))
                } else {
                    None
                },
            },
        );
        i += 1;
    }
    assert(rows.deep_view() =~= profiles@.map_values(|p: Profile| profile_row(p)));
    rows
}

// ---- what decides about a release ----

proof fn lemma_first_word(ws: Seq<Seq<char>>, title: Seq<char>, present: bool)
    ensures
        match first_word(ws, title, present) {
            Some(w) => ws.contains(w) && text::has(title, w) == present,
            None => forall|i: int|
                0 <= i < ws.len() ==> text::has(title, #[trigger] ws[i]) != present,
        },
    decreases ws.len(),
{
    if ws.len() > 0 {
        let rest = ws.skip(1);
        lemma_first_word(rest, title, present);
        if text::has(title, ws[0]) != present {
            if let Some(w) = first_word(rest, title, present) {
                let i = choose|i: int| 0 <= i < rest.len() && rest[i] == w;
                assert(ws[i + 1] == w);
            } else {
                assert forall|i: int| 0 <= i < ws.len() implies text::has(title, #[trigger] ws[i])
                    != present by {
                    if i > 0 {
                        assert(ws[i] == rest[i - 1]);
                    }
                }
            }
        }
    }
}

/// A release that states a size is held to the profile's limits whatever its
/// protocol: above the maximum or below the minimum it is rejected.
pub proof fn law_size_limits(r: ReleaseView, p: Profile, bytes: i64)
    requires
        r.size == Some(bytes),
        (p.max_size matches Some(max) && bytes > max) || (p.min_size matches Some(min) && bytes
            < min),
    ensures
        score_of(r, p).rejected is Some,
{
}

/// A release is rejected exactly where one of these holds: its title has a word
/// that the profile forbids; it lacks one that the profile demands; it states a
/// size outside the limits; it is a torrent with too few seeders; or its title
/// names a format that the profile does not allow.
pub proof fn law_rejected(r: ReleaseView, p: Profile)
    ensures
        score_of(r, p).rejected is Some <==> {
            ||| exists|i: int|
                0 <= i < listed(p.must_not_contain.deep_view()).len() && text::has(
                    text::lowered(r.title),
                    #[trigger] listed(p.must_not_contain.deep_view())[i],
                )
            ||| exists|i: int|
                0 <= i < listed(p.must_contain.deep_view()).len() && !text::has(
                    text::lowered(r.title),
                    #[trigger] listed(p.must_contain.deep_view())[i],
                )
            ||| r.size matches Some(n) && p.min_size matches Some(min) && n < min
            ||| r.size matches Some(n) && p.max_size matches Some(max) && n > max
            ||| r.protocol == "torrent"@ && (match r.seeders {
                Some(n) => n,
                None => 0,
            }) < p.min_seeders
            ||| detected(r.title) matches Some(f) && !listed(Some(p.formats@)).contains(f)
        },
{
    let title = text::lowered(r.title);
    let bad = listed(p.must_not_contain.deep_view());
    let needed = listed(p.must_contain.deep_view());
    lemma_first_word(bad, title, true);
    lemma_first_word(needed, title, false);
    if let Some(w) = first_word(bad, title, true) {
        let i = choose|i: int| 0 <= i < bad.len() && bad[i] == w;
        assert(text::has(title, bad[i]));
    }
    if let Some(w) = first_word(needed, title, false) {
        let i = choose|i: int| 0 <= i < needed.len() && needed[i] == w;
        assert(!text::has(title, needed[i]));
    }
}

/// The number of preferred words that a title has is that of the words of the
/// list which stand in it.
pub proof fn law_matching(ws: Seq<Seq<char>>, title: Seq<char>)
    ensures
        matching(ws, title) == ws.filter(|w: Seq<char>| text::has(title, w)).len(),
    decreases ws.len(),
{
    reveal(Seq::filter);
    if ws.len() > 0 {
        law_matching(ws.drop_last(), title);
    }
}

/// The total of a release that is not rejected: from 100, a fifth of the rank of
/// the format that its title names, or eight less where it names none; five more
/// for each preferred word; and its seeders, of which no more than ten count.
pub proof fn law_total(r: ReleaseView, p: Profile)
    requires
        score_of(r, p).rejected is None,
    ensures
        ({
            let title = text::lowered(r.title);
            let preferred = listed(p.preferred_words.deep_view()).filter(
                |w: Seq<char>| text::has(title, w),
            ).len();
            let format = match detected(r.title) {
                Some(f) => rank(f) as int / 5,
                None => -8,
            };
            let seeders = match r.seeders {
                Some(n) => if n < 10 {
                    n as int
                } else {
                    10
                },
                None => 0,
            };
            100 + format + 5 * preferred + seeders <= i64::MAX ==> score_of(r, p).total == 100
                + format + 5 * preferred + seeders
        }),
{
    law_matching(listed(p.preferred_words.deep_view()), text::lowered(r.title));
}

/// The rejection says which word, size, seeders or format it is about, and of
/// several that apply words come first, then the size, the seeders, the format.
pub proof fn law_reasons(r: ReleaseView, p: Profile)
    ensures
        ({
            let title = text::lowered(r.title);
            let bad = listed(p.must_not_contain.deep_view());
            let needed = listed(p.must_contain.deep_view());
            let words_pass = (forall|i: int|
                0 <= i < bad.len() ==> !text::has(title, #[trigger] bad[i])) && (forall|i: int|
                0 <= i < needed.len() ==> text::has(title, #[trigger] needed[i]));
            &&& words_pass && (r.size matches Some(n) && p.min_size matches Some(min) && n < min)
                ==> score_of(r, p).rejected == Some("below minimum size"@)
            &&& words_pass && (r.size matches Some(n) && p.max_size matches Some(max) && n > max
                && (p.min_size matches Some(min) ==> n >= min)) ==> score_of(r, p).rejected == Some(
                "above maximum size"@,
            )
            &&& words_pass && r.size is None && r.protocol == "torrent"@ && (match r.seeders {
                Some(n) => n,
                None => 0,
            }) < p.min_seeders ==> score_of(r, p).rejected == Some("not enough seeders"@)
        }),
{
    let title = text::lowered(r.title);
    lemma_first_word(listed(p.must_not_contain.deep_view()), title, true);
    lemma_first_word(listed(p.must_contain.deep_view()), title, false);
    let bad = listed(p.must_not_contain.deep_view());
    let needed = listed(p.must_contain.deep_view());
    if let Some(w) = first_word(bad, title, true) {
        let i = choose|i: int| 0 <= i < bad.len() && bad[i] == w;
        assert(text::has(title, bad[i]));
    }
    if let Some(w) = first_word(needed, title, false) {
        let i = choose|i: int| 0 <= i < needed.len() && needed[i] == w;
        assert(!text::has(title, needed[i]));
    }
}

/// The format of a title is one that it names as a word, and no better one is
/// named; a title without a format names none of the known ones.
pub proof fn law_detected(title: Seq<char>, g: Seq<char>)
    requires
        rank(g) > 0,
        has_word(text::lowered(title), g),
    ensures
        detected(title) matches Some(f) && has_word(text::lowered(title), f) && rank(f) >= rank(g),
{
    law_format_ladder(g);
}

/// A detected format stands in the title as a word.
pub proof fn law_detected_stands(title: Seq<char>)
    ensures
        detected(title) matches Some(f) ==> rank(f) > 0 && exists|i: int|
            {
                &&& #[trigger] text::occurs_at(text::lowered(title), f, i)
                &&& i > 0 ==> !text::is_word_char(text::lowered(title)[i - 1])
                &&& i + f.len() < text::lowered(title).len() ==> !text::is_word_char(
                    text::lowered(title)[i + f.len()],
                )
            },
{
    if let Some(f) = detected(title) {
        law_format_ladder(f);
        let t = text::lowered(title);
        let i = choose|i: int| #[trigger] word_at(t, f, i);
        assert(text::occurs_at(t, f, i));
    }
}

/// A word is on a comma-separated list exactly where a part of the list, trimmed
/// and in lowercase, is that word; blank parts are none.
pub proof fn law_listed(list: Seq<char>, w: Seq<char>)
    ensures
        listed(Some(list)).contains(w) <==> w.len() > 0 && exists|i: int|
            0 <= i < text::pieces(list, ',').len() && text::lowered(
                text::trimmed(#[trigger] text::pieces(list, ',')[i]),
            ) == w,
{
    lemma_tidied(text::pieces(list, ','), w);
}

proof fn lemma_tidied(parts: Seq<Seq<char>>, w: Seq<char>)
    ensures
        tidied(parts).contains(w) <==> w.len() > 0 && exists|i: int|
            0 <= i < parts.len() && text::lowered(text::trimmed(#[trigger] parts[i])) == w,
    decreases parts.len(),
{
    if parts.len() > 0 {
        let rest = parts.drop_last();
        let word = text::lowered(text::trimmed(parts.last()));
        lemma_tidied(rest, w);
        if tidied(rest).contains(w) {
            let k = choose|k: int| 0 <= k < tidied(rest).len() && tidied(rest)[k] == w;
            assert(tidied(parts)[k] == w);
            let i = choose|i: int|
                0 <= i < rest.len() && text::lowered(text::trimmed(#[trigger] rest[i])) == w;
            assert(parts[i] == rest[i]);
        }
        if word == w && w.len() > 0 {
            assert(tidied(parts).last() == w);
            assert(parts[parts.len() - 1] == parts.last());
        }
        if tidied(parts).contains(w) {
            let k = choose|k: int| 0 <= k < tidied(parts).len() && tidied(parts)[k] == w;
            if word.len() > 0 && k == tidied(rest).len() {
                assert(parts[parts.len() - 1] == parts.last());
            } else {
                assert(tidied(rest)[k] == w);
            }
        }
        if w.len() > 0 && exists|i: int|
            0 <= i < parts.len() && text::lowered(text::trimmed(#[trigger] parts[i])) == w {
            let i = choose|i: int|
                0 <= i < parts.len() && text::lowered(text::trimmed(#[trigger] parts[i])) == w;
            if i < rest.len() {
                assert(rest[i] == parts[i]);
            }
        }
    }
}

/// A list that is absent has no words.
pub proof fn law_nothing_listed(w: Seq<char>)
    ensures
        !listed(None).contains(w),
{
    reveal_strlit("");
    assert(""@.len() == 0);
    law_listed(""@, w);
    let parts = text::pieces(""@, ',');
    assert(parts =~= seq![""@.skip(0)]);
    text::lemma_trimmed(parts[0], text::CharSet::White);
    text::law_lowered_ascii(text::trimmed(parts[0]));
}

/// Of several releases that score best the last one is picked.
pub proof fn law_last_best(s: Seq<ReleaseView>, p: Profile, n: int)
    requires
        0 <= n <= s.len(),
    ensures
        best_of(s, p, n) matches Some(i) ==> forall|j: int|
            i < j < n && score_of(#[trigger] s[j], p).rejected is None ==> score_of(s[j], p).total
                < score_of(s[i], p).total,
    decreases n,
{
    if n > 0 {
        law_last_best(s, p, n - 1);
        law_best(s, p, n - 1);
    }
}

/// The profile that a book names is the first stored one with that id, and
/// there is none only where no stored profile has it.
pub proof fn law_profile_position(s: Seq<Profile>, id: i64, n: int)
    requires
        0 <= n <= s.len(),
    ensures
        match profile_position(s, id, n) {
            Some(k) => 0 <= k < n && s[k].id == id && forall|j: int|
                0 <= j < k ==> (#[trigger] s[j]).id != id,
            None => forall|j: int| 0 <= j < n ==> (#[trigger] s[j]).id != id,
        },
    decreases n,
{
    if n > 0 {
        law_profile_position(s, id, n - 1);
    }
}

/// A field that is filled in is taken without the whitespace around it, and a
/// blank or absent one gives the default.
pub proof fn law_filled_or(field: Option<Seq<char>>, default: Seq<char>)
    ensures
        field is None ==> filled_or(field, default) == default,
        field matches Some(s) ==> (if text::trimmed(s).len() == 0 {
            filled_or(field, default) == default
        } else {
            filled_or(field, default) == text::trimmed(s)
        }),
{
}

/// A profile is listed under its own id and name; the default one is marked and
/// cannot be removed, and every other can.
pub proof fn law_profile_row(p: Profile)
    ensures
        profile_row(p).id == p.id,
        profile_row(p).name == p.name@,
        profile_row(p).is_default <==> p.is_default == 1,
        profile_row(p).confirm is None <==> p.is_default == 1,
        profile_row(p).confirm matches Some(q) ==> text::occurs_at(
            q,
            "Delete profile "@ + p.name@,
            0,
        ),
        p.preferred_words matches Some(w) ==> text::ends(
            profile_row(p).line,
            text::decimal_of(p.min_seeders as int) + " · prefers: "@ + w@,
        ),
        p.preferred_words is None ==> text::ends(
            profile_row(p).line,
            " · min seeders "@ + text::decimal_of(p.min_seeders as int),
        ),
        text::occurs_at(profile_row(p).line, "formats "@ + p.formats@ + " · cutoff "@ + p.cutoff@, 0),
{
    let line = profile_row(p).line;
    let start = "formats "@ + p.formats@ + " · cutoff "@ + p.cutoff@;
    assert(line.subrange(0, start.len() as int) =~= start);
    if let Some(q) = profile_row(p).confirm {
        let asked = "Delete profile "@ + p.name@;
        assert(q.subrange(0, asked.len() as int) =~= asked);
    }
    let seeders = text::decimal_of(p.min_seeders as int);
    if let Some(w) = p.preferred_words {
        let end = seeders + " · prefers: "@ + w@;
        assert(line.subrange(line.len() - end.len(), line.len() as int) =~= end);
    } else {
        let end = " · min seeders "@ + seeders;
        assert(line.subrange(line.len() - end.len(), line.len() as int) =~= end);
    }
}

/// Every part of a judged release is seen as itself.
pub proof fn law_scored_view(x: Scored)
    ensures
        x.deep_view().total == x.total,
        x.deep_view().rejected == x.rejected.deep_view(),
{
}

/// Every part of a row of a profile is seen as itself.
pub proof fn law_profile_row_view(x: ProfileRow)
    ensures
        x.deep_view().id == x.id,
        x.deep_view().name == x.name@,
        x.deep_view().is_default == x.is_default,
        x.deep_view().line == x.line@,
        x.deep_view().confirm == x.confirm.deep_view(),
{
}

/// A word is one wherever it stands: at an end of the text, or next to anything
/// that is neither a letter nor a digit.
pub proof fn law_word(a: Seq<char>, w: Seq<char>, b: Seq<char>)
    requires
        a.len() == 0 || !text::is_word_char(a.last()),
        b.len() == 0 || !text::is_word_char(b[0]),
    ensures
        has_word(a + w + b, w),
{
    let s = a + w + b;
    let i = a.len() as int;
    assert(s.subrange(i, i + w.len()) =~= w);
    if a.len() > 0 {
        assert(s[i - 1] == a.last());
    }
    if b.len() > 0 {
        assert(s[i + w.len()] == b[0]);
    }
    assert(word_at(s, w, i));
}

/// The size limits of a profile hold for every release, whatever its protocol: one
/// that is above the greatest size or below the least is rejected.
pub proof fn law_score_sizes(rel: &Release, p: &Profile, r: Scored)
    requires
        call_ensures(score, (rel, p), r),
    ensures
        rel.size matches Some(n) ==> (p.max_size matches Some(max) ==> (n > max
            ==> r.rejected is Some)),
        rel.size matches Some(n) ==> (p.min_size matches Some(min) ==> (n < min
            ==> r.rejected is Some)),
        r.rejected is Some ==> r.total == -1,
{
    if let Some(n) = rel.size {
        if (p.max_size matches Some(max) && n > max) || (p.min_size matches Some(min) && n < min) {
            law_size_limits(rel.deep_view(), *p, n);
        }
    }
    law_scored_view(r);
}

/// Two releases that differ only in their protocol are judged by the same size
/// limits: where neither states seeders and the profile asks for none, both are
/// rejected or neither is.
pub proof fn law_score_protocol(a: &Release, b: &Release, p: &Profile, r: Scored, s: Scored)
    requires
        call_ensures(score, (a, p), r),
        call_ensures(score, (b, p), s),
        b.deep_view() == (indexer::ReleaseView { protocol: b.protocol@, ..a.deep_view() }),
        p.min_seeders <= 0,
        a.seeders is None,
    ensures
        r.rejected is Some <==> s.rejected is Some,
        r.total == s.total,
{
    law_scored_view(r);
    law_scored_view(s);
}

/// The best release is one of those offered, is not rejected, and none that is not
/// rejected has more points; there is none only where all are rejected.
pub proof fn law_pick_best(
    releases: &[Release],
    p: &Profile,
    r: Option<(&Release, i64)>,
    other: Scored,
    j: int,
)
    requires
        call_ensures(pick_best, (releases, p), r),
        0 <= j < releases@.len(),
        call_ensures(score, (&releases@[j], p), other),
        other.rejected is None,
    ensures
        r matches Some((release, total)) && releases@.contains(*release) && other.total <= total,
{
    let views = release_views(releases@);
    law_best(views, *p, views.len() as int);
    law_scored_view(other);
    assert(views[j] == releases@[j].deep_view());
}

/// A book is judged by its own profile where that is stored, and by the default
/// one only where it is not.
pub proof fn law_profile_for(
    profiles: &Vec<Profile>,
    book_profile: Option<i64>,
    r: Option<usize>,
    k: int,
)
    requires
        call_ensures(profile_for, (profiles, book_profile), r),
        0 <= k < profiles@.len() <= usize::MAX,
        book_profile == Some(profiles@[k].id),
    ensures
        r matches Some(i) && i < profiles@.len() && profiles@[i as int].id == profiles@[k].id,
{
    law_profile_position(profiles@, profiles@[k].id, profiles@.len() as int);
}

} // verus!
