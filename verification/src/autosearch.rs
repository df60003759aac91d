//! Automatic search: which monitored books can be had in a better format, and
//! which release is grabbed for one.

use vstd::prelude::*;
use vstd::string::*;
use crate::indexer::{Release, ReleaseView};
use crate::score::Profile;
use crate::score;
use crate::text;

verus! {

/// A monitored book.
pub struct WantedBook {
    pub id: i64,
    pub title: String,
    pub author: Option<String>,
    pub format: String,
    pub profile_id: Option<i64>,
}

/// The cutoff of the profile for a book: that of its own profile where it is
/// stored, else of the default one, and epub where none is stored.
pub open spec fn cutoff_for(profiles: Seq<Profile>, book_profile: Option<i64>) -> Seq<char> {
    let n = profiles.len() as int;
    let own = match book_profile {
        Some(id) => score::profile_position(profiles, id, n),
        None => None,
    };
    let k = if own is Some {
        own
    } else {
        score::default_position(profiles, n)
    };
    match k {
        Some(k) => profiles[k].cutoff@,
        None => "epub"@,
    }
}

/// The format of a book ranks below the cutoff of its profile.
pub open spec fn is_below_cutoff(b: WantedBook, profiles: Seq<Profile>) -> bool {
    score::rank(b.format@) < score::rank(cutoff_for(profiles, b.profile_id))
}

/// The positions of the books below their cutoff.
pub open spec fn below_cutoff_positions(s: Seq<WantedBook>, profiles: Seq<Profile>) -> Seq<usize>
    decreases s.len(),
{
    if s.len() == 0 {
        seq![]
    } else if is_below_cutoff(s.last(), profiles) {
        below_cutoff_positions(s.drop_last(), profiles).push((s.len() - 1) as usize)
    } else {
        below_cutoff_positions(s.drop_last(), profiles)
    }
}

/// The monitored books whose format ranks below the cutoff of their profile, by
/// position.
pub fn below_cutoff(books: &Vec<WantedBook>, profiles: &Vec<Profile>) -> (r: Vec<usize>)
    ensures
        r@ == below_cutoff_positions(books@, profiles@),
{
    let mut out: Vec<usize> = Vec::new();
    let mut i: usize = 0;
    while i < books.len()
        invariant
            i <= books.len(),
            out@ == below_cutoff_positions(books@.take(i as int), profiles@),
        decreases books.len() - i,
    {
        assert(books@.take(i + 1).drop_last() =~= books@.take(i as int));
        let cutoff: i64 = match score::profile_for(profiles, books[i].profile_id) {
            Some(k) => score::format_rank(profiles[k].cutoff.as_str()),
            None => score::format_rank("epub"),
        };
        if score::format_rank(books[i].format.as_str()) < cutoff {
            out.push(i);
        }
        i += 1;
    }
    assert(books@.take(books@.len() as int) =~= books@);
    out
}

/// What the indexers are asked for: the title and, where it is known, the
/// author.
pub fn query_for(b: &WantedBook) -> (r: String)
    ensures
        r@ == match b.author {
            Some(a) => b.title@ + " "@ + a@,
            None => b.title@,
        },
{
    let mut q = b.title.clone();
    if let Some(a) = &b.author {
        q.append(" ");
        q.append(a.as_str());
    }
    q
}

/// The release may be better than a format of rank `current`: the format that
/// its title names ranks higher, or it names none.
pub open spec fn is_upgrade(r: ReleaseView, current: i64) -> bool {
    match score::detected(r.title) {
        Some(f) => score::rank(f) > current,
        None => true,
    }
}

/// The releases that may be better.
pub open spec fn upgrades(s: Seq<ReleaseView>, current: i64) -> Seq<ReleaseView> {
    s.filter(|r: ReleaseView| is_upgrade(r, current))
}

/// What a search for one book comes to.
pub enum Outcome {
    /// Grab this release, which scores so much.
    Grab(Release, i64),
    /// Nothing; the message says why.
    Nothing(String),
}

/// What a search for one book comes to: of the releases that may be better the
/// best one that the profile accepts.
pub fn search_one(book: &WantedBook, releases: &Vec<Release>, profile: &Profile) -> (r: Outcome)
    ensures
        ({
            let better = upgrades(releases.deep_view(), score::rank(book.format@));
            let best = score::best_of(better, *profile, better.len() as int);
            if releases.len() == 0 {
                r matches Outcome::Nothing(m) && m@ == "no releases found for '"@ + book.title@
                    + "'"@
            } else {
                match best {
                    Some(k) => r matches Outcome::Grab(release, total) && release.deep_view()
                        == better[k] && total == score::score_of(better[k], *profile).total,
                    None => r matches Outcome::Nothing(m) && m@ == "no acceptable upgrade for '"@
                        + book.title@ + "'"@,
                }
            }
        }),
{
    if releases.len() == 0 {
        return Outcome::Nothing(about("no releases found for '", book));
    }
    let current = score::format_rank(book.format.as_str());
    let ghost all = releases.deep_view();
    let ghost keep = |r: ReleaseView| is_upgrade(r, current);
    let mut better: Vec<Release> = Vec::new();
    let mut i: usize = 0;
    proof {
        reveal(Seq::filter);
    }
    while i < releases.len()
        invariant
            all == releases.deep_view(),
            keep == (|r: ReleaseView| is_upgrade(r, current)),
            i <= releases.len(),
            better.deep_view() == all.take(i as int).filter(keep),
        decreases releases.len() - i,
    {
        proof {
            reveal(Seq::filter);
            assert(all.take(i + 1).drop_last() =~= all.take(i as int));
            assert(all[i as int] == releases@[i as int].deep_view());
        }
        let upgrade = match score::detect_format(releases[i].title.as_str()) {
            Some(f) => score::format_rank(f) > current,
            None => true,
        };
        let ghost before = better.deep_view();
        if upgrade {
            better.push(releases[i].clone());
            assert(better.deep_view() =~= before.push(all[i as int]));
        }
        i += 1;
    }
    assert(all.take(all.len() as int) =~= all);
    assert(score::release_views(better@) =~= better.deep_view());
    proof {
        score::law_best(better.deep_view(), *profile, better.len() as int);
    }
    match score::pick_best(better.as_slice(), profile) {
        Some((best, total)) => Outcome::Grab(best.clone(), total),
        None => Outcome::Nothing(about("no acceptable upgrade for '", book)),
    }
}

fn about(before: &str, book: &WantedBook) -> (r: String)
    ensures
        r@ == before@ + book.title@ + "'"@,
{
    let mut s = before.to_string();
    s.append(book.title.as_str());
    s.append("'");
    s
}

/// What to tell of a release that was grabbed.
pub fn grabbed(release: &Release, total: i64) -> (r: String)
    ensures
        r@ == "grabbed '"@ + release.title@ + "' (score "@ + text::decimal_of(total as int) + ")"@,
{
    let mut s = "grabbed '".to_string();
    s.append(release.title.as_str());
    s.append("' (score ");
    s.append(text::decimal(total).as_str());
    s.append(")");
    s
}

/// A release that is grabbed was among those found, is an upgrade over what the
/// book has, and is not rejected by the profile.
pub proof fn law_grabs_upgrades(s: Seq<ReleaseView>, p: Profile, current: i64)
    ensures
        ({
            let better = upgrades(s, current);
            score::best_of(better, p, better.len() as int) matches Some(k) ==> 0 <= k < better.len()
                && s.contains(better[k]) && is_upgrade(better[k], current) && score::score_of(
                better[k],
                p,
            ).rejected is None
        }),
{
    broadcast use Seq::lemma_filter_contains_rev;

    let keep = |r: ReleaseView| is_upgrade(r, current);
    let better = upgrades(s, current);
    score::law_best(better, p, better.len() as int);
    if let Some(k) = score::best_of(better, p, better.len() as int) {
        s.lemma_filter_pred(keep, k);
        assert(better.contains(better[k]));
    }
}

// ---- which books are searched for ----

proof fn lemma_below_cutoff(s: Seq<WantedBook>, profiles: Seq<Profile>)
    requires
        s.len() <= usize::MAX,
    ensures
        forall|k: int|
            0 <= k < below_cutoff_positions(s, profiles).len() ==> 0
                <= #[trigger] below_cutoff_positions(s, profiles)[k] < s.len() && is_below_cutoff(
                s[below_cutoff_positions(s, profiles)[k] as int],
                profiles,
            ),
        forall|k: int, l: int|
            0 <= k < l < below_cutoff_positions(s, profiles).len() ==> below_cutoff_positions(
                s,
                profiles,
            )[k] < below_cutoff_positions(s, profiles)[l],
        forall|i: int|
            0 <= i < s.len() && is_below_cutoff(#[trigger] s[i], profiles)
                ==> below_cutoff_positions(s, profiles).contains(i as usize),
    decreases s.len(),
{
    if s.len() > 0 {
        let rest = s.drop_last();
        let all = below_cutoff_positions(s, profiles);
        let some = below_cutoff_positions(rest, profiles);
        lemma_below_cutoff(rest, profiles);
        assert forall|k: int| 0 <= k < all.len() implies 0 <= #[trigger] all[k] < s.len()
            && is_below_cutoff(s[all[k] as int], profiles) by {
            if k < some.len() {
                assert(all[k] == some[k]);
                assert(rest[some[k] as int] == s[some[k] as int]);
            }
        }
        assert forall|k: int, l: int| 0 <= k < l < all.len() implies all[k] < all[l] by {
            assert(all[k] == some[k]);
            if l < some.len() {
                assert(all[l] == some[l]);
            }
        }
        assert forall|i: int|
            0 <= i < s.len() && is_below_cutoff(#[trigger] s[i], profiles) implies all.contains(
            i as usize,
        ) by {
            if i < rest.len() {
                assert(rest[i] == s[i]);
                let k = choose|k: int| 0 <= k < some.len() && some[k] == i as usize;
                assert(all[k] == some[k]);
            } else {
                assert(all.last() == i as usize);
            }
        }
    }
}

/// A book whose own profile is stored is searched for exactly where its format
/// ranks below the cutoff of that profile, whatever the other profiles are.
pub proof fn law_own_cutoff(books: Seq<WantedBook>, profiles: Seq<Profile>, i: int, k: int)
    requires
        0 <= i < books.len() <= usize::MAX,
        0 <= k < profiles.len(),
        books[i].profile_id == Some(profiles[k].id),
        forall|j: int| 0 <= j < k ==> (#[trigger] profiles[j]).id != profiles[k].id,
    ensures
        below_cutoff_positions(books, profiles).contains(i as usize) <==> score::rank(
            books[i].format@,
        ) < score::rank(profiles[k].cutoff@),
{
    let n = profiles.len() as int;
    score::law_profile_position(profiles, profiles[k].id, n);
    let f = score::profile_position(profiles, profiles[k].id, n)->0;
    if f < k {
        assert(profiles[f].id != profiles[k].id);
    } else if k < f {
        assert(profiles[k].id != profiles[k].id);
    }
    lemma_searched(books, profiles, i);
}

/// A book without a stored profile is searched for exactly where its format
/// ranks below the cutoff of the default profile: the one most marked as such,
/// and of several the one with the lowest id.
pub proof fn law_default_cutoff(books: Seq<WantedBook>, profiles: Seq<Profile>, i: int, k: int)
    requires
        0 <= i < books.len() <= usize::MAX,
        books[i].profile_id matches Some(id) ==> forall|j: int|
            0 <= j < profiles.len() ==> (#[trigger] profiles[j]).id != id,
        0 <= k < profiles.len(),
        forall|j: int|
            0 <= j < profiles.len() && j != k ==> (#[trigger] profiles[j]).is_default
                < profiles[k].is_default || (profiles[j].is_default == profiles[k].is_default
                && profiles[k].id < profiles[j].id),
    ensures
        below_cutoff_positions(books, profiles).contains(i as usize) <==> score::rank(
            books[i].format@,
        ) < score::rank(profiles[k].cutoff@),
{
    let n = profiles.len() as int;
    if let Some(id) = books[i].profile_id {
        score::law_profile_position(profiles, id, n);
        if let Some(f) = score::profile_position(profiles, id, n) {
            assert(profiles[f].id != id);
        }
    }
    score::law_default_profile(profiles, n);
    let d = score::default_position(profiles, n)->0;
    if d != k {
        assert(profiles[d].is_default < profiles[k].is_default || (profiles[d].is_default
            == profiles[k].is_default && profiles[k].id < profiles[d].id));
        assert(profiles[k].is_default < profiles[d].is_default || (profiles[k].is_default
            == profiles[d].is_default && profiles[d].id <= profiles[k].id));
    }
    lemma_searched(books, profiles, i);
}

/// Where no profile is stored, every book in a format below epub is searched
/// for.
pub proof fn law_fallback_cutoff(books: Seq<WantedBook>, i: int)
    requires
        0 <= i < books.len() <= usize::MAX,
    ensures
        below_cutoff_positions(books, seq![]).contains(i as usize) <==> score::rank(
            books[i].format@,
        ) < score::rank("epub"@),
{
    lemma_searched(books, seq![], i);
}

proof fn lemma_searched(books: Seq<WantedBook>, profiles: Seq<Profile>, i: int)
    requires
        0 <= i < books.len() <= usize::MAX,
    ensures
        below_cutoff_positions(books, profiles).contains(i as usize) <==> is_below_cutoff(
            books[i],
            profiles,
        ),
{
    let all = below_cutoff_positions(books, profiles);
    lemma_below_cutoff(books, profiles);
    if all.contains(i as usize) {
        let k = choose|k: int| 0 <= k < all.len() && all[k] == i as usize;
        assert(is_below_cutoff(books[all[k] as int], profiles));
    }
}

/// The books are searched for in their order, each once.
pub proof fn law_below_cutoff_order(books: Seq<WantedBook>, profiles: Seq<Profile>)
    requires
        books.len() <= usize::MAX,
    ensures
        forall|k: int, l: int|
            0 <= k < l < below_cutoff_positions(books, profiles).len() ==> below_cutoff_positions(
                books,
                profiles,
            )[k] < below_cutoff_positions(books, profiles)[l],
{
    lemma_below_cutoff(books, profiles);
}

/// A release may replace what a book has exactly where its title names no
/// format, or one that ranks higher: one in the same format or a worse one is
/// never grabbed.
pub proof fn law_upgrade(s: Seq<ReleaseView>, r: ReleaseView, current: i64)
    requires
        s.contains(r),
    ensures
        upgrades(s, current).contains(r) <==> (match score::detected(r.title) {
            Some(f) => score::rank(f) > current,
            None => true,
        }),
{
    broadcast use Seq::lemma_filter_contains_rev;

    let keep = |x: ReleaseView| is_upgrade(x, current);
    if is_upgrade(r, current) {
        let i = choose|i: int| 0 <= i < s.len() && s[i] == r;
        s.lemma_filter_contains(keep, i);
    } else if upgrades(s, current).contains(r) {
        let k = choose|k: int|
            0 <= k < upgrades(s, current).len() && upgrades(s, current)[k] == r;
        s.lemma_filter_pred(keep, k);
    }
}

/// Where some release is an upgrade that the profile accepts, one is grabbed,
/// and none of those scores more.
pub proof fn law_grabs_best(s: Seq<ReleaseView>, p: Profile, current: i64, r: ReleaseView)
    requires
        s.contains(r),
        score::detected(r.title) matches Some(f) ==> score::rank(f) > current,
        score::score_of(r, p).rejected is None,
    ensures
        ({
            let better = upgrades(s, current);
            score::best_of(better, p, better.len() as int) matches Some(k) && 0 <= k < better.len()
                && score::score_of(r, p).total <= score::score_of(better[k], p).total
        }),
{
    let better = upgrades(s, current);
    law_upgrade(s, r, current);
    score::law_best(better, p, better.len() as int);
    let j = choose|j: int| 0 <= j < better.len() && better[j] == r;
    assert(score::score_of(better[j], p).rejected is None);
}

/// A book is searched for by the cutoff of its own profile, whatever the default
/// one is.
pub proof fn law_below_cutoff(
    books: &Vec<WantedBook>,
    profiles: &Vec<Profile>,
    r: Vec<usize>,
    i: int,
    k: int,
)
    requires
        call_ensures(below_cutoff, (books, profiles), r),
        0 <= i < books@.len() <= usize::MAX,
        0 <= k < profiles@.len(),
        books@[i].profile_id == Some(profiles@[k].id),
        forall|j: int| 0 <= j < k ==> (#[trigger] profiles@[j]).id != profiles@[k].id,
    ensures
        r@.contains(i as usize) <==> score::rank(books@[i].format@) < score::rank(
            profiles@[k].cutoff@,
        ),
{
    law_own_cutoff(books@, profiles@, i, k);
}

/// A search asks for the title of the book, and for its author where that is known.
pub proof fn law_query(b: &WantedBook, r: String)
    requires
        call_ensures(query_for, (b,), r),
    ensures
        text::occurs_at(r@, b.title@, 0),
        b.author matches Some(a) ==> text::ends(r@, " "@ + a@),
        b.author is None ==> r@ == b.title@,
{
    assert(r@.subrange(0, b.title@.len() as int) =~= b.title@);
    if let Some(a) = b.author {
        let tail = " "@ + a@;
        assert(r@.subrange(r@.len() - tail.len(), r@.len() as int) =~= tail);
    }
}

/// What is grabbed is one of the releases, better than what the book has, accepted
/// by the profile and told with its own points; and something is grabbed wherever
/// there is such a release.
pub proof fn law_search_one(
    book: &WantedBook,
    releases: &Vec<Release>,
    profile: &Profile,
    r: Outcome,
    other: ReleaseView,
)
    requires
        call_ensures(search_one, (book, releases, profile), r),
    ensures
        r matches Outcome::Grab(release, total) ==> {
            let s = score::score_of(release.deep_view(), *profile);
            &&& releases.deep_view().contains(release.deep_view())
            &&& s.rejected is None && total == s.total
            &&& score::detected(release.title@) matches Some(f) ==> score::rank(f) > score::rank(
                book.format@,
            )
        },
        releases.deep_view().contains(other) && (score::detected(other.title) matches Some(f)
            ==> score::rank(f) > score::rank(book.format@)) && score::score_of(
            other,
            *profile,
        ).rejected is None ==> (r matches Outcome::Grab(release, total) && score::score_of(
            other,
            *profile,
        ).total <= total),
{
    let s = releases.deep_view();
    let current = score::rank(book.format@);
    law_grabs_upgrades(s, *profile, current);
    if s.contains(other) && (score::detected(other.title) matches Some(f) ==> score::rank(f)
        > current) && score::score_of(other, *profile).rejected is None {
        law_grabs_best(s, *profile, current, other);
        assert(s.len() > 0);
    }
}

} // verus!
