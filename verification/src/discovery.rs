//! Followed authors, lists of titles to import, and the choice among what the
//! sources offer.

use vstd::prelude::*;
use vstd::string::*;
use crate::sdk::Candidate;
use crate::encode;
use crate::json;
use crate::text;

verus! {

/// The form that names an author.
pub struct AuthorForm {
    pub author: String,
}

/// The form with a list of titles.
pub struct ImportForm {
    pub titles: String,
}

// ---- choosing a candidate ----

/// The position of the first epub, from `i` on.
pub open spec fn first_epub(s: Seq<Candidate>, i: int) -> Option<int>
    decreases s.len() - i,
{
    if i < 0 || i >= s.len() {
        None
    } else if s[i].format@ == "epub"@ {
        Some(i)
    } else {
        first_epub(s, i + 1)
    }
}

/// What all sources offer, one source after the other.
pub open spec fn all_found(found: Seq<Vec<Candidate>>) -> Seq<Candidate>
    decreases found.len(),
{
    if found.len() == 0 {
        seq![]
    } else {
        all_found(found.drop_last()) + found.last()@
    }
}

proof fn lemma_first_epub(s: Seq<Candidate>, i: int)
    requires
        0 <= i,
    ensures
        match first_epub(s, i) {
            Some(k) => i <= k < s.len() && s[k].format@ == "epub"@ && forall|j: int|
                i <= j < k ==> (#[trigger] s[j]).format@ != "epub"@,
            None => forall|j: int| i <= j < s.len() ==> (#[trigger] s[j]).format@ != "epub"@,
        },
    decreases s.len() - i,
{
    if i < s.len() && s[i].format@ != "epub"@ {
        lemma_first_epub(s, i + 1);
    }
}

proof fn lemma_found_so_far(found: Seq<Vec<Candidate>>, n: int)
    requires
        0 <= n <= found.len(),
    ensures
        all_found(found.take(n)).len() <= all_found(found).len(),
        forall|j: int|
            0 <= j < all_found(found.take(n)).len() ==> #[trigger] all_found(found.take(n))[j]
                == all_found(found)[j],
    decreases found.len() - n,
{
    if n < found.len() {
        lemma_found_so_far(found, n + 1);
        assert(found.take(n + 1).drop_last() =~= found.take(n));
        assert forall|j: int| 0 <= j < all_found(found.take(n)).len() implies #[trigger] all_found(
            found.take(n),
        )[j] == all_found(found)[j] by {
            assert(all_found(found.take(n + 1))[j] == all_found(found.take(n))[j]);
        }
    } else {
        assert(found.take(n) =~= found);
    }
}

/// The best of what the sources offer: the first epub of any of them, else the
/// first at all; nothing only where none offers anything.
pub fn acquire<'a>(found: &'a Vec<Vec<Candidate>>) -> (r: Option<&'a Candidate>)
    ensures
        match first_epub(all_found(found@), 0) {
            Some(k) => r matches Some(c) && *c == all_found(found@)[k],
            None => if all_found(found@).len() > 0 {
                r matches Some(c) && *c == all_found(found@)[0]
            } else {
                r is None
            },
        },
{
    let ghost all = all_found(found@);
    let mut first: Option<&'a Candidate> = None;
    let mut i: usize = 0;
    while i < found.len()
        invariant
            all == all_found(found@),
            i <= found.len(),
            forall|j: int|
                0 <= j < all_found(found@.take(i as int)).len() ==> (#[trigger] all_found(
                    found@.take(i as int),
                )[j]).format@ != "epub"@,
            match first {
                Some(c) => all_found(found@.take(i as int)).len() > 0 && *c == all_found(
                    found@.take(i as int),
                )[0],
                None => all_found(found@.take(i as int)).len() == 0,
            },
        decreases found.len() - i,
    {
        let ghost before = all_found(found@.take(i as int));
        let source = &found[i];
        assert(found@.take(i + 1).drop_last() =~= found@.take(i as int));
        assert(all_found(found@.take(i + 1)) == before + source@);
        let mut j: usize = 0;
        while j < source.len()
            invariant
                all == all_found(found@),
                i < found.len(),
                *source == found@[i as int],
                all_found(found@.take(i + 1)) == before + source@,
                j <= source.len(),
                forall|k: int| 0 <= k < before.len() + j ==> (#[trigger] (before + source@)[k]).format@
                    != "epub"@,
                match first {
                    Some(c) => before.len() + j > 0 && *c == (before + source@)[0],
                    None => before.len() + j == 0,
                },
            decreases source.len() - j,
        {
            let c = &source[j];
            assert((before + source@)[before.len() + j] == *c);
            if text::same(c.format.as_str(), "epub") {
                proof {
                    lemma_found_so_far(found@, i + 1);
                    lemma_first_epub(all, 0);
                    let at = (before.len() + j) as int;
                    assert(all[at] == *c);
                    let k = first_epub(all, 0)->0;
                    if k < at {
                        assert(all[k] == (before + source@)[k]);
                    }
                }
                return Some(c);
            }
            if first.is_none() {
                first = Some(c);
            }
            j += 1;
        }
        i += 1;
    }
    proof {
        assert(found@.take(found@.len() as int) =~= found@);
        lemma_first_epub(all, 0);
    }
    first
}

/// An epub from any source wins: where one is offered, what is chosen is one.
pub proof fn law_epub_wins(found: Seq<Vec<Candidate>>, i: int, j: int)
    requires
        0 <= i < found.len(),
        0 <= j < found[i]@.len(),
        found[i]@[j].format@ == "epub"@,
    ensures
        first_epub(all_found(found), 0) matches Some(k) && 0 <= k < all_found(found).len()
            && all_found(found)[k].format@ == "epub"@,
{
    let all = all_found(found);
    let before = all_found(found.take(i));
    lemma_found_so_far(found, i + 1);
    assert(found.take(i + 1).drop_last() =~= found.take(i));
    assert(all_found(found.take(i + 1))[before.len() + j] == found[i]@[j]);
    lemma_first_epub(all, 0);
}

/// What to tell where no source offers anything.
pub fn no_candidate(query: &str) -> (r: String)
    ensures
        r@ == "no candidate found for '"@ + query@ + "'"@,
{
    let mut s = "no candidate found for '".to_string();
    s.append(query);
    s.append("'");
    s
}

// ---- followed authors ----

/// An author of the list is this one, in any case.
pub open spec fn follows(authors: Seq<Seq<char>>, author: Seq<char>) -> bool {
    exists|i: int|
        0 <= i < authors.len() && text::ascii_lowered(#[trigger] authors[i]) == text::ascii_lowered(author)
}

/// The list with an author at its end, unless the name is blank or the list has
/// the author already.
pub open spec fn with_author(authors: Seq<Seq<char>>, author: Seq<char>) -> Seq<Seq<char>> {
    if text::trimmed(author).len() == 0 || follows(authors, text::trimmed(author)) {
        authors
    } else {
        authors.push(text::trimmed(author))
    }
}

/// The list without an author, spelled exactly so.
pub open spec fn without_author(authors: Seq<Seq<char>>, author: Seq<char>) -> Seq<Seq<char>> {
    authors.filter(|a: Seq<char>| a != author)
}

fn followed(authors: &Vec<String>, author: &str) -> (r: bool)
    ensures
        r == follows(authors.deep_view(), author@),
{
    let mut i: usize = 0;
    while i < authors.len()
        invariant
            i <= authors.len(),
            forall|j: int|
                0 <= j < i ==> text::ascii_lowered(#[trigger] authors.deep_view()[j]) != text::ascii_lowered(
                    author@,
                ),
        decreases authors.len() - i,
    {
        assert(authors.deep_view()[i as int] == authors@[i as int]@);
        if text::same_but_case(authors[i].as_str(), author) {
            return true;
        }
        i += 1;
    }
    false
}

/// Follows an author. Says whether the list has changed.
pub fn follow_add(authors: &mut Vec<String>, f: &AuthorForm) -> (changed: bool)
    ensures
        final(authors).deep_view() == with_author(old(authors).deep_view(), f.author@),
        changed == (text::trimmed(f.author@).len() > 0 && !follows(
            old(authors).deep_view(),
            text::trimmed(f.author@),
        )),
{
    let author = text::trim(f.author.as_str());
    if text::empty(author.as_str()) || followed(authors, author.as_str()) {
        return false;
    }
    let ghost before = authors.deep_view();
    let ghost name = author@;
    authors.push(author);
    assert(authors.deep_view() =~= before.push(name));
    true
}

/// The list without an author.
pub fn follow_remove(authors: &Vec<String>, f: &AuthorForm) -> (r: Vec<String>)
    ensures
        r.deep_view() == without_author(authors.deep_view(), f.author@),
{
    let ghost all = authors.deep_view();
    let ghost keep = |a: Seq<char>| a != f.author@;
    let mut out: Vec<String> = Vec::new();
    let mut i: usize = 0;
    proof {
        reveal(Seq::filter);
    }
    while i < authors.len()
        invariant
            all == authors.deep_view(),
            keep == (|a: Seq<char>| a != f.author@),
            i <= authors.len(),
            out.deep_view() == all.take(i as int).filter(keep),
        decreases authors.len() - i,
    {
        proof {
            reveal(Seq::filter);
            assert(all.take(i + 1).drop_last() =~= all.take(i as int));
            assert(all[i as int] == authors@[i as int]@);
        }
        let ghost before = out.deep_view();
        if !text::same(authors[i].as_str(), f.author.as_str()) {
            out.push(authors[i].clone());
            assert(out.deep_view() =~= before.push(all[i as int]));
        }
        i += 1;
    }
    assert(all.take(all.len() as int) =~= all);
    out
}

/// No two authors of the list are the same but for their case.
pub open spec fn all_different(authors: Seq<Seq<char>>) -> bool {
    forall|i: int, j: int|
        0 <= i < j < authors.len() ==> text::ascii_lowered(#[trigger] authors[i]) != text::ascii_lowered(
            #[trigger] authors[j],
        )
}

/// Following an author keeps the list free of authors that differ in case
/// only, and an author whose name is not blank is then followed.
pub proof fn law_followed(authors: Seq<Seq<char>>, author: Seq<char>)
    requires
        all_different(authors),
    ensures
        all_different(with_author(authors, author)),
        text::trimmed(author).len() > 0 ==> follows(with_author(authors, author), text::trimmed(author)),
{
    let after = with_author(authors, author);
    if after.len() > authors.len() {
        assert(after[authors.len() as int] == text::trimmed(author));
    }
}

/// An author who is removed is gone from the list, and every other one is
/// still there.
pub proof fn law_unfollowed(authors: Seq<Seq<char>>, author: Seq<char>, other: Seq<char>)
    ensures
        !without_author(authors, author).contains(author),
        other != author ==> (without_author(authors, author).contains(other)
            <==> authors.contains(other)),
{
    broadcast use Seq::lemma_filter_contains;
    broadcast use Seq::lemma_filter_contains_rev;

    let keep = |a: Seq<char>| a != author;
    assert forall|i: int| 0 <= i < authors.filter(keep).len() implies keep(
        #[trigger] authors.filter(keep)[i],
    ) by {
        authors.lemma_filter_pred(keep, i);
    }
}

// ---- import lists ----

/// The lines, trimmed, without those that are then empty.
pub open spec fn titles_in(lines: Seq<Seq<char>>) -> Seq<Seq<char>>
    decreases lines.len(),
{
    if lines.len() == 0 {
        seq![]
    } else if text::trimmed(lines.last()).len() > 0 {
        titles_in(lines.drop_last()).push(text::trimmed(lines.last()))
    } else {
        titles_in(lines.drop_last())
    }
}

/// The titles of a list: one for each line that is not blank, trimmed.
pub fn import_list(f: &ImportForm) -> (r: Vec<String>)
    ensures
        r.deep_view() == titles_in(text::pieces(f.titles@, '\n')),
{
    let lines = text::split(f.titles.as_str(), '\n');
    let ghost all = lines.deep_view();
    let mut out: Vec<String> = Vec::new();
    let mut i: usize = 0;
    while i < lines.len()
        invariant
            all == lines.deep_view(),
            i <= lines.len(),
            out.deep_view() == titles_in(all.take(i as int)),
        decreases lines.len() - i,
    {
        assert(all.take(i + 1).drop_last() =~= all.take(i as int));
        assert(all[i as int] == lines@[i as int]@);
        let title = text::trim(lines[i].as_str());
        let ghost before = out.deep_view();
        if !text::empty(title.as_str()) {
            let ghost tv = title@;
            out.push(title);
            assert(out.deep_view() =~= before.push(tv));
        }
        i += 1;
    }
    assert(all.take(all.len() as int) =~= all);
    out
}

/// How many titles were queued, in words.
pub fn queued_heading(n: usize) -> (r: String)
    ensures
        r@ == "Queued "@ + text::decimal_nat(n as nat) + " title"@ + if n != 1 {
            "s"@
        } else {
            ""@
        },
{
    let mut s = "Queued ".to_string();
    text::push_decimal(&mut s, n as u64);
    s.append(" title");
    if n != 1 {
        s.append("s");
    } else {
        s.append("");
    }
    s
}

// ---- the wanted page ----

/// A stored acquisition that is not done.
pub struct PendingJob {
    pub payload: String,
    pub status: String,
}

/// A row of the wanted list.
pub struct PendingRow {
    pub title: String,
    /// The style of the state, for the states that have one.
    pub class: Option<&'static str>,
    pub status: String,
}

/// A followed author, and where to search for their books.
pub struct AuthorRow {
    pub author: String,
    pub href: String,
}

#[verifier::ext_equal]
pub struct PendingRowView {
    pub title: Seq<char>,
    pub class: Option<Seq<char>>,
    pub status: Seq<char>,
}

#[verifier::ext_equal]
pub struct AuthorRowView {
    pub author: Seq<char>,
    pub href: Seq<char>,
}

impl DeepView for PendingRow {
    type V = PendingRowView;

    open spec fn deep_view(&self) -> PendingRowView {
        PendingRowView {
            title: self.title@,
            class: match self.class {
                Some(c) => Some(c@),
                None => None,
            },
            status: self.status@,
        }
    }
}

impl DeepView for AuthorRow {
    type V = AuthorRowView;

    open spec fn deep_view(&self) -> AuthorRowView {
        AuthorRowView { author: self.author@, href: self.href@ }
    }
}

/// The style of the state of an acquisition.
pub open spec fn pending_class(status: Seq<char>) -> Option<Seq<char>> {
    if status == "queued"@ {
        Some("queued"@)
    } else if status == "running"@ {
        Some("downloading"@)
    } else if status == "failed"@ {
        Some("failed"@)
    } else {
        None
    }
}

/// How an acquisition is shown, given what it looks for.
pub open spec fn pending_row(query: Option<Seq<char>>, status: Seq<char>) -> PendingRowView {
    PendingRowView {
        title: match query {
            Some(q) => q,
            None => "…"@,
        },
        class: pending_class(status),
        status,
    }
}

/// How a followed author is shown.
pub open spec fn author_row(author: Seq<char>) -> AuthorRowView {
    AuthorRowView { author, href: "/add-new?q="@ + encode::url_encoded(author) }
}

/// The wanted page.
pub struct WantedPage {
    pub pending: Vec<PendingRow>,
    pub authors: Vec<AuthorRow>,
}

/// How an acquisition is shown, given what it looks for.
pub fn show_pending(query: Option<String>, status: &str) -> (r: PendingRow)
    ensures
        r.deep_view() == pending_row(query.deep_view(), status@),
{
    let title = match query {
        Some(q) => q,
        None => "…".to_string(),
    };
    let class = if text::same(status, "queued") {
        Some("queued")
    } else if text::same(status, "running") {
        Some("downloading")
    } else if text::same(status, "failed") {
        Some("failed")
    } else {
        None
    };
    PendingRow { title, class, status: status.to_string() }
}

/// The wanted page: the acquisitions that are not done, and the followed
/// authors.
pub fn following(jobs: &Vec<PendingJob>, authors: &Vec<String>) -> (r: WantedPage)
    ensures
        r.pending.deep_view() == jobs@.map_values(
            |j: PendingJob| pending_row(json::text_member(j.payload@, "query"@), j.status@),
        ),
        r.authors.deep_view() == authors.deep_view().map_values(|a: Seq<char>| author_row(a)),
{
    let mut pending: Vec<PendingRow> = Vec::new();
    let mut i: usize = 0;
    while i < jobs.len()
        invariant
            i <= jobs.len(),
            pending.len() == i,
            forall|j: int|
                0 <= j < i ==> (#[trigger] pending@[j]).deep_view() == pending_row(
                    json::text_member(jobs@[j].payload@, "query"@),
                    jobs@[j].status@,
                ),
        decreases jobs.len() - i,
    {
        let query = json::member_text(jobs[i].payload.as_str(), "query");
        pending.push(show_pending(query, jobs[i].status.as_str()));
        i += 1;
    }
    assert(pending.deep_view() =~= jobs@.map_values(
        |j: PendingJob| pending_row(json::text_member(j.payload@, "query"@), j.status@),
    ));
    let mut rows: Vec<AuthorRow> = Vec::new();
    let mut k: usize = 0;
    while k < authors.len()
        invariant
            k <= authors.len(),
            rows.len() == k,
            forall|j: int|
                0 <= j < k ==> (#[trigger] rows@[j]).deep_view() == author_row(authors@[j]@),
        decreases authors.len() - k,
    {
        let mut href = "/add-new?q=".to_string();
        href.append(encode::urlencoding(authors[k].as_str()).as_str());
        rows.push(AuthorRow { author: authors[k].clone(), href });
        k += 1;
    }
    assert(rows.deep_view() =~= authors.deep_view().map_values(|a: Seq<char>| author_row(a)));
    WantedPage { pending, authors: rows }
}

// ---- what is chosen and what is listed ----

/// Of what the sources offer, the first epub is the one before which no other
/// stands; there is none only where no candidate is an epub.
pub proof fn law_first_epub(s: Seq<Candidate>)
    ensures
        match first_epub(s, 0) {
            Some(k) => 0 <= k < s.len() && s[k].format@ == "epub"@ && forall|j: int|
                0 <= j < k ==> (#[trigger] s[j]).format@ != "epub"@,
            None => forall|j: int| 0 <= j < s.len() ==> (#[trigger] s[j]).format@ != "epub"@,
        },
{
    lemma_first_epub(s, 0);
}

/// What all sources offer is what each offers, one source after the other.
pub proof fn law_all_found(
    a: Seq<Vec<Candidate>>,
    b: Seq<Vec<Candidate>>,
    one: Vec<Candidate>,
)
    ensures
        all_found(a + b) == all_found(a) + all_found(b),
        all_found(seq![one]) == one@,
    decreases b.len(),
{
    let single = seq![one];
    assert(single.drop_last() =~= seq![]);
    assert(all_found(single.drop_last()) == Seq::<Candidate>::empty());
    assert(all_found(single) =~= one@);
    if b.len() == 0 {
        assert(a + b =~= a);
        assert(all_found(a) + all_found(b) =~= all_found(a));
    } else {
        law_all_found(a, b.drop_last(), one);
        assert((a + b).drop_last() =~= a + b.drop_last());
        assert(all_found(a + b) =~= all_found(a) + all_found(b));
    }
}

/// Following an author adds that one name, trimmed, at the end of the list, or
/// changes nothing: a blank name, and one that is followed in any case, is not
/// added.
pub proof fn law_followed_list(authors: Seq<Seq<char>>, author: Seq<char>)
    ensures
        text::trimmed(author).len() == 0 ==> with_author(authors, author) == authors,
        (exists|i: int|
            0 <= i < authors.len() && text::ascii_lowered(#[trigger] authors[i])
                == text::ascii_lowered(text::trimmed(author))) ==> with_author(authors, author)
            == authors,
        text::trimmed(author).len() > 0 && (forall|i: int|
            0 <= i < authors.len() ==> text::ascii_lowered(#[trigger] authors[i])
                != text::ascii_lowered(text::trimmed(author))) ==> with_author(authors, author)
            == authors.push(text::trimmed(author)),
{
}

/// The titles of a list are its lines without the whitespace around them, in
/// order, but for those that are blank.
pub proof fn law_titles(lines: Seq<Seq<char>>)
    ensures
        titles_in(lines) == lines.map_values(|l: Seq<char>| text::trimmed(l)).filter(
            |t: Seq<char>| t.len() > 0,
        ),
    decreases lines.len(),
{
    reveal(Seq::filter);
    let trim = |l: Seq<char>| text::trimmed(l);
    if lines.len() > 0 {
        law_titles(lines.drop_last());
        assert(lines.map_values(trim).drop_last() =~= lines.drop_last().map_values(trim));
        assert(lines.map_values(trim).last() == text::trimmed(lines.last()));
    } else {
        assert(lines.map_values(trim) =~= seq![]);
    }
}

/// An acquisition is listed by what it looks for, in its own state; a running
/// one is downloading, and a failed one is marked as such.
pub proof fn law_pending_row(query: Seq<char>, status: Seq<char>)
    ensures
        pending_row(Some(query), status).title == query,
        pending_row(Some(query), status).status == status,
        pending_row(None, status).status == status,
        pending_row(None, status).title == "…"@,
        pending_row(None, status).class == pending_row(Some(query), status).class,
        pending_row(Some(query), "queued"@).class == Some("queued"@),
        pending_row(Some(query), "running"@).class == Some("downloading"@),
        pending_row(Some(query), "failed"@).class == Some("failed"@),
        status != "queued"@ && status != "running"@ && status != "failed"@ ==> pending_row(
            Some(query),
            status,
        ).class is None,
{
    reveal_strlit("queued");
    reveal_strlit("running");
    reveal_strlit("failed");
    assert("queued"@[0] == 'q' && "running"@[0] == 'r' && "failed"@[0] == 'f');
}

/// A followed author leads to a search for exactly that author.
pub proof fn law_author_row(author: Seq<char>, other: Seq<char>)
    ensures
        author_row(author).author == author,
        text::ends(author_row(author).href, "?q="@ + encode::url_encoded(author)),
        author_row(author).href == author_row(other).href ==> author == other,
{
    reveal_strlit("/add-new?q=");
    reveal_strlit("?q=");
    let a = author_row(author).href;
    let b = author_row(other).href;
    let tail = "?q="@ + encode::url_encoded(author);
    assert(a.subrange(a.len() - tail.len(), a.len() as int) =~= tail);
    if a == b {
        assert(a.skip(11) =~= encode::url_encoded(author));
        assert(b.skip(11) =~= encode::url_encoded(other));
        encode::law_url_injective(author, other);
    }
}

/// Every part of a row of an acquisition is seen as itself.
pub proof fn law_pending_row_view(x: PendingRow)
    ensures
        x.deep_view().title == x.title@,
        x.deep_view().class == (match x.class {
            Some(c) => Some(c@),
            None => None,
        }),
        x.deep_view().status == x.status@,
{
}

/// Every part of a row of an author is seen as itself.
pub proof fn law_author_row_view(x: AuthorRow)
    ensures
        x.deep_view().author == x.author@,
        x.deep_view().href == x.href@,
{
}

/// Something is acquired wherever any source offers anything, an epub wherever any
/// source offers one, and only what a source offers.
pub proof fn law_acquire(found: &Vec<Vec<Candidate>>, r: Option<&Candidate>, k: int)
    requires
        call_ensures(acquire, (found,), r),
    ensures
        r is None <==> all_found(found@).len() == 0,
        r matches Some(c) ==> all_found(found@).contains(*c),
        0 <= k < all_found(found@).len() && all_found(found@)[k].format@ == "epub"@ ==> (
        r matches Some(c) && c.format@ == "epub"@),
{
    law_first_epub(all_found(found@));
}

} // verus!
