//! Library Genesis as a source: which mirrors to ask, and what their pages say.

use vstd::prelude::*;
use vstd::string::*;
use crate::sdk::{Candidate, CandidateView, Download};
use crate::archive;
use crate::encode;
use crate::sdk;
use crate::text;

verus! {

/// `s` with the entities that the pages use replaced, `&amp;` first.
pub open spec fn plain(s: Seq<char>) -> Seq<char> {
    text::replaced(text::replaced(text::replaced(s, "&amp;"@, "&"@), "&#39;"@, "'"@), "&quot;"@, "\""@)
}

/// Replaces the entities that the pages use.
pub fn unescape(s: &str) -> (r: String)
    ensures
        r@ == plain(s@),
{
    proof {
        reveal_strlit("&amp;");
        reveal_strlit("&#39;");
        reveal_strlit("&quot;");
    }
    let s = text::replace(s, "&amp;", "&");
    let s = text::replace(s.as_str(), "&#39;", "'");
    text::replace(s.as_str(), "&quot;", "\"")
}

// ---- a row of the results ----

pub open spec fn all_hex(s: Seq<char>) -> bool {
    forall|i: int| 0 <= i < s.len() ==> text::is_hex_digit(#[trigger] s[i])
}

/// The checksum in a row: the 32 hexadecimal digits after the first `md5=`.
pub open spec fn checksum_in(row: Seq<char>) -> Option<Seq<char>> {
    match text::first_at(row, "md5="@, 0) {
        Some(i) => {
            let digits = text::cut(row.skip(i + 4), 32);
            if digits.len() == 32 && all_hex(digits) {
                Some(text::lowered(digits))
            } else {
                None
            }
        },
        None => None,
    }
}

/// The checksum in a row.
pub fn find_md5(row: &str) -> (r: Option<String>)
    ensures
        r.deep_view() == checksum_in(row@),
{
    proof {
        reveal_strlit("md5=");
    }
    let cs = text::chars_of(row);
    let mark = text::chars_of("md5=");
    let from: usize = match text::find_from(&cs, &mark, 0) {
        Some(i) => {
            assert(i + 4 <= cs.len());
            i + 4
        },
        None => {
            return None;
        },
    };
    let ghost digits = text::cut(row@.skip(from as int), 32);
    if cs.len() - from < 32 {
        return None;
    }
    assert(cs@.subrange(from as int, from + 32) =~= digits);
    let mut i: usize = 0;
    while i < 32
        invariant
            i <= 32,
            cs@ == row@,
            from + 32 <= cs@.len(),
            digits == cs@.subrange(from as int, from + 32),
            checksum_in(row@) is Some ==> all_hex(digits),
            forall|j: int| 0 <= j < i ==> text::is_hex_digit(#[trigger] digits[j]),
        decreases 32 - i,
    {
        assert(digits[i as int] == cs@[from + i]);
        assert(from + i < cs.len());
        if !text::hex_digit(cs[from + i]) {
            return None;
        }
        i += 1;
    }
    Some(text::lower(text::string_of(&cs[from..from + 32]).as_str()))
}

/// The title in a row from `at` on: the first text of an edition link that is
/// not empty.
pub open spec fn title_from(row: Seq<char>, at: int) -> Option<Seq<char>>
    decreases row.len() - at,
{
    match text::first_at(row, "href=\"edition.php"@, at) {
        Some(a) => if 0 <= at <= a && a + 17 <= row.len() {
            match text::first_at(row, "\">"@, a) {
                Some(q) => match text::first_char(row, '<', q + 2) {
                    Some(end) => if a < end <= row.len() {
                        let title = plain(text::trimmed(row.subrange(q + 2, end)));
                        if title.len() > 0 {
                            Some(title)
                        } else {
                            title_from(row, end)
                        }
                    } else {
                        None
                    },
                    None => title_from(row, a + 17),
                },
                None => title_from(row, a + 17),
            }
        } else {
            None
        },
        None => None,
    }
}

/// The title in a row: the first text of an edition link that is not empty.
pub fn find_title(row: &str) -> (r: Option<String>)
    ensures
        r.deep_view() == title_from(row@, 0),
{
    proof {
        reveal_strlit("href=\"edition.php");
        reveal_strlit("\">");
    }
    let cs = text::chars_of(row);
    let link = text::chars_of("href=\"edition.php");
    let close = text::chars_of("\">");
    let mut at: usize = 0;
    loop
        invariant
            cs@ == row@,
            link@ == "href=\"edition.php"@,
            link@.len() == 17,
            close@ == "\">"@,
            close@.len() == 2,
            at <= cs@.len(),
            title_from(row@, 0) == title_from(row@, at as int),
        decreases cs@.len() - at,
    {
        let a: usize = match text::find_from(&cs, &link, at) {
            Some(a) => a,
            None => {
                return None;
            },
        };
        assert(a + 17 <= cs.len());
        match text::find_from(&cs, &close, a) {
            Some(q) => {
                assert(q + 2 <= cs.len());
                match text::find_char(&cs, '<', q + 2) {
                    Some(end) => {
                        let raw = text::string_of(&cs[q + 2..end]);
                        let title = unescape(text::trim(raw.as_str()).as_str());
                        if !text::empty(title.as_str()) {
                            return Some(title);
                        }
                        at = end;
                    },
                    None => {
                        at = a + 17;
                    },
                }
            },
            None => {
                at = a + 17;
            },
        }
    }
}

/// A cell that holds nothing but `ext`.
pub open spec fn cell(ext: Seq<char>) -> Seq<char> {
    "<td>"@ + ext + "</td>"@
}

/// The format in a row: the first known one that has a cell of its own.
pub open spec fn format_in(row: Seq<char>) -> Option<Seq<char>> {
    if text::has(row, cell("epub"@)) {
        Some("epub"@)
    } else if text::has(row, cell("pdf"@)) {
        Some("pdf"@)
    } else if text::has(row, cell("mobi"@)) {
        Some("mobi"@)
    } else if text::has(row, cell("azw3"@)) {
        Some("azw3"@)
    } else if text::has(row, cell("cbr"@)) {
        Some("cbr"@)
    } else if text::has(row, cell("cbz"@)) {
        Some("cbz"@)
    } else if text::has(row, cell("djvu"@)) {
        Some("djvu"@)
    } else if text::has(row, cell("txt"@)) {
        Some("txt"@)
    } else if text::has(row, cell("fb2"@)) {
        Some("fb2"@)
    } else {
        None
    }
}

fn has_cell(row: &str, ext: &str) -> (r: bool)
    ensures
        r == text::has(row@, cell(ext@)),
{
    let mut wanted = "<td>".to_string();
    wanted.append(ext);
    wanted.append("</td>");
    text::contains(row, wanted.as_str())
}

/// The format in a row.
pub fn find_ext(row: &str) -> (r: Option<String>)
    ensures
        r.deep_view() == format_in(row@),
{
    if has_cell(row, "epub") {
        Some("epub".to_string())
    } else if has_cell(row, "pdf") {
        Some("pdf".to_string())
    } else if has_cell(row, "mobi") {
        Some("mobi".to_string())
    } else if has_cell(row, "azw3") {
        Some("azw3".to_string())
    } else if has_cell(row, "cbr") {
        Some("cbr".to_string())
    } else if has_cell(row, "cbz") {
        Some("cbz".to_string())
    } else if has_cell(row, "djvu") {
        Some("djvu".to_string())
    } else if has_cell(row, "txt") {
        Some("txt".to_string())
    } else if has_cell(row, "fb2") {
        Some("fb2".to_string())
    } else {
        None
    }
}

/// The first name of an author list: what stands before the first semicolon,
/// at most 80 characters of it.
pub open spec fn first_name(list: Seq<char>) -> Seq<char> {
    plain(text::trimmed(text::cut(text::pieces(list, ';')[0], 80)))
}

/// The author in a row from `at` on: the first name of the first cell that
/// holds a semicolon and no tag, and gives a name.
pub open spec fn author_from(row: Seq<char>, at: int) -> Option<Seq<char>>
    decreases row.len() - at,
{
    match text::first_at(row, "<td>"@, at) {
        Some(o) => match text::first_at(row, "</td>"@, o + 4) {
            Some(end) => if 0 <= at <= o && o + 4 <= end && end + 5 <= row.len() {
                let text = row.subrange(o + 4, end);
                if text.contains(';') && !text.contains('<') && first_name(text).len() > 0 {
                    Some(first_name(text))
                } else {
                    author_from(row, end + 5)
                }
            } else {
                None
            },
            None => None,
        },
        None => None,
    }
}

fn holds_char(s: &[char], c: char) -> (r: bool)
    ensures
        r == s@.contains(c),
{
    proof {
        text::lemma_first_char(s@, c, 0);
    }
    match text::find_char(s, c, 0) {
        Some(_) => true,
        None => false,
    }
}

/// The author in a row.
pub fn find_author(row: &str) -> (r: Option<String>)
    ensures
        r.deep_view() == author_from(row@, 0),
{
    proof {
        reveal_strlit("<td>");
        reveal_strlit("</td>");
    }
    let cs = text::chars_of(row);
    let open = text::chars_of("<td>");
    let close = text::chars_of("</td>");
    let mut at: usize = 0;
    loop
        invariant
            cs@ == row@,
            open@ == "<td>"@,
            open@.len() == 4,
            close@ == "</td>"@,
            close@.len() == 5,
            at <= cs@.len(),
            author_from(row@, 0) == author_from(row@, at as int),
        decreases cs@.len() - at,
    {
        let o: usize = match text::find_from(&cs, &open, at) {
            Some(o) => o,
            None => {
                return None;
            },
        };
        assert(o + 4 <= cs.len());
        let end: usize = match text::find_from(&cs, &close, o + 4) {
            Some(end) => end,
            None => {
                return None;
            },
        };
        assert(end + 5 <= cs.len());
        let text = &cs[o + 4..end];
        if holds_char(text, ';') && !holds_char(text, '<') {
            let parts = text::split(text::string_of(text).as_str(), ';');
            proof {
                text::lemma_some_piece(text@, ';');
            }
            assert(parts.deep_view()[0] == parts@[0]@);
            let name = unescape(text::trim(text::first_chars(parts[0].as_str(), 80).as_str()).as_str());
            if !text::empty(name.as_str()) {
                return Some(name);
            }
        }
        at = end + 5;
    }
}

// ---- a page of results ----

/// The book of a row: one with a download link, a checksum and a format.
pub open spec fn row_book(row: Seq<char>) -> Option<CandidateView> {
    if (text::has(row, "ads.php?md5="@) || text::has(row, "get.php?md5="@)) && checksum_in(row) is Some
        && format_in(row) is Some {
        Some(
            CandidateView {
                source: "libgen"@,
                title: match title_from(row, 0) {
                    Some(t) => t,
                    None => "Untitled"@,
                },
                author: author_from(row, 0),
                format: format_in(row)->0,
                size: None,
                reference: checksum_in(row)->0,
            },
        )
    } else {
        None
    }
}

pub open spec fn row_books(rows: Seq<Seq<char>>) -> Seq<CandidateView>
    decreases rows.len(),
{
    if rows.len() == 0 {
        seq![]
    } else {
        match row_book(rows.last()) {
            Some(c) => row_books(rows.drop_last()).push(c),
            None => row_books(rows.drop_last()),
        }
    }
}

/// The books of a page of results, in the order of its rows.
pub open spec fn page_books(html: Seq<char>) -> Seq<CandidateView> {
    row_books(text::pieces_by(html, "<tr"@).skip(1))
}

fn parse_row(row: &str) -> (r: Option<Candidate>)
    ensures
        r.deep_view() == row_book(row@),
{
    if !text::contains(row, "ads.php?md5=") && !text::contains(row, "get.php?md5=") {
        return None;
    }
    let reference = match find_md5(row) {
        Some(md5) => md5,
        None => {
            return None;
        },
    };
    let title = match find_title(row) {
        Some(t) => t,
        None => "Untitled".to_string(),
    };
    match find_ext(row) {
        Some(format) => Some(
            Candidate {
                source: "libgen".to_string(),
                title,
                author: find_author(row),
                format,
                size: None,
                reference,
            },
        ),
        None => None,
    }
}

/// The books of a page of results.
pub fn parse_libgen(html: &str) -> (r: Vec<Candidate>)
    ensures
        r.deep_view() == page_books(html@),
{
    proof {
        reveal_strlit("<tr");
        text::lemma_some_piece_by(html@, "<tr"@);
    }
    let rows = text::split_by(html, "<tr");
    let ghost all = rows.deep_view();
    let ghost body = all.skip(1);
    let mut out: Vec<Candidate> = Vec::new();
    let mut i: usize = 1;
    assert(body.take(0) =~= seq![]);
    while i < rows.len()
        invariant
            all == rows.deep_view(),
            body == all.skip(1),
            1 <= i <= rows.len(),
            out.deep_view() == row_books(body.take(i - 1)),
        decreases rows.len() - i,
    {
        assert(body.take(i as int).drop_last() =~= body.take(i - 1));
        assert(body[i - 1] == rows@[i as int]@);
        let ghost before = out.deep_view();
        if let Some(c) = parse_row(rows[i].as_str()) {
            let ghost cv = c.deep_view();
            out.push(c);
            assert(out.deep_view() =~= before.push(cv));
        }
        i += 1;
    }
    assert(body.take(body.len() as int) =~= body);
    out
}

/// The books of the wanted format; all where none is asked for.
pub open spec fn of_format(books: Seq<CandidateView>, format: Option<Seq<char>>) -> Seq<
    CandidateView,
>
    decreases books.len(),
{
    if books.len() == 0 {
        seq![]
    } else if format is None || books.last().format == format->0 {
        of_format(books.drop_last(), format).push(books.last())
    } else {
        of_format(books.drop_last(), format)
    }
}

/// The books that a page of results offers in the wanted format.
pub fn search(html: &str, format: &Option<String>) -> (r: Vec<Candidate>)
    ensures
        r.deep_view() == of_format(page_books(html@), format.deep_view()),
{
    let mut found = parse_libgen(html);
    let ghost all = found.deep_view();
    let mut rest: Vec<Candidate> = Vec::new();
    let mut out: Vec<Candidate> = Vec::new();
    // Taking the books from the end leaves them in `rest` the other way round.
    while found.len() > 0
        invariant
            found.len() <= all.len(),
            rest.len() == all.len() - found.len(),
            forall|j: int|
                0 <= j < found.len() ==> (#[trigger] found@[j]).deep_view() == all[j],
            forall|j: int|
                0 <= j < rest.len() ==> (#[trigger] rest@[j]).deep_view() == all[all.len() - 1 - j],
        decreases found.len(),
    {
        if let Some(c) = found.pop() {
            rest.push(c);
        }
    }
    let ghost mut n: int = 0;
    while rest.len() > 0
        invariant
            0 <= n,
            n + rest.len() == all.len(),
            forall|j: int|
                0 <= j < rest.len() ==> (#[trigger] rest@[j]).deep_view() == all[all.len() - 1 - j],
            out.deep_view() == of_format(all.take(n), format.deep_view()),
        decreases rest.len(),
    {
        assert(rest@[rest.len() - 1].deep_view() == all[n]);
        assert(all.take(n + 1).drop_last() =~= all.take(n));
        let ghost before = out.deep_view();
        if let Some(c) = rest.pop() {
            let ghost cv = c.deep_view();
            let wanted = match format {
                Some(f) => text::same(c.format.as_str(), f.as_str()),
                None => true,
            };
            if wanted {
                out.push(c);
                assert(out.deep_view() =~= before.push(cv));
            }
        }
        proof {
            n = n + 1;
        }
    }
    assert(all.take(all.len() as int) =~= all);
    out
}

// ---- addresses ----

/// The mirrors, in the order in which they are tried first.
pub open spec fn mirrors() -> Seq<Seq<char>> {
    seq!["libgen.li"@, "libgen.gs"@, "libgen.la"@]
}

/// The mirror that worked last, or the first one where none is remembered.
pub open spec fn current_mirror(remembered: Seq<char>) -> Seq<char> {
    if remembered.len() == 0 {
        mirrors()[0]
    } else {
        remembered
    }
}

/// The current mirror, then the others.
pub open spec fn mirror_order(remembered: Seq<char>) -> Seq<Seq<char>> {
    let start = current_mirror(remembered);
    seq![start] + mirrors().filter(|m: Seq<char>| m != start)
}

/// The mirror that worked last, or the first one where none is remembered.
pub fn host(remembered: &str) -> (r: String)
    ensures
        r@ == current_mirror(remembered@),
{
    if text::empty(remembered) {
        "libgen.li".to_string()
    } else {
        remembered.to_string()
    }
}

/// The mirrors to try: the current one, then the others.
pub fn mirrors_to_try(remembered: &str) -> (r: Vec<String>)
    ensures
        r.deep_view() == mirror_order(remembered@),
{
    let start = host(remembered);
    let ghost other = |m: Seq<char>| m != start@;
    let mut out: Vec<String> = Vec::new();
    proof {
        reveal(Seq::filter);
        reveal_with_fuel(Seq::<_>::filter, 4);
        let ghost all = mirrors();
        assert(all.drop_last() =~= seq!["libgen.li"@, "libgen.gs"@]);
        assert(all.drop_last().drop_last() =~= seq!["libgen.li"@]);
        assert(all.drop_last().drop_last().drop_last() =~= seq![]);
    }
    let ghost first = start@;
    out.push(start.clone());
    if !text::same(start.as_str(), "libgen.li") {
        out.push("libgen.li".to_string());
    }
    if !text::same(start.as_str(), "libgen.gs") {
        out.push("libgen.gs".to_string());
    }
    if !text::same(start.as_str(), "libgen.la") {
        out.push("libgen.la".to_string());
    }
    assert(out.deep_view() =~= mirror_order(remembered@));
    out
}

/// The address of a search at a mirror.
pub fn search_url(host: &str, query: &str) -> (r: String)
    ensures
        r@ == "https://"@ + host@ + "/index.php?req="@ + encode::url_encoded(query@) + "&res=50"@,
{
    let mut u = "https://".to_string();
    u.append(host);
    u.append("/index.php?req=");
    u.append(encode::urlencoding(query).as_str());
    u.append("&res=50");
    u
}

/// A page as text: its bytes are read as UTF-8, and what is no UTF-8 is replaced.
pub fn page_text(body: &Vec<u8>) -> (r: String)
    ensures
        r@ == archive::text_of(body@),
{
    archive::lossy_text(body)
}

/// What follows the answer of a mirror.
pub enum MirrorStep {
    /// These books were found; the mirror is to be remembered.
    Found(Vec<Candidate>, String),
    /// Ask the mirror at this position.
    Ask(usize),
    /// No mirror has the book.
    Nothing,
}

#[verifier::ext_equal]
pub enum MirrorStepView {
    Found(Seq<CandidateView>, Seq<char>),
    Ask(int),
    Nothing,
}

impl DeepView for MirrorStep {
    type V = MirrorStepView;

    open spec fn deep_view(&self) -> MirrorStepView {
        match self {
            MirrorStep::Found(books, host) => MirrorStepView::Found(books.deep_view(), host@),
            MirrorStep::Ask(i) => MirrorStepView::Ask(*i as int),
            MirrorStep::Nothing => MirrorStepView::Nothing,
        }
    }
}

/// The books of a page in the wanted format; none where there is no page.
pub open spec fn books_on(page: Option<Seq<char>>, format: Option<Seq<char>>) -> Seq<
    CandidateView,
> {
    match page {
        Some(html) => of_format(page_books(html), format),
        None => seq![],
    }
}

/// What follows the page of the mirror at position `i`. A mirror that does not
/// answer, or whose page has no book in the wanted format, is followed by the
/// next one.
pub open spec fn mirror_step(
    hosts: Seq<Seq<char>>,
    i: int,
    page: Option<Seq<char>>,
    format: Option<Seq<char>>,
) -> MirrorStepView {
    let found = books_on(page, format);
    if found.len() > 0 {
        MirrorStepView::Found(found, hosts[i])
    } else if i + 1 < hosts.len() {
        MirrorStepView::Ask(i + 1)
    } else {
        MirrorStepView::Nothing
    }
}

/// What follows the page of a mirror; no page where it did not answer.
pub fn search_step(
    hosts: &Vec<String>,
    i: usize,
    page: &Option<String>,
    format: &Option<String>,
) -> (r: MirrorStep)
    requires
        i < hosts.len(),
    ensures
        r.deep_view() == mirror_step(
            hosts.deep_view(),
            i as int,
            page.deep_view(),
            format.deep_view(),
        ),
{
    let found = match page {
        Some(html) => search(html.as_str(), format),
        None => Vec::new(),
    };
    assert(found.deep_view() =~= books_on(page.deep_view(), format.deep_view()));
    if found.len() > 0 {
        assert(hosts.deep_view()[i as int] == hosts@[i as int]@);
        MirrorStep::Found(found, hosts[i].clone())
    } else if i + 1 < hosts.len() {
        MirrorStep::Ask(i + 1)
    } else {
        MirrorStep::Nothing
    }
}

/// What a search gives that asks the mirrors from position `i` on, where
/// `pages` are their answers in order: books, and the mirror they came from.
pub open spec fn mirror_search(
    hosts: Seq<Seq<char>>,
    pages: Seq<Option<Seq<char>>>,
    format: Option<Seq<char>>,
    i: int,
) -> MirrorStepView
    decreases hosts.len() - i,
{
    if i < 0 || hosts.len() <= i {
        MirrorStepView::Nothing
    } else {
        match mirror_step(hosts, i, pages[i], format) {
            MirrorStepView::Ask(k) => mirror_search(hosts, pages, format, i + 1),
            s => s,
        }
    }
}

/// A search ends with the first mirror whose page has a book in the wanted
/// format, and with nothing where no mirror has one.
pub proof fn law_first_mirror_wins(
    hosts: Seq<Seq<char>>,
    pages: Seq<Option<Seq<char>>>,
    format: Option<Seq<char>>,
    i: int,
    k: int,
)
    requires
        hosts.len() == pages.len(),
        0 <= i <= k <= hosts.len(),
        forall|j: int|
            i <= j < k ==> (#[trigger] books_on(pages[j], format)).len() == 0,
        k < hosts.len() ==> books_on(pages[k], format).len() > 0,
    ensures
        mirror_search(hosts, pages, format, i) == if k < hosts.len() {
            MirrorStepView::Found(books_on(pages[k], format), hosts[k])
        } else {
            MirrorStepView::Nothing
        },
    decreases k - i,
{
    if i < k {
        assert(books_on(pages[i], format).len() == 0);
        if i + 1 < hosts.len() {
            law_first_mirror_wins(hosts, pages, format, i + 1, k);
        }
    }
}

/// The address of the page that leads to a download.
pub fn ads_url(host: &str, md5: &str) -> (r: String)
    ensures
        r@ == "https://"@ + host@ + "/ads.php?md5="@ + md5@,
{
    let mut u = "https://".to_string();
    u.append(host);
    u.append("/ads.php?md5=");
    u.append(md5);
    u
}

/// The download link on a page: from the first `get.php?md5=` up to the next quote.
pub open spec fn get_link(html: Seq<char>) -> Option<Seq<char>> {
    match text::first_at(html, "get.php?md5="@, 0) {
        Some(i) => match text::first_char(html, '"', i) {
            Some(end) => Some(plain(html.subrange(i, end))),
            None => None,
        },
        None => None,
    }
}

/// The download link on a page.
pub fn find_get_link(html: &str) -> (r: Option<String>)
    ensures
        r.deep_view() == get_link(html@),
{
    let cs = text::chars_of(html);
    let mark = text::chars_of("get.php?md5=");
    match text::find_from(&cs, &mark, 0) {
        Some(i) => match text::find_char(&cs, '"', i) {
            Some(end) => Some(unescape(text::string_of(&cs[i..end]).as_str())),
            None => None,
        },
        None => None,
    }
}

/// The address that a link leads to from a mirror.
pub open spec fn link_address(host: Seq<char>, link: Seq<char>) -> Seq<char> {
    if text::occurs_at(link, "http"@, 0) {
        link
    } else {
        "https://"@ + host + "/"@ + text::trimmed_start(link, text::CharSet::Slash)
    }
}

/// How to get a book whose download page at a mirror is `ads`; nothing where
/// the page has no download link.
pub fn resolve_download(host: &str, ads: &str) -> (r: Option<Download>)
    ensures
        match get_link(ads@) {
            Some(link) => r matches Some(d) && d.url.deep_view() == Some(link_address(host@, link))
                && d.headers@.len() == 0 && d.bytes is None,
            None => r is None,
        },
{
    let link = match find_get_link(ads) {
        Some(link) => link,
        None => {
            return None;
        },
    };
    if text::starts_with(link.as_str(), "http") {
        return Some(sdk::from_url(link.as_str()));
    }
    let mut url = "https://".to_string();
    url.append(host);
    url.append("/");
    url.append(text::trim_start_of(link.as_str(), text::CharSet::Slash).as_str());
    Some(sdk::from_url(url.as_str()))
}

// ---- what a page of results comes to ----

/// The checksum of a row is the 32 hexadecimal digits behind its first `md5=`,
/// in lowercase.
pub proof fn law_checksum(row: Seq<char>, i: int, digits: Seq<char>)
    requires
        text::first_at(row, "md5="@, 0) == Some(i),
        text::occurs_at(row, digits, i + 4),
        digits.len() == 32,
        forall|k: int| 0 <= k < 32 ==> text::is_hex_digit(#[trigger] digits[k]),
    ensures
        checksum_in(row) == Some(text::lowered(digits)),
{
    assert(text::cut(row.skip(i + 4), 32) =~= digits) by {
        assert(row.subrange(i + 4, i + 36) == digits);
        assert forall|k: int| 0 <= k < 32 implies row.skip(i + 4)[k] == digits[k] by {
            assert(row.subrange(i + 4, i + 36)[k] == row[i + 4 + k]);
        }
    }
}

/// A checksum that is found has 32 lowercase hexadecimal digits, and a row
/// without `md5=` has none.
pub proof fn law_checksum_form(row: Seq<char>)
    ensures
        !text::has(row, "md5="@) ==> checksum_in(row) is None,
        checksum_in(row) matches Some(s) ==> s.len() == 32 && forall|k: int|
            0 <= k < 32 ==> '0' <= #[trigger] s[k] <= '9' || 'a' <= s[k] <= 'f',
{
    if let Some(i) = text::first_at(row, "md5="@, 0) {
        let digits = text::cut(row.skip(i + 4), 32);
        if digits.len() == 32 && all_hex(digits) {
            assert forall|k: int| 0 <= k < digits.len() implies '\0' <= #[trigger] digits[k]
                <= '\u{7f}' by {
                assert(text::is_hex_digit(digits[k]));
            }
            text::law_lowered_ascii(digits);
            let s = text::lowered(digits);
            assert forall|k: int| 0 <= k < 32 implies '0' <= #[trigger] s[k] <= '9' || 'a' <= s[k]
                <= 'f' by {
                assert(text::is_hex_digit(digits[k]));
            }
        }
    }
}

/// The format of a row has a cell of its own in it; a row without a format has
/// no cell of a known one, and epub comes before all others.
pub proof fn law_format(row: Seq<char>)
    ensures
        format_in(row) matches Some(f) ==> text::has(row, "<td>"@ + f + "</td>"@),
        text::has(row, "<td>"@ + "epub"@ + "</td>"@) <==> format_in(row) == Some("epub"@),
        text::has(row, "<td>"@ + "pdf"@ + "</td>"@) && !text::has(
            row,
            "<td>"@ + "epub"@ + "</td>"@,
        ) ==> format_in(row) == Some("pdf"@),
        format_in(row) is None <==> !text::has(row, "<td>"@ + "epub"@ + "</td>"@) && !text::has(
            row,
            "<td>"@ + "pdf"@ + "</td>"@,
        ) && !text::has(row, "<td>"@ + "mobi"@ + "</td>"@) && !text::has(
            row,
            "<td>"@ + "azw3"@ + "</td>"@,
        ) && !text::has(row, "<td>"@ + "cbr"@ + "</td>"@) && !text::has(
            row,
            "<td>"@ + "cbz"@ + "</td>"@,
        ) && !text::has(row, "<td>"@ + "djvu"@ + "</td>"@) && !text::has(
            row,
            "<td>"@ + "txt"@ + "</td>"@,
        ) && !text::has(row, "<td>"@ + "fb2"@ + "</td>"@),
{
    reveal_strlit("epub");
    reveal_strlit("pdf");
    reveal_strlit("mobi");
    reveal_strlit("azw3");
    reveal_strlit("cbr");
    reveal_strlit("cbz");
    reveal_strlit("djvu");
    reveal_strlit("txt");
    reveal_strlit("fb2");
    assert("epub"@[0] == 'e' && "pdf"@[0] == 'p' && "mobi"@[0] == 'm' && "azw3"@[0] == 'a');
    assert("cbr"@[0] == 'c' && "cbz"@[0] == 'c' && "djvu"@[0] == 'd' && "txt"@[0] == 't');
    assert("fb2"@[0] == 'f');
}

/// The book of a row is handled by its checksum, has the format of its cell, the
/// title of its edition link and the author of its author cell, and is one of
/// this source. A row without a download link, a checksum or a format has none.
pub proof fn law_row_book(row: Seq<char>)
    ensures
        row_book(row) is Some <==> (text::has(row, "ads.php?md5="@) || text::has(
            row,
            "get.php?md5="@,
        )) && checksum_in(row) is Some && format_in(row) is Some,
        row_book(row) matches Some(b) ==> {
            &&& checksum_in(row) == Some(b.reference)
            &&& format_in(row) == Some(b.format)
            &&& b.author == author_from(row, 0)
            &&& title_from(row, 0) matches Some(t) ==> b.title == t
            &&& title_from(row, 0) is None ==> b.title == "Untitled"@
            &&& b.source == "libgen"@ && b.size is None
        },
{
}

/// No row is lost: one more row with a book is one more book at the end, and one
/// without changes nothing.
pub proof fn law_one_more_row(rows: Seq<Seq<char>>, row: Seq<char>)
    ensures
        row_book(row) matches Some(b) ==> row_books(rows.push(row)) == row_books(rows).push(b),
        row_book(row) is None ==> row_books(rows.push(row)) == row_books(rows),
        row_books(seq![]).len() == 0,
{
    assert(rows.push(row).drop_last() =~= rows);
}

/// A search gives exactly the books of the page in the wanted format, in order,
/// and all of them where none is asked for.
pub proof fn law_of_format(books: Seq<CandidateView>, format: Seq<char>)
    ensures
        of_format(books, None) == books,
        of_format(books, Some(format)) == books.filter(|b: CandidateView| b.format == format),
    decreases books.len(),
{
    reveal(Seq::filter);
    if books.len() > 0 {
        law_of_format(books.drop_last(), format);
        assert(books.drop_last().push(books.last()) =~= books);
    } else {
        assert(of_format(books, None) =~= books);
    }
}

/// The remembered mirror is asked first, every other one after it, and none
/// twice.
pub proof fn law_mirror_order(remembered: Seq<char>)
    ensures
        remembered.len() > 0 ==> mirror_order(remembered)[0] == remembered,
        remembered.len() == 0 ==> mirror_order(remembered)[0] == "libgen.li"@,
        mirror_order(remembered).contains("libgen.li"@),
        mirror_order(remembered).contains("libgen.gs"@),
        mirror_order(remembered).contains("libgen.la"@),
        forall|i: int|
            0 < i < mirror_order(remembered).len() ==> #[trigger] mirror_order(remembered)[i]
                != mirror_order(remembered)[0],
{
    let start = current_mirror(remembered);
    let other = |m: Seq<char>| m != start;
    let all = mirror_order(remembered);
    let rest = mirrors().filter(other);
    assert forall|k: int| 0 <= k < 3 implies all.contains(#[trigger] mirrors()[k]) by {
        if mirrors()[k] == start {
            assert(all[0] == start);
        } else {
            mirrors().lemma_filter_contains(other, k);
            let j = choose|j: int| 0 <= j < rest.len() && rest[j] == mirrors()[k];
            assert(all[j + 1] == rest[j]);
        }
    }
    assert(mirrors()[0] == "libgen.li"@ && mirrors()[1] == "libgen.gs"@ && mirrors()[2]
        == "libgen.la"@);
    assert forall|i: int| 0 < i < all.len() implies #[trigger] all[i] != all[0] by {
        assert(all[i] == rest[i - 1]);
        mirrors().lemma_filter_pred(other, i - 1);
    }
}

/// What follows a mirror's page: the books on it, with the mirror they came
/// from; without any the next mirror, and after the last one nothing.
pub proof fn law_mirror_step(
    hosts: Seq<Seq<char>>,
    i: int,
    html: Seq<char>,
    format: Option<Seq<char>>,
)
    requires
        0 <= i < hosts.len(),
    ensures
        of_format(page_books(html), format).len() > 0 ==> mirror_step(hosts, i, Some(html), format)
            == MirrorStepView::Found(of_format(page_books(html), format), hosts[i]),
        of_format(page_books(html), format).len() == 0 ==> mirror_step(hosts, i, Some(html), format)
            == mirror_step(hosts, i, None, format),
        i + 1 < hosts.len() ==> mirror_step(hosts, i, None, format) == MirrorStepView::Ask(i + 1),
        i + 1 == hosts.len() ==> mirror_step(hosts, i, None, format) is Nothing,
{
}

/// The download link of a page begins at its first `get.php?md5=` and ends
/// before the next quote.
pub proof fn law_get_link(html: Seq<char>, i: int, link: Seq<char>)
    requires
        text::first_at(html, "get.php?md5="@, 0) == Some(i),
        text::occurs_at(html, link + "\""@, i),
        !link.contains('"'),
    ensures
        get_link(html) == Some(plain(link)),
{
    reveal_strlit("\"");
    let marked = link + "\""@;
    text::lemma_first_char(html, '"', i);
    assert(html.subrange(i, i + marked.len()) == marked);
    assert(html[i + link.len()] == '"') by {
        assert(marked[link.len() as int] == '"');
        assert(html.subrange(i, i + marked.len())[link.len() as int] == html[i + link.len()]);
    }
    let end = text::first_char(html, '"', i)->0;
    if end < i + link.len() {
        assert(html.subrange(i, i + marked.len())[end - i] == html[end]);
        assert(link[end - i] == '"');
    }
    assert(html.subrange(i, i + link.len()) =~= link) by {
        assert forall|k: int| 0 <= k < link.len() implies html[i + k] == link[k] by {
            assert(html.subrange(i, i + marked.len())[k] == html[i + k]);
        }
    }
}

/// A page without a download link gives none.
pub proof fn law_no_link(html: Seq<char>)
    requires
        !text::has(html, "get.php?md5="@),
    ensures
        get_link(html) is None,
{
}

/// A full address is followed as it is, and any other from the root of the
/// mirror.
pub proof fn law_link_address(host: Seq<char>, link: Seq<char>)
    ensures
        text::occurs_at(link, "http"@, 0) ==> link_address(host, link) == link,
        !text::occurs_at(link, "http"@, 0) && link.len() > 0 && link[0] != '/' ==> link_address(
            host,
            link,
        ) == "https://"@ + host + "/"@ + link,
        !text::occurs_at(link, "http"@, 0) ==> link_address(host, "/"@ + link) == link_address(
            host,
            link,
        ) || text::occurs_at("/"@ + link, "http"@, 0),
{
    reveal_strlit("/");
    assert(("/"@ + link).skip(1) =~= link);
}

/// The entities of a page are read as what they stand for; text without an
/// ampersand stays as it is.
pub proof fn law_plain(s: Seq<char>)
    requires
        !s.contains('&'),
    ensures
        plain(s) == s,
{
    reveal_strlit("&amp;");
    reveal_strlit("&#39;");
    reveal_strlit("&quot;");
    lemma_no_entity(s, "&amp;"@);
    lemma_no_entity(s, "&#39;"@);
    lemma_no_entity(s, "&quot;"@);
    text::law_replaced(s, "&amp;"@, "&"@);
    text::law_replaced(s, "&#39;"@, "'"@);
    text::law_replaced(s, "&quot;"@, "\""@);
}

proof fn lemma_no_entity(s: Seq<char>, p: Seq<char>)
    requires
        !s.contains('&'),
        p.len() > 0,
        p[0] == '&',
    ensures
        text::first_at(s, p, 0) is None,
{
    text::lemma_first_at(s, p, 0);
    if let Some(i) = text::first_at(s, p, 0) {
        assert(s.subrange(i, i + p.len())[0] == s[i]);
    }
}

/// The title of a row is the text of its first edition link, where there is any;
/// a row without such a link has none.
pub proof fn law_title(row: Seq<char>, a: int, q: int, end: int)
    ensures
        !text::has(row, "href=\"edition.php"@) ==> title_from(row, 0) is None,
        text::first_at(row, "href=\"edition.php"@, 0) == Some(a) && text::first_at(row, "\">"@, a)
            == Some(q) && text::first_char(row, '<', q + 2) == Some(end) && plain(
            text::trimmed(row.subrange(q + 2, end)),
        ).len() > 0 ==> title_from(row, 0) == Some(plain(text::trimmed(row.subrange(q + 2, end)))),
{
    reveal_strlit("href=\"edition.php");
    reveal_strlit("\">");
    text::lemma_first_at(row, "href=\"edition.php"@, 0);
    if text::first_at(row, "href=\"edition.php"@, 0) == Some(a) {
        text::lemma_first_at(row, "\">"@, a);
        if text::first_at(row, "\">"@, a) == Some(q) {
            text::lemma_first_char(row, '<', q + 2);
        }
    }
}

/// The author of a row stands in its first cell that is a list of names: one with
/// a semicolon and without a tag. A cell that is none is passed over, and a row
/// without a cell has no author.
pub proof fn law_author(row: Seq<char>, o: int, end: int)
    ensures
        !text::has(row, "<td>"@) ==> author_from(row, 0) is None,
        text::first_at(row, "<td>"@, 0) == Some(o) && text::first_at(row, "</td>"@, o + 4) == Some(
            end,
        ) ==> {
            let cell = row.subrange(o + 4, end);
            &&& cell.contains(';') && !cell.contains('<') && first_name(cell).len() > 0
                ==> author_from(row, 0) == Some(first_name(cell))
            &&& !cell.contains(';') || cell.contains('<') || first_name(cell).len() == 0
                ==> author_from(row, 0) == author_from(row, end + 5)
        },
{
    reveal_strlit("<td>");
    reveal_strlit("</td>");
    text::lemma_first_at(row, "<td>"@, 0);
    if text::first_at(row, "<td>"@, 0) == Some(o) {
        text::lemma_first_at(row, "</td>"@, o + 4);
    }
}

/// Of a list of names, the first is taken: what stands before the semicolon,
/// without the blanks around it.
pub proof fn law_first_name(name: Seq<char>, others: Seq<char>)
    requires
        !name.contains(';'),
        name.len() <= 80,
    ensures
        first_name(name + seq![';'] + others) == plain(text::trimmed(name)),
        first_name(name) == plain(text::trimmed(name)),
{
    let list = name + seq![';'] + others;
    text::law_first_char_behind(name, ';', others);
    assert(list.subrange(0, name.len() as int) =~= name);
    assert(text::pieces(list, ';')[0] == name);
    text::lemma_first_char(name, ';', 0);
    if text::first_char(name, ';', 0) is Some {
        assert(name.contains(name[text::first_char(name, ';', 0)->0]));
    }
    assert(name.skip(0) =~= name);
    assert(text::pieces(name, ';')[0] == name);
}

/// The books of a page are those of its rows: a page without a row has none, and
/// what stands before the first row is none.
pub proof fn law_page(head: Seq<char>, row: Seq<char>)
    ensures
        !text::has(head, "<tr"@) ==> page_books(head).len() == 0,
        ({
            let html = head + "<tr"@ + row;
            text::first_at(html, "<tr"@, 0) == Some(head.len() as int) && text::first_at(
                html,
                "<tr"@,
                head.len() + 3int,
            ) is None ==> page_books(html) == row_books(seq![row])
        }),
{
    reveal_strlit("<tr");
    let none = text::pieces_by(head, "<tr"@);
    if !text::has(head, "<tr"@) {
        assert(none.skip(1) =~= seq![]);
    }
    let html = head + "<tr"@ + row;
    if text::first_at(html, "<tr"@, 0) == Some(head.len() as int) && text::first_at(
        html,
        "<tr"@,
        head.len() + 3int,
    ) is None {
        assert(html.skip(head.len() + 3int) =~= row);
        let rest = text::pieces_by_from(html, "<tr"@, head.len() + 3int);
        assert(rest =~= seq![row]);
        let all = text::pieces_by(html, "<tr"@);
        assert(all == seq![html.subrange(0, head.len() as int)] + rest);
        assert(all.skip(1) =~= seq![row]);
    }
}

/// A search for a format gives only books of that format, all of them from the
/// page, and a search for none gives every book of the page.
pub proof fn law_search(html: &str, format: &Option<String>, r: Vec<Candidate>, i: int)
    requires
        call_ensures(search, (html, format), r),
    ensures
        format is None ==> r.deep_view() == page_books(html@),
        format matches Some(f) ==> r.deep_view() == page_books(html@).filter(
            |b: CandidateView| b.format == f@,
        ),
        0 <= i < r.len() ==> r@[i].source@ == "libgen"@,
{
    if let Some(f) = format {
        law_of_format(page_books(html@), f@);
        let same = |b: CandidateView| b.format == f@;
        if 0 <= i < r.len() {
            assert(r.deep_view()[i] == r@[i].deep_view());
            assert(page_books(html@).filter(same)[i] == r@[i].deep_view());
            page_books(html@).lemma_filter_contains_rev(same, r@[i].deep_view());
            let k = choose|k: int|
                0 <= k < page_books(html@).len() && page_books(html@)[k] == r@[i].deep_view();
            lemma_row_books(text::pieces_by(html@, "<tr"@).skip(1), k);
        }
    } else {
        law_of_format(page_books(html@), seq![]);
        if 0 <= i < r.len() {
            assert(r.deep_view()[i] == r@[i].deep_view());
            lemma_row_books(text::pieces_by(html@, "<tr"@).skip(1), i);
        }
    }
}

proof fn lemma_row_books(rows: Seq<Seq<char>>, k: int)
    requires
        0 <= k < row_books(rows).len(),
    ensures
        row_books(rows)[k].source == "libgen"@,
    decreases rows.len(),
{
    if k < row_books(rows.drop_last()).len() {
        lemma_row_books(rows.drop_last(), k);
    }
}

} // verus!
