//! The library: which files are books, under which names downloads are kept,
//! and what the library pages show.

use vstd::prelude::*;
use vstd::string::*;
use crate::sdk::{Candidate, Download, SearchQuery};
use crate::downloads;
use crate::meta;
use crate::paths;
use crate::text;

verus! {

/// A book of the library.
pub struct Book {
    pub id: i64,
    pub title: String,
    pub author: Option<String>,
    pub format: String,
    pub size: Option<i64>,
    pub description: Option<String>,
    pub cover: Option<String>,
}

// ---- files ----

/// The format of a book file, from its extension; nothing for other files.
pub open spec fn format_of(path: Seq<char>) -> Option<Seq<char>> {
    match paths::extension_of(path) {
        Some(ext) => if downloads::is_book_extension(text::lowered(ext)) {
            Some(text::lowered(ext))
        } else {
            None
        },
        None => None,
    }
}

/// The format of a book file, from its extension.
pub fn book_format(path: &str) -> (r: Option<String>)
    ensures
        r.deep_view() == format_of(path@),
{
    match paths::extension(path) {
        Some(ext) => {
            let ext = text::lower(ext.as_str());
            if downloads::book_extension(ext.as_str()) {
                Some(ext)
            } else {
                None
            }
        },
        None => None,
    }
}

/// A book to enter into the library.
pub struct NewBook {
    pub title: String,
    pub author: Option<String>,
    pub format: String,
    pub path: String,
    pub size: Option<i64>,
}

/// The book that a scanned file is: titled by its name without the extension.
/// A file that is no book is none.
pub fn scanned(path: &str, size: Option<i64>) -> (r: Option<NewBook>)
    ensures
        match format_of(path@) {
            Some(format) => r matches Some(b) && b.title@ == (match paths::stem_of(path@) {
                Some(stem) => stem,
                None => "Untitled"@,
            }) && b.author is None && b.format@ == format && b.path@ == path@ && b.size == size,
            None => r is None,
        },
{
    match book_format(path) {
        Some(format) => {
            let title = match paths::file_stem(path) {
                Some(stem) => stem,
                None => "Untitled".to_string(),
            };
            Some(NewBook { title, author: None, format, path: path.to_string(), size })
        },
        None => None,
    }
}

// ---- file names ----

/// A character that may not stand in a file name.
pub open spec fn is_forbidden(c: char) -> bool {
    ||| c == '/'
    ||| c == '\\'
    ||| c == ':'
    ||| c == '*'
    ||| c == '?'
    ||| c == '"'
    ||| c == '<'
    ||| c == '>'
    ||| c == '|'
    ||| text::is_control(c)
}

/// `name` with an underscore for every character that may not stand in a file
/// name.
pub open spec fn cleaned(name: Seq<char>) -> Seq<char> {
    name.map_values(
        |c: char|
            if is_forbidden(c) {
                '_'
            } else {
                c
            },
    )
}

/// The part of a name that is kept: cleaned, then without the whitespace around
/// it, the dots around that, and the whitespace inside those.
pub open spec fn kept(name: Seq<char>) -> Seq<char> {
    text::trimmed(text::trimmed_of(text::trimmed(cleaned(name)), text::CharSet::Dot))
}

/// A name that can be that of a file: at most 180 characters, none forbidden,
/// and not a name of the directory itself or of its parent.
pub open spec fn sanitized(name: Seq<char>) -> Seq<char> {
    if kept(name).len() == 0 || kept(name) == "."@ || kept(name) == ".."@ {
        "book"@
    } else {
        text::cut(kept(name), 180)
    }
}

fn clean(name: &str) -> (r: String)
    ensures
        r@ == cleaned(name@),
{
    let cs = text::chars_of(name);
    let mut out: String = String::new();
    let mut i: usize = 0;
    while i < cs.len()
        invariant
            cs@ == name@,
            i <= cs@.len(),
            out@ == cleaned(name@).take(i as int),
        decreases cs@.len() - i,
    {
        let c = cs[i];
        let forbidden = c == '/' || c == '\\' || c == ':' || c == '*' || c == '?' || c == '"' || c
            == '<' || c == '>' || c == '|' || text::control(c);
        out.push(
            if forbidden {
                '_'
            } else {
                c
            },
        );
        assert(cleaned(name@).take(i + 1) =~= cleaned(name@).take(i as int).push(
            cleaned(name@)[i as int],
        ));
        i += 1;
    }
    assert(cleaned(name@).take(cs@.len() as int) =~= cleaned(name@));
    out
}

/// Makes a name that can be that of a file.
pub fn sanitize(name: &str) -> (r: String)
    ensures
        r@ == sanitized(name@),
{
    let s = text::trim(clean(name).as_str());
    let s = text::trim(text::trim_of(s.as_str(), text::CharSet::Dot).as_str());
    if text::empty(s.as_str()) || text::same(s.as_str(), ".") || text::same(s.as_str(), "..") {
        "book".to_string()
    } else {
        text::first_chars(s.as_str(), 180)
    }
}

/// No character of `s` is forbidden.
pub open spec fn is_clean(s: Seq<char>) -> bool {
    forall|i: int| 0 <= i < s.len() ==> !is_forbidden(#[trigger] s[i])
}

proof fn lemma_clean_part(s: Seq<char>, set: text::CharSet)
    requires
        is_clean(s),
    ensures
        is_clean(text::trimmed_of(s, set)),
{
    text::lemma_trimmed(s, set);
    let t = text::trimmed_of(s, set);
    let k = choose|k: int| #[trigger] text::occurs_at(s, t, k);
    assert forall|i: int| 0 <= i < t.len() implies !is_forbidden(#[trigger] t[i]) by {
        assert(s.subrange(k, k + t.len())[i] == s[k + i]);
    }
}

/// A sanitized name is never empty, has at most 180 characters, holds no
/// separator of paths, no control character and nothing else that may not
/// stand in a file name, and is neither the directory itself nor its parent.
pub proof fn law_sanitized(name: Seq<char>)
    ensures
        0 < sanitized(name).len() <= 180,
        is_clean(sanitized(name)),
        sanitized(name) != "."@ && sanitized(name) != ".."@,
{
    let c = cleaned(name);
    assert(is_clean(c)) by {
        assert forall|i: int| 0 <= i < c.len() implies !is_forbidden(#[trigger] c[i]) by {}
    }
    let inner = text::trimmed_of(text::trimmed(c), text::CharSet::Dot);
    lemma_clean_part(c, text::CharSet::White);
    lemma_clean_part(text::trimmed(c), text::CharSet::Dot);
    lemma_clean_part(inner, text::CharSet::White);
    reveal_strlit("book");
    reveal_strlit(".");
    reveal_strlit("..");
    assert("."@.len() == 1 && ".."@.len() == 2 && "book"@.len() == 4);
    assert(kept(name).len() <= 180 ==> text::cut(kept(name), 180) == kept(name));
}

/// The name of the file that a downloaded book is kept in.
pub open spec fn download_name(title: Seq<char>, format: Seq<char>) -> Seq<char> {
    sanitized(title) + "."@ + format
}

/// Whatever the title, a downloaded book is kept in the books directory itself:
/// its file name is a proper name without a separator, for every format that is
/// itself without one.
pub proof fn law_download_name(title: Seq<char>, format: Seq<char>)
    requires
        !format.contains('/'),
    ensures
        meta::is_name(download_name(title, format)),
        !download_name(title, format).contains('/'),
{
    let name = download_name(title, format);
    law_sanitized(title);
    reveal_strlit(".");
    reveal_strlit("..");
    let s = sanitized(title);
    assert(name[0] == s[0]);
    assert(s.len() == 1 && s[0] == '.' ==> s =~= "."@);
    assert forall|i: int| 0 <= i < name.len() implies #[trigger] name[i] != '/' by {
        if i < s.len() {
            assert(name[i] == s[i]);
        } else if i > s.len() {
            assert(name[i] == format[i - s.len() - 1]);
        }
    }
}

// ---- downloads ----

/// How to get the bytes of a download.
pub enum Fetch {
    /// These are they.
    Bytes(Vec<u8>),
    /// They are at this address, asked for with these headers.
    From(String, Vec<(String, String)>),
    /// They cannot be got; the message says why.
    Nowhere(String),
}

/// How to get the bytes of a download: the ones that come with it, else those
/// at its address.
pub fn fetch(d: Download) -> (r: Fetch)
    ensures
        match d.bytes {
            Some(b) => r == Fetch::Bytes(b),
            None => match d.url {
                Some(url) => r == Fetch::From(url, d.headers),
                None => r matches Fetch::Nowhere(e) && e@
                    == "download had neither bytes nor url"@,
            },
        },
{
    match d.bytes {
        Some(b) => Fetch::Bytes(b),
        None => match d.url {
            Some(url) => Fetch::From(url, d.headers),
            None => Fetch::Nowhere("download had neither bytes nor url".to_string()),
        },
    }
}

/// The book that a downloaded candidate becomes, kept in the books directory.
pub fn downloaded(cand: &Candidate, books_dir: &str, size: i64) -> (r: NewBook)
    ensures
        r.title@ == cand.title@,
        r.author.deep_view() == cand.author.deep_view(),
        r.format@ == cand.format@,
        r.path@ == paths::joined_path(books_dir@, download_name(cand.title@, cand.format@)),
        r.size == Some(size),
{
    let mut name = sanitize(cand.title.as_str());
    name.append(".");
    name.append(cand.format.as_str());
    NewBook {
        title: cand.title.clone(),
        author: cand.author.clone(),
        format: cand.format.clone(),
        path: paths::join_path(books_dir, name.as_str()),
        size: Some(size),
    }
}

/// What to tell of a candidate whose source is not there.
pub fn unknown_source(cand: &Candidate) -> (r: String)
    ensures
        r@ == "unknown source: "@ + cand.source@,
{
    let mut s = "unknown source: ".to_string();
    s.append(cand.source.as_str());
    s
}

// ---- pages ----

/// What stands in the place of a cover.
pub enum Poster {
    /// The image at this address.
    Image(String),
    /// The name of the format.
    Format(String),
}

/// A book on the library page.
pub struct Card {
    pub href: String,
    pub poster: Poster,
    pub title: String,
    pub author: Option<String>,
}

#[verifier::ext_equal]
pub enum PosterView {
    Image(Seq<char>),
    Format(Seq<char>),
}

#[verifier::ext_equal]
pub struct CardView {
    pub href: Seq<char>,
    pub poster: PosterView,
    pub title: Seq<char>,
    pub author: Option<Seq<char>>,
}

impl DeepView for Card {
    type V = CardView;

    open spec fn deep_view(&self) -> CardView {
        CardView {
            href: self.href@,
            poster: match self.poster {
                Poster::Image(src) => PosterView::Image(src@),
                Poster::Format(f) => PosterView::Format(f@),
            },
            title: self.title@,
            author: self.author.deep_view(),
        }
    }
}

/// The address of the page of a book.
pub open spec fn book_address(id: i64) -> Seq<char> {
    "/books/"@ + text::decimal_of(id as int)
}

/// How a book is shown on the library page.
pub open spec fn card_of(b: Book) -> CardView {
    CardView {
        href: book_address(b.id),
        poster: if b.cover is Some {
            PosterView::Image(book_address(b.id) + "/cover"@)
        } else {
            PosterView::Format(b.format@)
        },
        title: b.title@,
        author: b.author.deep_view(),
    }
}

/// The address of the page of a book.
pub fn book_href(id: i64) -> (r: String)
    ensures
        r@ == book_address(id),
{
    let mut u = "/books/".to_string();
    u.append(text::decimal(id).as_str());
    u
}

/// The library page: how many books there are, and a card for each. An empty
/// library has none.
pub struct LibraryPage {
    pub count: String,
    pub cards: Vec<Card>,
}

/// How many books there are, in words.
pub open spec fn book_count(n: nat) -> Seq<char> {
    text::decimal_nat(n) + if n == 1 {
        " Book"@
    } else {
        " Books"@
    }
}

/// The library page; nothing where the library is empty.
pub fn library(books: &Vec<Book>) -> (r: Option<LibraryPage>)
    ensures
        match r {
            Some(p) => books.len() > 0 && p.count@ == book_count(books@.len())
                && p.cards.deep_view() == books@.map_values(|b: Book| card_of(b)),
            None => books.len() == 0,
        },
{
    if books.len() == 0 {
        return None;
    }
    let mut cards: Vec<Card> = Vec::new();
    let mut i: usize = 0;
    while i < books.len()
        invariant
            i <= books.len(),
            cards.len() == i,
            forall|j: int| 0 <= j < i ==> (#[trigger] cards@[j]).deep_view() == card_of(books@[j]),
        decreases books.len() - i,
    {
        let b = &books[i];
        let poster = if b.cover.is_some() {
            let mut src = book_href(b.id);
            src.append("/cover");
            Poster::Image(src)
        } else {
            Poster::Format(b.format.clone())
        };
        cards.push(
            Card {
                href: book_href(b.id),
                poster,
                title: b.title.clone(),
                author: b.author.clone(),
            },
        );
        i += 1;
    }
    assert(cards.deep_view() =~= books@.map_values(|b: Book| card_of(b)));
    let mut count: String = String::new();
    text::push_decimal(&mut count, books.len() as u64);
    count.append(
        if books.len() == 1 {
            " Book"
        } else {
            " Books"
        },
    );
    Some(LibraryPage { count, cards })
}

/// `n / 1024` without its fraction.
pub open spec fn kibibytes(n: int) -> int {
    if n >= 0 {
        n / 1024
    } else {
        -((-n) / 1024)
    }
}

/// The page of a book.
pub struct DetailPage {
    pub cover: Option<String>,
    pub title: String,
    pub author: Option<String>,
    /// The format and the size.
    pub meta: String,
    pub description: Option<String>,
    /// Where to read the book, where it can be read here.
    pub read: Option<String>,
    pub file: String,
    pub file_label: String,
}

/// The line with the format and the size of a book.
pub open spec fn meta_line(b: Book) -> Seq<char> {
    b.format@ + match b.size {
        Some(s) => " · "@ + text::decimal_of(kibibytes(s as int)) + " KB"@,
        None => seq![],
    }
}

/// The page of a book. It offers to read the book where a viewer shows its
/// format.
pub fn book_detail(b: &Book, has_viewer: bool) -> (r: DetailPage)
    ensures
        r.cover.deep_view() == if b.cover is Some {
            Some(book_address(b.id) + "/cover"@)
        } else {
            None
        },
        r.title@ == b.title@,
        r.author.deep_view() == b.author.deep_view(),
        r.meta@ == meta_line(*b),
        r.description.deep_view() == b.description.deep_view(),
        r.read.deep_view() == if has_viewer {
            Some("/read/"@ + text::decimal_of(b.id as int))
        } else {
            None
        },
        r.file@ == book_address(b.id) + "/file"@,
        r.file_label@ == "Download "@ + b.format@,
{
    let cover = if b.cover.is_some() {
        let mut src = book_href(b.id);
        src.append("/cover");
        Some(src)
    } else {
        None
    };
    let mut meta = b.format.clone();
    let ghost format = meta@;
    if let Some(s) = b.size {
        let kb: i64 = if s >= 0 {
            s / 1024
        } else {
            (-((-(s as i128)) / 1024)) as i64
        };
        meta.append(" · ");
        meta.append(text::decimal(kb).as_str());
        meta.append(" KB");
        assert(meta@ =~= format + (" · "@ + text::decimal_of(kibibytes(s as int)) + " KB"@));
    } else {
        assert(meta@ =~= format + seq![]);
    }
    let read = if has_viewer {
        let mut href = "/read/".to_string();
        href.append(text::decimal(b.id).as_str());
        Some(href)
    } else {
        None
    };
    let mut file = book_href(b.id);
    file.append("/file");
    let mut file_label = "Download ".to_string();
    file_label.append(b.format.as_str());
    DetailPage {
        cover,
        title: b.title.clone(),
        author: b.author.clone(),
        meta,
        description: b.description.clone(),
        read,
        file,
        file_label,
    }
}

/// The query of the discover page.
pub struct DiscoverQ {
    pub q: Option<String>,
}

/// The search that the discover page makes of the sources: one for the text
/// that was typed, in any format. A blank text makes none.
pub fn discover(q: &DiscoverQ) -> (r: Option<SearchQuery>)
    ensures
        match r {
            Some(s) => q.q is Some && text::trimmed(q.q->0@).len() > 0 && s.text@ == q.q->0@
                && s.format is None,
            None => q.q is None || text::trimmed(q.q->0@).len() == 0,
        },
{
    match &q.q {
        Some(text) => if text::empty(text::trim(text.as_str()).as_str()) {
            None
        } else {
            Some(SearchQuery { text: text.clone(), format: None })
        },
        None => None,
    }
}

// ---- what a book is shown and kept as ----

/// The format of a file is its extension in lowercase, where that is one of the
/// book formats; any other file is no book.
pub proof fn law_format_of(path: Seq<char>)
    ensures
        format_of(path) matches Some(f) ==> (paths::extension_of(path) matches Some(e) && f
            == text::lowered(e)),
        format_of(path) is Some <==> downloads::is_book_file(path),
{
}

/// A name that can be that of a file already is kept as it is.
pub proof fn law_sanitized_plain(name: Seq<char>)
    requires
        0 < name.len() <= 180,
        is_clean(name),
        name[0] != '.' && !text::is_white(name[0]),
        name.last() != '.' && !text::is_white(name.last()),
    ensures
        sanitized(name) == name,
{
    reveal_strlit(".");
    reveal_strlit("..");
    assert("."@[0] == '.' && ".."@[0] == '.');
    assert(cleaned(name) =~= name) by {
        assert forall|i: int| 0 <= i < name.len() implies cleaned(name)[i] == name[i] by {
            assert(!is_forbidden(name[i]));
        }
    }
    text::law_trimmed_plain(name, text::CharSet::White);
    text::law_trimmed_plain(name, text::CharSet::Dot);
    assert(name.take(name.len() as int) =~= name);
}

/// The forbidden characters of a name are those of paths and of patterns, the
/// quote, the angle brackets and the control characters; letters, digits,
/// spaces, dots and hyphens are not among them.
pub proof fn law_forbidden(c: char)
    ensures
        is_forbidden('/') && is_forbidden('\\') && is_forbidden('\0') && is_forbidden(':')
            && is_forbidden('*') && is_forbidden('?') && is_forbidden('"') && is_forbidden('<')
            && is_forbidden('>') && is_forbidden('|') && is_forbidden('\n'),
        text::is_word_char(c) || c == ' ' || c == '.' || c == '-' || c == '_' ==> !is_forbidden(c),
{
}

/// The file of a downloaded book is named by its title and its format: it begins
/// with the sanitized title, and its extension is the format.
pub proof fn law_download_parts(title: Seq<char>, format: Seq<char>)
    ensures
        text::occurs_at(download_name(title, format), sanitized(title), 0),
        text::ends(download_name(title, format), "."@ + format),
        download_name(title, format).len() == sanitized(title).len() + 1 + format.len(),
{
    reveal_strlit(".");
    let n = download_name(title, format);
    let tail = "."@ + format;
    assert(n.subrange(0, sanitized(title).len() as int) =~= sanitized(title));
    assert(n.subrange(n.len() - tail.len(), n.len() as int) =~= tail);
}

/// A book is shown under its own title and author, leads to its own page, and
/// has its cover for a picture exactly where it has one, else the name of its
/// format.
pub proof fn law_card(b: Book)
    ensures
        card_of(b).title == b.title@,
        b.author matches Some(a) ==> card_of(b).author == Some(a@),
        b.author is None ==> card_of(b).author is None,
        text::ends(card_of(b).href, text::decimal_of(b.id as int)),
        b.cover is Some ==> card_of(b).poster == PosterView::Image(card_of(b).href + "/cover"@),
        b.cover is None ==> card_of(b).poster == PosterView::Format(b.format@),
{
    let href = card_of(b).href;
    let id = text::decimal_of(b.id as int);
    assert(href.subrange(href.len() - id.len(), href.len() as int) =~= id);
}

/// Different books have different pages.
pub proof fn law_book_address(a: i64, b: i64)
    requires
        book_address(a) == book_address(b),
    ensures
        a == b,
{
    let x = text::decimal_of(a as int);
    let y = text::decimal_of(b as int);
    let n = "/books/"@.len() as int;
    assert(book_address(a).skip(n) =~= x);
    assert(book_address(b).skip(n) =~= y);
    text::law_decimal_round_trip(a);
    text::law_decimal_round_trip(b);
}

/// The number of books stands in front, and only a single book is one `Book`.
pub proof fn law_book_count(n: nat)
    ensures
        text::occurs_at(book_count(n), text::decimal_nat(n), 0),
        text::ends(book_count(n), " Book"@) <==> n == 1,
        text::ends(book_count(n), " Books"@) <==> n != 1,
{
    reveal_strlit(" Book");
    reveal_strlit(" Books");
    let s = book_count(n);
    let d = text::decimal_nat(n);
    assert(s.subrange(0, d.len() as int) =~= d);
    if n == 1 {
        assert(s.subrange(s.len() - 5, s.len() as int) =~= " Book"@);
        assert(s.last() == 'k');
        if text::ends(s, " Books"@) {
            assert(s.subrange(s.len() - 6, s.len() as int)[5] == s.last());
        }
    } else {
        assert(s.subrange(s.len() - 6, s.len() as int) =~= " Books"@);
        assert(s.last() == 's');
        if text::ends(s, " Book"@) {
            assert(s.subrange(s.len() - 5, s.len() as int)[4] == s.last());
        }
    }
}

/// The line of a book begins with its format; a size is told in whole kibibytes,
/// of which there is none too many, and a book without a size has none told.
pub proof fn law_meta_line(b: Book)
    ensures
        text::occurs_at(meta_line(b), b.format@, 0),
        b.size is None ==> meta_line(b) == b.format@,
        b.size matches Some(n) ==> text::ends(
            meta_line(b),
            " · "@ + text::decimal_of(kibibytes(n as int)) + " KB"@,
        ),
        b.size matches Some(n) ==> (n >= 0 ==> kibibytes(n as int) * 1024 <= n < (kibibytes(
            n as int,
        ) + 1) * 1024),
{
    let line = meta_line(b);
    assert(line.subrange(0, b.format@.len() as int) =~= b.format@);
    assert(b.size is None ==> line =~= b.format@);
    if let Some(n) = b.size {
        let tail = " · "@ + text::decimal_of(kibibytes(n as int)) + " KB"@;
        assert(line.subrange(line.len() - tail.len(), line.len() as int) =~= tail);
    }
}

/// Every part of a card of a book is seen as itself.
pub proof fn law_card_view(x: Card)
    ensures
        x.deep_view().href == x.href@,
        x.deep_view().poster == (match x.poster {
            Poster::Image(src) => PosterView::Image(src@),
            Poster::Format(f) => PosterView::Format(f@),
        }),
        x.deep_view().title == x.title@,
        x.deep_view().author == x.author.deep_view(),
{
}

/// A forbidden character becomes an underscore, and every other one stays where
/// it is.
pub proof fn law_sanitized_chars(name: Seq<char>, i: int)
    requires
        0 < name.len() <= 180,
        name[0] != '.' && !text::is_white(name[0]),
        name.last() != '.' && !text::is_white(name.last()),
        0 <= i < name.len(),
    ensures
        sanitized(name).len() == name.len(),
        is_forbidden(name[i]) ==> sanitized(name)[i] == '_',
        !is_forbidden(name[i]) ==> sanitized(name)[i] == name[i],
{
    let c = cleaned(name);
    assert(!is_forbidden('_'));
    assert(is_clean(c)) by {
        assert forall|k: int| 0 <= k < c.len() implies !is_forbidden(#[trigger] c[k]) by {
            assert(c[k] == if is_forbidden(name[k]) {
                '_'
            } else {
                name[k]
            });
        }
    }
    assert(c[0] != '.' && !text::is_white(c[0]));
    assert(c.last() != '.' && !text::is_white(c.last()));
    law_sanitized_plain(c);
    assert(cleaned(c) =~= c);
}

/// A file found in the library becomes a book of its own name, format and size, and
/// one that is no book file becomes none.
pub proof fn law_scanned(path: &str, size: Option<i64>, r: Option<NewBook>)
    requires
        call_ensures(scanned, (path, size), r),
    ensures
        r is Some <==> downloads::is_book_file(path@),
        r matches Some(b) ==> {
            &&& b.path@ == path@ && b.size == size && b.author is None
            &&& paths::extension_of(path@) matches Some(e) && b.format@ == text::lowered(e)
            &&& paths::stem_of(path@) matches Some(stem) ==> b.title@ == stem
        },
{
    law_format_of(path@);
}

/// What is downloaded is kept under the title, the author and the format of what
/// was chosen, in the directory of the books.
pub proof fn law_downloaded(cand: &Candidate, books_dir: &str, size: i64, r: NewBook)
    requires
        call_ensures(downloaded, (cand, books_dir, size), r),
    ensures
        r.title@ == cand.title@,
        r.author.deep_view() == cand.author.deep_view(),
        r.format@ == cand.format@,
        r.size == Some(size),
        r.path@ == paths::joined_path(
            books_dir@,
            sanitized(cand.title@) + "."@ + cand.format@,
        ),
{
    law_download_parts(cand.title@, cand.format@);
    let n = download_name(cand.title@, cand.format@);
    assert(n =~= sanitized(cand.title@) + "."@ + cand.format@);
}

/// What a source hands over as bytes is taken as it is; only without bytes is its
/// address asked, and with neither there is nothing.
pub proof fn law_fetch(d: Download, r: Fetch)
    requires
        call_ensures(fetch, (d,), r),
    ensures
        d.bytes matches Some(b) ==> r == Fetch::Bytes(b),
        d.bytes is None ==> (d.url matches Some(url) ==> r == Fetch::From(url, d.headers)),
        r is Nowhere <==> d.bytes is None && d.url is None,
{
}

/// The library shows every book, each once and in order, and the page of a book
/// shows that book: its own title, author and text, its own file, and a way to read
/// it only where a viewer shows its format.
pub proof fn law_shown(
    books: &Vec<Book>,
    page: Option<LibraryPage>,
    i: int,
    has_viewer: bool,
    detail: DetailPage,
)
    requires
        call_ensures(library, (books,), page),
        0 <= i < books.len(),
        call_ensures(book_detail, (&books@[i], has_viewer), detail),
    ensures
        page matches Some(p) && p.cards.len() == books.len() && p.cards@[i].title@
            == books@[i].title@ && p.cards@[i].author.deep_view() == books@[i].author.deep_view()
            && p.cards@[i].href@ == book_address(books@[i].id),
        detail.title@ == books@[i].title@,
        detail.author.deep_view() == books@[i].author.deep_view(),
        detail.description.deep_view() == books@[i].description.deep_view(),
        detail.file@ == book_address(books@[i].id) + "/file"@,
        detail.read is Some <==> has_viewer,
        detail.cover is Some <==> books@[i].cover is Some,
{
    let p = page->0;
    assert(p.cards.deep_view().len() == books@.len());
    assert(p.cards.deep_view()[i] == p.cards@[i].deep_view());
    law_card(books@[i]);
    law_card_view(p.cards@[i]);
}

} // verus!
