//! Metadata out of the book files themselves. An epub gives its title, author,
//! description, series and cover image; a comic archive gives its first page as
//! the cover; every other format gives nothing.

use vstd::prelude::*;
use vstd::string::*;
use crate::archive::EntryView;
use crate::text;
use crate::xml;
use crate::archive;
use crate::paths;

verus! {

/// What a book file says about the book.
pub struct Extracted {
    pub title: Option<String>,
    pub author: Option<String>,
    pub description: Option<String>,
    pub series: Option<String>,
    /// The position in the series, as it is written in the file.
    pub series_index: Option<String>,
    /// The bytes of the cover and its file extension.
    pub cover: Option<(Vec<u8>, String)>,
}

#[verifier::ext_equal]
pub struct ExtractedView {
    pub title: Option<Seq<char>>,
    pub author: Option<Seq<char>>,
    pub description: Option<Seq<char>>,
    pub series: Option<Seq<char>>,
    pub series_index: Option<Seq<char>>,
    pub cover: Option<(Seq<u8>, Seq<char>)>,
}

impl DeepView for Extracted {
    type V = ExtractedView;

    open spec fn deep_view(&self) -> ExtractedView {
        ExtractedView {
            title: self.title.deep_view(),
            author: self.author.deep_view(),
            description: self.description.deep_view(),
            series: self.series.deep_view(),
            series_index: self.series_index.deep_view(),
            cover: match self.cover {
                Some((bytes, ext)) => Some((bytes@, ext@)),
                None => None,
            },
        }
    }
}

/// Nothing known.
pub open spec fn nothing() -> ExtractedView {
    ExtractedView {
        title: None,
        author: None,
        description: None,
        series: None,
        series_index: None,
        cover: None,
    }
}

impl Default for Extracted {
    fn default() -> (r: Self)
        ensures
            r.deep_view() == nothing(),
    {
        Extracted {
            title: None,
            author: None,
            description: None,
            series: None,
            series_index: None,
            cover: None,
        }
    }
}

// ---- elements of the package document ----

/// The `<meta ...>` elements from `at` on: each opening tag, and the text up to
/// the next closing tag, which is empty where the tag closes itself.
pub open spec fn metas_from(xml: Seq<char>, at: int) -> Seq<(Seq<char>, Seq<char>)>
    decreases xml.len() - at,
{
    match text::first_at(xml, "<meta"@, at) {
        Some(start) => if 0 <= at <= start && start + 5 <= xml.len() {
            if start + 5 < xml.len() && xml::ends_name(xml[start + 5]) {
                match text::first_char(xml, '>', start) {
                    Some(gt) => if start <= gt < xml.len() {
                        let tag = xml.subrange(start, gt + 1);
                        let inner = if text::ends(tag, "/>"@) {
                            seq![]
                        } else {
                            match text::first_at(xml, "</meta"@, gt + 1) {
                                Some(end) => xml.subrange(gt + 1, end),
                                None => seq![],
                            }
                        };
                        seq![(tag, inner)] + metas_from(xml, gt + 1)
                    } else {
                        seq![]
                    },
                    None => seq![],
                }
            } else {
                metas_from(xml, start + 5)
            }
        } else {
            seq![]
        },
        None => seq![],
    }
}

/// Views of pairs of strings.
pub open spec fn pair_views(v: Seq<(String, String)>) -> Seq<(Seq<char>, Seq<char>)> {
    v.map_values(|p: (String, String)| (p.0@, p.1@))
}

/// Every `<meta ...>` element: its opening tag and its text.
pub fn meta_elements(xml: &str) -> (r: Vec<(String, String)>)
    ensures
        pair_views(r@) == metas_from(xml@, 0),
{
    proof {
        reveal_strlit("<meta");
    }
    let cs = text::chars_of(xml);
    let open = text::chars_of("<meta");
    let close = text::chars_of("</meta");
    let mut out: Vec<(String, String)> = Vec::new();
    let mut at: usize = 0;
    assert(pair_views(out@) + metas_from(xml@, 0) =~= metas_from(xml@, 0));
    loop
        invariant
            cs@ == xml@,
            open@ == "<meta"@,
            open@.len() == 5,
            close@ == "</meta"@,
            at <= cs@.len(),
            metas_from(xml@, 0) == pair_views(out@) + metas_from(xml@, at as int),
        decreases cs@.len() - at,
    {
        let start: usize = match text::find_from(&cs, &open, at) {
            Some(start) => start,
            None => {
                assert(pair_views(out@) + metas_from(xml@, at as int) =~= pair_views(out@));
                return out;
            },
        };
        assert(start + 5 <= cs.len());
        let after: usize = start + 5;
        if after < cs.len() && (text::ascii_white(cs[after]) || cs[after] == '>' || cs[after] == '/') {
            let gt: usize = match text::find_char(&cs, '>', start) {
                Some(gt) => gt,
                None => {
                    assert(pair_views(out@) + metas_from(xml@, at as int) =~= pair_views(out@));
                    return out;
                },
            };
            let tag = text::string_of(&cs[start..gt + 1]);
            let inner = if text::ends_with(tag.as_str(), "/>") {
                String::new()
            } else {
                match text::find_from(&cs, &close, gt + 1) {
                    Some(end) => text::string_of(&cs[gt + 1..end]),
                    None => String::new(),
                }
            };
            let ghost before = pair_views(out@);
            let ghost pair = (tag@, inner@);
            out.push((tag, inner));
            assert(pair_views(out@) =~= before.push(pair));
            assert(before + (seq![pair] + metas_from(xml@, gt + 1)) =~= pair_views(out@)
                + metas_from(xml@, gt + 1));
            at = gt + 1;
        } else {
            at = after;
        }
    }
}

/// The first of the elements whose opening tag satisfies `p`.
pub open spec fn first_meta(
    metas: Seq<(Seq<char>, Seq<char>)>,
    p: spec_fn(Seq<char>) -> bool,
) -> Option<(Seq<char>, Seq<char>)>
    decreases metas.len(),
{
    if metas.len() == 0 {
        None
    } else if p(metas[0].0) {
        Some(metas[0])
    } else {
        first_meta(metas.skip(1), p)
    }
}

/// The tag has the attribute `name` with the value `value`.
pub open spec fn with_attr(name: Seq<char>, value: Seq<char>) -> spec_fn(Seq<char>) -> bool {
    |tag: Seq<char>| xml::attribute(tag, name) == Some(value)
}

/// The tag has the two attributes with the two values.
pub open spec fn with_attrs(
    name: Seq<char>,
    value: Seq<char>,
    name2: Seq<char>,
    value2: Seq<char>,
) -> spec_fn(Seq<char>) -> bool {
    |tag: Seq<char>| xml::attribute(tag, name) == Some(value) && xml::attribute(tag, name2) == Some(value2)
}

/// The `content` of the first meta with the given `name`.
pub open spec fn content_of(metas: Seq<(Seq<char>, Seq<char>)>, name: Seq<char>) -> Option<
    Seq<char>,
> {
    match first_meta(metas, with_attr("name"@, name)) {
        Some(m) => xml::attribute(m.0, "content"@),
        None => None,
    }
}

/// The series and the position in it: calibre's metas, else the collection that
/// the book belongs to, with the position that refines it.
pub open spec fn series_in(opf: Seq<char>) -> (Option<Seq<char>>, Option<Seq<char>>) {
    let metas = metas_from(opf, 0);
    let name = content_of(metas, "calibre:series"@);
    let index = content_of(metas, "calibre:series_index"@);
    let collection = first_meta(metas, with_attr("property"@, "belongs-to-collection"@));
    if name is None && collection is Some && xml::unescaped(text::trimmed((collection->0).1)).len() > 0 {
        let title = Some(xml::unescaped(text::trimmed((collection->0).1)));
        match xml::attribute((collection->0).0, "id"@) {
            Some(id) => (
                title,
                match first_meta(
                    metas,
                    with_attrs("refines"@, "#"@ + id, "property"@, "group-position"@),
                ) {
                    Some(m) => Some(text::trimmed(m.1)),
                    None => None,
                },
            ),
            None => (title, index),
        }
    } else {
        (name, index)
    }
}

fn find_meta(metas: &Vec<(String, String)>, name: &str, value: &str) -> (r: Option<usize>)
    ensures
        match r {
            Some(k) => k < metas.len() && first_meta(
                pair_views(metas@),
                with_attr(name@, value@),
            ) == Some(pair_views(metas@)[k as int]),
            None => first_meta(pair_views(metas@), with_attr(name@, value@)) is None,
        },
{
    let ghost all = pair_views(metas@);
    let ghost p = with_attr(name@, value@);
    let mut i: usize = 0;
    assert(all.skip(0) =~= all);
    while i < metas.len()
        invariant
            all == pair_views(metas@),
            p == with_attr(name@, value@),
            i <= metas.len(),
            first_meta(all, p) == first_meta(all.skip(i as int), p),
        decreases metas.len() - i,
    {
        assert(all.skip(i as int).skip(1) =~= all.skip(i + 1));
        if text::is_text(&xml::attr(metas[i].0.as_str(), name), value) {
            return Some(i);
        }
        i += 1;
    }
    None
}

fn find_position(metas: &Vec<(String, String)>, refines: &str) -> (r: Option<usize>)
    ensures
        match r {
            Some(k) => k < metas.len() && first_meta(
                pair_views(metas@),
                with_attrs("refines"@, refines@, "property"@, "group-position"@),
            ) == Some(pair_views(metas@)[k as int]),
            None => first_meta(
                pair_views(metas@),
                with_attrs("refines"@, refines@, "property"@, "group-position"@),
            ) is None,
        },
{
    let ghost all = pair_views(metas@);
    let ghost p = with_attrs("refines"@, refines@, "property"@, "group-position"@);
    let mut i: usize = 0;
    assert(all.skip(0) =~= all);
    while i < metas.len()
        invariant
            all == pair_views(metas@),
            p == with_attrs("refines"@, refines@, "property"@, "group-position"@),
            i <= metas.len(),
            first_meta(all, p) == first_meta(all.skip(i as int), p),
        decreases metas.len() - i,
    {
        assert(all.skip(i as int).skip(1) =~= all.skip(i + 1));
        if text::is_text(&xml::attr(metas[i].0.as_str(), "refines"), refines) && text::is_text(
            &xml::attr(metas[i].0.as_str(), "property"),
            "group-position",
        ) {
            return Some(i);
        }
        i += 1;
    }
    None
}

fn meta_content(metas: &Vec<(String, String)>, name: &str) -> (r: Option<String>)
    ensures
        r.deep_view() == content_of(pair_views(metas@), name@),
{
    match find_meta(metas, "name", name) {
        Some(k) => xml::attr(metas[k].0.as_str(), "content"),
        None => None,
    }
}

/// The series and the position in it, both as written.
pub fn series_from_opf(opf: &str) -> (r: (Option<String>, Option<String>))
    ensures
        (r.0.deep_view(), r.1.deep_view()) == series_in(opf@),
{
    let metas = meta_elements(opf);
    let name = meta_content(&metas, "calibre:series");
    let index = meta_content(&metas, "calibre:series_index");
    if name.is_some() {
        return (name, index);
    }
    let k: usize = match find_meta(&metas, "property", "belongs-to-collection") {
        Some(k) => k,
        None => {
            return (name, index);
        },
    };
    let title = xml::unescape(text::trim(metas[k].1.as_str()).as_str());
    if text::empty(title.as_str()) {
        return (name, index);
    }
    match xml::attr(metas[k].0.as_str(), "id") {
        Some(id) => {
            let mut refines = "#".to_string();
            refines.append(id.as_str());
            match find_position(&metas, refines.as_str()) {
                Some(m) => (Some(title), Some(text::trim(metas[m].1.as_str()))),
                None => (Some(title), None),
            }
        },
        None => (Some(title), index),
    }
}

// ---- the cover ----

/// The first of the tags that satisfies `p`.
pub open spec fn first_tag(found: Seq<Seq<char>>, p: spec_fn(Seq<char>) -> bool) -> Option<Seq<char>>
    decreases found.len(),
{
    if found.len() == 0 {
        None
    } else if p(found[0]) {
        Some(found[0])
    } else {
        first_tag(found.skip(1), p)
    }
}

/// The item declares itself the cover image.
pub open spec fn declares_cover() -> spec_fn(Seq<char>) -> bool {
    |tag: Seq<char>|
        xml::attribute(tag, "properties"@) is Some && text::has(
            xml::attribute(tag, "properties"@)->0,
            "cover-image"@,
        )
}

/// The attribute, in lowercase; empty where it is absent.
pub open spec fn lowered_attr(tag: Seq<char>, name: Seq<char>) -> Seq<char> {
    match xml::attribute(tag, name) {
        Some(v) => text::lowered(v),
        None => text::lowered(""@),
    }
}

/// The item is an image whose id or address mentions a cover.
pub open spec fn looks_like_cover() -> spec_fn(Seq<char>) -> bool {
    |tag: Seq<char>|
        xml::attribute(tag, "media-type"@) is Some && text::occurs_at(
            xml::attribute(tag, "media-type"@)->0,
            "image/"@,
            0,
        ) && (text::has(lowered_attr(tag, "id"@), "cover"@) || text::has(
            lowered_attr(tag, "href"@),
            "cover"@,
        ))
}

/// An attribute of a tag that may be missing.
pub open spec fn attr_of(tag: Option<Seq<char>>, name: Seq<char>) -> Option<Seq<char>> {
    match tag {
        Some(t) => xml::attribute(t, name),
        None => None,
    }
}

/// The address of the cover image: that of the item that declares itself the
/// cover; else of the item whose id the `cover` meta gives; else of the first
/// image that mentions a cover.
pub open spec fn cover_in(opf: Seq<char>) -> Option<Seq<char>> {
    let items = xml::tags(opf, "item"@);
    let declared = attr_of(first_tag(items, declares_cover()), "href"@);
    let id = attr_of(first_tag(xml::tags(opf, "meta"@), with_attr("name"@, "cover"@)), "content"@);
    let by_id = match id {
        Some(v) => attr_of(first_tag(items, with_attr("id"@, v)), "href"@),
        None => None,
    };
    if declared is Some {
        declared
    } else if by_id is Some {
        by_id
    } else {
        attr_of(first_tag(items, looks_like_cover()), "href"@)
    }
}

/// Which items to look for.
enum Wanted<'a> {
    Declared,
    With(&'a str, &'a str),
    Looks,
}

impl<'a> Wanted<'a> {
    spec fn test(self) -> spec_fn(Seq<char>) -> bool {
        match self {
            Wanted::Declared => declares_cover(),
            Wanted::With(name, value) => with_attr(name@, value@),
            Wanted::Looks => looks_like_cover(),
        }
    }
}

fn attr_mentions(tag: &str, name: &str) -> (r: bool)
    ensures
        r == text::has(lowered_attr(tag@, name@), "cover"@),
{
    match xml::attr(tag, name) {
        Some(v) => text::contains(text::lower(v.as_str()).as_str(), "cover"),
        None => text::contains(text::lower("").as_str(), "cover"),
    }
}

fn find_attr(found: &Vec<String>, wanted: Wanted, name: &str) -> (r: Option<String>)
    ensures
        r.deep_view() == attr_of(first_tag(found.deep_view(), wanted.test()), name@),
{
    let ghost all = found.deep_view();
    let ghost p = wanted.test();
    let mut i: usize = 0;
    assert(all.skip(0) =~= all);
    while i < found.len()
        invariant
            all == found.deep_view(),
            p == wanted.test(),
            i <= found.len(),
            first_tag(all, p) == first_tag(all.skip(i as int), p),
        decreases found.len() - i,
    {
        assert(all[i as int] == found@[i as int]@);
        assert(all.skip(i as int).skip(1) =~= all.skip(i + 1));
        let tag = found[i].as_str();
        let hit = match wanted {
            Wanted::Declared => match xml::attr(tag, "properties") {
                Some(p) => text::contains(p.as_str(), "cover-image"),
                None => false,
            },
            Wanted::With(n, v) => text::is_text(&xml::attr(tag, n), v),
            Wanted::Looks => match xml::attr(tag, "media-type") {
                Some(m) => text::starts_with(m.as_str(), "image/") && (attr_mentions(tag, "id")
                    || attr_mentions(tag, "href")),
                None => false,
            },
        };
        if hit {
            return xml::attr(tag, name);
        }
        i += 1;
    }
    None
}

/// The address of the cover image in a package document.
pub fn cover_href(opf: &str) -> (r: Option<String>)
    ensures
        r.deep_view() == cover_in(opf@),
{
    let items = xml::all_tags(opf, "item");
    if let Some(href) = find_attr(&items, Wanted::Declared, "href") {
        return Some(href);
    }
    let metas = xml::all_tags(opf, "meta");
    if let Some(id) = find_attr(&metas, Wanted::With("name", "cover"), "content") {
        if let Some(href) = find_attr(&items, Wanted::With("id", id.as_str()), "href") {
            return Some(href);
        }
    }
    find_attr(&items, Wanted::Looks, "href")
}

// ---- addresses inside an archive ----

/// The parts that are not empty.
pub open spec fn nonempty(parts: Seq<Seq<char>>) -> Seq<Seq<char>> {
    parts.filter(|s: Seq<char>| s.len() > 0)
}

/// One step of a walk: an empty segment and `.` stay, `..` goes up, and a name
/// goes down.
pub open spec fn walked(parts: Seq<Seq<char>>, seg: Seq<char>) -> Seq<Seq<char>> {
    if seg.len() == 0 || seg == "."@ {
        parts
    } else if seg == ".."@ {
        if parts.len() > 0 {
            parts.drop_last()
        } else {
            parts
        }
    } else {
        parts.push(seg)
    }
}

/// A walk along `segs`.
pub open spec fn walk(parts: Seq<Seq<char>>, segs: Seq<Seq<char>>) -> Seq<Seq<char>>
    decreases segs.len(),
{
    if segs.len() == 0 {
        parts
    } else {
        walked(walk(parts, segs.drop_last()), segs.last())
    }
}

/// The parts of the directory `base`, then those of `href`.
pub open spec fn zip_parts(base: Seq<char>, href: Seq<char>) -> Seq<Seq<char>> {
    walk(nonempty(text::pieces(text::replaced(base, "\\"@, "/"@), '/')), text::pieces(href, '/'))
}

/// The entry that `href` names, seen from the directory `base`.
pub open spec fn zip_path(base: Seq<char>, href: Seq<char>) -> Seq<char> {
    text::joined(zip_parts(base, href), "/"@)
}

/// Resolves `href` against the directory `base` into a path inside the
/// archive, with no `..` left of `href`.
pub fn join_zip_path(base: &str, href: &str) -> (r: String)
    ensures
        r@ == zip_path(base@, href@),
{
    proof {
        reveal_strlit("\\");
    }
    let forward = text::replace(base, "\\", "/");
    let dirs = text::split(forward.as_str(), '/');
    let ghost all = dirs.deep_view();
    let ghost keep = |s: Seq<char>| s.len() > 0;
    let mut parts: Vec<String> = Vec::new();
    let mut i: usize = 0;
    proof {
        reveal(Seq::filter);
    }
    while i < dirs.len()
        invariant
            all == dirs.deep_view(),
            keep == (|s: Seq<char>| s.len() > 0),
            i <= dirs.len(),
            parts.deep_view() == all.take(i as int).filter(keep),
        decreases dirs.len() - i,
    {
        proof {
            reveal(Seq::filter);
            assert(all.take(i + 1).drop_last() =~= all.take(i as int));
            assert(all[i as int] == dirs@[i as int]@);
        }
        let ghost before = parts.deep_view();
        if !text::empty(dirs[i].as_str()) {
            parts.push(dirs[i].clone());
            assert(parts.deep_view() =~= before.push(all[i as int]));
        }
        i += 1;
    }
    assert(all.take(all.len() as int) =~= all);
    let segs = text::split(href, '/');
    let ghost start = parts.deep_view();
    let ghost steps = segs.deep_view();
    let mut k: usize = 0;
    while k < segs.len()
        invariant
            steps == segs.deep_view(),
            k <= segs.len(),
            parts.deep_view() == walk(start, steps.take(k as int)),
        decreases segs.len() - k,
    {
        assert(steps.take(k + 1).drop_last() =~= steps.take(k as int));
        assert(steps[k as int] == segs@[k as int]@);
        let seg = segs[k].as_str();
        let ghost before = parts.deep_view();
        if text::empty(seg) || text::same(seg, ".") {
        } else if text::same(seg, "..") {
            parts.pop();
            assert(before.len() > 0 ==> parts.deep_view() =~= before.drop_last());
            assert(before.len() == 0 ==> parts.deep_view() =~= before);
        } else {
            parts.push(seg.to_string());
            assert(parts.deep_view() =~= before.push(seg@));
        }
        k += 1;
    }
    assert(steps.take(steps.len() as int) =~= steps);
    text::join(&parts, "/")
}

/// A proper name: neither empty nor `.` nor `..`.
pub open spec fn is_name(s: Seq<char>) -> bool {
    s.len() > 0 && s != "."@ && s != ".."@
}

/// Resolving collapses every `..` of the address: where the directory holds
/// proper names only, so does the result.
pub proof fn law_walk_names(parts: Seq<Seq<char>>, segs: Seq<Seq<char>>)
    requires
        forall|i: int| 0 <= i < parts.len() ==> is_name(#[trigger] parts[i]),
    ensures
        forall|i: int| 0 <= i < walk(parts, segs).len() ==> is_name(#[trigger] walk(parts, segs)[i]),
    decreases segs.len(),
{
    if segs.len() > 0 {
        law_walk_names(parts, segs.drop_last());
        let before = walk(parts, segs.drop_last());
        assert forall|i: int| 0 <= i < walk(parts, segs).len() implies is_name(
            #[trigger] walk(parts, segs)[i],
        ) by {
            if i < before.len() {
                assert(walk(parts, segs)[i] == before[i]);
            }
        }
    }
}

// ---- epub ----

/// The bytes of the entry with the given name or, where that cannot be opened,
/// of the one with its `%20` written as spaces.
pub open spec fn bytes_in(entries: Seq<EntryView>, name: Seq<char>) -> Option<Seq<u8>> {
    let actual = if archive::opened(entries, name) is Some {
        name
    } else {
        text::replaced(name, "%20"@, " "@)
    };
    match archive::opened(entries, actual) {
        Some(e) => e.data,
        None => None,
    }
}

/// The same as text.
pub open spec fn text_in(entries: Seq<EntryView>, name: Seq<char>) -> Option<Seq<char>> {
    match bytes_in(entries, name) {
        Some(bytes) => Some(archive::text_of(bytes)),
        None => None,
    }
}

/// The extension under which a cover is kept.
pub open spec fn cover_extension(name: Seq<char>) -> Seq<char> {
    let ext = text::lowered(paths::after_last(name, '.'));
    if ext == "jpeg"@ {
        "jpg"@
    } else {
        ext
    }
}

/// The directory that a package document lies in.
pub open spec fn directory_of(path: Seq<char>) -> Seq<char> {
    match paths::parent_of(path) {
        Some(dir) => dir,
        None => ""@,
    }
}

/// What the package document at `rootfile` says of the book.
pub open spec fn package_metadata(
    entries: Seq<EntryView>,
    rootfile: Seq<char>,
    opf: Seq<char>,
) -> ExtractedView {
    ExtractedView {
        title: xml::element_text(opf, "dc:title"@),
        author: xml::element_text(opf, "dc:creator"@),
        description: match xml::element_text(opf, "dc:description"@) {
            Some(d) => Some(xml::stripped(d)),
            None => None,
        },
        series: series_in(opf).0,
        series_index: series_in(opf).1,
        cover: match cover_in(opf) {
            Some(href) => match bytes_in(entries, zip_path(directory_of(rootfile), href)) {
                Some(bytes) => Some((bytes, cover_extension(href))),
                None => None,
            },
            None => None,
        },
    }
}

/// What an epub says of the book; nothing where its container or its package
/// document is missing.
pub open spec fn epub_metadata(entries: Seq<EntryView>) -> Option<ExtractedView> {
    match text_in(entries, "META-INF/container.xml"@) {
        Some(container) => match attr_of(xml::head(xml::tags(container, "rootfile"@)), "full-path"@) {
            Some(rootfile) => match text_in(entries, rootfile) {
                Some(opf) => Some(package_metadata(entries, rootfile, opf)),
                None => None,
            },
            None => None,
        },
        None => None,
    }
}

fn read_bytes(
    a: &mut zip::ZipArchive<std::io::Cursor<Vec<u8>>>,
    name: &str,
) -> (r: Option<Vec<u8>>)
    ensures
        archive::entries_of(*final(a)) == archive::entries_of(*old(a)),
        match r {
            Some(data) => bytes_in(archive::entries_of(*old(a)), name@) == Some(data@),
            None => bytes_in(archive::entries_of(*old(a)), name@) is None,
        },
{
    proof {
        reveal_strlit("%20");
    }
    let actual = if archive::opens(a, name) {
        name.to_string()
    } else {
        text::replace(name, "%20", " ")
    };
    match archive::read_entry(a, actual.as_str()) {
        Ok(data) => Some(data),
        Err(_) => None,
    }
}

fn read_string(
    a: &mut zip::ZipArchive<std::io::Cursor<Vec<u8>>>,
    name: &str,
) -> (r: Option<String>)
    ensures
        archive::entries_of(*final(a)) == archive::entries_of(*old(a)),
        r.deep_view() == text_in(archive::entries_of(*old(a)), name@),
{
    match read_bytes(a, name) {
        Some(data) => Some(archive::lossy_text(&data)),
        None => None,
    }
}

fn extension_for(name: &str) -> (r: String)
    ensures
        r@ == cover_extension(name@),
{
    let ext = text::lower(paths::last_piece(name, '.').as_str());
    if text::same(ext.as_str(), "jpeg") {
        "jpg".to_string()
    } else {
        ext
    }
}

fn extract_epub(a: &mut zip::ZipArchive<std::io::Cursor<Vec<u8>>>) -> (r: Option<Extracted>)
    ensures
        r.deep_view() == epub_metadata(archive::entries_of(*old(a))),
{
    let container = match read_string(a, "META-INF/container.xml") {
        Some(text) => text,
        None => {
            return None;
        },
    };
    let rootfile = match xml::find_tag(container.as_str(), "rootfile") {
        Some(tag) => match xml::attr(tag.as_str(), "full-path") {
            Some(path) => path,
            None => {
                return None;
            },
        },
        None => {
            return None;
        },
    };
    let opf = match read_string(a, rootfile.as_str()) {
        Some(text) => text,
        None => {
            return None;
        },
    };
    let dir = match paths::parent(rootfile.as_str()) {
        Some(dir) => dir,
        None => "".to_string(),
    };
    let (series, series_index) = series_from_opf(opf.as_str());
    let cover = match cover_href(opf.as_str()) {
        Some(href) => match read_bytes(a, join_zip_path(dir.as_str(), href.as_str()).as_str()) {
            Some(data) => Some((data, extension_for(href.as_str()))),
            None => None,
        },
        None => None,
    };
    Some(
        Extracted {
            title: xml::tag_text(opf.as_str(), "dc:title"),
            author: xml::tag_text(opf.as_str(), "dc:creator"),
            description: match xml::tag_text(opf.as_str(), "dc:description") {
                Some(d) => Some(xml::strip_tags(d.as_str())),
                None => None,
            },
            series,
            series_index,
            cover,
        },
    )
}

// ---- comic archives ----

/// The name ends in the extension of an image.
pub open spec fn is_image(name: Seq<char>) -> bool {
    let ext = text::lowered(paths::after_last(name, '.'));
    ext == "jpg"@ || ext == "jpeg"@ || ext == "png"@ || ext == "gif"@ || ext == "webp"@
}

/// `a` comes before `b` in the order of their characters.
pub open spec fn before(a: Seq<char>, b: Seq<char>) -> bool
    decreases a.len(),
{
    if b.len() == 0 {
        false
    } else if a.len() == 0 {
        true
    } else if a[0] != b[0] {
        a[0] < b[0]
    } else {
        before(a.skip(1), b.skip(1))
    }
}

/// The first page among the first `n` entries: of the images that can be
/// opened, the one whose name comes first.
pub open spec fn first_page(entries: Seq<EntryView>, n: int) -> Option<Seq<char>>
    decreases n,
{
    if n <= 0 {
        None
    } else {
        let e = entries[n - 1];
        let best = first_page(entries, n - 1);
        if e.opens && is_image(e.name) && (best is None || before(e.name, best->0)) {
            Some(e.name)
        } else {
            best
        }
    }
}

/// What a comic archive says of the book: its first page is the cover.
pub open spec fn cbz_metadata(entries: Seq<EntryView>) -> Option<ExtractedView> {
    match first_page(entries, entries.len() as int) {
        Some(name) => match bytes_in(entries, name) {
            Some(bytes) => Some(
                ExtractedView { cover: Some((bytes, cover_extension(name))), ..nothing() },
            ),
            None => None,
        },
        None => None,
    }
}

fn image(name: &str) -> (r: bool)
    ensures
        r == is_image(name@),
{
    let ext = text::lower(paths::last_piece(name, '.').as_str());
    let e = ext.as_str();
    text::same(e, "jpg") || text::same(e, "jpeg") || text::same(e, "png") || text::same(e, "gif") || text::same(e, "webp")
}

fn comes_before(a: &str, b: &str) -> (r: bool)
    ensures
        r == before(a@, b@),
{
    let x = text::chars_of(a);
    let y = text::chars_of(b);
    let mut i: usize = 0;
    assert(x@.skip(0) =~= x@);
    assert(y@.skip(0) =~= y@);
    loop
        invariant
            x@ == a@,
            y@ == b@,
            i <= x@.len(),
            i <= y@.len(),
            before(a@, b@) == before(x@.skip(i as int), y@.skip(i as int)),
        decreases x@.len() - i,
    {
        if i == y.len() {
            return false;
        }
        if i == x.len() {
            return true;
        }
        if x[i] != y[i] {
            return x[i] < y[i];
        }
        assert(x@.skip(i as int).skip(1) =~= x@.skip(i + 1));
        assert(y@.skip(i as int).skip(1) =~= y@.skip(i + 1));
        i += 1;
    }
}

fn extract_cbz(a: &mut zip::ZipArchive<std::io::Cursor<Vec<u8>>>) -> (r: Option<Extracted>)
    ensures
        r.deep_view() == cbz_metadata(archive::entries_of(*old(a))),
{
    let ghost entries = archive::entries_of(*a);
    let n = archive::count(a);
    let mut first: Option<String> = None;
    let mut i: usize = 0;
    while i < n
        invariant
            i <= n,
            n == entries.len(),
            archive::entries_of(*a) == entries,
            first.deep_view() == first_page(entries, i as int),
        decreases n - i,
    {
        if let Ok(e) = archive::entry_at(a, i) {
            if image(e.name.as_str()) {
                let better = match &first {
                    Some(best) => comes_before(e.name.as_str(), best.as_str()),
                    None => true,
                };
                if better {
                    first = Some(e.name);
                }
            }
        }
        i += 1;
    }
    match first {
        Some(name) => match read_bytes(a, name.as_str()) {
            Some(data) => Some(
                Extracted {
                    title: None,
                    author: None,
                    description: None,
                    series: None,
                    series_index: None,
                    cover: Some((data, extension_for(name.as_str()))),
                },
            ),
            None => None,
        },
        None => None,
    }
}

proof fn lemma_not_before_itself(a: Seq<char>)
    ensures
        !before(a, a),
    decreases a.len(),
{
    if a.len() > 0 {
        lemma_not_before_itself(a.skip(1));
    }
}

/// The order of names is irreflexive, transitive and total, so the first page
/// is a definite one.
pub proof fn law_before_order(a: Seq<char>, b: Seq<char>, c: Seq<char>)
    ensures
        !before(a, a),
        before(a, b) && before(b, c) ==> before(a, c),
        a != b ==> before(a, b) || before(b, a),
    decreases a.len() + b.len() + c.len(),
{
    lemma_not_before_itself(a);
    if a.len() > 0 && b.len() > 0 {
        law_before_order(a.skip(1), b.skip(1), if c.len() > 0 {
            c.skip(1)
        } else {
            c
        });
        if a[0] == b[0] && a.skip(1) == b.skip(1) {
            assert(a =~= seq![a[0]] + a.skip(1));
            assert(b =~= seq![b[0]] + b.skip(1));
        }
    } else if a.len() == 0 && b.len() == 0 {
        assert(a =~= b);
    }
}

/// The first page is one of the images that can be opened, and none of them has
/// a name that comes before its name; there is none only where there is no such
/// image.
pub proof fn law_first_page(entries: Seq<EntryView>, n: int)
    requires
        0 <= n <= entries.len(),
    ensures
        match first_page(entries, n) {
            Some(name) => (exists|i: int|
                0 <= i < n && (#[trigger] entries[i]).opens && is_image(entries[i].name)
                    && entries[i].name == name) && forall|j: int|
                0 <= j < n && (#[trigger] entries[j]).opens && is_image(entries[j].name)
                    ==> !before(entries[j].name, name),
            None => forall|j: int|
                0 <= j < n ==> !((#[trigger] entries[j]).opens && is_image(entries[j].name)),
        },
    decreases n,
{
    if n > 0 {
        law_first_page(entries, n - 1);
        let e = entries[n - 1];
        match first_page(entries, n) {
            Some(name) => {
                law_before_order(name, name, name);
                assert forall|j: int|
                    0 <= j < n && (#[trigger] entries[j]).opens && is_image(
                        entries[j].name,
                    ) implies !before(entries[j].name, name) by {
                    match first_page(entries, n - 1) {
                        Some(best) => {
                            law_before_order(entries[j].name, name, best);
                        },
                        None => {},
                    }
                }
            },
            None => {},
        }
    }
}

// ---- any book ----

/// What the bytes of a book file say of the book.
pub open spec fn metadata(bytes: Seq<u8>, format: Seq<char>) -> ExtractedView {
    let found = match archive::archive_in(bytes) {
        Some(entries) => if format == "epub"@ {
            epub_metadata(entries)
        } else if format == "cbz"@ {
            cbz_metadata(entries)
        } else {
            None
        },
        None => None,
    };
    match found {
        Some(m) => m,
        None => nothing(),
    }
}

/// What a book file says of the book. A file that cannot be read as its format
/// says, and a format that is neither epub nor cbz, give nothing.
pub fn extract(bytes: &[u8], format: &str) -> (r: Extracted)
    ensures
        r.deep_view() == metadata(bytes@, format@),
{
    if !has_metadata(format) {
        return Extracted::default();
    }
    let found = match archive::open(bytes) {
        Ok(mut a) => if text::same(format, "epub") {
            extract_epub(&mut a)
        } else {
            extract_cbz(&mut a)
        },
        Err(_) => None,
    };
    match found {
        Some(m) => m,
        None => Extracted::default(),
    }
}

/// Does a file of this format have metadata to extract?
pub fn has_metadata(format: &str) -> (r: bool)
    ensures
        r == (format@ == "epub"@ || format@ == "cbz"@),
{
    text::same(format, "epub") || text::same(format, "cbz")
}

/// The name under which the cover of a book is kept.
pub fn cover_name(id: i64, ext: &str) -> (r: String)
    ensures
        r@ == text::decimal_of(id as int) + "."@ + ext@,
{
    let mut name = text::decimal(id);
    name.append(".");
    name.append(ext);
    name
}

// ---- storing ----

/// What the library keeps about a book.
pub struct BookMeta {
    pub title: String,
    pub author: Option<String>,
    pub description: Option<String>,
    pub cover: Option<String>,
    pub series: Option<String>,
    pub series_index: Option<String>,
    /// Has the file been looked at?
    pub done: bool,
}

#[verifier::ext_equal]
pub struct BookMetaView {
    pub title: Seq<char>,
    pub author: Option<Seq<char>>,
    pub description: Option<Seq<char>>,
    pub cover: Option<Seq<char>>,
    pub series: Option<Seq<char>>,
    pub series_index: Option<Seq<char>>,
    pub done: bool,
}

impl DeepView for BookMeta {
    type V = BookMetaView;

    open spec fn deep_view(&self) -> BookMetaView {
        BookMetaView {
            title: self.title@,
            author: self.author.deep_view(),
            description: self.description.deep_view(),
            cover: self.cover.deep_view(),
            series: self.series.deep_view(),
            series_index: self.series_index.deep_view(),
            done: self.done,
        }
    }
}

/// The new text where there is one, else the old.
pub open spec fn preferred(new: Option<Seq<char>>, old: Option<Seq<char>>) -> Option<Seq<char>> {
    if new is Some {
        new
    } else {
        old
    }
}

fn prefer(new: &Option<String>, known: &Option<String>) -> (r: Option<String>)
    ensures
        r.deep_view() == preferred(new.deep_view(), known.deep_view()),
{
    if new.is_some() {
        new.clone()
    } else {
        known.clone()
    }
}

/// What is kept about a book once its file has been looked at: what the file
/// says, and where it says nothing what was known before. The book counts as
/// looked at whatever came of it.
pub open spec fn enriched(
    known: BookMetaView,
    found: ExtractedView,
    cover: Option<Seq<char>>,
) -> BookMetaView {
    BookMetaView {
        title: match found.title {
            Some(t) => t,
            None => known.title,
        },
        author: preferred(found.author, known.author),
        description: preferred(found.description, known.description),
        cover: preferred(cover, known.cover),
        series: preferred(found.series, known.series),
        series_index: preferred(found.series_index, known.series_index),
        done: true,
    }
}

/// What is kept about a book once its file has been looked at.
pub fn enrich(known: &BookMeta, found: &Extracted, cover: &Option<String>) -> (r: BookMeta)
    ensures
        r.deep_view() == enriched(known.deep_view(), found.deep_view(), cover.deep_view()),
{
    BookMeta {
        title: match &found.title {
            Some(t) => t.clone(),
            None => known.title.clone(),
        },
        author: prefer(&found.author, &known.author),
        description: prefer(&found.description, &known.description),
        cover: prefer(cover, &known.cover),
        series: prefer(&found.series, &known.series),
        series_index: prefer(&found.series_index, &known.series_index),
        done: true,
    }
}

/// What came of looking at the file of a book.
pub struct Looked {
    pub found: Extracted,
    /// The name under which the cover is kept, where it could be saved.
    pub cover: Option<String>,
}

#[verifier::ext_equal]
pub struct LookedView {
    pub found: ExtractedView,
    pub cover: Option<Seq<char>>,
}

impl DeepView for Looked {
    type V = LookedView;

    open spec fn deep_view(&self) -> LookedView {
        LookedView { found: self.found.deep_view(), cover: self.cover.deep_view() }
    }
}

/// What came of looking at the file of the book at position `i`; nothing where
/// nothing is noted for it.
pub open spec fn looked_at(looked: Seq<LookedView>, i: int) -> LookedView {
    if 0 <= i < looked.len() {
        looked[i]
    } else {
        LookedView { found: nothing(), cover: None }
    }
}

/// The books after a run: one that was pending is enriched by what came of
/// looking at its file, and one that was done stays as it is.
pub open spec fn enriched_books(books: Seq<BookMetaView>, looked: Seq<LookedView>) -> Seq<
    BookMetaView,
> {
    Seq::new(
        books.len(),
        |i: int|
            if books[i].done {
                books[i]
            } else {
                enriched(books[i], looked_at(looked, i).found, looked_at(looked, i).cover)
            },
    )
}

/// How many of the books are pending.
pub open spec fn pending_count(books: Seq<BookMetaView>) -> nat
    decreases books.len(),
{
    if books.len() == 0 {
        0
    } else {
        pending_count(books.drop_last()) + if books.last().done {
            0nat
        } else {
            1nat
        }
    }
}

/// Enriches every book that is pending, and tells how many there were.
pub fn enrich_pending(books: &mut Vec<BookMeta>, looked: &Vec<Looked>) -> (n: usize)
    ensures
        final(books).deep_view() == enriched_books(old(books).deep_view(), looked.deep_view()),
        n == pending_count(old(books).deep_view()),
{
    let ghost before = books.deep_view();
    let ghost seen = looked.deep_view();
    let mut n: usize = 0;
    let mut i: usize = 0;
    while i < books.len()
        invariant
            seen == looked.deep_view(),
            i <= books.len(),
            books.len() == before.len(),
            n <= i,
            n == pending_count(before.take(i as int)),
            forall|j: int|
                0 <= j < i ==> (#[trigger] books@[j]).deep_view() == enriched_books(before, seen)[j],
            forall|j: int| i <= j < books.len() ==> (#[trigger] books@[j]).deep_view() == before[j],
        decreases books.len() - i,
    {
        assert(before.take(i + 1).drop_last() =~= before.take(i as int));
        assert(books@[i as int].deep_view() == before[i as int]);
        if !books[i].done {
            let book = if i < looked.len() {
                assert(seen[i as int] == looked@[i as int].deep_view());
                enrich(&books[i], &looked[i].found, &looked[i].cover)
            } else {
                enrich(&books[i], &Extracted::default(), &None)
            };
            books.set(i, book);
            n += 1;
        }
        i += 1;
    }
    assert(before.take(before.len() as int) =~= before);
    assert(books.deep_view() =~= enriched_books(before, seen));
    n
}

/// After a run every book is done, whatever came of looking at its file, so
/// that a run right after finds none pending and changes nothing.
pub proof fn law_run_settles(
    books: Seq<BookMetaView>,
    looked: Seq<LookedView>,
    again: Seq<LookedView>,
)
    ensures
        forall|i: int| 0 <= i < books.len() ==> (#[trigger] enriched_books(books, looked)[i]).done,
        pending_count(enriched_books(books, looked)) == 0,
        enriched_books(enriched_books(books, looked), again) == enriched_books(books, looked),
{
    let after = enriched_books(books, looked);
    lemma_none_pending(after);
    assert(enriched_books(after, again) =~= after);
}

proof fn lemma_none_pending(books: Seq<BookMetaView>)
    requires
        forall|i: int| 0 <= i < books.len() ==> (#[trigger] books[i]).done,
    ensures
        pending_count(books) == 0,
    decreases books.len(),
{
    if books.len() > 0 {
        assert forall|i: int| 0 <= i < books.drop_last().len() implies (
        #[trigger] books.drop_last()[i]).done by {
            assert(books.drop_last()[i] == books[i]);
        }
        lemma_none_pending(books.drop_last());
        assert(books.last() == books[books.len() - 1]);
    }
}

/// A run keeps what it has nothing new for: a field for which the file says
/// nothing stays as it was, and a book that was done stays whole.
pub proof fn law_run_keeps(books: Seq<BookMetaView>, looked: Seq<LookedView>, i: int)
    requires
        0 <= i < books.len(),
    ensures
        ({
            let was = books[i];
            let now = enriched_books(books, looked)[i];
            let found = looked_at(looked, i).found;
            &&& was.done ==> now == was
            &&& found.title is None ==> now.title == was.title
            &&& found.author is None ==> now.author == was.author
            &&& found.description is None ==> now.description == was.description
            &&& looked_at(looked, i).cover is None ==> now.cover == was.cover
            &&& found.series is None ==> now.series == was.series
            &&& found.series_index is None ==> now.series_index == was.series_index
        }),
{
}

// ---- what the metadata of a book is tied to ----

proof fn lemma_first_meta(
    metas: Seq<(Seq<char>, Seq<char>)>,
    p: spec_fn(Seq<char>) -> bool,
    k: int,
)
    requires
        0 <= k <= metas.len(),
        forall|j: int| 0 <= j < k ==> !p((#[trigger] metas[j]).0),
        k < metas.len() ==> p(metas[k].0),
    ensures
        first_meta(metas, p) == if k < metas.len() {
            Some(metas[k])
        } else {
            None
        },
    decreases k,
{
    if k > 0 {
        let rest = metas.skip(1);
        assert(!p(metas[0].0));
        assert forall|j: int| 0 <= j < k - 1 implies !p((#[trigger] rest[j]).0) by {
            assert(rest[j] == metas[j + 1]);
        }
        lemma_first_meta(rest, p, k - 1);
    }
}

proof fn lemma_first_tag(found: Seq<Seq<char>>, p: spec_fn(Seq<char>) -> bool, k: int)
    requires
        0 <= k <= found.len(),
        forall|j: int| 0 <= j < k ==> !p(#[trigger] found[j]),
        k < found.len() ==> p(found[k]),
    ensures
        first_tag(found, p) == if k < found.len() {
            Some(found[k])
        } else {
            None
        },
    decreases k,
{
    if k > 0 {
        let rest = found.skip(1);
        assert(!p(found[0]));
        assert forall|j: int| 0 <= j < k - 1 implies !p(#[trigger] rest[j]) by {
            assert(rest[j] == found[j + 1]);
        }
        lemma_first_tag(rest, p, k - 1);
    }
}

/// The entry at position `k` is the first with its name, can be opened and
/// read, and its bytes are the UTF-8 text `s`.
pub open spec fn holds_text(entries: Seq<EntryView>, k: int, name: Seq<char>, s: Seq<char>) -> bool {
    &&& 0 <= k < entries.len()
    &&& entries[k].name == name
    &&& forall|j: int| 0 <= j < k ==> (#[trigger] entries[j]).name != name
    &&& entries[k].opens
    &&& entries[k].data matches Some(d) && vstd::utf8::valid_utf8(d) && vstd::utf8::decode_utf8(d)
        == s
}

/// The bytes spell an archive with the given entries, whose container names the
/// package document `opf` at `rootfile`.
pub open spec fn is_epub(
    bytes: Seq<u8>,
    entries: Seq<EntryView>,
    c: int,
    container: Seq<char>,
    rootfile: Seq<char>,
    o: int,
    opf: Seq<char>,
) -> bool {
    &&& archive::archive_in(bytes) == Some(entries)
    &&& holds_text(entries, c, "META-INF/container.xml"@, container)
    &&& xml::tags(container, "rootfile"@).len() > 0
    &&& xml::attribute(xml::tags(container, "rootfile"@)[0], "full-path"@) == Some(rootfile)
    &&& holds_text(entries, o, rootfile, opf)
}

/// The bytes of an entry are read by its name: where an entry with exactly that
/// name can be opened, they are its data.
pub proof fn law_entry_bytes(entries: Seq<EntryView>, k: int)
    requires
        0 <= k < entries.len(),
        forall|j: int| 0 <= j < k ==> (#[trigger] entries[j]).name != entries[k].name,
        entries[k].opens,
    ensures
        bytes_in(entries, entries[k].name) == entries[k].data,
{
    archive::law_opened(entries, k);
}

/// Where no entry has the name, the one with spaces for its `%20` is read.
pub proof fn law_entry_spaces(entries: Seq<EntryView>, name: Seq<char>, k: int)
    requires
        0 <= k < entries.len(),
        forall|j: int| 0 <= j < entries.len() ==> (#[trigger] entries[j]).name != name,
        entries[k].name == text::replaced(name, "%20"@, " "@),
        forall|j: int| 0 <= j < k ==> (#[trigger] entries[j]).name != entries[k].name,
        entries[k].opens,
    ensures
        bytes_in(entries, name) == entries[k].data,
{
    archive::law_opened(entries, k);
    archive::law_not_opened(entries, name);
}

proof fn lemma_text_in(entries: Seq<EntryView>, k: int, name: Seq<char>, s: Seq<char>)
    requires
        holds_text(entries, k, name, s),
    ensures
        text_in(entries, name) == Some(s),
{
    law_entry_bytes(entries, k);
    archive::law_text(entries[k].data->0);
}

proof fn lemma_is_epub(
    bytes: Seq<u8>,
    entries: Seq<EntryView>,
    c: int,
    container: Seq<char>,
    rootfile: Seq<char>,
    o: int,
    opf: Seq<char>,
)
    requires
        is_epub(bytes, entries, c, container, rootfile, o, opf),
    ensures
        metadata(bytes, "epub"@) == package_metadata(entries, rootfile, opf),
{
    lemma_text_in(entries, c, "META-INF/container.xml"@, container);
    lemma_text_in(entries, o, rootfile, opf);
}

/// The title of an epub is the text of its `dc:title`, the author that of its
/// `dc:creator`, and the description that of its `dc:description`, stripped of
/// markup; what the package document does not say is left out.
pub proof fn law_epub_texts(
    bytes: Seq<u8>,
    entries: Seq<EntryView>,
    c: int,
    container: Seq<char>,
    rootfile: Seq<char>,
    o: int,
    opf: Seq<char>,
)
    requires
        is_epub(bytes, entries, c, container, rootfile, o, opf),
    ensures
        metadata(bytes, "epub"@).title == xml::element_text(opf, "dc:title"@),
        metadata(bytes, "epub"@).author == xml::element_text(opf, "dc:creator"@),
        xml::element_text(opf, "dc:description"@) is None ==> metadata(
            bytes,
            "epub"@,
        ).description is None,
        xml::element_text(opf, "dc:description"@) matches Some(d) ==> metadata(
            bytes,
            "epub"@,
        ).description == Some(xml::stripped(d)),
{
    lemma_is_epub(bytes, entries, c, container, rootfile, o, opf);
}

/// The series of an epub is the content of its first meta named
/// `calibre:series`, and the position in it the content of the first meta named
/// `calibre:series_index`; without such a meta there is no position.
pub proof fn law_epub_calibre_series(
    bytes: Seq<u8>,
    entries: Seq<EntryView>,
    c: int,
    container: Seq<char>,
    rootfile: Seq<char>,
    o: int,
    opf: Seq<char>,
    s: int,
    i: int,
)
    requires
        is_epub(bytes, entries, c, container, rootfile, o, opf),
        0 <= s < metas_from(opf, 0).len(),
        xml::attribute(metas_from(opf, 0)[s].0, "name"@) == Some("calibre:series"@),
        forall|j: int|
            0 <= j < s ==> xml::attribute((#[trigger] metas_from(opf, 0)[j]).0, "name"@) != Some(
                "calibre:series"@,
            ),
        xml::attribute(metas_from(opf, 0)[s].0, "content"@) is Some,
        0 <= i <= metas_from(opf, 0).len(),
        i < metas_from(opf, 0).len() ==> xml::attribute(metas_from(opf, 0)[i].0, "name"@) == Some(
            "calibre:series_index"@,
        ),
        forall|j: int|
            0 <= j < i ==> xml::attribute((#[trigger] metas_from(opf, 0)[j]).0, "name"@) != Some(
                "calibre:series_index"@,
            ),
    ensures
        metadata(bytes, "epub"@).series == xml::attribute(metas_from(opf, 0)[s].0, "content"@),
        i < metas_from(opf, 0).len() ==> metadata(bytes, "epub"@).series_index == xml::attribute(
            metas_from(opf, 0)[i].0,
            "content"@,
        ),
        i == metas_from(opf, 0).len() ==> metadata(bytes, "epub"@).series_index is None,
{
    lemma_is_epub(bytes, entries, c, container, rootfile, o, opf);
    lemma_first_meta(metas_from(opf, 0), with_attr("name"@, "calibre:series"@), s);
    lemma_first_meta(metas_from(opf, 0), with_attr("name"@, "calibre:series_index"@), i);
}

/// Without calibre's meta the series of an epub is the text of its first
/// `belongs-to-collection`, and the position in it the text of the first
/// `group-position` that refines the id of that collection.
pub proof fn law_epub_collection(
    bytes: Seq<u8>,
    entries: Seq<EntryView>,
    c: int,
    container: Seq<char>,
    rootfile: Seq<char>,
    o: int,
    opf: Seq<char>,
    s: int,
    id: Seq<char>,
    i: int,
)
    requires
        is_epub(bytes, entries, c, container, rootfile, o, opf),
        forall|j: int|
            0 <= j < metas_from(opf, 0).len() ==> xml::attribute(
                (#[trigger] metas_from(opf, 0)[j]).0,
                "name"@,
            ) != Some("calibre:series"@),
        0 <= s < metas_from(opf, 0).len(),
        xml::attribute(metas_from(opf, 0)[s].0, "property"@) == Some("belongs-to-collection"@),
        forall|j: int|
            0 <= j < s ==> xml::attribute((#[trigger] metas_from(opf, 0)[j]).0, "property"@)
                != Some("belongs-to-collection"@),
        xml::unescaped(text::trimmed(metas_from(opf, 0)[s].1)).len() > 0,
        xml::attribute(metas_from(opf, 0)[s].0, "id"@) == Some(id),
        0 <= i <= metas_from(opf, 0).len(),
        i < metas_from(opf, 0).len() ==> xml::attribute(metas_from(opf, 0)[i].0, "refines"@)
            == Some("#"@ + id) && xml::attribute(metas_from(opf, 0)[i].0, "property"@) == Some(
            "group-position"@,
        ),
        forall|j: int|
            0 <= j < i ==> xml::attribute((#[trigger] metas_from(opf, 0)[j]).0, "refines"@) != Some(
                "#"@ + id,
            ) || xml::attribute(metas_from(opf, 0)[j].0, "property"@) != Some("group-position"@),
    ensures
        metadata(bytes, "epub"@).series == Some(
            xml::unescaped(text::trimmed(metas_from(opf, 0)[s].1)),
        ),
        i < metas_from(opf, 0).len() ==> metadata(bytes, "epub"@).series_index == Some(
            text::trimmed(metas_from(opf, 0)[i].1),
        ),
        i == metas_from(opf, 0).len() ==> metadata(bytes, "epub"@).series_index is None,
{
    let metas = metas_from(opf, 0);
    lemma_is_epub(bytes, entries, c, container, rootfile, o, opf);
    lemma_first_meta(metas, with_attr("name"@, "calibre:series"@), metas.len() as int);
    lemma_first_meta(metas, with_attr("property"@, "belongs-to-collection"@), s);
    lemma_first_meta(
        metas,
        with_attrs("refines"@, "#"@ + id, "property"@, "group-position"@),
        i,
    );
}

/// An epub with neither calibre's meta nor a collection belongs to no series.
pub proof fn law_epub_no_series(
    bytes: Seq<u8>,
    entries: Seq<EntryView>,
    c: int,
    container: Seq<char>,
    rootfile: Seq<char>,
    o: int,
    opf: Seq<char>,
)
    requires
        is_epub(bytes, entries, c, container, rootfile, o, opf),
        forall|j: int|
            0 <= j < metas_from(opf, 0).len() ==> xml::attribute(
                (#[trigger] metas_from(opf, 0)[j]).0,
                "name"@,
            ) != Some("calibre:series"@) && xml::attribute(metas_from(opf, 0)[j].0, "property"@)
                != Some("belongs-to-collection"@),
    ensures
        metadata(bytes, "epub"@).series is None,
{
    let metas = metas_from(opf, 0);
    lemma_is_epub(bytes, entries, c, container, rootfile, o, opf);
    lemma_first_meta(metas, with_attr("name"@, "calibre:series"@), metas.len() as int);
    lemma_first_meta(
        metas,
        with_attr("property"@, "belongs-to-collection"@),
        metas.len() as int,
    );
}

/// The cover of an epub is the entry that the chosen address names, seen from
/// the directory of the package document, under the extension of that address;
/// without an address, or where the entry cannot be read, there is none.
pub proof fn law_epub_cover(
    bytes: Seq<u8>,
    entries: Seq<EntryView>,
    c: int,
    container: Seq<char>,
    rootfile: Seq<char>,
    o: int,
    opf: Seq<char>,
)
    requires
        is_epub(bytes, entries, c, container, rootfile, o, opf),
    ensures
        cover_in(opf) is None ==> metadata(bytes, "epub"@).cover is None,
        cover_in(opf) matches Some(href) ==> {
            let path = zip_path(directory_of(rootfile), href);
            &&& forall|k: int|
                0 <= k < entries.len() && (#[trigger] entries[k]).name == path && entries[k].opens
                    && entries[k].data is Some && (forall|j: int|
                    0 <= j < k ==> (#[trigger] entries[j]).name != path) ==> metadata(
                    bytes,
                    "epub"@,
                ).cover == Some((entries[k].data->0, cover_extension(href)))
            &&& (forall|k: int|
                0 <= k < entries.len() ==> (#[trigger] entries[k]).name != path && entries[k].name
                    != text::replaced(path, "%20"@, " "@)) ==> metadata(bytes, "epub"@).cover is None
        },
{
    lemma_is_epub(bytes, entries, c, container, rootfile, o, opf);
    if let Some(href) = cover_in(opf) {
        let path = zip_path(directory_of(rootfile), href);
        assert forall|k: int|
            0 <= k < entries.len() && (#[trigger] entries[k]).name == path && entries[k].opens
                && entries[k].data is Some && (forall|j: int|
                0 <= j < k ==> (#[trigger] entries[j]).name != path) implies metadata(
            bytes,
            "epub"@,
        ).cover == Some((entries[k].data->0, cover_extension(href))) by {
            law_entry_bytes(entries, k);
        }
        if forall|k: int|
            0 <= k < entries.len() ==> (#[trigger] entries[k]).name != path && entries[k].name
                != text::replaced(path, "%20"@, " "@) {
            archive::law_not_opened(entries, path);
            archive::law_not_opened(entries, text::replaced(path, "%20"@, " "@));
        }
    }
}

/// The item that declares itself the cover image is chosen before all others:
/// where the first item with `cover-image` among its properties has an address,
/// that is the address of the cover.
pub proof fn law_declared_cover(opf: Seq<char>, k: int)
    requires
        0 <= k < xml::tags(opf, "item"@).len(),
        xml::attribute(xml::tags(opf, "item"@)[k], "properties"@) matches Some(v) && text::has(
            v,
            "cover-image"@,
        ),
        forall|j: int|
            0 <= j < k ==> !(xml::attribute(
                #[trigger] xml::tags(opf, "item"@)[j],
                "properties"@,
            ) matches Some(v) && text::has(v, "cover-image"@)),
        xml::attribute(xml::tags(opf, "item"@)[k], "href"@) is Some,
    ensures
        cover_in(opf) == xml::attribute(xml::tags(opf, "item"@)[k], "href"@),
{
    lemma_first_tag(xml::tags(opf, "item"@), declares_cover(), k);
}

/// Where no item declares itself the cover, the item whose id the first `cover`
/// meta gives is chosen.
pub proof fn law_cover_by_id(opf: Seq<char>, m: int, id: Seq<char>, k: int)
    requires
        forall|j: int|
            0 <= j < xml::tags(opf, "item"@).len() ==> !(xml::attribute(
                #[trigger] xml::tags(opf, "item"@)[j],
                "properties"@,
            ) matches Some(v) && text::has(v, "cover-image"@)),
        0 <= m < xml::tags(opf, "meta"@).len(),
        xml::attribute(xml::tags(opf, "meta"@)[m], "name"@) == Some("cover"@),
        forall|j: int|
            0 <= j < m ==> xml::attribute(#[trigger] xml::tags(opf, "meta"@)[j], "name"@) != Some(
                "cover"@,
            ),
        xml::attribute(xml::tags(opf, "meta"@)[m], "content"@) == Some(id),
        0 <= k < xml::tags(opf, "item"@).len(),
        xml::attribute(xml::tags(opf, "item"@)[k], "id"@) == Some(id),
        forall|j: int|
            0 <= j < k ==> xml::attribute(#[trigger] xml::tags(opf, "item"@)[j], "id"@) != Some(id),
        xml::attribute(xml::tags(opf, "item"@)[k], "href"@) is Some,
    ensures
        cover_in(opf) == xml::attribute(xml::tags(opf, "item"@)[k], "href"@),
{
    let items = xml::tags(opf, "item"@);
    lemma_first_tag(items, declares_cover(), items.len() as int);
    lemma_first_tag(xml::tags(opf, "meta"@), with_attr("name"@, "cover"@), m);
    lemma_first_tag(items, with_attr("id"@, id), k);
}

/// Where neither a declaration nor a `cover` meta tells, the first image whose
/// id or address mentions a cover is chosen, and where there is none there is no
/// cover.
pub proof fn law_cover_by_mention(opf: Seq<char>, k: int)
    requires
        forall|j: int|
            0 <= j < xml::tags(opf, "item"@).len() ==> !(xml::attribute(
                #[trigger] xml::tags(opf, "item"@)[j],
                "properties"@,
            ) matches Some(v) && text::has(v, "cover-image"@)),
        forall|j: int|
            0 <= j < xml::tags(opf, "meta"@).len() ==> xml::attribute(
                #[trigger] xml::tags(opf, "meta"@)[j],
                "name"@,
            ) != Some("cover"@),
        0 <= k <= xml::tags(opf, "item"@).len(),
        forall|j: int|
            0 <= j < k ==> !mentions_cover(#[trigger] xml::tags(opf, "item"@)[j]),
        k < xml::tags(opf, "item"@).len() ==> mentions_cover(xml::tags(opf, "item"@)[k]),
    ensures
        k < xml::tags(opf, "item"@).len() ==> cover_in(opf) == xml::attribute(
            xml::tags(opf, "item"@)[k],
            "href"@,
        ),
        k == xml::tags(opf, "item"@).len() ==> cover_in(opf) is None,
{
    let items = xml::tags(opf, "item"@);
    let metas = xml::tags(opf, "meta"@);
    lemma_first_tag(items, declares_cover(), items.len() as int);
    lemma_first_tag(metas, with_attr("name"@, "cover"@), metas.len() as int);
    reveal_strlit("");
    reveal_strlit("cover");
    assert(""@.len() == 0);
    text::law_lowered_ascii(""@);
    assert forall|t: Seq<char>| #[trigger] mentions_cover(t) == looks_like_cover()(t) by {}
    lemma_first_tag(items, looks_like_cover(), k);
}

/// The media type of an item is that of an image, and its id or its address
/// holds the word cover in lowercase.
pub open spec fn mentions_cover(tag: Seq<char>) -> bool {
    &&& xml::attribute(tag, "media-type"@) matches Some(t) && text::occurs_at(t, "image/"@, 0)
    &&& {
        ||| xml::attribute(tag, "id"@) matches Some(v) && text::has(text::lowered(v), "cover"@)
        ||| xml::attribute(tag, "href"@) matches Some(v) && text::has(text::lowered(v), "cover"@)
    }
}

/// The cover of a comic archive is its first page: the entry whose name comes
/// first among the images that can be opened. It says nothing else of the book,
/// and an archive without such a page says nothing at all.
pub proof fn law_cbz(bytes: Seq<u8>, entries: Seq<EntryView>, k: int)
    requires
        archive::archive_in(bytes) == Some(entries),
        0 <= k <= entries.len(),
        k < entries.len() ==> entries[k].opens && is_image(entries[k].name) && entries[k].data is Some
            && forall|j: int|
            0 <= j < entries.len() && j != k && (#[trigger] entries[j]).opens && is_image(
                entries[j].name,
            ) ==> before(entries[k].name, entries[j].name),
        k < entries.len() ==> forall|j: int|
            0 <= j < k ==> (#[trigger] entries[j]).name != entries[k].name,
        k == entries.len() ==> forall|j: int|
            0 <= j < entries.len() ==> !((#[trigger] entries[j]).opens && is_image(
                entries[j].name,
            )),
    ensures
        ({
            let m = metadata(bytes, "cbz"@);
            &&& k < entries.len() ==> m.cover == Some(
                (entries[k].data->0, cover_extension(entries[k].name)),
            )
            &&& k == entries.len() ==> m.cover is None
            &&& m.title is None && m.author is None && m.description is None
            &&& m.series is None && m.series_index is None
        }),
{
    reveal_strlit("epub");
    reveal_strlit("cbz");
    assert("cbz"@.len() != "epub"@.len());
    law_first_page(entries, entries.len() as int);
    if k < entries.len() {
        let name = first_page(entries, entries.len() as int)->0;
        if first_page(entries, entries.len() as int) is None {
            assert(entries[k].opens && is_image(entries[k].name));
        }
        let i = choose|i: int|
            0 <= i < entries.len() && (#[trigger] entries[i]).opens && is_image(entries[i].name)
                && entries[i].name == name;
        if i != k {
            assert(before(entries[k].name, entries[i].name));
            assert(!before(entries[k].name, name));
        }
        law_entry_bytes(entries, k);
    } else if first_page(entries, entries.len() as int) is Some {
        let name = first_page(entries, entries.len() as int)->0;
        let i = choose|i: int|
            0 <= i < entries.len() && (#[trigger] entries[i]).opens && is_image(entries[i].name)
                && entries[i].name == name;
        assert(!(entries[i].opens && is_image(entries[i].name)));
    }
}

/// A file of another format, and one that is no archive, says nothing.
pub proof fn law_no_metadata(bytes: Seq<u8>, format: Seq<char>)
    requires
        archive::archive_in(bytes) is None || (format != "epub"@ && format != "cbz"@),
    ensures
        ({
            let m = metadata(bytes, format);
            &&& m.title is None && m.author is None && m.description is None
            &&& m.series is None && m.series_index is None && m.cover is None
        }),
{
}

/// What the file says of a book is kept: each field for which it says something
/// new takes that, a pending book is done afterwards, and no field takes what is
/// said of another.
pub proof fn law_run_takes(books: Seq<BookMetaView>, looked: Seq<LookedView>, i: int)
    requires
        0 <= i < books.len(),
        i < looked.len(),
        !books[i].done,
    ensures
        ({
            let now = enriched_books(books, looked)[i];
            let found = looked[i].found;
            &&& enriched_books(books, looked).len() == books.len()
            &&& now.done
            &&& found.title matches Some(t) ==> now.title == t
            &&& found.author is Some ==> now.author == found.author
            &&& found.description is Some ==> now.description == found.description
            &&& looked[i].cover is Some ==> now.cover == looked[i].cover
            &&& found.series is Some ==> now.series == found.series
            &&& found.series_index is Some ==> now.series_index == found.series_index
            &&& found.title is None ==> now.title == books[i].title
            &&& found.author is None ==> now.author == books[i].author
            &&& found.description is None ==> now.description == books[i].description
            &&& looked[i].cover is None ==> now.cover == books[i].cover
            &&& found.series is None ==> now.series == books[i].series
            &&& found.series_index is None ==> now.series_index == books[i].series_index
        }),
{
}

/// What is kept of one book does not depend on the other books or on what was
/// found of them.
pub proof fn law_run_apart(
    books: Seq<BookMetaView>,
    looked: Seq<LookedView>,
    other: Seq<BookMetaView>,
    seen: Seq<LookedView>,
    i: int,
)
    requires
        0 <= i < books.len(),
        i < other.len(),
        books[i] == other[i],
        i < looked.len(),
        i < seen.len(),
        looked[i] == seen[i],
    ensures
        enriched_books(books, looked)[i] == enriched_books(other, seen)[i],
{
}

/// The number of pending books is the number of positions at which one stands.
pub proof fn law_pending_count(books: Seq<BookMetaView>)
    ensures
        pending_count(books) == books.filter(|b: BookMetaView| !b.done).len(),
    decreases books.len(),
{
    reveal(Seq::filter);
    if books.len() > 0 {
        law_pending_count(books.drop_last());
    }
}

/// An address of plain names is resolved to the directory's names followed by
/// its own, and each `..` in front of them takes one name of the directory away.
pub proof fn law_zip_parts(
    dir: Seq<Seq<char>>,
    up: nat,
    names: Seq<Seq<char>>,
    segs: Seq<Seq<char>>,
)
    requires
        up <= dir.len(),
        forall|i: int| 0 <= i < names.len() ==> is_name(#[trigger] names[i]),
        segs == Seq::new(up, |i: int| ".."@) + names,
    ensures
        walk(dir, segs) == dir.take(dir.len() - up) + names,
    decreases segs.len(),
{
    if segs.len() == 0 {
        assert(dir.take(dir.len() - up) + names =~= dir);
    } else if names.len() > 0 {
        assert(segs.drop_last() =~= Seq::new(up, |i: int| ".."@) + names.drop_last());
        assert forall|i: int| 0 <= i < names.drop_last().len() implies is_name(
            #[trigger] names.drop_last()[i],
        ) by {
            assert(names.drop_last()[i] == names[i]);
        }
        law_zip_parts(dir, up, names.drop_last(), segs.drop_last());
        assert(segs.last() == names.last());
        assert(is_name(names[names.len() - 1]));
        assert((dir.take(dir.len() - up) + names.drop_last()).push(names.last()) =~= dir.take(
            dir.len() - up,
        ) + names);
    } else {
        let less = (up - 1) as nat;
        assert(segs.drop_last() =~= Seq::new(less, |i: int| ".."@) + names);
        law_zip_parts(dir, less, names, segs.drop_last());
        assert(segs.last() == ".."@);
        reveal_strlit("..");
        reveal_strlit(".");
        assert(".."@.len() == 2 && "."@.len() == 1);
        assert((dir.take(dir.len() - less) + names).drop_last() =~= dir.take(dir.len() - up)
            + names);
    }
}

/// A file is an image by its extension, in any case of letters, and a cover is
/// kept under its extension in lowercase; only `jpeg` becomes `jpg`.
pub proof fn law_image(stem: Seq<char>, ext: Seq<char>)
    requires
        !ext.contains('.'),
    ensures
        is_image(stem + seq!['.'] + ext) <==> [
            "jpg"@,
            "jpeg"@,
            "png"@,
            "gif"@,
            "webp"@,
        ]@.contains(text::lowered(ext)),
        text::lowered(ext) == "jpeg"@ ==> cover_extension(stem + seq!['.'] + ext) == "jpg"@,
        text::lowered(ext) != "jpeg"@ ==> cover_extension(stem + seq!['.'] + ext) == text::lowered(
            ext,
        ),
{
    paths::law_after_last(stem, '.', ext);
    let known = ["jpg"@, "jpeg"@, "png"@, "gif"@, "webp"@]@;
    assert(known[0] == "jpg"@ && known[1] == "jpeg"@ && known[2] == "png"@ && known[3] == "gif"@
        && known[4] == "webp"@);
}

proof fn lemma_walk_nonempty(parts: Seq<Seq<char>>, segs: Seq<Seq<char>>)
    requires
        forall|i: int| 0 <= i < parts.len() ==> (#[trigger] parts[i]).len() > 0,
    ensures
        forall|i: int|
            0 <= i < walk(parts, segs).len() ==> (#[trigger] walk(parts, segs)[i]).len() > 0,
    decreases segs.len(),
{
    if segs.len() > 0 {
        let before = walk(parts, segs.drop_last());
        lemma_walk_nonempty(parts, segs.drop_last());
        assert forall|i: int| 0 <= i < walk(parts, segs).len() implies (#[trigger] walk(
            parts,
            segs,
        )[i]).len() > 0 by {
            if i < before.len() {
                assert(before[i].len() > 0);
            }
        }
    }
}

/// No part of an address inside an archive is empty; seen from a directory of
/// plain names, a plain name is that directory's parts and then the name.
pub proof fn law_zip_names(base: Seq<char>, href: Seq<char>, i: int)
    ensures
        0 <= i < zip_parts(base, href).len() ==> zip_parts(base, href)[i].len() > 0,
        !text::has(base, "\\"@) && (forall|k: int|
            0 <= k < text::pieces(base, '/').len() ==> (#[trigger] text::pieces(base, '/')[k]).len()
                > 0) && is_name(href) && !href.contains('/') ==> zip_parts(base, href)
            == text::pieces(base, '/').push(href),
{
    let some = |s: Seq<char>| s.len() > 0;
    let dir = text::pieces(text::replaced(base, "\\"@, "/"@), '/');
    assert forall|k: int| 0 <= k < nonempty(dir).len() implies (#[trigger] nonempty(dir)[k]).len()
        > 0 by {
        dir.lemma_filter_pred(some, k);
        assert(some(dir.filter(some)[k]));
    }
    lemma_walk_nonempty(nonempty(dir), text::pieces(href, '/'));
    let plain = text::pieces(base, '/');
    if !text::has(base, "\\"@) && (forall|k: int|
        0 <= k < plain.len() ==> (#[trigger] plain[k]).len() > 0) && is_name(href)
        && !href.contains('/') {
        reveal_strlit("\\");
        text::law_replaced(base, "\\"@, "/"@);
        lemma_all_kept(plain);
        text::lemma_first_char(href, '/', 0);
        assert(href.skip(0) =~= href);
        assert(href.subrange(0, href.len() as int) =~= href);
        assert(text::pieces(href, '/') =~= seq![href]);
        let segs = seq![href];
        assert(segs.drop_last() =~= seq![]);
        assert(walk(plain, segs.drop_last()) == plain);
        assert(segs.last() == href);
    }
}

proof fn lemma_all_kept(parts: Seq<Seq<char>>)
    requires
        forall|k: int| 0 <= k < parts.len() ==> (#[trigger] parts[k]).len() > 0,
    ensures
        nonempty(parts) == parts,
    decreases parts.len(),
{
    reveal(Seq::filter);
    if parts.len() > 0 {
        lemma_all_kept(parts.drop_last());
        assert(parts.drop_last().push(parts.last()) =~= parts);
    }
}

/// A meta of a package document is read as it stands: its opening tag, and its
/// text up to the closing tag; one that closes itself has no text.
pub proof fn law_meta_element(
    before: Seq<char>,
    attrs: Seq<char>,
    inner: Seq<char>,
    rest: Seq<char>,
)
    requires
        !attrs.contains('>'),
        attrs.len() > 0 && text::is_white(attrs[0]) && xml::ends_name(attrs[0]),
    ensures
        ({
            let xml = before + "<meta"@ + attrs + seq!['>'] + inner + "</meta"@ + rest;
            text::first_at(xml, "<meta"@, 0) == Some(before.len() as int) && text::first_at(
                xml,
                "</meta"@,
                before.len() + 6 + attrs.len() as int,
            ) == Some((before.len() + 6 + attrs.len() + inner.len()) as int) && attrs.last()
                != '/' ==> metas_from(xml, 0).len() > 0 && metas_from(xml, 0)[0] == (
                "<meta"@ + attrs + seq!['>'],
                inner,
            )
        }),
        ({
            let xml = before + "<meta"@ + attrs + "/>"@ + rest;
            text::first_at(xml, "<meta"@, 0) == Some(before.len() as int) ==> metas_from(
                xml,
                0,
            ).len() > 0 && metas_from(xml, 0)[0].0 == "<meta"@ + attrs + "/>"@ && metas_from(
                xml,
                0,
            )[0].1.len() == 0
        }),
{
    reveal_strlit("<meta");
    reveal_strlit("</meta");
    reveal_strlit("/>");
    let b = before.len() as int;
    {
        let xml = before + "<meta"@ + attrs + seq!['>'] + inner + "</meta"@ + rest;
        let tag = "<meta"@ + attrs + seq!['>'];
        let gt = b + 5 + attrs.len();
        assert(xml.subrange(b, b + tag.len()) =~= tag);
        lemma_tag_end(xml, tag, b);
        assert(xml.subrange(b, gt + 1) =~= tag);
        assert(xml[b + 5] == attrs[0]);
        assert(xml.subrange(gt + 1, gt + 1 + inner.len()) =~= inner);
        if attrs.last() != '/' {
            assert(tag[tag.len() - 2] == attrs.last());
            if text::ends(tag, "/>"@) {
                assert(tag.subrange(tag.len() - 2, tag.len() as int)[0] == tag[tag.len() - 2]);
            }
        }
    }
    {
        let xml = before + "<meta"@ + attrs + "/>"@ + rest;
        let tag = "<meta"@ + attrs + "/>"@;
        assert(xml.subrange(b, b + tag.len()) =~= tag);
        lemma_tag_end(xml, tag, b);
        assert(xml[b + 5] == attrs[0]);
        assert(tag.subrange(tag.len() - 2, tag.len() as int) =~= "/>"@);
        assert(text::ends(tag, "/>"@));
    }
}

proof fn lemma_tag_end(xml: Seq<char>, tag: Seq<char>, b: int)
    requires
        0 <= b,
        tag.len() > 0,
        b + tag.len() <= xml.len(),
        xml.subrange(b, b + tag.len()) == tag,
        tag.last() == '>',
        forall|k: int| 0 <= k < tag.len() - 1 ==> #[trigger] tag[k] != '>',
    ensures
        text::first_char(xml, '>', b) == Some(b + tag.len() - 1),
{
    text::lemma_first_char(xml, '>', b);
    assert forall|k: int| 0 <= k < tag.len() implies #[trigger] tag[k] == xml[b + k] by {
        assert(xml.subrange(b, b + tag.len())[k] == xml[b + k]);
    }
    assert(xml[b + tag.len() - 1] == tag[tag.len() - 1]);
    if let Some(i) = text::first_char(xml, '>', b) {
        if i < b + tag.len() - 1 {
            assert(tag[i - b] == xml[b + (i - b)]);
        }
    }
}

/// Every part of a description found in a file is seen as itself.
pub proof fn law_extracted_view(x: Extracted)
    ensures
        x.deep_view().title == x.title.deep_view(),
        x.deep_view().author == x.author.deep_view(),
        x.deep_view().description == x.description.deep_view(),
        x.deep_view().series == x.series.deep_view(),
        x.deep_view().series_index == x.series_index.deep_view(),
        x.deep_view().cover == (match x.cover {
            Some((bytes, ext)) => Some((bytes@, ext@)),
            None => None,
        }),
{
}

/// Every part of a record of a book is seen as itself.
pub proof fn law_book_meta_view(x: BookMeta)
    ensures
        x.deep_view().title == x.title@,
        x.deep_view().author == x.author.deep_view(),
        x.deep_view().description == x.description.deep_view(),
        x.deep_view().cover == x.cover.deep_view(),
        x.deep_view().series == x.series.deep_view(),
        x.deep_view().series_index == x.series_index.deep_view(),
        x.deep_view().done == x.done,
{
}

/// Every part of a look at a file is seen as itself.
pub proof fn law_looked_view(x: Looked)
    ensures
        x.deep_view().found == x.found.deep_view(),
        x.deep_view().cover == x.cover.deep_view(),
{
}

/// A book that nothing is noted for keeps all that was known of it, and counts as
/// looked at.
pub proof fn law_run_without(books: Seq<BookMetaView>, looked: Seq<LookedView>, i: int)
    requires
        looked.len() <= i < books.len(),
    ensures
        enriched_books(books, looked)[i].done,
        enriched_books(books, looked)[i] == (BookMetaView { done: true, ..books[i] }),
{
}

/// A package document lies in the directory before its name, one at the top in
/// none; and what it names plainly lies beside it.
pub proof fn law_beside(dir: Seq<char>, name: Seq<char>, href: Seq<char>)
    requires
        is_name(name) && !name.contains('/'),
        is_name(href) && !href.contains('/'),
        dir.len() > 0,
        !text::has(dir, "\\"@),
        forall|k: int|
            0 <= k < text::pieces(dir, '/').len() ==> is_name(#[trigger] text::pieces(dir, '/')[k]),
    ensures
        directory_of(dir + seq!['/'] + name) == dir,
        directory_of(name) == ""@,
        zip_path(directory_of(dir + seq!['/'] + name), href) == dir + seq!['/'] + href,
{
    reveal_strlit("/");
    reveal_strlit(".");
    assert("/"@ =~= seq!['/']);
    text::law_pieces_joined(dir, '/');
    let d = text::pieces(dir, '/');
    assert(is_name(d[d.len() - 1]));
    assert(dir.last() == d.last().last());
    assert(d.last().contains(d.last().last()));
    paths::law_parent(dir, name);
    assert forall|k: int| 0 <= k < d.len() implies (#[trigger] d[k]).len() > 0 by {
        assert(is_name(d[k]));
    }
    law_zip_names(dir, href, 0);
    assert(d.push(href).drop_last() =~= d);
}

/// What is read from an epub goes where it belongs: the title, the author and the
/// description from the elements of those names, the series from calibre's meta of
/// that name, and the place in the series from the other one.
pub proof fn law_extract(
    file: &[u8],
    format: &str,
    found: Extracted,
    entries: Seq<EntryView>,
    c: int,
    container: Seq<char>,
    rootfile: Seq<char>,
    o: int,
    opf: Seq<char>,
    s: int,
    i: int,
)
    requires
        call_ensures(extract, (file, format), found),
        format@ == "epub"@,
        is_epub(file@, entries, c, container, rootfile, o, opf),
        0 <= s < metas_from(opf, 0).len(),
        xml::attribute(metas_from(opf, 0)[s].0, "name"@) == Some("calibre:series"@),
        forall|j: int|
            0 <= j < s ==> xml::attribute((#[trigger] metas_from(opf, 0)[j]).0, "name"@) != Some(
                "calibre:series"@,
            ),
        xml::attribute(metas_from(opf, 0)[s].0, "content"@) is Some,
        0 <= i < metas_from(opf, 0).len(),
        xml::attribute(metas_from(opf, 0)[i].0, "name"@) == Some("calibre:series_index"@),
        forall|j: int|
            0 <= j < i ==> xml::attribute((#[trigger] metas_from(opf, 0)[j]).0, "name"@) != Some(
                "calibre:series_index"@,
            ),
    ensures
        found.title.deep_view() == xml::element_text(opf, "dc:title"@),
        found.author.deep_view() == xml::element_text(opf, "dc:creator"@),
        found.description is Some <==> xml::element_text(opf, "dc:description"@) is Some,
        found.series.deep_view() == xml::attribute(metas_from(opf, 0)[s].0, "content"@),
        found.series_index.deep_view() == xml::attribute(metas_from(opf, 0)[i].0, "content"@),
{
    law_epub_texts(file@, entries, c, container, rootfile, o, opf);
    law_epub_calibre_series(file@, entries, c, container, rootfile, o, opf, s, i);
    law_extracted_view(found);
}

/// Looking at a file never loses what was known: each part is what the file says,
/// where it says anything, and else what was known before.
pub proof fn law_enrich(known: &BookMeta, found: &Extracted, cover: &Option<String>, r: BookMeta)
    requires
        call_ensures(enrich, (known, found, cover), r),
    ensures
        r.done,
        r.title@ == if found.title is Some {
            found.title->0@
        } else {
            known.title@
        },
        found.author is Some ==> r.author.deep_view() == found.author.deep_view(),
        found.author is None ==> r.author.deep_view() == known.author.deep_view(),
        found.description is Some ==> r.description.deep_view() == found.description.deep_view(),
        found.description is None ==> r.description.deep_view() == known.description.deep_view(),
        found.series is Some ==> r.series.deep_view() == found.series.deep_view(),
        found.series is None ==> r.series.deep_view() == known.series.deep_view(),
        found.series_index is Some ==> r.series_index.deep_view()
            == found.series_index.deep_view(),
        found.series_index is None ==> r.series_index.deep_view()
            == known.series_index.deep_view(),
        cover is Some ==> r.cover.deep_view() == cover.deep_view(),
        cover is None ==> r.cover.deep_view() == known.cover.deep_view(),
{
    law_book_meta_view(r);
    law_book_meta_view(*known);
    law_extracted_view(*found);
}

} // verus!
