//! Torznab and newznab indexers: what to ask them, and what their answers say.

use vstd::prelude::*;
use vstd::string::*;
use crate::encode;
use crate::text;
use crate::xml;
use crate::page;

verus! {

// ---- data ----

/// An indexer that the user has set up.
#[derive(Debug)]
pub struct Indexer {
    pub id: i64,
    pub name: String,
    /// `torrent` or `usenet`.
    pub protocol: String,
    pub url: String,
    pub api_key: Option<String>,
    pub categories: Option<String>,
    pub priority: i64,
    pub enabled: i64,
    pub last_test_ok: Option<i64>,
    pub last_test_error: Option<String>,
}

/// One search result of an indexer.
#[derive(Debug)]
pub struct Release {
    pub title: String,
    pub indexer_id: i64,
    pub indexer: String,
    pub protocol: String,
    pub size: Option<i64>,
    pub seeders: Option<i64>,
    pub grabs: Option<i64>,
    pub download_url: String,
    pub published: Option<String>,
}

#[verifier::ext_equal]
pub struct ReleaseView {
    pub title: Seq<char>,
    pub indexer_id: i64,
    pub indexer: Seq<char>,
    pub protocol: Seq<char>,
    pub size: Option<i64>,
    pub seeders: Option<i64>,
    pub grabs: Option<i64>,
    pub download_url: Seq<char>,
    pub published: Option<Seq<char>>,
}

impl DeepView for Release {
    type V = ReleaseView;

    open spec fn deep_view(&self) -> ReleaseView {
        ReleaseView {
            title: self.title@,
            indexer_id: self.indexer_id,
            indexer: self.indexer@,
            protocol: self.protocol@,
            size: self.size,
            seeders: self.seeders,
            grabs: self.grabs,
            download_url: self.download_url@,
            published: self.published.deep_view(),
        }
    }
}

impl Clone for Release {
    fn clone(&self) -> (r: Self)
        ensures
            r.deep_view() == self.deep_view(),
    {
        Release {
            title: self.title.clone(),
            indexer_id: self.indexer_id,
            indexer: self.indexer.clone(),
            protocol: self.protocol.clone(),
            size: self.size,
            seeders: self.seeders,
            grabs: self.grabs,
            download_url: self.download_url.clone(),
            published: self.published.clone(),
        }
    }
}

// ---- search ----

/// The `apikey` parameter, where the indexer has a key.
pub open spec fn key_parameter(ix: Indexer) -> Seq<char> {
    match ix.api_key {
        Some(k) => "&apikey="@ + k@,
        None => seq![],
    }
}

/// The `cat` parameter, where the indexer has categories that are not blank.
pub open spec fn category_parameter(ix: Indexer) -> Seq<char> {
    match ix.categories {
        Some(c) => if text::trimmed(c@).len() > 0 {
            "&cat="@ + c@
        } else {
            seq![]
        },
        None => seq![],
    }
}

/// The address of a search for `query`.
pub open spec fn search_address(ix: Indexer, query: Seq<char>) -> Seq<char> {
    text::trimmed_end(ix.url@, text::CharSet::Slash) + "/api?t=search&q="@ + encode::url_encoded(query)
        + "&limit=100&extended=1"@ + key_parameter(ix) + category_parameter(ix)
}

/// The address of a search for `query` at the indexer `ix`.
pub fn search_url(ix: &Indexer, query: &str) -> (r: String)
    ensures
        r@ == search_address(*ix, query@),
{
    let mut u = text::trim_end_of(ix.url.as_str(), text::CharSet::Slash);
    u.append("/api?t=search&q=");
    u.append(encode::urlencoding(query).as_str());
    u.append("&limit=100&extended=1");
    let ghost base = u@;
    if let Some(k) = &ix.api_key {
        u.append("&apikey=");
        u.append(k.as_str());
    }
    assert(u@ =~= base + key_parameter(*ix));
    let ghost keyed = u@;
    if let Some(c) = &ix.categories {
        if !text::empty(text::trim(c.as_str()).as_str()) {
            u.append("&cat=");
            u.append(c.as_str());
        }
    }
    assert(u@ =~= keyed + category_parameter(*ix));
    u
}

/// The `<item` blocks of `xml` from `at` on, each up to its `</item>`; what
/// follows an unclosed block is not looked at.
pub open spec fn items_from(xml: Seq<char>, at: int) -> Seq<Seq<char>>
    decreases xml.len() - at,
{
    match text::first_at(xml, "<item"@, at) {
        Some(start) => match text::first_at(xml, "</item>"@, start) {
            Some(end) => if 0 <= at <= start <= end && end + 7 <= xml.len() {
                seq![xml.subrange(start, end)] + items_from(xml, end + 7)
            } else {
                seq![]
            },
            None => seq![],
        },
        None => seq![],
    }
}

/// The number that the last of `tags` with the given `name` attribute notes in
/// its `value` attribute.
pub open spec fn noted(tags: Seq<Seq<char>>, name: Seq<char>) -> Option<i64>
    decreases tags.len(),
{
    if tags.len() == 0 {
        None
    } else if xml::attribute(tags.last(), "name"@) == Some(name) {
        number_in(xml::attribute(tags.last(), "value"@))
    } else {
        noted(tags.drop_last(), name)
    }
}

/// The integer that the text spells, if there is text and it spells one.
pub open spec fn number_in(o: Option<Seq<char>>) -> Option<i64> {
    match o {
        Some(s) => text::integer_of(s),
        None => None,
    }
}

/// The extended attributes of an item, torznab's before newznab's.
pub open spec fn extended(item: Seq<char>) -> Seq<Seq<char>> {
    xml::tags(item, "torznab:attr"@) + xml::tags(item, "newznab:attr"@)
}

/// An attribute of the item's first enclosure.
pub open spec fn of_enclosure(item: Seq<char>, name: Seq<char>) -> Option<Seq<char>> {
    match xml::head(xml::tags(item, "enclosure"@)) {
        Some(tag) => xml::attribute(tag, name),
        None => None,
    }
}

/// The size of an item: the extended attribute, else the `size` element, else
/// the length of the enclosure; nothing where that is not positive.
pub open spec fn item_size(item: Seq<char>) -> Option<i64> {
    let size = match noted(extended(item), "size"@) {
        Some(n) => Some(n),
        None => match number_in(xml::element_text(item, "size"@)) {
            Some(n) => Some(n),
            None => number_in(of_enclosure(item, "length"@)),
        },
    };
    match size {
        Some(n) if n > 0 => Some(n),
        _ => None,
    }
}

/// The download address of an item: that of the enclosure, else the `link`
/// element; empty where there is neither.
pub open spec fn item_url(item: Seq<char>) -> Seq<char> {
    let url = match of_enclosure(item, "url"@) {
        Some(u) => Some(u),
        None => xml::element_text(item, "link"@),
    };
    match url {
        Some(u) => xml::unescaped(u),
        None => seq![],
    }
}

/// The title of an item; empty where it has none.
pub open spec fn item_title(item: Seq<char>) -> Seq<char> {
    match xml::element_text(item, "title"@) {
        Some(t) => xml::unescaped(t),
        None => seq![],
    }
}

/// The release that an item describes. An item without a title or without a
/// download address describes none.
pub open spec fn item_release(item: Seq<char>, ix: Indexer) -> Option<ReleaseView> {
    if item_title(item).len() == 0 || item_url(item).len() == 0 {
        None
    } else {
        Some(
            ReleaseView {
                title: item_title(item),
                indexer_id: ix.id,
                indexer: ix.name@,
                protocol: ix.protocol@,
                size: item_size(item),
                seeders: noted(extended(item), "seeders"@),
                grabs: noted(extended(item), "grabs"@),
                download_url: item_url(item),
                published: xml::element_text(item, "pubDate"@),
            },
        )
    }
}

/// The releases that `items` describe, in order.
pub open spec fn item_releases(items: Seq<Seq<char>>, ix: Indexer) -> Seq<ReleaseView>
    decreases items.len(),
{
    if items.len() == 0 {
        seq![]
    } else {
        match item_release(items.last(), ix) {
            Some(r) => item_releases(items.drop_last(), ix).push(r),
            None => item_releases(items.drop_last(), ix),
        }
    }
}

/// The releases of an RSS answer, in the order of its items.
pub open spec fn releases_in(xml: Seq<char>, ix: Indexer) -> Seq<ReleaseView> {
    item_releases(items_from(xml, 0), ix)
}

fn find_noted(found: &Vec<String>, name: &str) -> (r: Option<i64>)
    ensures
        r == noted(found.deep_view(), name@),
{
    let ghost all = found.deep_view();
    let mut value: Option<i64> = None;
    let mut i: usize = 0;
    while i < found.len()
        invariant
            all == found.deep_view(),
            i <= found.len(),
            value == noted(all.take(i as int), name@),
        decreases found.len() - i,
    {
        assert(all.take(i + 1).drop_last() =~= all.take(i as int));
        assert(all[i as int] == found@[i as int]@);
        if text::is_text(&xml::attr(found[i].as_str(), "name"), name) {
            value = number(xml::attr(found[i].as_str(), "value"));
        }
        i += 1;
    }
    assert(all.take(all.len() as int) =~= all);
    value
}

fn number(o: Option<String>) -> (r: Option<i64>)
    ensures
        r == number_in(o.deep_view()),
{
    match o {
        Some(s) => text::parse_integer(s.as_str()),
        None => None,
    }
}

fn enclosure_attr(item: &str, name: &str) -> (r: Option<String>)
    ensures
        r.deep_view() == of_enclosure(item@, name@),
{
    match xml::find_tag(item, "enclosure") {
        Some(tag) => xml::attr(tag.as_str(), name),
        None => None,
    }
}

fn parse_item(item: &str, ix: &Indexer) -> (r: Option<Release>)
    ensures
        r.deep_view() == item_release(item@, *ix),
{
    let title = match xml::tag_text(item, "title") {
        Some(t) => xml::unescape(t.as_str()),
        None => String::new(),
    };
    if text::empty(title.as_str()) {
        return None;
    }
    let mut found = xml::all_tags(item, "torznab:attr");
    let mut newznab = xml::all_tags(item, "newznab:attr");
    let ghost a = found.deep_view();
    let ghost b = newznab.deep_view();
    found.append(&mut newznab);
    assert(found.deep_view() =~= a + b);
    let size = match find_noted(&found, "size") {
        Some(n) => Some(n),
        None => match number(xml::tag_text(item, "size")) {
            Some(n) => Some(n),
            None => number(enclosure_attr(item, "length")),
        },
    };
    let size = match size {
        Some(n) if n > 0 => Some(n),
        _ => None,
    };
    let url = match enclosure_attr(item, "url") {
        Some(u) => Some(u),
        None => xml::tag_text(item, "link"),
    };
    let download_url = match url {
        Some(u) => xml::unescape(u.as_str()),
        None => String::new(),
    };
    if text::empty(download_url.as_str()) {
        return None;
    }
    Some(
        Release {
            title,
            indexer_id: ix.id,
            indexer: ix.name.clone(),
            protocol: ix.protocol.clone(),
            size,
            seeders: find_noted(&found, "seeders"),
            grabs: find_noted(&found, "grabs"),
            download_url,
            published: xml::tag_text(item, "pubDate"),
        },
    )
}

/// Reads the releases out of a torznab or newznab RSS answer.
pub fn parse_rss(xml: &str, ix: &Indexer) -> (r: Vec<Release>)
    ensures
        r.deep_view() == releases_in(xml@, *ix),
{
    proof {
        reveal_strlit("<item");
        reveal_strlit("</item>");
    }
    let cs = text::chars_of(xml);
    let open = text::chars_of("<item");
    let close = text::chars_of("</item>");
    let mut out: Vec<Release> = Vec::new();
    let mut at: usize = 0;
    let ghost mut items: Seq<Seq<char>> = seq![];
    assert(items + items_from(xml@, 0) =~= items_from(xml@, 0));
    loop
        invariant
            cs@ == xml@,
            open@ == "<item"@,
            close@ == "</item>"@,
            close@.len() == 7,
            at <= cs@.len(),
            items_from(xml@, 0) == items + items_from(xml@, at as int),
            out.deep_view() == item_releases(items, *ix),
        decreases cs@.len() - at,
    {
        let start: usize = match text::find_from(&cs, &open, at) {
            Some(start) => start,
            None => {
                assert(items + items_from(xml@, at as int) =~= items);
                return out;
            },
        };
        let end: usize = match text::find_from(&cs, &close, start) {
            Some(end) => end,
            None => {
                assert(items + items_from(xml@, at as int) =~= items);
                return out;
            },
        };
        let item = text::string_of(&cs[start..end]);
        let ghost before = items;
        let ghost known = out.deep_view();
        proof {
            items = items.push(item@);
            assert(items.drop_last() =~= before);
            assert(before + (seq![item@] + items_from(xml@, end + 7)) =~= items + items_from(
                xml@,
                end + 7,
            ));
        }
        assert(end + 7 <= cs.len());
        if let Some(release) = parse_item(item.as_str(), ix) {
            out.push(release);
            assert(out.deep_view() =~= known.push(release.deep_view()));
        }
        at = end + 7;
    }
}

// ---- merging ----

/// The number of seeders; none counts as zero.
pub open spec fn seeds(r: ReleaseView) -> i64 {
    match r.seeders {
        Some(n) => n,
        None => 0,
    }
}

/// The first position, from `at` on, of a release with fewer seeders than `r`.
pub open spec fn place(s: Seq<ReleaseView>, r: ReleaseView, at: int) -> int
    decreases s.len() - at,
{
    if at < 0 || at >= s.len() {
        s.len() as int
    } else if seeds(s[at]) < seeds(r) {
        at
    } else {
        place(s, r, at + 1)
    }
}

/// The releases, most seeders first; those with equally many keep their order.
pub open spec fn by_seeders(s: Seq<ReleaseView>) -> Seq<ReleaseView>
    decreases s.len(),
{
    if s.len() == 0 {
        seq![]
    } else {
        let rest = by_seeders(s.drop_last());
        rest.insert(place(rest, s.last(), 0), s.last())
    }
}

/// The batches, one after the other.
pub open spec fn chained(batches: Seq<Seq<ReleaseView>>) -> Seq<ReleaseView>
    decreases batches.len(),
{
    if batches.len() == 0 {
        seq![]
    } else {
        chained(batches.drop_last()) + batches.last()
    }
}

proof fn lemma_place(s: Seq<ReleaseView>, r: ReleaseView, at: int)
    requires
        0 <= at <= s.len(),
    ensures
        at <= place(s, r, at) <= s.len(),
        forall|j: int| at <= j < place(s, r, at) ==> seeds(s[j]) >= seeds(r),
        place(s, r, at) < s.len() ==> seeds(s[place(s, r, at)]) < seeds(r),
    decreases s.len() - at,
{
    if at < s.len() && seeds(s[at]) >= seeds(r) {
        lemma_place(s, r, at + 1);
    }
}

/// The merged list is in descending order of seeders.
pub proof fn law_by_seeders_sorted(s: Seq<ReleaseView>)
    ensures
        forall|i: int, j: int|
            0 <= i <= j < by_seeders(s).len() ==> seeds(by_seeders(s)[i]) >= seeds(by_seeders(s)[j]),
    decreases s.len(),
{
    if s.len() > 0 {
        law_by_seeders_sorted(s.drop_last());
        lemma_place(by_seeders(s.drop_last()), s.last(), 0);
    }
}

/// The merged list holds the same releases as the batches, each as often.
pub proof fn law_by_seeders_permutation(s: Seq<ReleaseView>)
    ensures
        by_seeders(s).to_multiset() == s.to_multiset(),
    decreases s.len(),
{
    if s.len() > 0 {
        let rest = by_seeders(s.drop_last());
        law_by_seeders_permutation(s.drop_last());
        lemma_place(rest, s.last(), 0);
        vstd::seq_lib::to_multiset_insert(rest, place(rest, s.last(), 0), s.last());
        vstd::seq_lib::to_multiset_build(s.drop_last(), s.last());
        assert(s.drop_last().push(s.last()) =~= s);
    } else {
        assert(by_seeders(s) =~= s);
    }
}

/// Releases with equally many seeders keep the order of the batches.
pub proof fn law_by_seeders_stable(s: Seq<ReleaseView>, n: i64)
    ensures
        by_seeders(s).filter(|r: ReleaseView| seeds(r) == n) == s.filter(
            |r: ReleaseView| seeds(r) == n,
        ),
    decreases s.len(),
{
    let alike = |r: ReleaseView| seeds(r) == n;
    reveal(Seq::filter);
    if s.len() > 0 {
        let rest = by_seeders(s.drop_last());
        let x = s.last();
        let p = place(rest, x, 0);
        law_by_seeders_stable(s.drop_last(), n);
        law_by_seeders_sorted(s.drop_last());
        lemma_place(rest, x, 0);
        let before = rest.take(p);
        let after = rest.skip(p);
        assert(rest =~= before + after);
        assert(rest.insert(p, x) =~= before.push(x) + after);
        Seq::filter_distributes_over_add(before, after, alike);
        Seq::filter_distributes_over_add(before.push(x), after, alike);
        assert(before.push(x).drop_last() =~= before);
        if alike(x) {
            assert(after.filter(alike).len() == 0) by {
                assert forall|i: int| 0 <= i < after.len() implies !alike(#[trigger] after[i]) by {
                    assert(after[i] == rest[p + i]);
                }
                after.lemma_all_neg_filter_empty(alike);
            }
            assert(before.filter(alike) + after.filter(alike) =~= before.filter(alike));
            assert(before.push(x).filter(alike) + after.filter(alike) =~= before.push(x).filter(
                alike,
            ));
        }
    }
}

/// Merges the answers of several indexers: most seeders first, releases with
/// equally many in the order of the answers.
pub fn merge(batches: &Vec<Vec<Release>>) -> (r: Vec<Release>)
    ensures
        r.deep_view() == by_seeders(chained(batches.deep_view())),
{
    let ghost all = batches.deep_view();
    let mut out: Vec<Release> = Vec::new();
    let ghost mut done: Seq<ReleaseView> = seq![];
    let mut i: usize = 0;
    while i < batches.len()
        invariant
            all == batches.deep_view(),
            i <= batches.len(),
            done == chained(all.take(i as int)),
            out.deep_view() == by_seeders(done),
        decreases batches.len() - i,
    {
        let batch = &batches[i];
        let ghost start = done;
        let ghost views = batch.deep_view();
        assert(all.take(i + 1).drop_last() =~= all.take(i as int));
        assert(all[i as int] == views);
        let mut j: usize = 0;
        assert(start + views.take(0) =~= start);
        while j < batch.len()
            invariant
                views == batch.deep_view(),
                j <= batch.len(),
                done == start + views.take(j as int),
                out.deep_view() == by_seeders(done),
            decreases batch.len() - j,
        {
            let release = batch[j].clone();
            assert(release.deep_view() == views[j as int]);
            let ghost sorted = out.deep_view();
            let p = find_place(&out, &release);
            out.insert(p, release);
            proof {
                let ghost next = start + views.take(j + 1);
                assert(next.drop_last() =~= done);
                assert(next.last() == release.deep_view());
                assert(out.deep_view() =~= sorted.insert(p as int, release.deep_view()));
                done = next;
            }
            j += 1;
        }
        assert(views.take(views.len() as int) =~= views);
        i += 1;
    }
    assert(all.take(all.len() as int) =~= all);
    out
}

fn find_place(s: &Vec<Release>, r: &Release) -> (p: usize)
    ensures
        p == place(s.deep_view(), r.deep_view(), 0),
        p <= s.len(),
{
    let n: i64 = seed_count(r);
    let mut i: usize = 0;
    while i < s.len()
        invariant
            i <= s.len(),
            n == seeds(r.deep_view()),
            place(s.deep_view(), r.deep_view(), 0) == place(s.deep_view(), r.deep_view(), i as int),
        decreases s.len() - i,
    {
        assert(s.deep_view()[i as int] == s@[i as int].deep_view());
        if seed_count(&s[i]) < n {
            return i;
        }
        i += 1;
    }
    i
}

fn seed_count(r: &Release) -> (n: i64)
    ensures
        n == seeds(r.deep_view()),
{
    match r.seeders {
        Some(n) => n,
        None => 0,
    }
}

// ---- sizes ----

/// `n / d` rounded to the nearest integer, a half to the even one.
pub open spec fn rounded(n: int, d: int) -> int {
    let q = n / d;
    let r = n % d;
    if 2 * r < d {
        q
    } else if 2 * r > d {
        q + 1
    } else if q % 2 == 0 {
        q
    } else {
        q + 1
    }
}

/// The spacing of double-precision numbers at `n`, at least `step`.
pub open spec fn spacing(n: int, step: int) -> int
    decreases n - step,
{
    if step <= 0 || n < 0x20_0000_0000_0000 * step {
        step
    } else {
        spacing(n, 2 * step)
    }
}

/// The double-precision number nearest to `n`.
pub open spec fn nearest_double(n: int) -> int {
    rounded(n, spacing(n, 1)) * spacing(n, 1)
}

/// A size in gibibytes with one decimal from one gibibyte on, and below that
/// in whole mebibytes.
pub open spec fn size_text(bytes: int) -> Seq<char> {
    if bytes >= 0x4000_0000 {
        let tenths = rounded(10 * nearest_double(bytes), 0x4000_0000);
        text::decimal_nat((tenths / 10) as nat) + "."@ + text::decimal_nat((tenths % 10) as nat) + " GB"@
    } else if bytes >= 0 {
        text::decimal_nat(rounded(bytes, 0x10_0000) as nat) + " MB"@
    } else {
        "-"@ + text::decimal_nat(rounded(nearest_double(-bytes), 0x10_0000) as nat) + " MB"@
    }
}

fn round(n: u128, d: u128) -> (r: u128)
    requires
        0 < d <= 0x1_0000_0000_0000_0000,
        n <= 0x1_0000_0000_0000_0000_0000,
    ensures
        r == rounded(n as int, d as int),
        r <= n + 1,
{
    let q = n / d;
    let m = n % d;
    assert(q <= n) by (nonlinear_arith)
        requires
            q == n / d,
            d > 0,
    ;
    if 2 * m < d {
        q
    } else if 2 * m > d {
        q + 1
    } else if q % 2 == 0 {
        q
    } else {
        q + 1
    }
}

fn to_double(n: u64) -> (r: u128)
    ensures
        r == nearest_double(n as int),
        r <= 0x2_0000_0000_0000_0000,
{
    let mut step: u128 = 1;
    while n as u128 >= 0x20_0000_0000_0000 * step
        invariant
            1 <= step <= 0x1000,
            spacing(n as int, 1) == spacing(n as int, step as int),
        decreases n - step,
    {
        step = step * 2;
    }
    let q = round(n as u128, step);
    assert(q <= 0x20_0000_0000_0000) by {
        assert(n < 0x20_0000_0000_0000 * step);
        assert(n as int / step as int <= 0x20_0000_0000_0000 - 1) by (nonlinear_arith)
            requires
                n < 0x20_0000_0000_0000 * step,
                step > 0,
        ;
    }
    assert(q * step <= 0x20_0000_0000_0000 * 0x1000) by (nonlinear_arith)
        requires
            q <= 0x20_0000_0000_0000,
            step <= 0x1000,
    ;
    q * step
}

/// Human-readable size for release tables.
pub fn fmt_size(bytes: i64) -> (r: String)
    ensures
        r@ == size_text(bytes as int),
{
    let mut out: String = String::new();
    if bytes >= 0x4000_0000 {
        let tenths = round(10 * to_double(bytes as u64), 0x4000_0000);
        proof {
            lemma_rounded_bound(10 * nearest_double(bytes as int), 0x4000_0000);
        }
        text::push_decimal(&mut out, (tenths / 10) as u64);
        out.append(".");
        text::push_decimal(&mut out, (tenths % 10) as u64);
        out.append(" GB");
        assert(out@ =~= size_text(bytes as int));
    } else if bytes >= 0 {
        let m = round(bytes as u128, 0x10_0000);
        text::push_decimal(&mut out, m as u64);
        out.append(" MB");
        assert(out@ =~= size_text(bytes as int));
    } else {
        let m = round(to_double((-(bytes as i128)) as u64), 0x10_0000);
        proof {
            lemma_rounded_bound(nearest_double(-bytes as int), 0x10_0000);
        }
        out.append("-");
        text::push_decimal(&mut out, m as u64);
        out.append(" MB");
        assert(out@ =~= size_text(bytes as int));
    }
    out
}

proof fn lemma_rounded_bound(n: int, d: int)
    requires
        0 <= n <= 0x14_0000_0000_0000_0000,
        d >= 0x10_0000,
    ensures
        0 <= rounded(n, d) <= 0x1_ffff_ffff_ffff,
{
    assert(0 <= n / d <= 0x1_ffff_ffff_fff0) by (nonlinear_arith)
        requires
            0 <= n <= 0x14_0000_0000_0000_0000,
            d >= 0x10_0000,
    ;
}

// ---- searching several indexers ----

/// What one indexer answered to a search; nothing where the request failed.
pub struct Answer {
    pub indexer: Indexer,
    pub body: Option<String>,
}

/// The releases in one answer.
pub open spec fn answer_releases(a: Answer) -> Seq<ReleaseView> {
    match a.body {
        Some(body) => releases_in(body@, a.indexer),
        None => seq![],
    }
}

/// The positions of the indexers that are switched on.
pub open spec fn enabled_positions(s: Seq<Indexer>) -> Seq<usize>
    decreases s.len(),
{
    if s.len() == 0 {
        seq![]
    } else if s.last().enabled == 1 {
        enabled_positions(s.drop_last()).push((s.len() - 1) as usize)
    } else {
        enabled_positions(s.drop_last())
    }
}

/// Which of `indexers` a search asks: those that are switched on, in order.
pub fn enabled_indexers(indexers: &Vec<Indexer>) -> (r: Vec<usize>)
    ensures
        r@ == enabled_positions(indexers@),
{
    let mut out: Vec<usize> = Vec::new();
    let mut i: usize = 0;
    while i < indexers.len()
        invariant
            i <= indexers.len(),
            out@ == enabled_positions(indexers@.take(i as int)),
        decreases indexers.len() - i,
    {
        assert(indexers@.take(i + 1).drop_last() =~= indexers@.take(i as int));
        if indexers[i].enabled == 1 {
            out.push(i);
        }
        i += 1;
    }
    assert(indexers@.take(indexers@.len() as int) =~= indexers@);
    out
}

/// All releases in the answers, most seeders first.
pub fn search_all(answers: &Vec<Answer>) -> (r: Vec<Release>)
    ensures
        r.deep_view() == by_seeders(chained(answers@.map_values(|a: Answer| answer_releases(a)))),
{
    let mut batches: Vec<Vec<Release>> = Vec::new();
    let mut i: usize = 0;
    while i < answers.len()
        invariant
            i <= answers.len(),
            batches.len() == i,
            forall|j: int|
                0 <= j < i ==> (#[trigger] batches@[j]).deep_view() == answer_releases(answers@[j]),
        decreases answers.len() - i,
    {
        let batch = match &answers[i].body {
            Some(body) => parse_rss(body.as_str(), &answers[i].indexer),
            None => {
                let none: Vec<Release> = Vec::new();
                assert(none.deep_view() =~= seq![]);
                none
            },
        };
        batches.push(batch);
        i += 1;
    }
    assert(batches.deep_view() =~= answers@.map_values(|a: Answer| answer_releases(a)));
    merge(&batches)
}

// ---- connection test ----

/// The address of the capabilities request, the standard connection test.
pub fn caps_url(ix: &Indexer) -> (r: String)
    ensures
        r@ == text::trimmed_end(ix.url@, text::CharSet::Slash) + "/api?t=caps"@ + key_parameter(*ix),
{
    let mut u = text::trim_end_of(ix.url.as_str(), text::CharSet::Slash);
    u.append("/api?t=caps");
    let ghost base = u@;
    if let Some(k) = &ix.api_key {
        u.append("&apikey=");
        u.append(k.as_str());
    }
    assert(u@ =~= base + key_parameter(*ix));
    u
}

/// What is wrong with an answer to the capabilities request; nothing where it
/// is a capabilities or RSS document. An `error` element or its description
/// says what; any other answer is not one of an indexer.
pub open spec fn caps_error(body: Seq<char>) -> Option<Seq<char>> {
    if text::has(body, "<caps"@) || text::has(body, "<rss"@) {
        None
    } else {
        match xml::element_text(body, "error"@) {
            Some(text) => Some(text),
            None => match xml::head(xml::tags(body, "error"@)) {
                Some(tag) => match xml::attribute(tag, "description"@) {
                    Some(text) => Some(text),
                    None => Some("unexpected response (not torznab/newznab)"@),
                },
                None => Some("unexpected response (not torznab/newznab)"@),
            },
        }
    }
}

/// Judges an answer to the capabilities request.
pub fn test_indexer(body: &str) -> (r: Result<(), String>)
    ensures
        match r {
            Ok(_) => caps_error(body@) is None,
            Err(e) => caps_error(body@) == Some(e@),
        },
{
    if text::contains(body, "<caps") || text::contains(body, "<rss") {
        return Ok(());
    }
    if let Some(message) = xml::tag_text(body, "error") {
        return Err(message);
    }
    if let Some(tag) = xml::find_tag(body, "error") {
        if let Some(message) = xml::attr(tag.as_str(), "description") {
            return Err(message);
        }
    }
    Err("unexpected response (not torznab/newznab)".to_string())
}

// ---- settings ----

/// The form that adds an indexer.
pub struct AddForm {
    pub name: String,
    pub url: String,
    pub api_key: Option<String>,
    pub protocol: String,
    pub categories: Option<String>,
    pub priority: Option<i64>,
}

/// The form that names an indexer.
pub struct IdForm {
    pub id: i64,
}

/// The form that grabs a release.
pub struct GrabForm {
    pub payload: String,
}

/// The values of a new indexer, as they are stored.
pub struct NewIndexer {
    pub name: String,
    pub protocol: String,
    pub url: String,
    pub api_key: Option<String>,
    pub categories: Option<String>,
    pub priority: i64,
}

/// The address of an indexer as it is stored: trimmed, and without the `/api`
/// that requests append.
pub open spec fn stored_url(url: Seq<char>) -> Seq<char> {
    text::without_suffixes(text::trimmed_end(text::trimmed(url), text::CharSet::Slash), "/api"@)
}

/// A pasted endpoint is tolerated: an address is stored the same with `/api`
/// after it and without.
pub proof fn law_api_suffix(url: Seq<char>)
    requires
        url.len() > 0 ==> url.last() != '/' && !text::is_white(url.last()),
    ensures
        stored_url(url + "/api"@) == stored_url(url),
{
    reveal_strlit("/api");
    let long = url + "/api"@;
    let white = text::CharSet::White;
    let slash = text::CharSet::Slash;
    text::lemma_trimmed_start(url, white);
    text::lemma_trimmed_start(long, white);
    let a = text::trimmed_start(url, white);
    let b = text::trimmed_start(long, white);
    let k = url.len() - a.len();
    if a.len() > 0 {
        assert(long[k] == url[k] == a[0]);
    } else {
        assert(long[k] == '/');
    }
    assert(b.len() == a.len() + 4) by {
        let m = long.len() - b.len();
        assert(forall|j: int| 0 <= j < k ==> white.has(long[j])) by {
            assert(forall|j: int| 0 <= j < k ==> long[j] == url[j]);
        }
        if m < k {
            assert(b[0] == long[m]);
        }
    }
    assert(b =~= a + "/api"@);
    assert(a.len() > 0 ==> a.last() == url.last());
    assert(b.last() == 'i');
    assert(text::trimmed(long) == b);
    assert(text::trimmed(url) == a);
    assert(text::trimmed_end(b, slash) == b);
    assert(text::trimmed_end(a, slash) == a);
    assert(b.subrange(a.len() as int, b.len() as int) =~= "/api"@);
    assert(b.take(a.len() as int) =~= a);
}

/// Tidies the form that adds an indexer.
pub fn add(f: &AddForm) -> (r: NewIndexer)
    ensures
        r.name@ == text::trimmed(f.name@),
        r.protocol@ == if f.protocol@ == "usenet"@ {
            "usenet"@
        } else {
            "torrent"@
        },
        r.url@ == stored_url(f.url@),
        r.api_key.deep_view() == text::filled(f.api_key.deep_view()),
        r.categories.deep_view() == text::filled(f.categories.deep_view()),
        r.priority == match f.priority {
            Some(n) => n,
            None => 25,
        },
{
    proof {
        reveal_strlit("/api");
    }
    let url = text::trim_end_of(text::trim(f.url.as_str()).as_str(), text::CharSet::Slash);
    NewIndexer {
        name: text::trim(f.name.as_str()),
        protocol: if text::same(f.protocol.as_str(), "usenet") {
            "usenet".to_string()
        } else {
            "torrent".to_string()
        },
        url: text::trim_end_text(url.as_str(), "/api"),
        api_key: text::blank(&f.api_key),
        categories: text::blank(&f.categories),
        priority: match f.priority {
            Some(n) => n,
            None => 25,
        },
    }
}

/// One indexer on the settings page.
pub struct IndexerRow {
    pub id: i64,
    pub name: String,
    pub protocol: String,
    pub line: String,
    pub badge: page::Badge,
    /// What the switch offers.
    pub toggle: String,
    pub confirm: String,
}

#[verifier::ext_equal]
pub struct IndexerRowView {
    pub id: i64,
    pub name: Seq<char>,
    pub protocol: Seq<char>,
    pub line: Seq<char>,
    pub badge: page::BadgeView,
    pub toggle: Seq<char>,
    pub confirm: Seq<char>,
}

impl DeepView for IndexerRow {
    type V = IndexerRowView;

    open spec fn deep_view(&self) -> IndexerRowView {
        IndexerRowView {
            id: self.id,
            name: self.name@,
            protocol: self.protocol@,
            line: self.line@,
            badge: self.badge.deep_view(),
            toggle: self.toggle@,
            confirm: self.confirm@,
        }
    }
}

/// How an indexer is shown on the settings page.
pub open spec fn indexer_row(ix: Indexer) -> IndexerRowView {
    IndexerRowView {
        id: ix.id,
        name: ix.name@,
        protocol: ix.protocol@,
        line: ix.url@ + " · priority "@ + text::decimal_of(ix.priority as int),
        badge: page::tested(ix.last_test_ok, ix.last_test_error.deep_view()),
        toggle: if ix.enabled == 1 {
            "disable"@
        } else {
            "enable"@
        },
        confirm: "Remove indexer "@ + ix.name@ + "?"@,
    }
}

/// The indexers tab of the settings: the indexers, and what the form that adds
/// one is filled with.
pub struct IndexersBody {
    pub rows: Vec<IndexerRow>,
    pub name: String,
    pub url: String,
    pub protocol: String,
}

/// The indexers tab. The preset `nzbgeek` fills in the form; without it the
/// form is for a torrent indexer.
pub fn indexers_body(indexers: &Vec<Indexer>, preset: Option<&str>) -> (r: IndexersBody)
    ensures
        r.rows.deep_view() == indexers@.map_values(|ix: Indexer| indexer_row(ix)),
        ({
            let nzbgeek = preset is Some && preset->0@ == "nzbgeek"@;
            &&& r.name@ == if nzbgeek { "NZBGeek"@ } else { ""@ }
            &&& r.url@ == if nzbgeek { "https://api.nzbgeek.info"@ } else { ""@ }
            &&& r.protocol@ == if nzbgeek { "usenet"@ } else { "torrent"@ }
        }),
{
    let mut rows: Vec<IndexerRow> = Vec::new();
    let mut i: usize = 0;
    while i < indexers.len()
        invariant
            i <= indexers.len(),
            rows.len() == i,
            forall|j: int|
                0 <= j < i ==> (#[trigger] rows@[j]).deep_view() == indexer_row(indexers@[j]),
        decreases indexers.len() - i,
    {
        let ix = &indexers[i];
        let mut line = ix.url.clone();
        line.append(" · priority ");
        line.append(text::decimal(ix.priority).as_str());
        let mut confirm = "Remove indexer ".to_string();
        confirm.append(ix.name.as_str());
        confirm.append("?");
        rows.push(
            IndexerRow {
                id: ix.id,
                name: ix.name.clone(),
                protocol: ix.protocol.clone(),
                line,
                badge: page::test_badge(ix.last_test_ok, &ix.last_test_error),
                toggle: if ix.enabled == 1 {
                    "disable".to_string()
                } else {
                    "enable".to_string()
                },
                confirm,
            },
        );
        i += 1;
    }
    assert(rows.deep_view() =~= indexers@.map_values(|ix: Indexer| indexer_row(ix)));
    let nzbgeek = match preset {
        Some(p) => text::same(p, "nzbgeek"),
        None => false,
    };
    if nzbgeek {
        IndexersBody {
            rows,
            name: "NZBGeek".to_string(),
            url: "https://api.nzbgeek.info".to_string(),
            protocol: "usenet".to_string(),
        }
    } else {
        IndexersBody {
            rows,
            name: "".to_string(),
            url: "".to_string(),
            protocol: "torrent".to_string(),
        }
    }
}

// ---- what the releases are tied to ----

proof fn lemma_item_releases(items: Seq<Seq<char>>, ix: Indexer)
    ensures
        item_releases(items, ix).len() <= items.len(),
        forall|i: int|
            0 <= i < item_releases(items, ix).len() ==> exists|k: int|
                0 <= k < items.len() && #[trigger] item_release(items[k], ix) == Some(
                    #[trigger] item_releases(items, ix)[i],
                ),
    decreases items.len(),
{
    if items.len() > 0 {
        let rest = items.drop_last();
        let all = item_releases(items, ix);
        let some = item_releases(rest, ix);
        lemma_item_releases(rest, ix);
        assert forall|i: int| 0 <= i < all.len() implies exists|k: int|
            0 <= k < items.len() && #[trigger] item_release(items[k], ix) == Some(
                #[trigger] all[i],
            ) by {
            if i < some.len() {
                assert(all[i] == some[i]);
                let k = choose|k: int|
                    0 <= k < rest.len() && #[trigger] item_release(rest[k], ix) == Some(some[i]);
                assert(items[k] == rest[k]);
                assert(item_release(items[k], ix) == Some(all[i]));
            } else {
                assert(item_release(items[items.len() - 1], ix) == Some(all[i]));
            }
        }
    }
}

/// Every release of an answer is of the indexer that was asked: it has its
/// protocol, its id and its name.
pub proof fn law_release_source(xml: Seq<char>, ix: Indexer)
    ensures
        forall|i: int|
            #![trigger releases_in(xml, ix)[i]]
            0 <= i < releases_in(xml, ix).len() ==> releases_in(xml, ix)[i].protocol == ix.protocol@
                && releases_in(xml, ix)[i].indexer_id == ix.id && releases_in(xml, ix)[i].indexer
                == ix.name@,
{
    lemma_item_releases(items_from(xml, 0), ix);
    assert forall|i: int|
        #![trigger releases_in(xml, ix)[i]]
        0 <= i < releases_in(xml, ix).len() implies releases_in(xml, ix)[i].protocol == ix.protocol@
        && releases_in(xml, ix)[i].indexer_id == ix.id && releases_in(xml, ix)[i].indexer
        == ix.name@ by {
        let r = item_releases(items_from(xml, 0), ix)[i];
    }
}

/// Every release of an answer has a title and a download address, which are
/// those of one of its items, as are its seeders, its grabs and its date.
pub proof fn law_release_item(xml: Seq<char>, ix: Indexer, i: int)
    requires
        0 <= i < releases_in(xml, ix).len(),
    ensures
        releases_in(xml, ix)[i].title.len() > 0,
        releases_in(xml, ix)[i].download_url.len() > 0,
        exists|k: int|
            #![trigger items_from(xml, 0)[k]]
            {
                let item = items_from(xml, 0)[k];
                let r = releases_in(xml, ix)[i];
                &&& 0 <= k < items_from(xml, 0).len()
                &&& xml::element_text(item, "title"@) matches Some(t) && r.title == xml::unescaped(t)
                &&& r.published == xml::element_text(item, "pubDate"@)
                &&& of_enclosure(item, "url"@) matches Some(u) ==> r.download_url
                    == xml::unescaped(u)
                &&& of_enclosure(item, "url"@) is None ==> (xml::element_text(
                    item,
                    "link"@,
                ) matches Some(u) && r.download_url == xml::unescaped(u))
                &&& r.seeders == noted(extended(item), "seeders"@)
                &&& r.grabs == noted(extended(item), "grabs"@)
                &&& r.size matches Some(n) ==> n > 0
            },
{
    let items = items_from(xml, 0);
    lemma_item_releases(items, ix);
    let r = item_releases(items, ix)[i];
    let k = choose|k: int| 0 <= k < items.len() && #[trigger] item_release(items[k], ix) == Some(r);
    assert(items_from(xml, 0)[k] == items[k]);
}

/// No item is lost: one more item with a title and an address is one more
/// release at the end, and one without either changes nothing.
pub proof fn law_one_more_item(items: Seq<Seq<char>>, item: Seq<char>, ix: Indexer)
    ensures
        ({
            let described = (xml::element_text(item, "title"@) matches Some(t) && xml::unescaped(
                t,
            ).len() > 0) && (match of_enclosure(item, "url"@) {
                Some(u) => xml::unescaped(u).len() > 0,
                None => xml::element_text(item, "link"@) matches Some(u) && xml::unescaped(u).len()
                    > 0,
            });
            let before = item_releases(items, ix);
            let after = item_releases(items.push(item), ix);
            &&& described ==> after.len() == before.len() + 1 && after.drop_last() == before
            &&& !described ==> after == before
        }),
{
    assert(items.push(item).drop_last() =~= items);
    if item_release(item, ix) is Some {
        let r = item_release(item, ix)->0;
        assert(item_releases(items, ix).push(r).drop_last() =~= item_releases(items, ix));
    }
}

/// Each block of an answer begins with `<item`, is followed by `</item>`, and
/// holds no `</item>` itself.
pub proof fn law_items(xml: Seq<char>, at: int, i: int)
    requires
        0 <= at,
        0 <= i < items_from(xml, at).len(),
    ensures
        text::occurs_at(items_from(xml, at)[i], "<item"@, 0),
        !text::has(items_from(xml, at)[i], "</item>"@),
        exists|s: int|
            #[trigger] text::occurs_at(xml, items_from(xml, at)[i] + "</item>"@, s) && s >= at,
    decreases xml.len() - at,
{
    reveal_strlit("<item");
    reveal_strlit("</item>");
    let start = text::first_at(xml, "<item"@, at)->0;
    let end = text::first_at(xml, "</item>"@, start)->0;
    text::lemma_first_at(xml, "<item"@, at);
    text::lemma_first_at(xml, "</item>"@, start);
    if i == 0 {
        let block = xml.subrange(start, end);
        assert(items_from(xml, at)[0] == block);
        assert(start + 5 <= xml.len());
        if end < start + 5 {
            assert(xml.subrange(end, end + 7)[1] == '/');
            assert(xml.subrange(start, start + 5)[end - start + 1 - 0] == xml[end + 1] || end + 1
                >= start + 5);
            assert(xml.subrange(end, end + 7)[0] == '<');
            assert(xml[end] == '<');
            assert(xml.subrange(start, start + 5)[0] == '<' && xml.subrange(start, start + 5)[1]
                == 'i' && xml.subrange(start, start + 5)[2] == 't' && xml.subrange(
                start,
                start + 5,
            )[3] == 'e' && xml.subrange(start, start + 5)[4] == 'm');
            assert(xml[start + 1] == 'i' && xml[start + 2] == 't' && xml[start + 3] == 'e' && xml[
            start + 4] == 'm');
            assert(end == start);
            assert(xml[start + 1] == '/');
        }
        assert(block.subrange(0, 5) =~= xml.subrange(start, start + 5));
        text::lemma_first_at(block, "</item>"@, 0);
        if let Some(j) = text::first_at(block, "</item>"@, 0) {
            assert(block.subrange(j, j + 7) =~= xml.subrange(start + j, start + j + 7));
            assert(text::occurs_at(xml, "</item>"@, start + j));
        }
        assert(xml.subrange(start, end + 7) =~= block + "</item>"@) by {
            assert(xml.subrange(end, end + 7) == "</item>"@);
            assert forall|k: int| 0 <= k < end + 7 - start implies xml.subrange(start, end + 7)[k]
                == (block + "</item>"@)[k] by {
                if k >= end - start {
                    assert(xml.subrange(end, end + 7)[k - (end - start)] == xml[start + k]);
                }
            }
        }
        assert(text::occurs_at(xml, block + "</item>"@, start));
    } else {
        assert(items_from(xml, at)[i] == items_from(xml, end + 7)[i - 1]);
        law_items(xml, end + 7, i - 1);
        let s = choose|s: int|
            #[trigger] text::occurs_at(xml, items_from(xml, end + 7)[i - 1] + "</item>"@, s) && s
                >= end + 7;
        assert(text::occurs_at(xml, items_from(xml, at)[i] + "</item>"@, s));
    }
}

/// A number is that of the last tag with the wanted name; tags with other names
/// have no part in it, and where none has the name there is no number.
pub proof fn law_noted(tags: Seq<Seq<char>>, name: Seq<char>, k: int)
    requires
        -1 <= k < tags.len(),
        k >= 0 ==> xml::attribute(tags[k], "name"@) == Some(name),
        forall|j: int|
            k < j < tags.len() ==> xml::attribute(#[trigger] tags[j], "name"@) != Some(name),
    ensures
        k == -1 ==> noted(tags, name) is None,
        k >= 0 ==> (match xml::attribute(tags[k], "value"@) {
            Some(v) => noted(tags, name) == text::integer_of(v),
            None => noted(tags, name) is None,
        }),
    decreases tags.len(),
{
    if tags.len() > 0 && k < tags.len() - 1 {
        let rest = tags.drop_last();
        assert(xml::attribute(tags[tags.len() - 1], "name"@) != Some(name));
        assert forall|j: int| k < j < rest.len() implies xml::attribute(
            #[trigger] rest[j],
            "name"@,
        ) != Some(name) by {
            assert(rest[j] == tags[j]);
        }
        law_noted(rest, name, k);
    }
}

/// The size of a release is that of its extended attribute; without one that of
/// its `size` element; without either the length of its enclosure. A size that
/// is not positive is none.
pub proof fn law_item_size(item: Seq<char>, n: i64)
    ensures
        noted(extended(item), "size"@) == Some(n) ==> item_size(item) == if n > 0 {
            Some(n)
        } else {
            None::<i64>
        },
        noted(extended(item), "size"@) is None ==> (xml::element_text(
            item,
            "size"@,
        ) matches Some(t) ==> (text::integer_of(t) == Some(n) && n > 0 ==> item_size(item) == Some(
            n,
        ))),
        noted(extended(item), "size"@) is None && xml::element_text(item, "size"@) is None ==> (
        of_enclosure(item, "length"@) matches Some(t) ==> (text::integer_of(t) == Some(n) && n > 0
            ==> item_size(item) == Some(n))),
        item_size(item) matches Some(m) ==> m > 0,
{
}

/// An attribute of an item's enclosure is that of its first `enclosure` tag.
pub proof fn law_enclosure(item: Seq<char>, name: Seq<char>)
    ensures
        xml::tags(item, "enclosure"@).len() > 0 ==> of_enclosure(item, name) == xml::attribute(
            xml::tags(item, "enclosure"@)[0],
            name,
        ),
        xml::tags(item, "enclosure"@).len() == 0 ==> of_enclosure(item, name) is None,
{
}

/// Torznab's attributes and newznab's are both extended attributes of an item.
pub proof fn law_extended(item: Seq<char>, tag: Seq<char>)
    ensures
        xml::tags(item, "torznab:attr"@).contains(tag) ==> extended(item).contains(tag),
        xml::tags(item, "newznab:attr"@).contains(tag) ==> extended(item).contains(tag),
        extended(item).contains(tag) ==> xml::tags(item, "torznab:attr"@).contains(tag)
            || xml::tags(item, "newznab:attr"@).contains(tag),
{
    let a = xml::tags(item, "torznab:attr"@);
    let b = xml::tags(item, "newznab:attr"@);
    if a.contains(tag) {
        let i = choose|i: int| 0 <= i < a.len() && a[i] == tag;
        assert(extended(item)[i] == tag);
    }
    if b.contains(tag) {
        let i = choose|i: int| 0 <= i < b.len() && b[i] == tag;
        assert(extended(item)[a.len() + i] == tag);
    }
    if extended(item).contains(tag) {
        let i = choose|i: int| 0 <= i < extended(item).len() && extended(item)[i] == tag;
        if i < a.len() {
            assert(a[i] == tag);
        } else {
            assert(b[i - a.len()] == tag);
        }
    }
}

/// A merged list is ordered by the seeders that its releases state: of two of
/// them the one further up states no fewer, where stating none counts as zero.
pub proof fn law_merged_order(s: Seq<ReleaseView>, i: int, j: int)
    requires
        0 <= i < j < by_seeders(s).len(),
    ensures
        ({
            let up = by_seeders(s)[i];
            let down = by_seeders(s)[j];
            &&& up.seeders matches Some(a) ==> (down.seeders matches Some(b) ==> a >= b)
            &&& up.seeders matches Some(a) ==> (down.seeders is None ==> a >= 0)
            &&& up.seeders is None ==> (down.seeders matches Some(b) ==> 0 >= b)
        }),
{
    law_by_seeders_sorted(s);
}

/// Chaining batches keeps every release of each batch, batch by batch.
pub proof fn law_chained(a: Seq<Seq<ReleaseView>>, b: Seq<Seq<ReleaseView>>, one: Seq<ReleaseView>)
    ensures
        chained(a + b) == chained(a) + chained(b),
        chained(seq![one]) == one,
    decreases b.len(),
{
    let single = seq![one];
    assert(single.drop_last() =~= seq![]);
    assert(chained(single.drop_last()) == Seq::<ReleaseView>::empty());
    assert(chained(single) =~= one);
    if b.len() == 0 {
        assert(a + b =~= a);
        assert(chained(a) + chained(b) =~= chained(a));
    } else {
        law_chained(a, b.drop_last(), one);
        assert((a + b).drop_last() =~= a + b.drop_last());
        assert(chained(a + b) =~= chained(a) + chained(b));
    }
}

/// What an indexer answered is read as its own: the releases have its protocol,
/// and an indexer that did not answer offers none.
pub proof fn law_answer(a: Answer)
    ensures
        a.body is None ==> answer_releases(a).len() == 0,
        forall|i: int|
            #![trigger answer_releases(a)[i]]
            0 <= i < answer_releases(a).len() ==> answer_releases(a)[i].protocol
                == a.indexer.protocol@ && answer_releases(a)[i].indexer_id == a.indexer.id,
{
    if let Some(body) = a.body {
        law_release_source(body@, a.indexer);
        assert forall|i: int|
            #![trigger answer_releases(a)[i]]
            0 <= i < answer_releases(a).len() implies answer_releases(a)[i].protocol
            == a.indexer.protocol@ && answer_releases(a)[i].indexer_id == a.indexer.id by {
            assert(releases_in(body@, a.indexer)[i].protocol == a.indexer.protocol@);
        }
    }
}

/// A search asks exactly the indexers that are switched on, in their order.
pub proof fn law_enabled(s: Seq<Indexer>)
    requires
        s.len() <= usize::MAX,
    ensures
        forall|i: int|
            0 <= i < s.len() ==> (enabled_positions(s).contains(i as usize) <==> (#[trigger] s[i]).enabled
                == 1),
        forall|k: int|
            0 <= k < enabled_positions(s).len() ==> #[trigger] enabled_positions(s)[k] < s.len(),
        forall|k: int, l: int|
            0 <= k < l < enabled_positions(s).len() ==> enabled_positions(s)[k]
                < enabled_positions(s)[l],
    decreases s.len(),
{
    if s.len() > 0 {
        let rest = s.drop_last();
        let all = enabled_positions(s);
        let some = enabled_positions(rest);
        law_enabled(rest);
        assert forall|k: int| 0 <= k < all.len() implies #[trigger] all[k] < s.len() by {
            if k < some.len() {
                assert(all[k] == some[k]);
            }
        }
        assert forall|k: int, l: int| 0 <= k < l < all.len() implies all[k] < all[l] by {
            assert(all[k] == some[k]);
            if l < some.len() {
                assert(all[l] == some[l]);
            }
        }
        assert forall|i: int| 0 <= i < s.len() implies (all.contains(i as usize) <==> (
        #[trigger] s[i]).enabled == 1) by {
            if i < rest.len() {
                assert(rest[i] == s[i]);
                if some.contains(i as usize) {
                    let k = choose|k: int| 0 <= k < some.len() && some[k] == i as usize;
                    assert(all[k] == some[k]);
                }
                if all.contains(i as usize) {
                    let k = choose|k: int| 0 <= k < all.len() && all[k] == i as usize;
                    assert(some[k] == all[k]);
                }
            } else {
                if s[i].enabled == 1 {
                    assert(all.last() == i as usize);
                }
                if all.contains(i as usize) {
                    let k = choose|k: int| 0 <= k < all.len() && all[k] == i as usize;
                    if k < some.len() {
                        assert(some[k] < rest.len());
                    }
                }
            }
        }
    }
}

/// The address of a search tells what is searched for: two searches at one
/// indexer have the same address only where they are for the same text. It goes
/// to the indexer's own address, and carries its key where it has one.
pub proof fn law_search_address(ix: Indexer, a: Seq<char>, b: Seq<char>)
    ensures
        search_address(ix, a) == search_address(ix, b) ==> a == b,
        text::occurs_at(
            search_address(ix, a),
            text::trimmed_end(ix.url@, text::CharSet::Slash) + "/api?t=search&q="@
                + encode::url_encoded(a),
            0,
        ),
        ix.api_key matches Some(key) ==> exists|i: int|
            #[trigger] text::occurs_at(search_address(ix, a), "&apikey="@ + key@, i),
        ix.categories matches Some(c) ==> (text::trimmed(c@).len() > 0 ==> text::ends(
            search_address(ix, a),
            "&cat="@ + c@,
        )),
{
    let front = text::trimmed_end(ix.url@, text::CharSet::Slash) + "/api?t=search&q="@;
    let back = "&limit=100&extended=1"@ + key_parameter(ix) + category_parameter(ix);
    let x = search_address(ix, a);
    let y = search_address(ix, b);
    assert(x =~= front + encode::url_encoded(a) + back);
    assert(y =~= front + encode::url_encoded(b) + back);
    if x == y {
        let n = x.len() - front.len() - back.len();
        assert(x.subrange(front.len() as int, front.len() + n) =~= encode::url_encoded(a));
        assert(y.subrange(front.len() as int, front.len() + n) =~= encode::url_encoded(b));
        encode::law_url_injective(a, b);
    }
    assert(x.subrange(0, (front + encode::url_encoded(a)).len() as int) =~= front
        + encode::url_encoded(a));
    if let Some(c) = ix.categories {
        let tail = "&cat="@ + c@;
        if text::trimmed(c@).len() > 0 {
            assert(x.subrange(x.len() - tail.len(), x.len() as int) =~= tail);
        }
    }
    if let Some(key) = ix.api_key {
        let i = (front + encode::url_encoded(a) + "&limit=100&extended=1"@).len() as int;
        let p = "&apikey="@ + key@;
        assert(x.subrange(i, i + p.len()) =~= p);
        assert(text::occurs_at(x, p, i));
    }
}

/// An answer that holds a capabilities or RSS document passes the test, and
/// every other fails it.
pub proof fn law_caps(body: Seq<char>)
    ensures
        caps_error(body) is None <==> text::has(body, "<caps"@) || text::has(body, "<rss"@),
        caps_error(body) is Some ==> (xml::element_text(body, "error"@) matches Some(why)
            ==> caps_error(body) == Some(why)),
{
}

/// A tidy address is stored as it is.
pub proof fn law_stored_url(url: Seq<char>)
    requires
        url.len() > 0,
        !text::is_white(url[0]) && !text::is_white(url.last()),
        url.last() != '/',
        !text::ends(url, "/api"@),
    ensures
        stored_url(url) == url,
{
    text::law_trimmed_plain(url, text::CharSet::White);
}

/// Whole mebibytes are shown as such below one gibibyte, and whole gibibytes
/// with a zero behind the point.
pub proof fn law_size_text(n: int)
    ensures
        0 <= n < 1024 ==> size_text(n * 0x10_0000) == text::decimal_nat(n as nat) + " MB"@,
        0 < n < 0x40_0000 ==> size_text(n * 0x4000_0000) == text::decimal_nat(n as nat) + "."@
            + text::decimal_nat(0) + " GB"@,
{
    if 0 <= n < 1024 {
        assert((n * 0x10_0000) / 0x10_0000 == n && (n * 0x10_0000) % 0x10_0000 == 0);
    }
    if 0 < n < 0x40_0000 {
        let bytes = n * 0x4000_0000;
        assert(spacing(bytes, 1) == 1);
        assert(bytes / 1 == bytes && bytes % 1 == 0);
        assert(rounded(bytes, 1) == bytes);
        assert(nearest_double(bytes) == bytes);
        assert((10 * bytes) / 0x4000_0000 == 10 * n && (10 * bytes) % 0x4000_0000 == 0);
        assert(rounded(10 * bytes, 0x4000_0000) == 10 * n);
        assert((10 * n) / 10 == n && (10 * n) % 10 == 0);
    }
}

/// An indexer is listed under its own id, name and protocol, and its switch
/// offers the opposite of what it is.
pub proof fn law_indexer_row(ix: Indexer)
    ensures
        indexer_row(ix).id == ix.id,
        indexer_row(ix).name == ix.name@,
        indexer_row(ix).protocol == ix.protocol@,
        indexer_row(ix).toggle == "disable"@ <==> ix.enabled == 1,
        indexer_row(ix).toggle == "enable"@ <==> ix.enabled != 1,
        text::occurs_at(indexer_row(ix).line, ix.url@, 0),
        ix.last_test_ok is None ==> indexer_row(ix).badge.label == "Untested"@,
        ix.last_test_ok == Some(1i64) ==> indexer_row(ix).badge.label == "OK"@,
        ix.last_test_ok matches Some(n) ==> (n != 1 ==> indexer_row(ix).badge.label == "Failed"@
            && indexer_row(ix).badge.title == ix.last_test_error.deep_view()),
        text::occurs_at(indexer_row(ix).confirm, "Remove indexer "@ + ix.name@, 0),
{
    reveal_strlit("enable");
    reveal_strlit("disable");
    assert("enable"@.len() == 6 && "disable"@.len() == 7);
    let line = indexer_row(ix).line;
    assert(line.subrange(0, ix.url@.len() as int) =~= ix.url@);
    let question = indexer_row(ix).confirm;
    let asked = "Remove indexer "@ + ix.name@;
    assert(question.subrange(0, asked.len() as int) =~= asked);
}

/// Every part of a release is seen as itself.
pub proof fn law_release_view(x: Release)
    ensures
        x.deep_view().title == x.title@,
        x.deep_view().indexer_id == x.indexer_id,
        x.deep_view().indexer == x.indexer@,
        x.deep_view().protocol == x.protocol@,
        x.deep_view().size == x.size,
        x.deep_view().seeders == x.seeders,
        x.deep_view().grabs == x.grabs,
        x.deep_view().download_url == x.download_url@,
        x.deep_view().published == x.published.deep_view(),
{
}

/// Every part of a row of an indexer is seen as itself.
pub proof fn law_indexer_row_view(x: IndexerRow)
    ensures
        x.deep_view().id == x.id,
        x.deep_view().name == x.name@,
        x.deep_view().protocol == x.protocol@,
        x.deep_view().line == x.line@,
        x.deep_view().badge == x.badge.deep_view(),
        x.deep_view().toggle == x.toggle@,
        x.deep_view().confirm == x.confirm@,
{
}

/// Rounding goes to the nearest integer: it is off by half of the divisor at most,
/// and where two are as near it is the even one.
pub proof fn law_rounded(n: int, d: int)
    requires
        d > 0,
    ensures
        -d <= 2 * (rounded(n, d) * d - n) <= d,
        2 * (n % d) == d ==> rounded(n, d) % 2 == 0,
{
    let q = n / d;
    let r = n % d;
    assert(n == d * q + r && 0 <= r < d) by (nonlinear_arith)
        requires
            d > 0,
            q == n / d,
            r == n % d,
    ;
    assert(q * d == d * q) by (nonlinear_arith);
    assert((q + 1) * d == d * q + d) by (nonlinear_arith);
}

proof fn lemma_spacing(n: int, step: int)
    requires
        step > 0,
        n >= 0,
    ensures
        spacing(n, step) >= step,
        n < 0x20_0000_0000_0000 * spacing(n, step),
        spacing(n, step) == step || 0x10_0000_0000_0000 * spacing(n, step) <= n,
    decreases n - step,
{
    if n >= 0x20_0000_0000_0000 * step {
        lemma_spacing(n, 2 * step);
    }
}

/// A double-precision number holds a size below two to the power of 53 as it is,
/// and a greater one to within half of its own spacing, of which at least two to
/// the power of 52 fit in it.
pub proof fn law_nearest_double(n: int)
    requires
        n >= 0,
    ensures
        n < 0x20_0000_0000_0000 ==> nearest_double(n) == n,
        n >= 0x20_0000_0000_0000 ==> 0x10_0000_0000_0000 * spacing(n, 1) <= n,
        -spacing(n, 1) <= 2 * (nearest_double(n) - n) <= spacing(n, 1),
        exists|k: int| nearest_double(n) == #[trigger] (k * spacing(n, 1)),
{
    lemma_spacing(n, 1);
    law_rounded(n, spacing(n, 1));
    let k = rounded(n, spacing(n, 1));
    assert(nearest_double(n) == k * spacing(n, 1));
    if n < 0x20_0000_0000_0000 {
        assert(spacing(n, 1) == 1);
        assert(n / 1 == n && n % 1 == 0);
    }
}

/// A size is told to the nearest mebibyte below a gibibyte, and to the nearest
/// tenth of a gibibyte from there on; one below zero with its sign.
pub proof fn law_size_near(bytes: int, n: nat, tenths: nat)
    requires
        bytes < 0x20_0000_0000_0000,
        bytes > -0x20_0000_0000_0000,
    ensures
        0 <= bytes < 0x4000_0000 && -0x10_0000 < 2 * (n * 0x10_0000 - bytes) < 0x10_0000
            ==> size_text(bytes) == text::decimal_nat(n) + " MB"@,
        bytes < 0 && -0x10_0000 < 2 * (n * 0x10_0000 + bytes) < 0x10_0000 ==> size_text(bytes)
            == "-"@ + text::decimal_nat(n) + " MB"@,
        bytes >= 0x4000_0000 && -0x4000_0000 < 2 * (tenths * 0x4000_0000 - 10 * bytes)
            < 0x4000_0000 ==> size_text(bytes) == text::decimal_nat(tenths / 10) + "."@
            + text::decimal_nat(tenths % 10) + " GB"@,
{
    let size = if bytes < 0 {
        -bytes
    } else {
        bytes
    };
    law_nearest_double(size);
    law_rounded(size, 0x10_0000);
    law_rounded(10 * size, 0x4000_0000);
    assert(0 <= rounded(size, 0x10_0000));
    assert(0 <= rounded(10 * size, 0x4000_0000));
}

/// What an indexer answers is its own: every release of an answer has the name, the
/// id and the protocol of the indexer that was asked.
pub proof fn law_parse_rss(xml: &str, ix: &Indexer, r: Vec<Release>, i: int)
    requires
        call_ensures(parse_rss, (xml, ix), r),
        0 <= i < r.len(),
    ensures
        r@[i].protocol@ == ix.protocol@,
        r@[i].indexer_id == ix.id,
        r@[i].indexer@ == ix.name@,
        r@[i].title@.len() > 0,
        r@[i].download_url@.len() > 0,
{
    law_release_source(xml@, *ix);
    law_release_item(xml@, *ix, i);
    assert(r.deep_view()[i] == r@[i].deep_view());
    assert(releases_in(xml@, *ix)[i] == r@[i].deep_view());
    law_release_view(r@[i]);
}

/// A new indexer is kept as the form has it; a protocol that is not usenet is
/// torrent, and without a priority it has the middle one.
pub proof fn law_new_indexer(f: &AddForm, r: NewIndexer)
    requires
        call_ensures(add, (f,), r),
    ensures
        r.name@ == text::trimmed(f.name@),
        r.protocol@ == "usenet"@ <==> f.protocol@ == "usenet"@,
        r.protocol@ == "torrent"@ <==> f.protocol@ != "usenet"@,
        f.priority matches Some(n) ==> r.priority == n,
        f.priority is None ==> r.priority == 25,
        f.api_key is None ==> r.api_key is None,
        f.categories is None ==> r.categories is None,
{
    reveal_strlit("usenet");
    reveal_strlit("torrent");
    assert("usenet"@[0] == 'u' && "torrent"@[0] == 't');
}

/// What all indexers found together is what each of them found, and no more, with
/// the best seeded first.
pub proof fn law_search_all(answers: &Vec<Answer>, r: Vec<Release>, i: int, j: int)
    requires
        call_ensures(search_all, (answers,), r),
    ensures
        0 <= i < j < r.len() ==> (r@[i].seeders matches Some(a) ==> (r@[j].seeders matches Some(b)
            ==> a >= b)),
        r.deep_view().to_multiset() == chained(
            answers@.map_values(|a: Answer| answer_releases(a)),
        ).to_multiset(),
{
    let all = chained(answers@.map_values(|a: Answer| answer_releases(a)));
    law_by_seeders_permutation(all);
    if 0 <= i < j < r.len() {
        assert(r.deep_view()[i] == r@[i].deep_view() && r.deep_view()[j] == r@[j].deep_view());
        law_merged_order(all, i, j);
    }
}

/// Categories that are blank are asked for no more than none.
pub proof fn law_blank_categories(ix: Indexer, query: Seq<char>)
    requires
        ix.categories matches Some(c) ==> text::trimmed(c@).len() == 0,
    ensures
        ix.api_key is None ==> text::ends(search_address(ix, query), "&limit=100&extended=1"@),
        ix.api_key matches Some(key) ==> text::ends(
            search_address(ix, query),
            "&limit=100&extended=1"@ + "&apikey="@ + key@,
        ),
{
    let x = search_address(ix, query);
    let tail = "&limit=100&extended=1"@ + key_parameter(ix);
    assert(x.subrange(x.len() - tail.len(), x.len() as int) =~= tail);
    if let Some(key) = ix.api_key {
        assert(tail =~= "&limit=100&extended=1"@ + "&apikey="@ + key@);
    } else {
        assert(tail =~= "&limit=100&extended=1"@);
    }
}

} // verus!
