//! A small tag scan for machine-generated markup: opening tags, their
//! attributes, and the text between tags.

use vstd::prelude::*;
use vstd::string::*;
use crate::text;

verus! {

// ---- entities ----

/// `s` with the predefined entities replaced by what they stand for, `&amp;`
/// first.
pub open spec fn unescaped(s: Seq<char>) -> Seq<char> {
    let s = text::replaced(s, "&amp;"@, "&"@);
    let s = text::replaced(s, "&lt;"@, "<"@);
    let s = text::replaced(s, "&gt;"@, ">"@);
    let s = text::replaced(s, "&quot;"@, "\""@);
    let s = text::replaced(s, "&apos;"@, "'"@);
    text::replaced(s, "&#39;"@, "'"@)
}

/// Replaces the predefined entities by what they stand for.
pub fn unescape(s: &str) -> (r: String)
    ensures
        r@ == unescaped(s@),
{
    proof {
        reveal_strlit("&amp;");
        reveal_strlit("&lt;");
        reveal_strlit("&gt;");
        reveal_strlit("&quot;");
        reveal_strlit("&apos;");
        reveal_strlit("&#39;");
    }
    let s = text::replace(s, "&amp;", "&");
    let s = text::replace(s.as_str(), "&lt;", "<");
    let s = text::replace(s.as_str(), "&gt;", ">");
    let s = text::replace(s.as_str(), "&quot;", "\"");
    let s = text::replace(s.as_str(), "&apos;", "'");
    text::replace(s.as_str(), "&#39;", "'")
}

/// A character as it stands in markup text or in a quoted attribute.
pub open spec fn escaped_char(c: char) -> Seq<char> {
    if c == '&' {
        "&amp;"@
    } else if c == '<' {
        "&lt;"@
    } else if c == '>' {
        "&gt;"@
    } else if c == '"' {
        "&quot;"@
    } else {
        seq![c]
    }
}

/// `s` with `&`, `<`, `>` and `"` written as entities.
pub open spec fn escaped(s: Seq<char>) -> Seq<char>
    decreases s.len(),
{
    if s.len() == 0 {
        seq![]
    } else {
        escaped(s.drop_last()) + escaped_char(s.last())
    }
}

/// Writes `&`, `<`, `>` and `"` as entities.
pub fn esc(s: &str) -> (r: String)
    ensures
        r@ == escaped(s@),
{
    let cs = text::chars_of(s);
    let mut out: String = String::new();
    let mut i: usize = 0;
    while i < cs.len()
        invariant
            i <= cs@.len(),
            out@ == escaped(cs@.take(i as int)),
        decreases cs@.len() - i,
    {
        let c = cs[i];
        let ghost before = out@;
        assert(cs@.take(i + 1).drop_last() =~= cs@.take(i as int));
        if c == '&' {
            out.append("&amp;");
        } else if c == '<' {
            out.append("&lt;");
        } else if c == '>' {
            out.append("&gt;");
        } else if c == '"' {
            out.append("&quot;");
        } else {
            out.push(c);
        }
        assert(out@ =~= before + escaped_char(c));
        i += 1;
    }
    assert(cs@.take(cs@.len() as int) =~= cs@);
    out
}

/// The character `c` does not stand in `s`.
pub open spec fn free_of(s: Seq<char>, c: char) -> bool {
    forall|i: int| 0 <= i < s.len() ==> #[trigger] s[i] != c
}

/// Escaped text holds no angle bracket and no quote, so it can neither open a
/// tag nor end a quoted attribute.
pub proof fn law_escaped(s: Seq<char>)
    ensures
        free_of(escaped(s), '<'),
        free_of(escaped(s), '>'),
        free_of(escaped(s), '"'),
    decreases s.len(),
{
    if s.len() > 0 {
        law_escaped(s.drop_last());
        reveal_strlit("&amp;");
        reveal_strlit("&lt;");
        reveal_strlit("&gt;");
        reveal_strlit("&quot;");
        let c = s.last();
        lemma_free_of_sum(escaped(s.drop_last()), escaped_char(c), '<');
        lemma_free_of_sum(escaped(s.drop_last()), escaped_char(c), '>');
        lemma_free_of_sum(escaped(s.drop_last()), escaped_char(c), '"');
    }
}

/// Escaping goes piece by piece.
pub proof fn law_escaped_sum(a: Seq<char>, b: Seq<char>)
    ensures
        escaped(a + b) == escaped(a) + escaped(b),
    decreases b.len(),
{
    if b.len() == 0 {
        assert(a + b =~= a);
        assert(escaped(a) + escaped(b) =~= escaped(a));
    } else {
        law_escaped_sum(a, b.drop_last());
        assert((a + b).drop_last() =~= a + b.drop_last());
        assert((a + b).last() == b.last());
        assert(escaped(a) + (escaped(b.drop_last()) + escaped_char(b.last())) =~= escaped(a)
            + escaped(b.drop_last()) + escaped_char(b.last()));
    }
}

proof fn lemma_escaped_front(s: Seq<char>)
    requires
        s.len() > 0,
    ensures
        escaped(s) == escaped_char(s[0]) + escaped(s.skip(1)),
{
    assert(s =~= seq![s[0]] + s.skip(1));
    law_escaped_sum(seq![s[0]], s.skip(1));
    assert(seq![s[0]].drop_last() =~= seq![]);
    assert(escaped(seq![s[0]].drop_last()) =~= seq![]);
    assert(escaped(seq![s[0]]) =~= escaped_char(s[0]));
}

/// One of the entities that escaping writes stands at position `i`.
pub open spec fn entity_at(s: Seq<char>, i: int) -> bool {
    ||| text::occurs_at(s, "&amp;"@, i)
    ||| text::occurs_at(s, "&lt;"@, i)
    ||| text::occurs_at(s, "&gt;"@, i)
    ||| text::occurs_at(s, "&quot;"@, i)
}

/// Every `&` in escaped text begins an entity.
pub proof fn law_escaped_entities(s: Seq<char>)
    ensures
        forall|i: int|
            0 <= i < escaped(s).len() && escaped(s)[i] == '&' ==> #[trigger] entity_at(escaped(s), i),
    decreases s.len(),
{
    if s.len() > 0 {
        law_escaped_entities(s.skip(1));
        lemma_escaped_front(s);
        reveal_strlit("&amp;");
        reveal_strlit("&lt;");
        reveal_strlit("&gt;");
        reveal_strlit("&quot;");
        let e = escaped_char(s[0]);
        let rest = escaped(s.skip(1));
        let all = escaped(s);
        assert forall|i: int| 0 <= i < all.len() && all[i] == '&' implies #[trigger] entity_at(
            all,
            i,
        ) by {
            if i < e.len() {
                assert(all[i] == e[i]);
                assert(i == 0);
                assert(all.subrange(0, e.len() as int) =~= e);
            } else {
                let j = i - e.len();
                assert(all[i] == rest[j]);
                assert(entity_at(rest, j));
                assert forall|p: Seq<char>| #[trigger] text::occurs_at(rest, p, j) implies text::occurs_at(
                    all,
                    p,
                    i,
                ) by {
                    assert(all.subrange(i, i + p.len()) =~= rest.subrange(j, j + p.len()));
                }
            }
        }
    }
}

/// `s` with the entities that escaping writes replaced, in one pass from the
/// left, by what they stand for.
pub open spec fn undone(s: Seq<char>) -> Seq<char>
    decreases s.len(),
{
    if s.len() == 0 {
        seq![]
    } else if text::occurs_at(s, "&amp;"@, 0) && s.len() >= 5 {
        seq!['&'] + undone(s.skip(5))
    } else if text::occurs_at(s, "&lt;"@, 0) && s.len() >= 4 {
        seq!['<'] + undone(s.skip(4))
    } else if text::occurs_at(s, "&gt;"@, 0) && s.len() >= 4 {
        seq!['>'] + undone(s.skip(4))
    } else if text::occurs_at(s, "&quot;"@, 0) && s.len() >= 6 {
        seq!['"'] + undone(s.skip(6))
    } else {
        seq![s[0]] + undone(s.skip(1))
    }
}

/// Escaping loses nothing: undoing its entities in one pass gives the text back.
pub proof fn law_escaped_undone(s: Seq<char>)
    ensures
        undone(escaped(s)) == s,
    decreases s.len(),
{
    if s.len() > 0 {
        law_escaped_undone(s.skip(1));
        lemma_escaped_front(s);
        reveal_strlit("&amp;");
        reveal_strlit("&lt;");
        reveal_strlit("&gt;");
        reveal_strlit("&quot;");
        let e = escaped_char(s[0]);
        let all = escaped(s);
        assert(all.subrange(0, e.len() as int) =~= e);
        assert(all.skip(e.len() as int) =~= escaped(s.skip(1)));
        assert(all[0] == e[0]);
        if e.len() > 1 {
            assert(all[1] == e[1]);
        }
        assert(text::occurs_at(all, "&amp;"@, 0) ==> all.subrange(0, 5)[0] == '&' && all.subrange(
            0,
            5,
        )[1] == 'a');
        assert(text::occurs_at(all, "&lt;"@, 0) ==> all.subrange(0, 4)[0] == '&' && all.subrange(
            0,
            4,
        )[1] == 'l');
        assert(text::occurs_at(all, "&gt;"@, 0) ==> all.subrange(0, 4)[0] == '&' && all.subrange(
            0,
            4,
        )[1] == 'g');
        assert(text::occurs_at(all, "&quot;"@, 0) ==> all.subrange(0, 6)[0] == '&' && all.subrange(
            0,
            6,
        )[1] == 'q');
        assert(s =~= seq![s[0]] + s.skip(1));
    }
}

/// The characters of `s`, each spelled as `u` says.
spec fn spelled(s: Seq<char>, u: spec_fn(char) -> Seq<char>) -> Seq<char>
    decreases s.len(),
{
    if s.len() == 0 {
        seq![]
    } else {
        u(s[0]) + spelled(s.skip(1), u)
    }
}

/// Replacing the entity `p` leaves `e` alone: `e` holds no `&` but at its start,
/// and there it differs from `p` in the next character.
spec fn left_alone(e: Seq<char>, p: Seq<char>) -> bool {
    &&& e.len() > 0
    &&& e[0] == '&' ==> e.len() >= 2 && e[1] != p[1]
    &&& forall|k: int| 1 <= k < e.len() ==> #[trigger] e[k] != '&'
}

proof fn lemma_replaced_step(s: Seq<char>, p: Seq<char>, b: Seq<char>)
    requires
        s.len() > 0,
        p.len() > 0,
        !text::occurs_at(s, p, 0),
    ensures
        text::replaced(s, p, b) == seq![s[0]] + text::replaced(s.skip(1), p, b),
{
    if s.len() < p.len() {
        assert(s =~= seq![s[0]] + s.skip(1));
    }
}

proof fn lemma_replaced_past(e: Seq<char>, k: int, rest: Seq<char>, p: Seq<char>, b: Seq<char>)
    requires
        left_alone(e, p),
        p.len() >= 2,
        p[0] == '&',
        0 <= k <= e.len(),
    ensures
        text::replaced((e + rest).skip(k), p, b) == e.skip(k) + text::replaced(rest, p, b),
    decreases e.len() - k,
{
    let s = (e + rest).skip(k);
    if k == e.len() {
        assert(s =~= rest);
        assert(e.skip(k) + text::replaced(rest, p, b) =~= text::replaced(rest, p, b));
    } else {
        assert(s[0] == e[k]);
        if text::occurs_at(s, p, 0) {
            assert(s.subrange(0, p.len() as int)[0] == s[0]);
            assert(s.subrange(0, p.len() as int)[1] == s[1]);
            assert(k == 0);
            assert(s[1] == e[1]);
        }
        lemma_replaced_step(s, p, b);
        assert(s.skip(1) =~= (e + rest).skip(k + 1));
        lemma_replaced_past(e, k + 1, rest, p, b);
        assert(e.skip(k) =~= seq![e[k]] + e.skip(k + 1));
        assert(seq![e[k]] + (e.skip(k + 1) + text::replaced(rest, p, b)) =~= e.skip(k)
            + text::replaced(rest, p, b));
    }
}

proof fn lemma_replaced_spelling(
    s: Seq<char>,
    u: spec_fn(char) -> Seq<char>,
    v: spec_fn(char) -> Seq<char>,
    p: Seq<char>,
    b: Seq<char>,
)
    requires
        p.len() >= 2,
        p[0] == '&',
        forall|i: int|
            0 <= i < s.len() ==> {
                let c = #[trigger] s[i];
                (u(c) == p && v(c) == b) || (left_alone(u(c), p) && v(c) == u(c))
            },
    ensures
        text::replaced(spelled(s, u), p, b) == spelled(s, v),
    decreases s.len(),
{
    if s.len() == 0 {
        assert(text::replaced(spelled(s, u), p, b) =~= seq![]);
    } else {
        let rest = spelled(s.skip(1), u);
        assert forall|i: int| 0 <= i < s.skip(1).len() implies ({
            let c = #[trigger] s.skip(1)[i];
            (u(c) == p && v(c) == b) || (left_alone(u(c), p) && v(c) == u(c))
        }) by {
            assert(s.skip(1)[i] == s[i + 1]);
        }
        lemma_replaced_spelling(s.skip(1), u, v, p, b);
        let e = u(s[0]);
        if e == p && v(s[0]) == b {
            let all = e + rest;
            assert(all.subrange(0, p.len() as int) =~= p);
            assert(all.skip(p.len() as int) =~= rest);
        } else {
            lemma_replaced_past(e, 0, rest, p, b);
            assert((e + rest).skip(0) =~= e + rest);
            assert(e.skip(0) =~= e);
        }
    }
}

proof fn lemma_escaped_spelled(s: Seq<char>)
    ensures
        escaped(s) == spelled(s, |c: char| escaped_char(c)),
    decreases s.len(),
{
    if s.len() > 0 {
        lemma_escaped_front(s);
        lemma_escaped_spelled(s.skip(1));
    }
}

proof fn lemma_spelled_plain(s: Seq<char>)
    ensures
        spelled(s, |c: char| seq![c]) == s,
    decreases s.len(),
{
    if s.len() > 0 {
        lemma_spelled_plain(s.skip(1));
        assert(s =~= seq![s[0]] + s.skip(1));
    }
}

/// Unescaping undoes escaping where the text holds no `&`.
pub proof fn law_unescaped_escaped(s: Seq<char>)
    requires
        free_of(s, '&'),
    ensures
        unescaped(escaped(s)) == s,
{
    reveal_strlit("&amp;");
    reveal_strlit("&lt;");
    reveal_strlit("&gt;");
    reveal_strlit("&quot;");
    reveal_strlit("&apos;");
    reveal_strlit("&#39;");
    reveal_strlit("&");
    reveal_strlit("<");
    reveal_strlit(">");
    reveal_strlit("\"");
    reveal_strlit("'");
    let all = |c: char| escaped_char(c);
    let no_lt = |c: char|
        if c == '<' {
            seq![c]
        } else {
            escaped_char(c)
        };
    let no_gt = |c: char|
        if c == '<' || c == '>' {
            seq![c]
        } else {
            escaped_char(c)
        };
    let plain = |c: char| seq![c];
    assert("<"@ =~= seq!['<'] && ">"@ =~= seq!['>'] && "\""@ =~= seq!['"']);
    lemma_escaped_spelled(s);
    lemma_replaced_spelling(s, all, all, "&amp;"@, "&"@);
    lemma_replaced_spelling(s, all, no_lt, "&lt;"@, "<"@);
    lemma_replaced_spelling(s, no_lt, no_gt, "&gt;"@, ">"@);
    lemma_replaced_spelling(s, no_gt, plain, "&quot;"@, "\""@);
    lemma_replaced_spelling(s, plain, plain, "&apos;"@, "'"@);
    lemma_replaced_spelling(s, plain, plain, "&#39;"@, "'"@);
    lemma_spelled_plain(s);
}

proof fn lemma_free_of_sum(a: Seq<char>, b: Seq<char>, c: char)
    requires
        free_of(a, c),
        free_of(b, c),
    ensures
        free_of(a + b, c),
{
    assert forall|i: int| 0 <= i < (a + b).len() implies #[trigger] (a + b)[i] != c by {
        if i < a.len() {
            assert((a + b)[i] == a[i]);
        } else {
            assert((a + b)[i] == b[i - a.len()]);
        }
    }
}

// ---- tags ----

/// A character that may follow the name in an opening tag.
pub open spec fn ends_name(c: char) -> bool {
    text::is_ascii_white(c) || c == '>' || c == '/'
}

/// The opening tags named in `open` (a `<` and a name) from `at` on, each up
/// to its `>`, in document order.
pub open spec fn tags_from(xml: Seq<char>, open: Seq<char>, at: int) -> Seq<Seq<char>>
    decreases xml.len() - at,
{
    match text::first_at(xml, open, at) {
        Some(start) => if 0 <= at <= start && open.len() > 0 && start + open.len() <= xml.len() {
            let after = start + open.len();
            if after < xml.len() && ends_name(xml[after]) {
                match text::first_char(xml, '>', start) {
                    Some(gt) => if start <= gt < xml.len() {
                        seq![xml.subrange(start, gt + 1)] + tags_from(xml, open, gt + 1)
                    } else {
                        seq![]
                    },
                    None => tags_from(xml, open, after),
                }
            } else {
                tags_from(xml, open, after)
            }
        } else {
            seq![]
        },
        None => seq![],
    }
}

/// Every `<tag ...>` of `xml` in document order, a longer name not counting.
pub open spec fn tags(xml: Seq<char>, tag: Seq<char>) -> Seq<Seq<char>> {
    tags_from(xml, seq!['<'] + tag, 0)
}

fn with_bracket(tag: &str) -> (r: Vec<char>)
    ensures
        r@ == seq!['<'] + tag@,
{
    let mut open: Vec<char> = Vec::new();
    open.push('<');
    let mut name = text::chars_of(tag);
    open.append(&mut name);
    assert(open@ =~= seq!['<'] + tag@);
    open
}

/// Every `<tag ...>` of `xml`, up to its `>`, in document order.
pub fn all_tags(xml: &str, tag: &str) -> (r: Vec<String>)
    ensures
        r.deep_view() == tags(xml@, tag@),
{
    let cs = text::chars_of(xml);
    let open = with_bracket(tag);
    let mut out: Vec<String> = Vec::new();
    let mut at: usize = 0;
    assert(out.deep_view() + tags(xml@, tag@) =~= tags(xml@, tag@));
    loop
        invariant
            cs@ == xml@,
            open@ == seq!['<'] + tag@,
            at <= cs@.len(),
            tags(xml@, tag@) == out.deep_view() + tags_from(xml@, open@, at as int),
        decreases cs@.len() - at,
    {
        match text::find_from(&cs, &open, at) {
            Some(start) => {
                assert(start + open@.len() <= cs.len());
                let after: usize = start + open.len();
                if after < cs.len() && (text::ascii_white(cs[after]) || cs[after] == '>' || cs[after]
                    == '/') {
                    match text::find_char(&cs, '>', start) {
                        Some(gt) => {
                            let ghost before = out.deep_view();
                            let ghost tag_text = cs@.subrange(start as int, gt + 1);
                            out.push(text::string_of(&cs[start..gt + 1]));
                            assert(out.deep_view() =~= before.push(tag_text));
                            assert(before + (seq![tag_text] + tags_from(xml@, open@, gt + 1))
                                =~= out.deep_view() + tags_from(xml@, open@, gt + 1));
                            at = gt + 1;
                        },
                        None => {
                            at = after;
                        },
                    }
                } else {
                    at = after;
                }
            },
            None => {
                assert(out.deep_view() + tags_from(xml@, open@, at as int) =~= out.deep_view());
                return out;
            },
        }
    }
}

/// The first item, if there is one.
pub open spec fn head(s: Seq<Seq<char>>) -> Option<Seq<char>> {
    if s.len() > 0 {
        Some(s[0])
    } else {
        None
    }
}

/// The first `<tag ...>` of `xml`.
pub fn find_tag(xml: &str, tag: &str) -> (r: Option<String>)
    ensures
        r.deep_view() == head(tags(xml@, tag@)),
{
    let found = all_tags(xml, tag);
    if found.len() > 0 {
        assert(found.deep_view()[0] == found@[0]@);
        Some(found[0].clone())
    } else {
        None
    }
}

/// The text of the first non-empty element named in `open` and `close` that
/// begins at `at` or later.
pub open spec fn text_from(xml: Seq<char>, open: Seq<char>, close: Seq<char>, at: int) -> Option<
    Seq<char>,
>
    decreases xml.len() - at,
{
    match text::first_at(xml, open, at) {
        Some(start) => if 0 <= at <= start && open.len() > 0 && start + open.len() <= xml.len() {
            let after = start + open.len();
            if after < xml.len() && (text::is_ascii_white(xml[after]) || xml[after] == '>') {
                match text::first_char(xml, '>', start) {
                    Some(gt) => if xml[gt - 1] == '/' {
                        text_from(xml, open, close, after)
                    } else {
                        match text::first_at(xml, close, gt + 1) {
                            Some(end) => {
                                let inner = unescaped(text::trimmed(xml.subrange(gt + 1, end)));
                                if inner.len() > 0 {
                                    Some(inner)
                                } else {
                                    text_from(xml, open, close, after)
                                }
                            },
                            None => text_from(xml, open, close, after),
                        }
                    },
                    None => None,
                }
            } else {
                text_from(xml, open, close, after)
            }
        } else {
            None
        },
        None => None,
    }
}

/// The trimmed and unescaped text of the first non-empty `<tag ...>text</tag`.
pub open spec fn element_text(xml: Seq<char>, tag: Seq<char>) -> Option<Seq<char>> {
    text_from(xml, seq!['<'] + tag, seq!['<', '/'] + tag, 0)
}

/// The text of the first non-empty `<tag ...>text</tag>`.
pub fn tag_text(xml: &str, tag: &str) -> (r: Option<String>)
    ensures
        r.deep_view() == element_text(xml@, tag@),
{
    let cs = text::chars_of(xml);
    let open = with_bracket(tag);
    let mut close: Vec<char> = Vec::new();
    close.push('<');
    close.push('/');
    let mut name = text::chars_of(tag);
    close.append(&mut name);
    assert(close@ =~= seq!['<', '/'] + tag@);
    let mut at: usize = 0;
    loop
        invariant
            cs@ == xml@,
            open@.len() > 0,
            open@[0] == '<',
            at <= cs@.len(),
            open@ == seq!['<'] + tag@,
            close@ == seq!['<', '/'] + tag@,
            element_text(xml@, tag@) == text_from(xml@, open@, close@, at as int),
        decreases cs@.len() - at,
    {
        let start: usize = match text::find_from(&cs, &open, at) {
            Some(start) => start,
            None => {
                return None;
            },
        };
        proof {
            text::lemma_first_at(cs@, open@, at as int);
            assert(cs@.subrange(start as int, start + open@.len())[0] == '<');
        }
        assert(start + open@.len() <= cs.len());
        let after: usize = start + open.len();
        if after < cs.len() && (text::ascii_white(cs[after]) || cs[after] == '>') {
            match text::find_char(&cs, '>', start) {
                Some(gt) => {
                    if cs[gt - 1] == '/' {
                        at = after;
                    } else {
                        match text::find_from(&cs, &close, gt + 1) {
                            Some(end) => {
                                let raw = text::string_of(&cs[gt + 1..end]);
                                let inner = unescape(text::trim(raw.as_str()).as_str());
                                if !text::empty(inner.as_str()) {
                                    return Some(inner);
                                }
                                at = after;
                            },
                            None => {
                                at = after;
                            },
                        }
                    }
                },
                None => {
                    return None;
                },
            }
        } else {
            at = after;
        }
    }
}

/// A character that may stand in the name of an attribute, as XML defines it.
pub open spec fn is_name_char(c: char) -> bool {
    ||| 'a' <= c <= 'z'
    ||| 'A' <= c <= 'Z'
    ||| '0' <= c <= '9'
    ||| c == '-'
    ||| c == '_'
    ||| c == '.'
    ||| c == ':'
    ||| c == '\u{B7}'
    ||| '\u{C0}' <= c <= '\u{37D}' && c != '\u{D7}' && c != '\u{F7}'
    ||| '\u{37F}' <= c <= '\u{1FFF}'
    ||| '\u{200C}' <= c <= '\u{200D}'
    ||| '\u{203F}' <= c <= '\u{2040}'
    ||| '\u{2070}' <= c <= '\u{218F}'
    ||| '\u{2C00}' <= c <= '\u{2FEF}'
    ||| '\u{3001}' <= c <= '\u{D7FF}'
    ||| '\u{F900}' <= c <= '\u{FDCF}'
    ||| '\u{FDF0}' <= c <= '\u{FFFD}'
    ||| '\u{10000}' <= c <= '\u{EFFFF}'
}

fn name_char(c: char) -> (r: bool)
    ensures
        r == is_name_char(c),
{
    ('a' <= c && c <= 'z') || ('A' <= c && c <= 'Z') || ('0' <= c && c <= '9') || c == '-' || c
        == '_' || c == '.' || c == ':' || c == '\u{B7}' || ('\u{C0}' <= c && c <= '\u{37D}' && c
        != '\u{D7}' && c != '\u{F7}') || ('\u{37F}' <= c && c <= '\u{1FFF}') || ('\u{200C}' <= c && c
        <= '\u{200D}') || ('\u{203F}' <= c && c <= '\u{2040}') || ('\u{2070}' <= c && c
        <= '\u{218F}') || ('\u{2C00}' <= c && c <= '\u{2FEF}') || ('\u{3001}' <= c && c
        <= '\u{D7FF}') || ('\u{F900}' <= c && c <= '\u{FDCF}') || ('\u{FDF0}' <= c && c
        <= '\u{FFFD}') || ('\u{10000}' <= c && c <= '\u{EFFFF}')
}

/// The text `open` stands at position `i` of `tag`, and a name that it begins
/// with is not the end of a longer one.
pub open spec fn names_at(tag: Seq<char>, open: Seq<char>, i: int) -> bool {
    text::occurs_at(tag, open, i) && !(i > 0 && is_name_char(tag[i - 1]) && is_name_char(open[0]))
}

/// The first position, from `i` on, at which `open` stands with its whole name.
pub open spec fn first_named(tag: Seq<char>, open: Seq<char>, i: int) -> Option<int>
    decreases tag.len() - i,
{
    if i < 0 || i >= tag.len() {
        None
    } else if names_at(tag, open, i) {
        Some(i)
    } else {
        first_named(tag, open, i + 1)
    }
}

/// What an attribute begins with: its name, and `="`.
pub open spec fn opener(name: Seq<char>) -> Seq<char> {
    name + seq!['=', '"']
}

/// The unescaped value of the attribute `name="..."` in `tag`.
pub open spec fn attribute(tag: Seq<char>, name: Seq<char>) -> Option<Seq<char>> {
    let open = opener(name);
    match first_named(tag, open, 0) {
        Some(i) => match text::first_char(tag, '"', i + open.len()) {
            Some(end) => Some(unescaped(tag.subrange(i + open.len(), end))),
            None => None,
        },
        None => None,
    }
}

fn find_named(tag: &[char], open: &[char]) -> (r: Option<usize>)
    requires
        open@.len() > 0,
    ensures
        match r {
            Some(i) => first_named(tag@, open@, 0) == Some(i as int) && i + open@.len() <= tag@.len(),
            None => first_named(tag@, open@, 0) is None,
        },
{
    let mut at: usize = 0;
    loop
        invariant
            open@.len() > 0,
            at <= tag@.len(),
            first_named(tag@, open@, 0) == first_named(tag@, open@, at as int),
        decreases tag@.len() - at,
    {
        match text::find_from(tag, open, at) {
            Some(i) => {
                assert(i + open@.len() <= tag@.len());
                proof {
                    text::lemma_first_at(tag@, open@, at as int);
                    lemma_skip_unnamed(tag@, open@, at as int, i as int);
                }
                if i == 0 || !name_char(tag[i - 1]) || !name_char(open[0]) {
                    return Some(i);
                }
                at = i + 1;
            },
            None => {
                proof {
                    lemma_skip_unnamed(tag@, open@, at as int, tag@.len() as int);
                }
                return None;
            },
        }
    }
}

proof fn lemma_skip_unnamed(tag: Seq<char>, open: Seq<char>, from: int, to: int)
    requires
        0 <= from <= to <= tag.len(),
        match text::first_at(tag, open, from) {
            Some(i) => to <= i,
            None => true,
        },
    ensures
        first_named(tag, open, from) == first_named(tag, open, to),
    decreases to - from,
{
    if from < to {
        text::lemma_first_at(tag, open, from);
        assert(!text::occurs_at(tag, open, from));
        text::lemma_first_at(tag, open, from + 1);
        lemma_skip_unnamed(tag, open, from + 1, to);
    }
}

/// An attribute is read by exactly its name: the value is that of the first
/// place where the name stands before `="` and is not the end of a longer name,
/// and where there is no such place there is no value.
pub proof fn law_attribute_name(tag: Seq<char>, name: Seq<char>)
    ensures
        match first_named(tag, opener(name), 0) {
            Some(i) => names_at(tag, opener(name), i) && forall|j: int|
                0 <= j < i ==> !#[trigger] names_at(tag, opener(name), j),
            None => attribute(tag, name) is None && forall|j: int|
                !#[trigger] names_at(tag, opener(name), j),
        },
{
    lemma_first_named(tag, opener(name), 0);
}

proof fn lemma_first_named(tag: Seq<char>, open: Seq<char>, from: int)
    requires
        0 <= from,
        open.len() > 0,
    ensures
        match first_named(tag, open, from) {
            Some(i) => from <= i && names_at(tag, open, i) && forall|j: int|
                from <= j < i ==> !#[trigger] names_at(tag, open, j),
            None => forall|j: int| from <= j ==> !#[trigger] names_at(tag, open, j),
        },
    decreases tag.len() - from,
{
    if from < tag.len() && !names_at(tag, open, from) {
        lemma_first_named(tag, open, from + 1);
    }
}

/// The value of the attribute `name="..."` in a raw tag.
pub fn attr(tag: &str, name: &str) -> (r: Option<String>)
    ensures
        r.deep_view() == attribute(tag@, name@),
{
    let cs = text::chars_of(tag);
    let mut open = text::chars_of(name);
    open.push('=');
    open.push('"');
    assert(open@ =~= opener(name@));
    match find_named(&cs, &open) {
        Some(i) => {
            assert(i + open@.len() <= cs.len());
            let from: usize = i + open.len();
            match text::find_char(&cs, '"', from) {
                Some(end) => Some(unescape(text::string_of(&cs[from..end]).as_str())),
                None => None,
            }
        },
        None => None,
    }
}

// ---- markup ----

/// `s` without what stands between angle brackets, and without the brackets.
pub open spec fn outside_tags(s: Seq<char>, in_tag: bool) -> Seq<char>
    decreases s.len(),
{
    if s.len() == 0 {
        seq![]
    } else if s[0] == '<' {
        outside_tags(s.skip(1), true)
    } else if s[0] == '>' {
        outside_tags(s.skip(1), false)
    } else if in_tag {
        outside_tags(s.skip(1), true)
    } else {
        seq![s[0]] + outside_tags(s.skip(1), false)
    }
}

/// The words of `s` outside its tags, with one space between each two.
pub open spec fn stripped(s: Seq<char>) -> Seq<char> {
    text::joined(text::words_of(outside_tags(s, false)), " "@)
}

/// Drops the tags of `s` and closes up its whitespace.
pub fn strip_tags(s: &str) -> (r: String)
    ensures
        r@ == stripped(s@),
{
    let cs = text::chars_of(s);
    let mut out: String = String::new();
    let mut in_tag = false;
    let mut i: usize = 0;
    assert(cs@.skip(0) =~= cs@);
    while i < cs.len()
        invariant
            i <= cs@.len(),
            outside_tags(cs@, false) == out@ + outside_tags(cs@.skip(i as int), in_tag),
        decreases cs@.len() - i,
    {
        let c = cs[i];
        let ghost before = out@;
        let ghost rest = cs@.skip(i as int);
        assert(rest[0] == c);
        assert(rest.skip(1) =~= cs@.skip(i + 1));
        if c == '<' {
            in_tag = true;
        } else if c == '>' {
            in_tag = false;
        } else if !in_tag {
            out.push(c);
            assert(before + (seq![c] + outside_tags(rest.skip(1), false)) =~= out@ + outside_tags(
                rest.skip(1),
                false,
            ));
        }
        i += 1;
    }
    assert(out@ + outside_tags(cs@.skip(i as int), in_tag) =~= out@);
    text::join(&text::words(out.as_str()), " ")
}

proof fn lemma_outside_tags_free(s: Seq<char>, in_tag: bool)
    ensures
        free_of(outside_tags(s, in_tag), '<'),
        free_of(outside_tags(s, in_tag), '>'),
    decreases s.len(),
{
    if s.len() > 0 {
        lemma_outside_tags_free(s.skip(1), true);
        lemma_outside_tags_free(s.skip(1), false);
        if s[0] != '<' && s[0] != '>' {
            lemma_free_of_sum(seq![s[0]], outside_tags(s.skip(1), false), '<');
            lemma_free_of_sum(seq![s[0]], outside_tags(s.skip(1), false), '>');
        }
    }
}

proof fn lemma_words_free(s: Seq<char>, at: int, c: char)
    requires
        free_of(s, c),
    ensures
        forall|i: int| 0 <= i < text::words_from(s, at).len() ==> free_of(#[trigger] text::words_from(s, at)[i], c),
    decreases s.len() - at,
{
    let i = text::next_white(s, at, false);
    let j = text::next_white(s, i, true);
    if 0 <= at <= i < j <= s.len() {
        lemma_words_free(s, j, c);
        let word = s.subrange(i, j);
        assert forall|k: int| 0 <= k < word.len() implies #[trigger] word[k] != c by {
            assert(word[k] == s[i + k]);
        }
        assert forall|k: int| 0 <= k < text::words_from(s, at).len() implies free_of(
            #[trigger] text::words_from(s, at)[k],
            c,
        ) by {
            if k > 0 {
                assert(text::words_from(s, at)[k] == text::words_from(s, j)[k - 1]);
            } else {
                assert(text::words_from(s, at)[k] == word);
            }
        }
    }
}

proof fn lemma_joined_free(parts: Seq<Seq<char>>, sep: Seq<char>, c: char)
    requires
        forall|i: int| 0 <= i < parts.len() ==> free_of(#[trigger] parts[i], c),
        free_of(sep, c),
    ensures
        free_of(text::joined(parts, sep), c),
    decreases parts.len(),
{
    if parts.len() > 1 {
        assert forall|i: int| 0 <= i < parts.drop_last().len() implies free_of(
            #[trigger] parts.drop_last()[i],
            c,
        ) by {
            assert(parts.drop_last()[i] == parts[i]);
        }
        lemma_joined_free(parts.drop_last(), sep, c);
        lemma_free_of_sum(text::joined(parts.drop_last(), sep), sep, c);
        lemma_free_of_sum(text::joined(parts.drop_last(), sep) + sep, parts.last(), c);
    }
}

/// Stripped text holds no angle bracket: no tag is left in it.
pub proof fn law_stripped(s: Seq<char>)
    ensures
        free_of(stripped(s), '<'),
        free_of(stripped(s), '>'),
{
    let t = outside_tags(s, false);
    lemma_outside_tags_free(s, false);
    reveal_strlit(" ");
    lemma_words_free(t, 0, '<');
    lemma_words_free(t, 0, '>');
    lemma_joined_free(text::words_of(t), " "@, '<');
    lemma_joined_free(text::words_of(t), " "@, '>');
}

proof fn lemma_outside_no_tags(s: Seq<char>)
    requires
        free_of(s, '<'),
        free_of(s, '>'),
    ensures
        outside_tags(s, false) == s,
    decreases s.len(),
{
    if s.len() > 0 {
        let rest = s.skip(1);
        assert forall|i: int| 0 <= i < rest.len() implies #[trigger] rest[i] != '<' && rest[i]
            != '>' by {
            assert(rest[i] == s[i + 1]);
        }
        lemma_outside_no_tags(rest);
        assert(s =~= seq![s[0]] + rest);
    }
}

/// The whitespace of stripped text is closed up: it begins and ends with none,
/// and has single spaces between its words.
pub proof fn law_stripped_closed_up(s: Seq<char>)
    ensures
        text::is_closed_up(stripped(s)),
{
    text::lemma_words_are_runs(outside_tags(s, false), 0);
    text::lemma_joined_closed_up(text::words_of(outside_tags(s, false)));
}

/// Stripping keeps the words outside the tags, in order; those of text without
/// angle brackets are all its words.
pub proof fn law_stripped_words(s: Seq<char>)
    ensures
        text::words_of(stripped(s)) == text::words_of(outside_tags(s, false)),
        free_of(s, '<') && free_of(s, '>') ==> text::words_of(stripped(s)) == text::words_of(s),
{
    text::lemma_words_are_runs(outside_tags(s, false), 0);
    text::lemma_words_of_joined(text::words_of(outside_tags(s, false)));
    if free_of(s, '<') && free_of(s, '>') {
        lemma_outside_no_tags(s);
    }
}

/// Stripping twice is stripping once.
pub proof fn law_stripped_twice(s: Seq<char>)
    ensures
        stripped(stripped(s)) == stripped(s),
{
    law_stripped(s);
    lemma_outside_no_tags(stripped(s));
    law_stripped_words(s);
}

// ---- what scanning finds ----

/// Every tag that is found stands in the document, begins with the wanted name,
/// which ends there, and runs up to its first `>`.
pub proof fn law_tags(xml: Seq<char>, open: Seq<char>, at: int, i: int)
    requires
        0 <= at,
        open.len() > 0,
        !open.contains('>'),
        0 <= i < tags_from(xml, open, at).len(),
    ensures
        ({
            let tag = tags_from(xml, open, at)[i];
            &&& tag.len() > open.len() && text::occurs_at(tag, open, 0) && tag.last() == '>'
            &&& ends_name(tag[open.len() as int])
            &&& forall|k: int| 0 <= k < tag.len() - 1 ==> #[trigger] tag[k] != '>'
            &&& exists|s: int| #[trigger] text::occurs_at(xml, tag, s) && s >= at
        }),
    decreases xml.len() - at,
{
    text::lemma_first_at(xml, open, at);
    let start = text::first_at(xml, open, at)->0;
    let after = start + open.len();
    text::lemma_first_char(xml, '>', start);
    if after < xml.len() && ends_name(xml[after]) && text::first_char(xml, '>', start) is Some {
        let gt = text::first_char(xml, '>', start)->0;
        let first = xml.subrange(start, gt + 1);
        if i == 0 {
            assert(tags_from(xml, open, at)[0] == first);
            assert(xml.subrange(start, after) == open);
            if gt < after {
                assert(xml.subrange(start, after)[gt - start] == xml[gt]);
                assert(open[gt - start] == '>');
            }
            assert(first.subrange(0, open.len() as int) =~= open);
            assert(text::occurs_at(xml, first, start));
        } else {
            assert(tags_from(xml, open, at)[i] == tags_from(xml, open, gt + 1)[i - 1]);
            law_tags(xml, open, gt + 1, i - 1);
            let s = choose|s: int|
                #[trigger] text::occurs_at(xml, tags_from(xml, open, gt + 1)[i - 1], s) && s >= gt
                    + 1;
            assert(text::occurs_at(xml, tags_from(xml, open, at)[i], s));
        }
    } else {
        law_tags(xml, open, after, i);
        let s = choose|s: int|
            #[trigger] text::occurs_at(xml, tags_from(xml, open, after)[i], s) && s >= after;
        assert(text::occurs_at(xml, tags_from(xml, open, at)[i], s));
    }
}

/// The first tag is found where the name first stands with an end behind it, and
/// the search goes on behind that tag; a document without the name has no tag.
pub proof fn law_first_tag(xml: Seq<char>, name: Seq<char>, start: int, gt: int)
    ensures
        text::first_at(xml, seq!['<'] + name, 0) is None ==> tags(xml, name).len() == 0,
        text::first_at(xml, seq!['<'] + name, 0) == Some(start) && start + 1 + name.len()
            < xml.len() && ends_name(xml[start + 1 + name.len()]) && text::first_char(
            xml,
            '>',
            start,
        ) == Some(gt) ==> tags(xml, name).len() > 0 && tags(xml, name)[0] == xml.subrange(
            start,
            gt + 1,
        ) && tags(xml, name).skip(1) == tags_from(xml, seq!['<'] + name, gt + 1),
{
    let open = seq!['<'] + name;
    text::lemma_first_at(xml, open, 0);
    if text::first_at(xml, open, 0) == Some(start) && start + 1 + name.len() < xml.len()
        && ends_name(xml[start + 1 + name.len()]) && text::first_char(xml, '>', start) == Some(gt) {
        text::lemma_first_char(xml, '>', start);
        let rest = tags_from(xml, open, gt + 1);
        assert(tags(xml, name) == seq![xml.subrange(start, gt + 1)] + rest);
        assert(tags(xml, name).skip(1) =~= rest);
    }
}

/// The text of an element is what stands between its opening and its closing
/// tag, trimmed and unescaped, of the first element that is not empty.
pub proof fn law_element_text(xml: Seq<char>, name: Seq<char>, start: int, gt: int, end: int)
    requires
        text::first_at(xml, seq!['<'] + name, 0) == Some(start),
        start + 1 + name.len() < xml.len(),
        text::is_ascii_white(xml[start + 1 + name.len()]) || xml[start + 1 + name.len()] == '>',
        text::first_char(xml, '>', start) == Some(gt),
        xml[gt - 1] != '/',
        text::first_at(xml, seq!['<', '/'] + name, gt + 1) == Some(end),
        unescaped(text::trimmed(xml.subrange(gt + 1, end))).len() > 0,
    ensures
        element_text(xml, name) == Some(unescaped(text::trimmed(xml.subrange(gt + 1, end)))),
{
    text::lemma_first_at(xml, seq!['<'] + name, 0);
}

/// What the closing tag of an element begins with.
pub open spec fn closer(name: Seq<char>) -> Seq<char> {
    seq!['<', '/'] + name
}

/// A text that is found is never empty, and is one of the document that stands
/// behind a `>` and before the closing tag; a document without the opening tag
/// has none.
pub proof fn law_found_text(xml: Seq<char>, name: Seq<char>)
    ensures
        text::first_at(xml, seq!['<'] + name, 0) is None ==> element_text(xml, name) is None,
        element_text(xml, name) matches Some(t) ==> t.len() > 0 && exists|gt: int, end: int|
            {
                &&& 0 <= gt < end
                &&& #[trigger] text::occurs_at(xml, closer(name), end)
                &&& t == unescaped(text::trimmed(#[trigger] xml.subrange(gt + 1, end)))
                &&& xml[gt] == '>'
            },
{
    lemma_found_text(xml, seq!['<'] + name, closer(name), 0);
}

proof fn lemma_found_text(xml: Seq<char>, open: Seq<char>, close: Seq<char>, at: int)
    requires
        0 <= at,
    ensures
        text_from(xml, open, close, at) matches Some(t) ==> t.len() > 0 && exists|gt: int, end: int|
            {
                &&& 0 <= gt < end
                &&& #[trigger] text::occurs_at(xml, close, end)
                &&& t == unescaped(text::trimmed(#[trigger] xml.subrange(gt + 1, end)))
                &&& xml[gt] == '>'
            },
    decreases xml.len() - at,
{
    text::lemma_first_at(xml, open, at);
    if let Some(start) = text::first_at(xml, open, at) {
        if 0 <= at <= start && open.len() > 0 && start + open.len() <= xml.len() {
            let after = start + open.len();
            lemma_found_text(xml, open, close, after);
            text::lemma_first_char(xml, '>', start);
            if let Some(gt) = text::first_char(xml, '>', start) {
                text::lemma_first_at(xml, close, gt + 1);
                if let Some(end) = text::first_at(xml, close, gt + 1) {
                    assert(text::occurs_at(xml, close, end));
                    let inner = xml.subrange(gt + 1, end);
                }
            }
        }
    }
}

/// The value of an attribute is what stands between the quotes behind its name,
/// unescaped.
pub proof fn law_attribute_value(
    before: Seq<char>,
    name: Seq<char>,
    value: Seq<char>,
    rest: Seq<char>,
)
    requires
        !value.contains('"'),
        before.len() == 0 || !is_name_char(before.last()),
        forall|j: int|
            0 <= j < before.len() ==> !#[trigger] names_at(
                before + opener(name) + value + seq!['"'] + rest,
                opener(name),
                j,
            ),
    ensures
        attribute(before + opener(name) + value + seq!['"'] + rest, name) == Some(
            unescaped(value),
        ),
{
    let open = opener(name);
    let tag = before + open + value + seq!['"'] + rest;
    let n = before.len() as int;
    assert(tag.subrange(n, n + open.len()) =~= open);
    assert(names_at(tag, open, n));
    lemma_first_named(tag, open, 0);
    let i = first_named(tag, open, 0)->0;
    if i < n {
        assert(!names_at(tag, open, i));
    } else if n < i {
        assert(!names_at(tag, open, n));
    }
    let from = n + open.len();
    text::lemma_first_char(tag, '"', from);
    assert(tag[from + value.len()] == '"');
    let end = text::first_char(tag, '"', from)->0;
    if end < from + value.len() {
        assert(tag[end] == value[end - from]);
    }
    assert(tag.subrange(from, end) =~= value);
}

/// Markup is dropped with all it holds, and what stands outside of it is kept.
pub proof fn law_outside_tags(a: Seq<char>, t: Seq<char>, b: Seq<char>)
    requires
        free_of(a, '<'),
        free_of(a, '>'),
        free_of(t, '>'),
    ensures
        outside_tags(a + seq!['<'] + t + seq!['>'] + b, false) == a + outside_tags(b, false),
    decreases a.len() + t.len(),
{
    let s = a + seq!['<'] + t + seq!['>'] + b;
    if a.len() > 0 {
        assert(s.skip(1) =~= a.skip(1) + seq!['<'] + t + seq!['>'] + b);
        assert forall|i: int| 0 <= i < a.skip(1).len() implies #[trigger] a.skip(1)[i] != '<'
            && a.skip(1)[i] != '>' by {
            assert(a.skip(1)[i] == a[i + 1]);
        }
        law_outside_tags(a.skip(1), t, b);
        assert(seq![a[0]] + (a.skip(1) + outside_tags(b, false)) =~= a + outside_tags(b, false));
    } else {
        assert(s.skip(1) =~= t + seq!['>'] + b);
        lemma_inside_tag(t, b);
        assert(a + outside_tags(b, false) =~= outside_tags(b, false));
    }
}

proof fn lemma_inside_tag(t: Seq<char>, b: Seq<char>)
    requires
        free_of(t, '>'),
    ensures
        outside_tags(t + seq!['>'] + b, true) == outside_tags(b, false),
    decreases t.len(),
{
    let s = t + seq!['>'] + b;
    if t.len() > 0 {
        assert(s.skip(1) =~= t.skip(1) + seq!['>'] + b);
        assert forall|i: int| 0 <= i < t.skip(1).len() implies #[trigger] t.skip(1)[i] != '>' by {
            assert(t.skip(1)[i] == t[i + 1]);
        }
        lemma_inside_tag(t.skip(1), b);
    } else {
        assert(s.skip(1) =~= b);
    }
}

proof fn lemma_no_entity(s: Seq<char>, p: Seq<char>, r: Seq<char>)
    requires
        free_of(s, '&'),
        p.len() > 0,
        p[0] == '&',
    ensures
        text::replaced(s, p, r) == s,
{
    text::lemma_first_at(s, p, 0);
    if let Some(i) = text::first_at(s, p, 0) {
        assert(s.subrange(i, i + p.len())[0] == s[i]);
    }
    text::law_replaced(s, p, r);
}

/// Text without an ampersand is not changed by unescaping.
pub proof fn law_unescaped_plain(s: Seq<char>)
    requires
        free_of(s, '&'),
    ensures
        unescaped(s) == s,
{
    reveal_strlit("&amp;");
    reveal_strlit("&lt;");
    reveal_strlit("&gt;");
    reveal_strlit("&quot;");
    reveal_strlit("&apos;");
    reveal_strlit("&#39;");
    lemma_no_entity(s, "&amp;"@, "&"@);
    lemma_no_entity(s, "&lt;"@, "<"@);
    lemma_no_entity(s, "&gt;"@, ">"@);
    lemma_no_entity(s, "&quot;"@, "\""@);
    lemma_no_entity(s, "&apos;"@, "'"@);
    lemma_no_entity(s, "&#39;"@, "'"@);
}

proof fn lemma_other_entity(
    a: Seq<char>,
    e: Seq<char>,
    b: Seq<char>,
    p: Seq<char>,
    r: Seq<char>,
    k: int,
)
    requires
        free_of(a, '&'),
        free_of(b, '&'),
        e.len() > 0,
        e[0] == '&',
        forall|i: int| 1 <= i < e.len() ==> #[trigger] e[i] != '&',
        p.len() > 0,
        p[0] == '&',
        0 <= k < e.len(),
        k < p.len(),
        e[k] != p[k],
    ensures
        text::replaced(a + e + b, p, r) == a + e + b,
{
    let s = a + e + b;
    text::lemma_first_at(s, p, 0);
    if let Some(i) = text::first_at(s, p, 0) {
        assert(s.subrange(i, i + p.len())[0] == s[i]);
        assert(s.subrange(i, i + p.len())[k] == s[i + k]);
        if i < a.len() {
            assert(s[i] == a[i]);
        } else if i < a.len() + e.len() {
            assert(s[i] == e[i - a.len()]);
        } else {
            assert(s[i] == b[i - a.len() - e.len()]);
        }
        assert(i == a.len());
        assert(s[i + k] == e[k]);
    }
    text::law_replaced(s, p, r);
}

proof fn lemma_this_entity(a: Seq<char>, e: Seq<char>, b: Seq<char>, r: Seq<char>)
    requires
        free_of(a, '&'),
        free_of(b, '&'),
        e.len() > 0,
        e[0] == '&',
    ensures
        text::replaced(a + e + b, e, r) == a + r + b,
{
    let s = a + e + b;
    text::lemma_first_at(s, e, 0);
    assert(s.subrange(a.len() as int, (a.len() + e.len()) as int) =~= e);
    assert(text::occurs_at(s, e, a.len() as int));
    let i = text::first_at(s, e, 0)->0;
    if i < a.len() {
        assert(s.subrange(i, i + e.len())[0] == s[i]);
        assert(s[i] == a[i]);
    }
    text::law_replaced(s, e, r);
    assert(s.skip((a.len() + e.len()) as int) =~= b);
    assert(s.take(a.len() as int) =~= a);
    lemma_no_entity(b, e, r);
}

/// Both spellings of the apostrophe are read as one.
pub proof fn law_unescaped_apostrophe(a: Seq<char>, b: Seq<char>)
    requires
        free_of(a, '&'),
        free_of(b, '&'),
    ensures
        unescaped(a + "&apos;"@ + b) == a + seq!['\''] + b,
        unescaped(a + "&#39;"@ + b) == a + seq!['\''] + b,
{
    reveal_strlit("&amp;");
    reveal_strlit("&lt;");
    reveal_strlit("&gt;");
    reveal_strlit("&quot;");
    reveal_strlit("&apos;");
    reveal_strlit("&#39;");
    reveal_strlit("'");
    let apos = "&apos;"@;
    let code = "&#39;"@;
    assert("'"@ =~= seq!['\'']);
    lemma_other_entity(a, apos, b, "&amp;"@, "&"@, 2);
    lemma_other_entity(a, apos, b, "&lt;"@, "<"@, 1);
    lemma_other_entity(a, apos, b, "&gt;"@, ">"@, 1);
    lemma_other_entity(a, apos, b, "&quot;"@, "\""@, 1);
    lemma_this_entity(a, apos, b, "'"@);
    let t = a + seq!['\''] + b;
    assert forall|i: int| 0 <= i < t.len() implies #[trigger] t[i] != '&' by {
        if i < a.len() {
            assert(t[i] == a[i]);
        } else if i > a.len() {
            assert(t[i] == b[i - a.len() - 1]);
        }
    }
    lemma_no_entity(t, code, "'"@);
    lemma_other_entity(a, code, b, "&amp;"@, "&"@, 1);
    lemma_other_entity(a, code, b, "&lt;"@, "<"@, 1);
    lemma_other_entity(a, code, b, "&gt;"@, ">"@, 1);
    lemma_other_entity(a, code, b, "&quot;"@, "\""@, 1);
    lemma_other_entity(a, code, b, apos, "'"@, 1);
    lemma_this_entity(a, code, b, "'"@);
}

/// The ampersand is read from its entity, where nothing behind it makes another.
pub proof fn law_unescaped_ampersand(a: Seq<char>, b: Seq<char>)
    requires
        free_of(a, '&'),
        free_of(b, '&'),
        free_of(b, ';'),
    ensures
        unescaped(a + "&amp;"@ + b) == a + seq!['&'] + b,
{
    reveal_strlit("&amp;");
    reveal_strlit("&lt;");
    reveal_strlit("&gt;");
    reveal_strlit("&quot;");
    reveal_strlit("&apos;");
    reveal_strlit("&#39;");
    reveal_strlit("&");
    assert("&"@ =~= seq!['&']);
    lemma_this_entity(a, "&amp;"@, b, "&"@);
    let t = a + seq!['&'] + b;
    lemma_unfinished(a, b, "&lt;"@, "<"@);
    lemma_unfinished(a, b, "&gt;"@, ">"@);
    lemma_unfinished(a, b, "&quot;"@, "\""@);
    lemma_unfinished(a, b, "&apos;"@, "'"@);
    lemma_unfinished(a, b, "&#39;"@, "'"@);
}

proof fn lemma_unfinished(a: Seq<char>, b: Seq<char>, p: Seq<char>, r: Seq<char>)
    requires
        free_of(a, '&'),
        free_of(b, '&'),
        free_of(b, ';'),
        p.len() > 1,
        p[0] == '&',
        p.last() == ';',
    ensures
        text::replaced(a + seq!['&'] + b, p, r) == a + seq!['&'] + b,
{
    let s = a + seq!['&'] + b;
    text::lemma_first_at(s, p, 0);
    if let Some(i) = text::first_at(s, p, 0) {
        assert(s.subrange(i, i + p.len())[0] == s[i]);
        assert(s.subrange(i, i + p.len())[p.len() - 1] == s[i + p.len() - 1]);
        if i < a.len() {
            assert(s[i] == a[i]);
        } else if i > a.len() {
            assert(s[i] == b[i - a.len() - 1]);
        }
        assert(i == a.len());
        assert(s[i + p.len() - 1] == b[p.len() - 2]);
    }
    text::law_replaced(s, p, r);
}

/// Letters, digits and the marks `-`, `_`, `.` and `:` belong to names; blanks,
/// quotes and the marks of tags do not.
pub proof fn law_name_char(c: char)
    ensures
        text::is_word_char(c) || c == '-' || c == '_' || c == '.' || c == ':' ==> is_name_char(c),
        c == ' ' || c == '\t' || c == '\n' || c == '\r' || c == '"' || c == '\'' || c == '=' || c
            == '<' || c == '>' || c == '/' || c == '&' ==> !is_name_char(c),
{
}

/// The end of a longer name is not taken for the name: an attribute is never read
/// from a place where the character before it belongs to the same name.
pub proof fn law_whole_name(tag: Seq<char>, name: Seq<char>, i: int)
    requires
        name.len() > 0,
        is_name_char(name[0]),
        first_named(tag, opener(name), 0) == Some(i),
    ensures
        text::occurs_at(tag, name + seq!['=', '"'], i),
        i == 0 || !is_name_char(tag[i - 1]),
{
    lemma_first_named(tag, opener(name), 0);
    assert(opener(name)[0] == name[0]);
}

} // verus!
