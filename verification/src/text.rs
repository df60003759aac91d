//! Text, modelled as a sequence of characters.
//!
//! Every routine here has a specification over `Seq<char>`: searching,
//! replacing, trimming, splitting, and reading and writing decimal numbers.

use vstd::prelude::*;
use vstd::string::*;
use vstd::utf8::*;

verus! {

// ---- trusted standard-library items ----

/// `String::push` appends one character to the end of the string.
pub assume_specification[ String::push ](s: &mut String, c: char)
    ensures
        final(s)@ == old(s)@.push(c),
;

/// The lowercase form of text that is not plain ASCII, as
/// `str::to_lowercase` gives it (the Unicode tables are not spelled out).
pub uninterp spec fn unicode_lowercase(s: Seq<char>) -> Seq<char>;

/// `str::to_lowercase` maps the letters `A` to `Z` of ASCII text to `a` to `z`
/// and leaves the rest of it alone; on other text it is a function of the text.
pub assume_specification[ str::to_lowercase ](s: &str) -> (r: String)
    ensures
        r@ == if is_ascii_chars(s@) {
            ascii_lowered(s@)
        } else {
            unicode_lowercase(s@)
        },
;

// ---- characters ----

/// The characters of the Unicode property White_Space.
pub open spec fn is_white(c: char) -> bool {
    ||| '\u{9}' <= c <= '\u{d}'
    ||| c == ' '
    ||| c == '\u{85}'
    ||| c == '\u{a0}'
    ||| c == '\u{1680}'
    ||| '\u{2000}' <= c <= '\u{200a}'
    ||| c == '\u{2028}'
    ||| c == '\u{2029}'
    ||| c == '\u{202f}'
    ||| c == '\u{205f}'
    ||| c == '\u{3000}'
}

/// The control characters of Unicode (general category Cc).
pub open spec fn is_control(c: char) -> bool {
    c <= '\u{1f}' || '\u{7f}' <= c <= '\u{9f}'
}

/// The whitespace of ASCII: space, tab, line feed, form feed, carriage return.
pub open spec fn is_ascii_white(c: char) -> bool {
    c == ' ' || c == '\t' || c == '\n' || c == '\u{c}' || c == '\r'
}

pub open spec fn is_digit(c: char) -> bool {
    '0' <= c <= '9'
}

pub open spec fn is_hex_digit(c: char) -> bool {
    is_digit(c) || 'a' <= c <= 'f' || 'A' <= c <= 'F'
}

/// An ASCII letter or digit.
pub open spec fn is_word_char(c: char) -> bool {
    is_digit(c) || 'a' <= c <= 'z' || 'A' <= c <= 'Z'
}

/// The lowercase form of an ASCII letter; every other character itself.
pub open spec fn ascii_lowered_char(c: char) -> char {
    if 'A' <= c <= 'Z' {
        (c as u8 + 32) as char
    } else {
        c
    }
}

pub open spec fn ascii_lowered(s: Seq<char>) -> Seq<char> {
    s.map_values(|c: char| ascii_lowered_char(c))
}

/// Is `c` whitespace?
pub fn white(c: char) -> (r: bool)
    ensures
        r == is_white(c),
{
    ('\u{9}' <= c && c <= '\u{d}') || c == ' ' || c == '\u{85}' || c == '\u{a0}' || c == '\u{1680}'
        || ('\u{2000}' <= c && c <= '\u{200a}') || c == '\u{2028}' || c == '\u{2029}' || c
        == '\u{202f}' || c == '\u{205f}' || c == '\u{3000}'
}

/// Is `c` a control character?
pub fn control(c: char) -> (r: bool)
    ensures
        r == is_control(c),
{
    c <= '\u{1f}' || ('\u{7f}' <= c && c <= '\u{9f}')
}

/// Is `c` ASCII whitespace?
pub fn ascii_white(c: char) -> (r: bool)
    ensures
        r == is_ascii_white(c),
{
    c == ' ' || c == '\t' || c == '\n' || c == '\u{c}' || c == '\r'
}

/// Is `c` an ASCII letter or digit?
pub fn word_char(c: char) -> (r: bool)
    ensures
        r == is_word_char(c),
{
    ('0' <= c && c <= '9') || ('a' <= c && c <= 'z') || ('A' <= c && c <= 'Z')
}

/// Is `c` a hexadecimal digit?
pub fn hex_digit(c: char) -> (r: bool)
    ensures
        r == is_hex_digit(c),
{
    ('0' <= c && c <= '9') || ('a' <= c && c <= 'f') || ('A' <= c && c <= 'F')
}

/// The lowercase form of an ASCII letter; every other character itself.
pub fn lower_char(c: char) -> (r: char)
    ensures
        r == ascii_lowered_char(c),
{
    if 'A' <= c && c <= 'Z' {
        (c as u8 + 32) as char
    } else {
        c
    }
}

// ---- between strings and characters ----

/// The characters of `s`.
pub fn chars_of(s: &str) -> (r: Vec<char>)
    ensures
        r@ == s@,
{
    let mut out: Vec<char> = Vec::new();
    for c in it: s.chars()
        invariant
            out@ == s@.take(it.index() as int),
            it.seq() == s@,
    {
        out.push(c);
        assert(s@.take(it.index() as int + 1) =~= s@.take(it.index() as int).push(c));
    }
    assert(s@.take(s@.len() as int) =~= s@);
    out
}

/// The string that `cs` spells.
pub fn string_of(cs: &[char]) -> (r: String)
    ensures
        r@ == cs@,
{
    let mut out: String = String::new();
    let mut i: usize = 0;
    while i < cs.len()
        invariant
            i <= cs@.len(),
            out@ == cs@.take(i as int),
        decreases cs@.len() - i,
    {
        out.push(cs[i]);
        assert(cs@.take(i as int + 1) =~= cs@.take(i as int).push(cs@[i as int]));
        i += 1;
    }
    assert(cs@.take(cs@.len() as int) =~= cs@);
    out
}

/// Do `a` and `b` spell the same text?
pub fn same(a: &str, b: &str) -> (r: bool)
    ensures
        r == (a@ == b@),
{
    let x = a.as_bytes();
    let y = b.as_bytes();
    proof {
        encode_utf8_decode_utf8(a@);
        encode_utf8_decode_utf8(b@);
    }
    if x.len() != y.len() {
        return false;
    }
    let mut i: usize = 0;
    while i < x.len()
        invariant
            x@ == encode_utf8(a@),
            y@ == encode_utf8(b@),
            x@.len() == y@.len(),
            i <= x@.len(),
            forall|j: int| 0 <= j < i ==> x@[j] == y@[j],
        decreases x@.len() - i,
    {
        if x[i] != y[i] {
            return false;
        }
        i += 1;
    }
    assert(x@ =~= y@);
    true
}

/// Is `o` some text, and that text `s`?
pub fn is_text(o: &Option<String>, s: &str) -> (r: bool)
    ensures
        r == (o.deep_view() == Some(s@)),
{
    match o {
        Some(t) => same(t.as_str(), s),
        None => false,
    }
}

// ---- searching ----

/// `p` stands in `s` at position `i`.
pub open spec fn occurs_at(s: Seq<char>, p: Seq<char>, i: int) -> bool {
    0 <= i && i + p.len() <= s.len() && s.subrange(i, i + p.len()) == p
}

/// The first position, from `from` on, at which `p` stands in `s`.
pub open spec fn first_at(s: Seq<char>, p: Seq<char>, from: int) -> Option<int>
    decreases s.len() + 1 - from,
{
    if from < 0 || from + p.len() > s.len() {
        None
    } else if occurs_at(s, p, from) {
        Some(from)
    } else {
        first_at(s, p, from + 1)
    }
}

/// The first position, from `from` on, at which the character `c` stands in `s`.
pub open spec fn first_char(s: Seq<char>, c: char, from: int) -> Option<int>
    decreases s.len() - from,
{
    if from < 0 || from >= s.len() {
        None
    } else if s[from] == c {
        Some(from)
    } else {
        first_char(s, c, from + 1)
    }
}

/// `p` stands somewhere in `s`.
pub open spec fn has(s: Seq<char>, p: Seq<char>) -> bool {
    first_at(s, p, 0) is Some
}

/// `first_at` is the least position at which the pattern stands, and is `None`
/// exactly when there is no such position.
pub proof fn lemma_first_at(s: Seq<char>, p: Seq<char>, from: int)
    requires
        0 <= from,
    ensures
        match first_at(s, p, from) {
            Some(i) => from <= i && occurs_at(s, p, i) && (forall|j: int|
                from <= j < i ==> !#[trigger] occurs_at(s, p, j)),
            None => forall|j: int| from <= j ==> !#[trigger] occurs_at(s, p, j),
        },
    decreases s.len() + 1 - from,
{
    if from + p.len() <= s.len() && !occurs_at(s, p, from) {
        lemma_first_at(s, p, from + 1);
    }
}

/// A text has a pattern exactly when the pattern stands in it at some position.
pub proof fn law_has(s: Seq<char>, p: Seq<char>)
    ensures
        has(s, p) <==> exists|i: int| #[trigger] occurs_at(s, p, i),
{
    lemma_first_at(s, p, 0);
}

pub proof fn lemma_first_char(s: Seq<char>, c: char, from: int)
    requires
        0 <= from,
    ensures
        match first_char(s, c, from) {
            Some(i) => from <= i < s.len() && s[i] == c && (forall|j: int|
                from <= j < i ==> s[j] != c),
            None => forall|j: int| from <= j < s.len() ==> s[j] != c,
        },
    decreases s.len() - from,
{
    if from < s.len() && s[from] != c {
        lemma_first_char(s, c, from + 1);
    }
}

/// Does `p` stand in `s` at position `i`?
pub fn matches_at(s: &[char], p: &[char], i: usize) -> (r: bool)
    ensures
        r == occurs_at(s@, p@, i as int),
{
    if i > s.len() || p.len() > s.len() - i {
        return false;
    }
    let mut k: usize = 0;
    while k < p.len()
        invariant
            i + p@.len() <= s.len(),
            k <= p@.len(),
            forall|j: int| 0 <= j < k ==> s@[i + j] == p@[j],
        decreases p@.len() - k,
    {
        if s[i + k] != p[k] {
            assert(s@.subrange(i as int, i + p@.len())[k as int] != p@[k as int]);
            return false;
        }
        k += 1;
    }
    assert(s@.subrange(i as int, i + p@.len()) =~= p@);
    true
}

/// The first position, from `from` on, at which `p` stands in `s`.
pub fn find_from(s: &[char], p: &[char], from: usize) -> (r: Option<usize>)
    ensures
        match r {
            Some(i) => first_at(s@, p@, from as int) == Some(i as int) && from <= i && i
                + p@.len() <= s@.len(),
            None => first_at(s@, p@, from as int) is None,
        },
{
    let mut i: usize = from;
    while i <= s.len() && p.len() <= s.len() - i
        invariant
            from <= i,
            first_at(s@, p@, from as int) == first_at(s@, p@, i as int),
        decreases s@.len() + 1 - i,
    {
        if matches_at(s, p, i) {
            return Some(i);
        }
        assert(i < s@.len()) by {
            if i == s@.len() {
                assert(s@.subrange(i as int, i as int) =~= p@);
            }
        }
        i += 1;
    }
    None
}

/// The first position, from `from` on, at which the character `c` stands in `s`.
pub fn find_char(s: &[char], c: char, from: usize) -> (r: Option<usize>)
    ensures
        match r {
            Some(i) => first_char(s@, c, from as int) == Some(i as int) && from <= i < s@.len()
                && s@[i as int] == c,
            None => first_char(s@, c, from as int) is None,
        },
{
    let mut i: usize = from;
    while i < s.len()
        invariant
            from <= i,
            first_char(s@, c, from as int) == first_char(s@, c, i as int),
        decreases s@.len() - i,
    {
        if s[i] == c {
            return Some(i);
        }
        i += 1;
    }
    None
}

/// Does `p` stand somewhere in `s`?
pub fn contains(s: &str, p: &str) -> (r: bool)
    ensures
        r == has(s@, p@),
{
    let cs = chars_of(s);
    let ps = chars_of(p);
    match find_from(&cs, &ps, 0) {
        Some(_) => true,
        None => false,
    }
}

/// Does `s` begin with `p`?
pub fn starts_with(s: &str, p: &str) -> (r: bool)
    ensures
        r == occurs_at(s@, p@, 0),
{
    let cs = chars_of(s);
    let ps = chars_of(p);
    matches_at(&cs, &ps, 0)
}

// ---- replacing ----

/// `s` with every occurrence of `a`, taken from the left, replaced by `b`.
pub open spec fn replaced(s: Seq<char>, a: Seq<char>, b: Seq<char>) -> Seq<char>
    decreases s.len(),
{
    if a.len() == 0 || s.len() < a.len() {
        s
    } else if occurs_at(s, a, 0) {
        b + replaced(s.skip(a.len() as int), a, b)
    } else {
        seq![s[0]] + replaced(s.skip(1), a, b)
    }
}

/// `s` with every occurrence of `a`, taken from the left, replaced by `b`.
pub fn replace(s: &str, a: &str, b: &str) -> (r: String)
    requires
        a@.len() > 0,
    ensures
        r@ == replaced(s@, a@, b@),
{
    let cs = chars_of(s);
    let pat = chars_of(a);
    let mut out: String = String::new();
    let mut i: usize = 0;
    assert(cs@.skip(0) =~= cs@);
    while i < cs.len()
        invariant
            cs@ == s@,
            pat@ == a@,
            pat@.len() > 0,
            i <= cs@.len(),
            replaced(s@, a@, b@) == out@ + replaced(cs@.skip(i as int), a@, b@),
        decreases cs@.len() - i,
    {
        let ghost rest = cs@.skip(i as int);
        if matches_at(&cs, &pat, i) {
            assert(rest.subrange(0, pat@.len() as int) =~= cs@.subrange(i as int, i + pat@.len()));
            assert(rest.skip(pat@.len() as int) =~= cs@.skip(i + pat@.len()));
            let ghost before = out@;
            out.append(b);
            assert(before + (b@ + replaced(cs@.skip(i + pat@.len()), a@, b@)) =~= out@ + replaced(
                cs@.skip(i + pat@.len()),
                a@,
                b@,
            ));
            i += pat.len();
        } else {
            proof {
                if rest.len() >= pat@.len() {
                    assert(rest.subrange(0, pat@.len() as int) =~= cs@.subrange(
                        i as int,
                        i + pat@.len(),
                    ));
                } else {
                    assert(rest.skip(1).len() < pat@.len());
                    assert(rest =~= seq![rest[0]] + rest.skip(1));
                }
            }
            assert(rest.skip(1) =~= cs@.skip(i + 1));
            let ghost before = out@;
            out.push(cs[i]);
            assert(before + (seq![rest[0]] + replaced(cs@.skip(i + 1), a@, b@)) =~= out@
                + replaced(cs@.skip(i + 1), a@, b@));
            i += 1;
        }
    }
    assert(out@ + cs@.skip(i as int) =~= out@);
    out
}

// ---- trimming ----

/// A set of characters to trim.
#[derive(Clone, Copy)]
pub enum CharSet {
    /// Unicode whitespace.
    White,
    /// The full stop.
    Dot,
    /// The slash.
    Slash,
    /// The slash and the backslash.
    AnySlash,
}

impl CharSet {
    pub open spec fn has(self, c: char) -> bool {
        match self {
            CharSet::White => is_white(c),
            CharSet::Dot => c == '.',
            CharSet::Slash => c == '/',
            CharSet::AnySlash => c == '/' || c == '\\',
        }
    }

    /// Is `c` in the set?
    pub fn holds(self, c: char) -> (r: bool)
        ensures
            r == self.has(c),
    {
        match self {
            CharSet::White => white(c),
            CharSet::Dot => c == '.',
            CharSet::Slash => c == '/',
            CharSet::AnySlash => c == '/' || c == '\\',
        }
    }
}

/// `s` without its leading characters of `set`.
pub open spec fn trimmed_start(s: Seq<char>, set: CharSet) -> Seq<char>
    decreases s.len(),
{
    if s.len() > 0 && set.has(s[0]) {
        trimmed_start(s.skip(1), set)
    } else {
        s
    }
}

/// `s` without its trailing characters of `set`.
pub open spec fn trimmed_end(s: Seq<char>, set: CharSet) -> Seq<char>
    decreases s.len(),
{
    if s.len() > 0 && set.has(s.last()) {
        trimmed_end(s.drop_last(), set)
    } else {
        s
    }
}

/// `s` without its leading and trailing characters of `set`.
pub open spec fn trimmed_of(s: Seq<char>, set: CharSet) -> Seq<char> {
    trimmed_end(trimmed_start(s, set), set)
}

/// `s` without leading and trailing whitespace.
pub open spec fn trimmed(s: Seq<char>) -> Seq<char> {
    trimmed_of(s, CharSet::White)
}

/// Trimming leaves a contiguous part of the text, with no character of the set
/// at its ends.
pub proof fn lemma_trimmed(s: Seq<char>, set: CharSet)
    ensures
        ({
            let t = trimmed_of(s, set);
            &&& t.len() <= s.len()
            &&& exists|i: int| #[trigger] occurs_at(s, t, i)
            &&& t.len() > 0 ==> !set.has(t[0]) && !set.has(t.last())
        }),
{
    let a = trimmed_start(s, set);
    lemma_trimmed_start(s, set);
    lemma_trimmed_end(a, set);
    let t = trimmed_end(a, set);
    let k = s.len() - a.len();
    assert(a.take(t.len() as int) =~= t);
    assert(s.subrange(k, k + t.len()) =~= t);
    assert(occurs_at(s, t, k));
}

pub proof fn lemma_trimmed_start(s: Seq<char>, set: CharSet)
    ensures
        trimmed_start(s, set).len() <= s.len(),
        trimmed_start(s, set) == s.skip(s.len() - trimmed_start(s, set).len()),
        trimmed_start(s, set).len() > 0 ==> !set.has(trimmed_start(s, set)[0]),
        forall|j: int| 0 <= j < s.len() - trimmed_start(s, set).len() ==> set.has(s[j]),
    decreases s.len(),
{
    if s.len() > 0 && set.has(s[0]) {
        lemma_trimmed_start(s.skip(1), set);
        assert(s.skip(1).skip(s.skip(1).len() - trimmed_start(s, set).len()) =~= s.skip(
            s.len() - trimmed_start(s, set).len(),
        ));
        assert forall|j: int| 0 <= j < s.len() - trimmed_start(s, set).len() implies set.has(
            s[j],
        ) by {
            if j > 0 {
                assert(s.skip(1)[j - 1] == s[j]);
            }
        }
    } else {
        assert(s.skip(0) =~= s);
    }
}

pub proof fn lemma_trimmed_end(s: Seq<char>, set: CharSet)
    ensures
        trimmed_end(s, set).len() <= s.len(),
        trimmed_end(s, set) == s.take(trimmed_end(s, set).len() as int),
        trimmed_end(s, set).len() > 0 ==> !set.has(trimmed_end(s, set).last()),
        forall|j: int| trimmed_end(s, set).len() <= j < s.len() ==> set.has(s[j]),
    decreases s.len(),
{
    if s.len() > 0 && set.has(s.last()) {
        lemma_trimmed_end(s.drop_last(), set);
        assert(s.drop_last().take(trimmed_end(s, set).len() as int) =~= s.take(
            trimmed_end(s, set).len() as int,
        ));
        assert forall|j: int| trimmed_end(s, set).len() <= j < s.len() implies set.has(s[j]) by {
            if j < s.len() - 1 {
                assert(s.drop_last()[j] == s[j]);
            }
        }
    } else {
        assert(s.take(s.len() as int) =~= s);
    }
}

/// How many leading characters of `cs` are in `set`.
pub fn leading(cs: &[char], set: CharSet) -> (r: usize)
    ensures
        r <= cs@.len(),
        cs@.skip(r as int) == trimmed_start(cs@, set),
{
    let mut i: usize = 0;
    assert(cs@.skip(0) =~= cs@);
    while i < cs.len() && set.holds(cs[i])
        invariant
            i <= cs@.len(),
            trimmed_start(cs@, set) == trimmed_start(cs@.skip(i as int), set),
        decreases cs@.len() - i,
    {
        assert(cs@.skip(i as int).skip(1) =~= cs@.skip(i + 1));
        i += 1;
    }
    i
}

/// The length of `cs` without its trailing characters of `set`.
pub fn without_trailing(cs: &[char], set: CharSet) -> (r: usize)
    ensures
        r <= cs@.len(),
        cs@.take(r as int) == trimmed_end(cs@, set),
{
    let mut n: usize = cs.len();
    assert(cs@.take(n as int) =~= cs@);
    while n > 0 && set.holds(cs[n - 1])
        invariant
            n <= cs@.len(),
            trimmed_end(cs@, set) == trimmed_end(cs@.take(n as int), set),
        decreases n,
    {
        assert(cs@.take(n as int).drop_last() =~= cs@.take(n - 1));
        n -= 1;
    }
    n
}

/// `s` without its leading characters of `set`.
pub fn trim_start_of(s: &str, set: CharSet) -> (r: String)
    ensures
        r@ == trimmed_start(s@, set),
{
    let cs = chars_of(s);
    let a = leading(&cs, set);
    assert(cs@.subrange(a as int, cs@.len() as int) =~= cs@.skip(a as int));
    string_of(&cs[a..cs.len()])
}

/// `s` without its trailing characters of `set`.
pub fn trim_end_of(s: &str, set: CharSet) -> (r: String)
    ensures
        r@ == trimmed_end(s@, set),
{
    let cs = chars_of(s);
    let n = without_trailing(&cs, set);
    assert(cs@.subrange(0, n as int) =~= cs@.take(n as int));
    string_of(&cs[0..n])
}

/// `s` without its leading and trailing characters of `set`.
pub fn trim_of(s: &str, set: CharSet) -> (r: String)
    ensures
        r@ == trimmed_of(s@, set),
{
    let t = trim_start_of(s, set);
    trim_end_of(t.as_str(), set)
}

/// `s` without leading and trailing whitespace.
pub fn trim(s: &str) -> (r: String)
    ensures
        r@ == trimmed(s@),
{
    trim_of(s, CharSet::White)
}

/// `s` without the copies of `p` at its end.
pub open spec fn without_suffixes(s: Seq<char>, p: Seq<char>) -> Seq<char>
    decreases s.len(),
{
    if p.len() > 0 && ends(s, p) {
        without_suffixes(s.take(s.len() - p.len()), p)
    } else {
        s
    }
}

/// `s` without the copies of `p` at its end.
pub fn trim_end_text(s: &str, p: &str) -> (r: String)
    requires
        p@.len() > 0,
    ensures
        r@ == without_suffixes(s@, p@),
{
    let cs = chars_of(s);
    let ps = chars_of(p);
    let mut n: usize = cs.len();
    assert(cs@.take(n as int) =~= cs@);
    while ps.len() <= n && matches_at(&cs[0..n], &ps, n - ps.len())
        invariant
            cs@ == s@,
            ps@ == p@,
            ps@.len() > 0,
            n <= cs@.len(),
            without_suffixes(s@, p@) == without_suffixes(cs@.take(n as int), p@),
        decreases n,
    {
        assert(cs@.subrange(0, n as int) =~= cs@.take(n as int));
        assert(cs@.take(n as int).take(n - ps@.len()) =~= cs@.take(n - ps@.len()));
        n -= ps.len();
    }
    assert(cs@.subrange(0, n as int) =~= cs@.take(n as int));
    string_of(&cs[0..n])
}

/// Is `s` the empty text?
pub fn empty(s: &str) -> (r: bool)
    ensures
        r == (s@.len() == 0),
{
    s.unicode_len() == 0
}

/// The trimmed text, unless that is empty.
pub open spec fn filled(o: Option<Seq<char>>) -> Option<Seq<char>> {
    match o {
        Some(s) if trimmed(s).len() > 0 => Some(trimmed(s)),
        _ => None,
    }
}

/// The trimmed text of a form field; nothing where the field is absent or blank.
pub fn blank(o: &Option<String>) -> (r: Option<String>)
    ensures
        r.deep_view() == filled(o.deep_view()),
{
    match o {
        Some(s) => {
            let t = trim(s.as_str());
            if empty(t.as_str()) {
                None
            } else {
                Some(t)
            }
        },
        None => None,
    }
}

// ---- splitting and joining ----

/// The pieces of `s` from `at` on, between the occurrences of the character `c`.
pub open spec fn pieces_from(s: Seq<char>, c: char, at: int) -> Seq<Seq<char>>
    decreases s.len() - at,
{
    if at < 0 || at > s.len() {
        seq![]
    } else {
        match first_char(s, c, at) {
            Some(i) => if at <= i < s.len() {
                seq![s.subrange(at, i)] + pieces_from(s, c, i + 1)
            } else {
                seq![]
            },
            None => seq![s.skip(at)],
        }
    }
}

/// The pieces of `s` between the occurrences of the character `c`: one more
/// than there are occurrences.
pub open spec fn pieces(s: Seq<char>, c: char) -> Seq<Seq<char>> {
    pieces_from(s, c, 0)
}

/// The pieces of `s` between the occurrences of the character `c`.
pub fn split(s: &str, c: char) -> (r: Vec<String>)
    ensures
        r.deep_view() == pieces(s@, c),
{
    let cs = chars_of(s);
    let mut out: Vec<String> = Vec::new();
    let mut at: usize = 0;
    assert(out.deep_view() + pieces_from(s@, c, 0) =~= pieces_from(s@, c, 0));
    loop
        invariant
            cs@ == s@,
            at <= cs@.len(),
            pieces(s@, c) == out.deep_view() + pieces_from(s@, c, at as int),
        decreases cs@.len() - at,
    {
        let ghost before = out.deep_view();
        match find_char(&cs, c, at) {
            Some(i) => {
                out.push(string_of(&cs[at..i]));
                assert(out.deep_view() =~= before.push(cs@.subrange(at as int, i as int)));
                assert(before + (seq![cs@.subrange(at as int, i as int)] + pieces_from(
                    s@,
                    c,
                    i + 1,
                )) =~= out.deep_view() + pieces_from(s@, c, i + 1));
                at = i + 1;
            },
            None => {
                out.push(string_of(&cs[at..cs.len()]));
                assert(cs@.subrange(at as int, cs@.len() as int) =~= cs@.skip(at as int));
                assert(out.deep_view() =~= before.push(cs@.skip(at as int)));
                assert(out.deep_view() =~= before + seq![cs@.skip(at as int)]);
                return out;
            },
        }
    }
}

/// The pieces of `s` from `at` on, between the occurrences of the text `p`.
pub open spec fn pieces_by_from(s: Seq<char>, p: Seq<char>, at: int) -> Seq<Seq<char>>
    decreases s.len() - at,
{
    if at < 0 || at > s.len() || p.len() == 0 {
        seq![]
    } else {
        match first_at(s, p, at) {
            Some(i) => if at <= i && i + p.len() <= s.len() {
                seq![s.subrange(at, i)] + pieces_by_from(s, p, i + p.len())
            } else {
                seq![]
            },
            None => seq![s.skip(at)],
        }
    }
}

/// The pieces of `s` between the occurrences of the text `p`, taken from the left.
pub open spec fn pieces_by(s: Seq<char>, p: Seq<char>) -> Seq<Seq<char>> {
    pieces_by_from(s, p, 0)
}

/// The pieces of `s` between the occurrences of the text `p`, taken from the left.
pub fn split_by(s: &str, p: &str) -> (r: Vec<String>)
    requires
        p@.len() > 0,
    ensures
        r.deep_view() == pieces_by(s@, p@),
{
    let cs = chars_of(s);
    let ps = chars_of(p);
    let mut out: Vec<String> = Vec::new();
    let mut at: usize = 0;
    assert(out.deep_view() + pieces_by_from(s@, p@, 0) =~= pieces_by_from(s@, p@, 0));
    loop
        invariant
            cs@ == s@,
            ps@ == p@,
            ps@.len() > 0,
            at <= cs@.len(),
            pieces_by(s@, p@) == out.deep_view() + pieces_by_from(s@, p@, at as int),
        decreases cs@.len() - at,
    {
        let ghost before = out.deep_view();
        match find_from(&cs, &ps, at) {
            Some(i) => {
                out.push(string_of(&cs[at..i]));
                assert(out.deep_view() =~= before.push(cs@.subrange(at as int, i as int)));
                assert(before + (seq![cs@.subrange(at as int, i as int)] + pieces_by_from(
                    s@,
                    p@,
                    i + ps@.len(),
                )) =~= out.deep_view() + pieces_by_from(s@, p@, i + ps@.len()));
                assert(i + ps@.len() <= cs.len());
                at = i + ps.len();
            },
            None => {
                out.push(string_of(&cs[at..cs.len()]));
                assert(cs@.subrange(at as int, cs@.len() as int) =~= cs@.skip(at as int));
                assert(out.deep_view() =~= before.push(cs@.skip(at as int)));
                assert(out.deep_view() =~= before + seq![cs@.skip(at as int)]);
                return out;
            },
        }
    }
}

/// There is always a piece.
pub proof fn lemma_some_piece(s: Seq<char>, c: char)
    ensures
        pieces(s, c).len() > 0,
{
    lemma_first_char(s, c, 0);
}

pub proof fn lemma_some_piece_by(s: Seq<char>, p: Seq<char>)
    requires
        p.len() > 0,
    ensures
        pieces_by(s, p).len() > 0,
{
    lemma_first_at(s, p, 0);
}

/// The first position, from `at` on, whose character is whitespace exactly if
/// `want`; the length of `s` if there is none.
pub open spec fn next_white(s: Seq<char>, at: int, want: bool) -> int
    decreases s.len() - at,
{
    if at < 0 || at >= s.len() {
        s.len() as int
    } else if is_white(s[at]) == want {
        at
    } else {
        next_white(s, at + 1, want)
    }
}

pub proof fn lemma_next_white(s: Seq<char>, at: int, want: bool)
    requires
        0 <= at <= s.len(),
    ensures
        at <= next_white(s, at, want) <= s.len(),
        next_white(s, at, want) < s.len() ==> is_white(s[next_white(s, at, want)]) == want,
        forall|j: int| at <= j < next_white(s, at, want) ==> is_white(s[j]) != want,
    decreases s.len() - at,
{
    if at < s.len() && is_white(s[at]) != want {
        lemma_next_white(s, at + 1, want);
    }
}

/// The maximal runs of characters other than whitespace, from `at` on.
pub open spec fn words_from(s: Seq<char>, at: int) -> Seq<Seq<char>>
    decreases s.len() - at,
{
    let i = next_white(s, at, false);
    let j = next_white(s, i, true);
    if 0 <= at <= i < j <= s.len() {
        seq![s.subrange(i, j)] + words_from(s, j)
    } else {
        seq![]
    }
}

/// The words of `s`: its maximal runs of characters other than whitespace.
pub open spec fn words_of(s: Seq<char>) -> Seq<Seq<char>> {
    words_from(s, 0)
}

fn find_white(s: &[char], at: usize, want: bool) -> (r: usize)
    requires
        at <= s@.len(),
    ensures
        r == next_white(s@, at as int, want),
        at <= r <= s@.len(),
        r < s@.len() ==> is_white(s@[r as int]) == want,
{
    let mut i: usize = at;
    while i < s.len()
        invariant
            at <= i <= s@.len(),
            next_white(s@, at as int, want) == next_white(s@, i as int, want),
        decreases s@.len() - i,
    {
        if white(s[i]) == want {
            return i;
        }
        i += 1;
    }
    i
}

/// The words of `s`, in order.
pub fn words(s: &str) -> (r: Vec<String>)
    ensures
        r.deep_view() == words_of(s@),
{
    let cs = chars_of(s);
    let mut out: Vec<String> = Vec::new();
    let mut at: usize = 0;
    assert(out.deep_view() + words_from(s@, 0) =~= words_from(s@, 0));
    loop
        invariant
            cs@ == s@,
            at <= cs@.len(),
            words_of(s@) == out.deep_view() + words_from(s@, at as int),
        decreases cs@.len() - at,
    {
        let i = find_white(&cs, at, false);
        let j = find_white(&cs, i, true);
        if i == j {
            assert(out.deep_view() + words_from(s@, at as int) =~= out.deep_view());
            return out;
        }
        let ghost before = out.deep_view();
        out.push(string_of(&cs[i..j]));
        assert(out.deep_view() =~= before.push(cs@.subrange(i as int, j as int)));
        assert(before + (seq![cs@.subrange(i as int, j as int)] + words_from(s@, j as int))
            =~= out.deep_view() + words_from(s@, j as int));
        at = j;
    }
}

/// The texts of `parts`, with `sep` between each two.
pub open spec fn joined(parts: Seq<Seq<char>>, sep: Seq<char>) -> Seq<char>
    decreases parts.len(),
{
    if parts.len() == 0 {
        seq![]
    } else if parts.len() == 1 {
        parts[0]
    } else {
        joined(parts.drop_last(), sep) + sep + parts.last()
    }
}

/// A word: not empty, and without whitespace.
pub open spec fn is_run(w: Seq<char>) -> bool {
    w.len() > 0 && forall|i: int| 0 <= i < w.len() ==> !is_white(#[trigger] w[i])
}

/// What words are: maximal runs are runs.
pub proof fn lemma_words_are_runs(s: Seq<char>, at: int)
    ensures
        forall|k: int| 0 <= k < words_from(s, at).len() ==> is_run(#[trigger] words_from(s, at)[k]),
    decreases s.len() - at,
{
    let i = next_white(s, at, false);
    let j = next_white(s, i, true);
    if 0 <= at <= i < j <= s.len() {
        lemma_next_white(s, i, true);
        lemma_words_are_runs(s, j);
        let w = s.subrange(i, j);
        assert forall|k: int| 0 <= k < w.len() implies !is_white(#[trigger] w[k]) by {
            assert(w[k] == s[i + k]);
        }
        assert forall|k: int| 0 <= k < words_from(s, at).len() implies is_run(
            #[trigger] words_from(s, at)[k],
        ) by {
            if k > 0 {
                assert(words_from(s, at)[k] == words_from(s, j)[k - 1]);
            } else {
                assert(words_from(s, at)[k] == w);
            }
        }
    }
}

proof fn lemma_next_white_shift(a: Seq<char>, b: Seq<char>, at: int, want: bool)
    requires
        0 <= at <= b.len(),
    ensures
        next_white(a + b, a.len() + at, want) == a.len() + next_white(b, at, want),
    decreases b.len() - at,
{
    if at < b.len() {
        assert((a + b)[a.len() + at] == b[at]);
        if is_white(b[at]) != want {
            lemma_next_white_shift(a, b, at + 1, want);
        }
    }
}

proof fn lemma_words_shift(a: Seq<char>, b: Seq<char>, at: int)
    requires
        0 <= at <= b.len(),
    ensures
        words_from(a + b, a.len() + at) == words_from(b, at),
    decreases b.len() - at,
{
    let i = next_white(b, at, false);
    lemma_next_white(b, at, false);
    lemma_next_white_shift(a, b, at, false);
    lemma_next_white_shift(a, b, i, true);
    let j = next_white(b, i, true);
    lemma_next_white(b, i, true);
    if i < j {
        lemma_words_shift(a, b, j);
        assert((a + b).subrange(a.len() + i, a.len() + j) =~= b.subrange(i, j));
    }
}

proof fn lemma_joined_front(parts: Seq<Seq<char>>, sep: Seq<char>)
    requires
        parts.len() >= 2,
    ensures
        joined(parts, sep) == parts[0] + sep + joined(parts.skip(1), sep),
    decreases parts.len(),
{
    let rest = parts.skip(1);
    assert(rest.last() == parts.last());
    if parts.len() == 2 {
        assert(joined(parts.drop_last(), sep) == parts[0]);
        assert(joined(rest, sep) == parts[1]);
    } else {
        let init = parts.drop_last();
        lemma_joined_front(init, sep);
        assert(init.skip(1) =~= rest.drop_last());
        assert(init[0] == parts[0]);
        assert(joined(rest, sep) == joined(rest.drop_last(), sep) + sep + rest.last());
        assert(joined(parts, sep) == joined(init, sep) + sep + parts.last());
        assert(parts[0] + sep + joined(rest.drop_last(), sep) + sep + parts.last() =~= parts[0]
            + sep + (joined(rest.drop_last(), sep) + sep + parts.last()));
    }
}

proof fn lemma_first_run(w: Seq<char>, rest: Seq<char>)
    requires
        is_run(w),
        rest.len() > 0 ==> is_white(rest[0]),
    ensures
        words_of(w + rest) == seq![w] + words_of(rest),
{
    let s = w + rest;
    assert(s[0] == w[0]);
    assert(next_white(s, 0, false) == 0);
    lemma_next_white(s, 0, true);
    let j = next_white(s, 0, true);
    if j < w.len() {
        assert(s[j] == w[j]);
    }
    if j > w.len() {
        assert(s[w.len() as int] == rest[0]);
    }
    assert(s.subrange(0, j) =~= w);
    lemma_words_shift(w, rest, 0);
}

/// The words of words joined by single spaces are those words.
pub proof fn lemma_words_of_joined(ws: Seq<Seq<char>>)
    requires
        forall|k: int| 0 <= k < ws.len() ==> is_run(#[trigger] ws[k]),
    ensures
        words_of(joined(ws, " "@)) == ws,
    decreases ws.len(),
{
    reveal_strlit(" ");
    if ws.len() == 0 {
        assert(words_of(joined(ws, " "@)) =~= ws);
    } else if ws.len() == 1 {
        let none = Seq::<char>::empty();
        lemma_first_run(ws[0], none);
        assert(ws[0] + none =~= ws[0]);
        assert(words_of(none) =~= seq![]);
        assert(seq![ws[0]] + words_of(none) =~= ws);
    } else {
        let rest = ws.skip(1);
        assert forall|k: int| 0 <= k < rest.len() implies is_run(#[trigger] rest[k]) by {
            assert(rest[k] == ws[k + 1]);
        }
        lemma_words_of_joined(rest);
        lemma_joined_front(ws, " "@);
        let t = joined(rest, " "@);
        let tail = " "@ + t;
        assert(ws[0] + " "@ + t =~= ws[0] + tail);
        lemma_first_run(ws[0], tail);
        assert(words_of(tail) == words_of(t)) by {
            lemma_words_shift(" "@, t, 0);
            assert(tail[0] == ' ');
            assert(next_white(tail, 0, false) == next_white(tail, 1, false));
        }
        assert(seq![ws[0]] + rest =~= ws);
    }
}

/// Text with whitespace only as single spaces between words: neither at an end
/// nor beside other whitespace.
pub open spec fn is_closed_up(s: Seq<char>) -> bool {
    forall|i: int|
        0 <= i < s.len() && is_white(#[trigger] s[i]) ==> s[i] == ' ' && 0 < i < s.len() - 1
            && !is_white(s[i - 1]) && !is_white(s[i + 1])
}

/// Words joined by single spaces are closed up.
pub proof fn lemma_joined_closed_up(ws: Seq<Seq<char>>)
    requires
        forall|k: int| 0 <= k < ws.len() ==> is_run(#[trigger] ws[k]),
    ensures
        is_closed_up(joined(ws, " "@)),
        ws.len() > 0 ==> joined(ws, " "@).len() > 0,
    decreases ws.len(),
{
    reveal_strlit(" ");
    if ws.len() == 1 {
        assert(is_run(ws[0]));
    } else if ws.len() > 1 {
        let init = ws.drop_last();
        assert forall|k: int| 0 <= k < init.len() implies is_run(#[trigger] init[k]) by {
            assert(init[k] == ws[k]);
        }
        lemma_joined_closed_up(init);
        let a = joined(init, " "@);
        let w = ws.last();
        assert(is_run(ws[ws.len() - 1]));
        let s = a + " "@ + w;
        assert(!is_white(a[a.len() - 1])) by {
            if is_white(a[a.len() - 1]) {
                assert(a.len() - 1 < a.len() - 1);
            }
        }
        assert forall|i: int| 0 <= i < s.len() && is_white(#[trigger] s[i]) implies s[i] == ' '
            && 0 < i < s.len() - 1 && !is_white(s[i - 1]) && !is_white(s[i + 1]) by {
            if i < a.len() {
                assert(s[i] == a[i]);
                assert(0 < i < a.len() - 1);
                assert(s[i - 1] == a[i - 1] && s[i + 1] == a[i + 1]);
            } else if i == a.len() {
                assert(s[i - 1] == a[a.len() - 1]);
                assert(s[i + 1] == w[0]);
            } else {
                assert(s[i] == w[i - a.len() - 1]);
            }
        }
    }
}

/// The texts of `parts`, with `sep` between each two.
pub fn join(parts: &Vec<String>, sep: &str) -> (r: String)
    ensures
        r@ == joined(parts.deep_view(), sep@),
{
    let mut out: String = String::new();
    let mut i: usize = 0;
    let ghost all = parts.deep_view();
    while i < parts.len()
        invariant
            all == parts.deep_view(),
            i <= parts.len(),
            out@ == joined(all.take(i as int), sep@),
        decreases parts.len() - i,
    {
        assert(all.take(i + 1).drop_last() =~= all.take(i as int));
        assert(all[i as int] == parts@[i as int]@);
        if i > 0 {
            out.append(sep);
        }
        out.append(parts[i].as_str());
        assert(i == 0 ==> out@ =~= parts@[0]@);
        i += 1;
    }
    assert(all.take(all.len() as int) =~= all);
    out
}

// ---- more tests on text ----

/// `s` ends with `p`.
pub open spec fn ends(s: Seq<char>, p: Seq<char>) -> bool {
    occurs_at(s, p, s.len() - p.len())
}

/// Does `s` end with `p`?
pub fn ends_with(s: &str, p: &str) -> (r: bool)
    ensures
        r == ends(s@, p@),
{
    let cs = chars_of(s);
    let ps = chars_of(p);
    if ps.len() > cs.len() {
        return false;
    }
    matches_at(&cs, &ps, cs.len() - ps.len())
}

/// What follows the prefix `p` in `s`, if `s` begins with it.
pub fn after_prefix(s: &str, p: &str) -> (r: Option<String>)
    ensures
        r.deep_view() == if occurs_at(s@, p@, 0) {
            Some(s@.skip(p@.len() as int))
        } else {
            None
        },
{
    let cs = chars_of(s);
    let ps = chars_of(p);
    if matches_at(&cs, &ps, 0) {
        assert(cs@.subrange(ps@.len() as int, cs@.len() as int) =~= cs@.skip(ps@.len() as int));
        Some(string_of(&cs[ps.len()..cs.len()]))
    } else {
        None
    }
}

/// Do `a` and `b` differ at most in the case of ASCII letters?
pub fn same_but_case(a: &str, b: &str) -> (r: bool)
    ensures
        r == (ascii_lowered(a@) == ascii_lowered(b@)),
{
    let x = chars_of(a);
    let y = chars_of(b);
    if x.len() != y.len() {
        assert(ascii_lowered(a@).len() != ascii_lowered(b@).len());
        return false;
    }
    let mut i: usize = 0;
    while i < x.len()
        invariant
            x@ == a@,
            y@ == b@,
            x@.len() == y@.len(),
            i <= x@.len(),
            forall|j: int|
                0 <= j < i ==> ascii_lowered_char(#[trigger] x@[j]) == ascii_lowered_char(y@[j]),
        decreases x@.len() - i,
    {
        if lower_char(x[i]) != lower_char(y[i]) {
            assert(ascii_lowered(a@)[i as int] != ascii_lowered(b@)[i as int]);
            return false;
        }
        i += 1;
    }
    assert(ascii_lowered(a@) =~= ascii_lowered(b@));
    true
}

/// The lowercase form of `s`.
pub open spec fn lowered(s: Seq<char>) -> Seq<char> {
    if is_ascii_chars(s) {
        ascii_lowered(s)
    } else {
        unicode_lowercase(s)
    }
}

/// The lowercase form of `s`.
pub fn lower(s: &str) -> (r: String)
    ensures
        r@ == lowered(s@),
{
    s.to_lowercase()
}

/// The first `n` characters of `s`; all of it where it is shorter.
pub open spec fn cut(s: Seq<char>, n: nat) -> Seq<char> {
    if n <= s.len() {
        s.take(n as int)
    } else {
        s
    }
}

/// The first `n` characters of `s`; all of it where it is shorter.
pub fn first_chars(s: &str, n: usize) -> (r: String)
    ensures
        r@ == cut(s@, n as nat),
{
    let cs = chars_of(s);
    let m: usize = if n <= cs.len() {
        n
    } else {
        cs.len()
    };
    assert(cs@.subrange(0, m as int) =~= cut(s@, n as nat));
    string_of(&cs[0..m])
}

// ---- numbers ----

/// The decimal digit for a number below ten.
pub open spec fn digit_char(n: int) -> char {
    (48 + n) as char
}

/// The decimal digits of `n`, with no leading zero.
pub open spec fn decimal_nat(n: nat) -> Seq<char>
    decreases n,
{
    if n < 10 {
        seq![digit_char(n as int)]
    } else {
        decimal_nat(n / 10).push(digit_char((n % 10) as int))
    }
}

/// `i` in decimal, with a minus sign where it is negative.
pub open spec fn decimal_of(i: int) -> Seq<char> {
    if i < 0 {
        seq!['-'] + decimal_nat((-i) as nat)
    } else {
        decimal_nat(i as nat)
    }
}

/// Appends the decimal digits of `n`.
pub fn push_decimal(out: &mut String, n: u64)
    ensures
        final(out)@ == old(out)@ + decimal_nat(n as nat),
    decreases n,
{
    let ghost before = out@;
    if n >= 10 {
        push_decimal(out, n / 10);
    }
    let d: u8 = (n % 10) as u8;
    out.push((48 + d) as char);
    assert(out@ =~= before + decimal_nat(n as nat));
}

/// `i` in decimal.
pub fn decimal(i: i64) -> (r: String)
    ensures
        r@ == decimal_of(i as int),
{
    let mut out: String = String::new();
    if i < 0 {
        out.push('-');
        let m: u64 = (-(i as i128)) as u64;
        push_decimal(&mut out, m);
        assert(out@ =~= decimal_of(i as int));
    } else {
        push_decimal(&mut out, i as u64);
        assert(out@ =~= decimal_of(i as int));
    }
    out
}

pub open spec fn all_digits(s: Seq<char>) -> bool {
    forall|i: int| 0 <= i < s.len() ==> is_digit(#[trigger] s[i])
}

/// The number that the decimal digits of `s` spell.
pub open spec fn digits_value(s: Seq<char>) -> nat
    decreases s.len(),
{
    if s.len() == 0 {
        0
    } else {
        digits_value(s.drop_last()) * 10 + ((s.last() as nat - 48) as nat)
    }
}

/// The integer that `s` spells in decimal: an optional sign, then digits, the
/// whole within the range of a 64-bit signed integer.
pub open spec fn integer_of(s: Seq<char>) -> Option<i64> {
    let negative = s.len() > 0 && s[0] == '-';
    let signed = s.len() > 0 && (s[0] == '-' || s[0] == '+');
    let digits = if signed {
        s.skip(1)
    } else {
        s
    };
    let value = if negative {
        -(digits_value(digits) as int)
    } else {
        digits_value(digits) as int
    };
    if digits.len() > 0 && all_digits(digits) && i64::MIN <= value <= i64::MAX {
        Some(value as i64)
    } else {
        None
    }
}

/// The integer that `s` spells in decimal, if it spells one that fits.
pub fn parse_integer(s: &str) -> (r: Option<i64>)
    ensures
        r == integer_of(s@),
{
    let cs = chars_of(s);
    let negative = cs.len() > 0 && cs[0] == '-';
    let signed = cs.len() > 0 && (cs[0] == '-' || cs[0] == '+');
    let start: usize = if signed {
        1
    } else {
        0
    };
    let ghost digits = if signed {
        s@.skip(1)
    } else {
        s@
    };
    if start == cs.len() {
        return None;
    }
    let mut acc: u128 = 0;
    let mut i: usize = start;
    assert(digits.take(0) =~= seq![]);
    while i < cs.len()
        invariant
            cs@ == s@,
            start <= i <= cs@.len(),
            signed == (s@.len() > 0 && (s@[0] == '-' || s@[0] == '+')),
            digits == if signed {
                s@.skip(1)
            } else {
                s@
            },
            digits.len() == cs@.len() - start,
            forall|j: int| start <= j < cs@.len() ==> cs@[j] == #[trigger] digits[j - start],
            all_digits(digits.take(i - start)),
            acc <= u64::MAX as u128 * 10 + 9,
            acc <= u64::MAX ==> acc == digits_value(digits.take(i - start)),
            acc > u64::MAX ==> digits_value(digits.take(i - start)) > u64::MAX,
        decreases cs@.len() - i,
    {
        let c = cs[i];
        let ghost k = i - start;
        assert(digits[k] == c);
        assert(digits.take(k + 1).drop_last() =~= digits.take(k));
        assert(digits.take(k + 1).last() == c);
        if !('0' <= c && c <= '9') {
            assert(!is_digit(digits[k]));
            return None;
        }
        if acc <= u64::MAX as u128 {
            acc = acc * 10 + (c as u8 - 48) as u128;
        }
        assert(all_digits(digits.take(k + 1))) by {
            assert forall|j: int| 0 <= j < k + 1 implies is_digit(
                #[trigger] digits.take(k + 1)[j],
            ) by {
                if j < k {
                    assert(digits.take(k)[j] == digits.take(k + 1)[j]);
                }
            }
        }
        i += 1;
    }
    assert(digits.take(digits.len() as int) =~= digits);
    if acc > i64::MAX as u128 + 1 {
        None
    } else if negative {
        Some((-(acc as i128)) as i64)
    } else if acc > i64::MAX as u128 {
        None
    } else {
        Some(acc as i64)
    }
}

// ---- what holds of all texts ----

/// ASCII text in lowercase has a lowercase letter for each letter, and is
/// otherwise as it was.
pub proof fn law_lowered_ascii(s: Seq<char>)
    requires
        is_ascii_chars(s),
    ensures
        lowered(s).len() == s.len(),
        forall|i: int|
            #![trigger lowered(s)[i]]
            0 <= i < s.len() ==> lowered(s)[i] == if 'A' <= s[i] <= 'Z' {
                (s[i] as u32 + 32) as char
            } else {
                s[i]
            },
{
}

/// Text that begins and ends with characters outside a set is not trimmed.
pub proof fn law_trimmed_plain(s: Seq<char>, set: CharSet)
    requires
        s.len() > 0,
        !set.has(s[0]),
        !set.has(s.last()),
    ensures
        trimmed_of(s, set) == s,
{
}

/// The first `c` in a text stands behind the part that holds none.
pub proof fn law_first_char_behind(a: Seq<char>, c: char, b: Seq<char>)
    requires
        !a.contains(c),
    ensures
        first_char(a + seq![c] + b, c, 0) == Some(a.len() as int),
        (a + seq![c] + b).take(a.len() as int) == a,
        (a + seq![c] + b).skip(a.len() as int + 1) == b,
{
    let s = a + seq![c] + b;
    lemma_first_char(s, c, 0);
    assert(s[a.len() as int] == c);
    let i = first_char(s, c, 0)->0;
    if i < a.len() {
        assert(a[i] == c);
    }
    assert(s.take(a.len() as int) =~= a);
    assert(s.skip(a.len() as int + 1) =~= b);
}

/// Cutting a text at a character loses nothing: no piece holds the character,
/// and the pieces joined by it give the text back.
pub proof fn law_pieces_joined(s: Seq<char>, c: char)
    ensures
        pieces(s, c).len() > 0,
        joined(pieces(s, c), seq![c]) == s,
        forall|i: int| 0 <= i < pieces(s, c).len() ==> !(#[trigger] pieces(s, c)[i]).contains(c),
{
    lemma_pieces_joined(s, c, 0);
    assert(s.skip(0) =~= s);
}

proof fn lemma_pieces_joined(s: Seq<char>, c: char, at: int)
    requires
        0 <= at <= s.len(),
    ensures
        pieces_from(s, c, at).len() > 0,
        joined(pieces_from(s, c, at), seq![c]) == s.skip(at),
        forall|i: int|
            0 <= i < pieces_from(s, c, at).len() ==> !(#[trigger] pieces_from(
                s,
                c,
                at,
            )[i]).contains(c),
    decreases s.len() - at,
{
    lemma_first_char(s, c, at);
    let all = pieces_from(s, c, at);
    match first_char(s, c, at) {
        Some(i) => {
            let rest = pieces_from(s, c, i + 1);
            let first = s.subrange(at, i);
            lemma_pieces_joined(s, c, i + 1);
            assert(all == seq![first] + rest);
            lemma_joined_front(all, seq![c]);
            assert(all.skip(1) =~= rest);
            assert(all[0] == first);
            assert(first + seq![c] + s.skip(i + 1) =~= s.skip(at));
            assert forall|k: int| 0 <= k < all.len() implies !(#[trigger] all[k]).contains(c) by {
                if k > 0 {
                    assert(all[k] == rest[k - 1]);
                } else if first.contains(c) {
                    let j = choose|j: int| 0 <= j < first.len() && first[j] == c;
                    assert(s[at + j] == c);
                }
            }
        },
        None => {
            let last = s.skip(at);
            assert(all =~= seq![last]);
            if last.contains(c) {
                let j = choose|j: int| 0 <= j < last.len() && last[j] == c;
                assert(s[at + j] == c);
            }
        },
    }
}

/// Trimming takes away characters of the set at both ends and nothing else: the
/// text is what was taken in front, what is left, and what was taken behind.
pub proof fn law_trimmed(s: Seq<char>, set: CharSet)
    ensures
        ({
            let t = trimmed_of(s, set);
            &&& t.len() > 0 ==> !set.has(t[0]) && !set.has(t.last())
            &&& exists|a: Seq<char>, b: Seq<char>|
                #![trigger a + t + b]
                {
                    &&& s == a + t + b
                    &&& forall|i: int| 0 <= i < a.len() ==> set.has(#[trigger] a[i])
                    &&& forall|i: int| 0 <= i < b.len() ==> set.has(#[trigger] b[i])
                }
        }),
{
    let u = trimmed_start(s, set);
    let t = trimmed_of(s, set);
    lemma_trimmed(s, set);
    lemma_trimmed_start(s, set);
    if t == trimmed_end(u, set) {
        lemma_trimmed_end(u, set);
        let a = s.take(s.len() - u.len());
        let b = u.skip(t.len() as int);
        assert(a + t + b =~= s);
    } else {
        lemma_trimmed_end(s, set);
        let v = trimmed_end(s, set);
        lemma_trimmed_start(v, set);
        let a = v.take(v.len() - t.len());
        let b = s.skip(v.len() as int);
        assert(a + t + b =~= s);
    }
}

/// Replacing goes from the left: what stands before the first occurrence stays,
/// the occurrence is replaced, and the rest is treated likewise; a text without
/// an occurrence stays as it is.
pub proof fn law_replaced(s: Seq<char>, p: Seq<char>, b: Seq<char>)
    requires
        p.len() > 0,
    ensures
        match first_at(s, p, 0) {
            Some(i) => replaced(s, p, b) == s.take(i) + b + replaced(s.skip(i + p.len()), p, b),
            None => replaced(s, p, b) == s,
        },
    decreases s.len(),
{
    lemma_first_at(s, p, 0);
    if s.len() < p.len() {
    } else if occurs_at(s, p, 0) {
        assert(first_at(s, p, 0) == Some(0int));
        assert(s.take(0) + b + replaced(s.skip(p.len() as int), p, b) =~= b + replaced(
            s.skip(p.len() as int),
            p,
            b,
        ));
    } else {
        let rest = s.skip(1);
        law_replaced(rest, p, b);
        lemma_first_at(rest, p, 0);
        assert forall|j: int| 0 <= j && j + p.len() <= rest.len() implies rest.subrange(
            j,
            j + p.len(),
        ) == #[trigger] s.subrange(j + 1, j + 1 + p.len()) by {
            assert(rest.subrange(j, j + p.len()) =~= s.subrange(j + 1, j + 1 + p.len()));
        }
        match first_at(s, p, 0) {
            Some(i) => {
                assert(i > 0);
                assert(s.subrange(i, i + p.len()) == rest.subrange(i - 1, i - 1 + p.len()));
                assert(occurs_at(rest, p, i - 1));
                let k = first_at(rest, p, 0)->0;
                if k < i - 1 {
                    assert(s.subrange(k + 1, k + 1 + p.len()) == rest.subrange(k, k + p.len()));
                    assert(occurs_at(s, p, k + 1));
                }
                assert(k == i - 1);
                assert(rest.skip(k + p.len()) =~= s.skip(i + p.len()));
                assert(seq![s[0]] + (rest.take(k) + b + replaced(rest.skip(k + p.len()), p, b))
                    =~= s.take(i) + b + replaced(s.skip(i + p.len()), p, b));
            },
            None => {
                if let Some(k) = first_at(rest, p, 0) {
                    assert(s.subrange(k + 1, k + 1 + p.len()) == rest.subrange(k, k + p.len()));
                    assert(occurs_at(s, p, k + 1));
                }
                assert(seq![s[0]] + rest =~= s);
            },
        }
    }
}

/// A number is read back from its decimal form.
pub proof fn law_decimal_round_trip(n: i64)
    ensures
        integer_of(decimal_of(n as int)) == Some(n),
{
    let m: nat = if n < 0 {
        (-n) as nat
    } else {
        n as nat
    };
    lemma_decimal_nat(m);
    let s = decimal_of(n as int);
    let d = decimal_nat(m);
    if n < 0 {
        assert(s.skip(1) =~= d);
    } else {
        assert(is_digit(d[0]));
    }
}

proof fn lemma_decimal_nat(n: nat)
    ensures
        decimal_nat(n).len() > 0,
        all_digits(decimal_nat(n)),
        digits_value(decimal_nat(n)) == n,
    decreases n,
{
    let s = decimal_nat(n);
    if n >= 10 {
        lemma_decimal_nat(n / 10);
        let front = decimal_nat(n / 10);
        assert(s.drop_last() =~= front);
        assert forall|i: int| 0 <= i < s.len() implies is_digit(#[trigger] s[i]) by {
            if i < front.len() {
                assert(s[i] == front[i]);
            }
        }
        assert(s.last() as nat - 48 == n % 10);
        assert((n / 10) * 10 + n % 10 == n);
    } else {
        assert(s.drop_last() =~= seq![]);
        assert(digits_value(s.drop_last()) == 0);
        assert(s.last() as nat - 48 == n);
    }
}

/// A form field that is not blank is taken without the whitespace around it; a
/// blank or absent one is nothing.
pub proof fn law_filled(s: Seq<char>)
    ensures
        filled(None) is None,
        trimmed(s).len() == 0 ==> filled(Some(s)) is None,
        trimmed(s).len() > 0 ==> filled(Some(s)) == Some(trimmed(s)),
{
}

/// The first characters of a text: all of a short one, and exactly so many of a
/// long one.
pub proof fn law_cut(a: Seq<char>, b: Seq<char>)
    ensures
        cut(a + b, a.len()) == a,
        cut(a, a.len() + b.len()) == a,
{
    assert((a + b).take(a.len() as int) =~= a);
    assert(a.take(a.len() as int) =~= a);
}

/// Joined parts end as the last part does: where they do not end in the
/// separator, the last part is not empty.
pub proof fn lemma_joined_last(parts: Seq<Seq<char>>, sep: Seq<char>)
    requires
        parts.len() > 0,
        sep.len() > 0,
        joined(parts, sep).len() > 0,
        joined(parts, sep).last() != sep.last(),
    ensures
        parts.last().len() > 0,
{
    if parts.len() > 1 && parts.last().len() == 0 {
        let front = joined(parts.drop_last(), sep);
        assert(front + sep + parts.last() =~= front + sep);
        assert((front + sep).last() == sep.last());
    }
}

/// Copies of a text at the end go, one after the other, until there is none; a
/// text that ends otherwise stays.
pub proof fn law_without_suffixes(s: Seq<char>, p: Seq<char>)
    requires
        p.len() > 0,
    ensures
        without_suffixes(s + p, p) == without_suffixes(s, p),
        !ends(without_suffixes(s, p), p),
        !ends(s, p) ==> without_suffixes(s, p) == s,
    decreases s.len(),
{
    let t = s + p;
    assert(t.subrange(t.len() - p.len(), t.len() as int) =~= p);
    assert(ends(t, p));
    assert(t.take(t.len() - p.len()) =~= s);
    if ends(s, p) {
        law_without_suffixes(s.take(s.len() - p.len()), p);
    }
}

/// Letters, digits and the marks of words are no whitespace; the blank, the tab
/// and the ends of lines are.
pub proof fn law_white(c: char)
    ensures
        c == ' ' || c == '\t' || c == '\n' || c == '\r' ==> is_white(c) && is_ascii_white(c),
        '!' <= c <= '~' ==> !is_white(c) && !is_ascii_white(c),
{
}

} // verus!
