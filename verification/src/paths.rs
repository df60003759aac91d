//! POSIX paths as text: components, file names, extensions, parents, joining.
//!
//! A path is split at its slashes. Empty pieces, and `.` anywhere but at the
//! very start, are no components.

use vstd::prelude::*;
use vstd::string::*;
use crate::text;

verus! {

/// The pieces of a path between its slashes.
pub open spec fn path_pieces(s: Seq<char>) -> Seq<Seq<char>> {
    text::pieces(s, '/')
}

/// Piece `i` of a path is a component.
pub open spec fn is_component(p: Seq<Seq<char>>, i: int) -> bool {
    p[i].len() > 0 && (p[i] != "."@ || i == 0)
}

/// The position of the last component among the first `n` pieces.
pub open spec fn last_component(p: Seq<Seq<char>>, n: int) -> Option<int>
    decreases n,
{
    if n <= 0 {
        None
    } else if is_component(p, n - 1) {
        Some(n - 1)
    } else {
        last_component(p, n - 1)
    }
}

/// The last component, unless that is `.` or `..`.
pub open spec fn file_name_of(s: Seq<char>) -> Option<Seq<char>> {
    let p = path_pieces(s);
    match last_component(p, p.len() as int) {
        Some(k) => if p[k] == "."@ || p[k] == ".."@ {
            None
        } else {
            Some(p[k])
        },
        None => None,
    }
}

/// The path without its last component; nothing where it has none.
pub open spec fn parent_of(s: Seq<char>) -> Option<Seq<char>> {
    let p = path_pieces(s);
    match last_component(p, p.len() as int) {
        Some(k) => match last_component(p, k) {
            Some(j) => Some(text::joined(p.take(j + 1), "/"@)),
            None => if s[0] == '/' {
                Some("/"@)
            } else {
                Some(""@)
            },
        },
        None => None,
    }
}

/// The position of the last `c` among the first `n` characters of `s`.
pub open spec fn last_char(s: Seq<char>, c: char, n: int) -> Option<int>
    decreases n,
{
    if n <= 0 {
        None
    } else if s[n - 1] == c {
        Some(n - 1)
    } else {
        last_char(s, c, n - 1)
    }
}

/// What follows the last dot of the file name, where a dot stands behind its
/// first character.
pub open spec fn extension_of(s: Seq<char>) -> Option<Seq<char>> {
    match file_name_of(s) {
        Some(f) => match last_char(f, '.', f.len() as int) {
            Some(d) => if d == 0 {
                None
            } else {
                Some(f.skip(d + 1))
            },
            None => None,
        },
        None => None,
    }
}

/// The file name without its extension.
pub open spec fn stem_of(s: Seq<char>) -> Option<Seq<char>> {
    match file_name_of(s) {
        Some(f) => match last_char(f, '.', f.len() as int) {
            Some(d) => if d == 0 {
                Some(f)
            } else {
                Some(f.take(d))
            },
            None => Some(f),
        },
        None => None,
    }
}

/// The path `rest` seen from the directory `base`.
pub open spec fn joined_path(base: Seq<char>, rest: Seq<char>) -> Seq<char> {
    if rest.len() > 0 && rest[0] == '/' {
        rest
    } else if base.len() == 0 || base.last() == '/' {
        base + rest
    } else {
        base + "/"@ + rest
    }
}

fn find_component(p: &Vec<String>, n: usize) -> (r: Option<usize>)
    requires
        n <= p.len(),
    ensures
        match r {
            Some(k) => k < n && last_component(p.deep_view(), n as int) == Some(k as int),
            None => last_component(p.deep_view(), n as int) is None,
        },
{
    let mut i: usize = n;
    while i > 0
        invariant
            i <= n <= p.len(),
            last_component(p.deep_view(), n as int) == last_component(p.deep_view(), i as int),
        decreases i,
    {
        assert(p.deep_view()[i - 1] == p@[i - 1]@);
        if !text::empty(p[i - 1].as_str()) && (!text::same(p[i - 1].as_str(), ".") || i == 1) {
            return Some(i - 1);
        }
        i -= 1;
    }
    None
}

/// The last component of a path, unless that is `.` or `..`.
pub fn file_name(path: &str) -> (r: Option<String>)
    ensures
        r.deep_view() == file_name_of(path@),
{
    let p = text::split(path, '/');
    match find_component(&p, p.len()) {
        Some(k) => {
            assert(p.deep_view()[k as int] == p@[k as int]@);
            if text::same(p[k].as_str(), ".") || text::same(p[k].as_str(), "..") {
                None
            } else {
                Some(p[k].clone())
            }
        },
        None => None,
    }
}

/// A path without its last component.
pub fn parent(path: &str) -> (r: Option<String>)
    ensures
        r.deep_view() == parent_of(path@),
{
    let p = text::split(path, '/');
    match find_component(&p, p.len()) {
        Some(k) => {
            proof {
                lemma_pieces_start(path@);
                assert(p.deep_view()[k as int] == p@[k as int]@);
            }
            match find_component(&p, k) {
                Some(j) => {
                    let mut kept: Vec<String> = Vec::new();
                    let mut i: usize = 0;
                    while i <= j
                        invariant
                            i <= j + 1,
                            j < p.len(),
                            kept.deep_view() == p.deep_view().take(i as int),
                        decreases j + 1 - i,
                    {
                        let ghost before = kept.deep_view();
                        assert(p.deep_view()[i as int] == p@[i as int]@);
                        kept.push(p[i].clone());
                        assert(kept.deep_view() =~= before.push(p@[i as int]@));
                        assert(kept.deep_view() =~= p.deep_view().take(i + 1));
                        i += 1;
                    }
                    Some(text::join(&kept, "/"))
                },
                None => {
                    if text::chars_of(path)[0] == '/' {
                        Some("/".to_string())
                    } else {
                        Some("".to_string())
                    }
                },
            }
        },
        None => None,
    }
}

/// A path with a component is not the empty text.
proof fn lemma_pieces_start(s: Seq<char>)
    ensures
        s.len() == 0 ==> path_pieces(s) =~= seq![seq![]] && last_component(path_pieces(s), 1)
            is None,
{
    if s.len() == 0 {
        assert(s.skip(0) =~= seq![]);
        assert(last_component(path_pieces(s), 0) is None);
    }
}

fn find_last(s: &[char], c: char) -> (r: Option<usize>)
    ensures
        match r {
            Some(k) => k < s@.len() && last_char(s@, c, s@.len() as int) == Some(k as int),
            None => last_char(s@, c, s@.len() as int) is None,
        },
{
    let mut i: usize = s.len();
    while i > 0
        invariant
            i <= s@.len(),
            last_char(s@, c, s@.len() as int) == last_char(s@, c, i as int),
        decreases i,
    {
        if s[i - 1] == c {
            return Some(i - 1);
        }
        i -= 1;
    }
    None
}

/// What follows the last dot of the file name, where a dot stands behind its
/// first character.
pub fn extension(path: &str) -> (r: Option<String>)
    ensures
        r.deep_view() == extension_of(path@),
{
    match file_name(path) {
        Some(f) => {
            let cs = text::chars_of(f.as_str());
            match find_last(&cs, '.') {
                Some(d) => if d == 0 {
                    None
                } else {
                    assert(cs@.subrange(d + 1, cs@.len() as int) =~= cs@.skip(d + 1));
                    Some(text::string_of(&cs[d + 1..cs.len()]))
                },
                None => None,
            }
        },
        None => None,
    }
}

/// The file name without its extension.
pub fn file_stem(path: &str) -> (r: Option<String>)
    ensures
        r.deep_view() == stem_of(path@),
{
    match file_name(path) {
        Some(f) => {
            let cs = text::chars_of(f.as_str());
            match find_last(&cs, '.') {
                Some(d) => if d == 0 {
                    Some(f)
                } else {
                    assert(cs@.subrange(0, d as int) =~= cs@.take(d as int));
                    Some(text::string_of(&cs[0..d]))
                },
                None => Some(f),
            }
        },
        None => None,
    }
}

/// What follows the last `c` of `s`; all of `s` where there is none.
pub open spec fn after_last(s: Seq<char>, c: char) -> Seq<char> {
    match last_char(s, c, s.len() as int) {
        Some(d) => s.skip(d + 1),
        None => s,
    }
}

/// What follows the last `c` of `s`; all of `s` where there is none.
pub fn last_piece(s: &str, c: char) -> (r: String)
    ensures
        r@ == after_last(s@, c),
{
    let cs = text::chars_of(s);
    match find_last(&cs, c) {
        Some(d) => {
            assert(d < cs.len());
            assert(cs@.subrange(d + 1, cs@.len() as int) =~= cs@.skip(d + 1));
            text::string_of(&cs[d + 1..cs.len()])
        },
        None => s.to_string(),
    }
}

/// The path `rest` seen from the directory `base`.
pub fn join_path(base: &str, rest: &str) -> (r: String)
    ensures
        r@ == joined_path(base@, rest@),
{
    let b = text::chars_of(base);
    let s = text::chars_of(rest);
    if s.len() > 0 && s[0] == '/' {
        return rest.to_string();
    }
    let mut out = base.to_string();
    if b.len() > 0 && b[b.len() - 1] != '/' {
        out.append("/");
    }
    out.append(rest);
    out
}

// ---- components ----

/// The components among the first `n` pieces of a path.
pub open spec fn components_upto(p: Seq<Seq<char>>, n: int) -> Seq<Seq<char>>
    decreases n,
{
    if n <= 0 {
        seq![]
    } else if is_component(p, n - 1) {
        components_upto(p, n - 1).push(p[n - 1])
    } else {
        components_upto(p, n - 1)
    }
}

/// The components of a path, an absolute path with `/` as its first.
pub open spec fn components_of(s: Seq<char>) -> Seq<Seq<char>> {
    let p = path_pieces(s);
    if s.len() > 0 && s[0] == '/' {
        seq!["/"@] + components_upto(p, p.len() as int)
    } else {
        components_upto(p, p.len() as int)
    }
}

/// The components of `dir` are the first ones of `path`.
pub open spec fn is_under(path: Seq<char>, dir: Seq<char>) -> bool {
    components_of(dir).is_prefix_of(components_of(path))
}

/// The components of a path.
pub fn components(path: &str) -> (r: Vec<String>)
    ensures
        r.deep_view() == components_of(path@),
{
    let p = text::split(path, '/');
    let cs = text::chars_of(path);
    let mut out: Vec<String> = Vec::new();
    if cs.len() > 0 && cs[0] == '/' {
        out.push("/".to_string());
        assert(out.deep_view() =~= seq!["/"@]);
    }
    let ghost root = out.deep_view();
    let mut i: usize = 0;
    assert(root + components_upto(p.deep_view(), 0) =~= root);
    while i < p.len()
        invariant
            i <= p.len(),
            out.deep_view() == root + components_upto(p.deep_view(), i as int),
        decreases p.len() - i,
    {
        assert(p.deep_view()[i as int] == p@[i as int]@);
        let ghost before = out.deep_view();
        if !text::empty(p[i].as_str()) && (!text::same(p[i].as_str(), ".") || i == 0) {
            out.push(p[i].clone());
            assert(out.deep_view() =~= before.push(p@[i as int]@));
            assert(out.deep_view() =~= root + components_upto(p.deep_view(), i + 1));
        }
        i += 1;
    }
    assert(out.deep_view() =~= components_of(path@));
    out
}

/// Are the components of `dir` the first ones of `path`?
pub fn starts_with_path(path: &str, dir: &str) -> (r: bool)
    ensures
        r == is_under(path@, dir@),
{
    let a = components(path);
    let b = components(dir);
    if b.len() > a.len() {
        return false;
    }
    let mut i: usize = 0;
    while i < b.len()
        invariant
            a.deep_view() == components_of(path@),
            b.deep_view() == components_of(dir@),
            b.len() <= a.len(),
            i <= b.len(),
            forall|j: int| 0 <= j < i ==> a.deep_view()[j] == #[trigger] b.deep_view()[j],
        decreases b.len() - i,
    {
        assert(a.deep_view()[i as int] == a@[i as int]@);
        assert(b.deep_view()[i as int] == b@[i as int]@);
        if !text::same(a[i].as_str(), b[i].as_str()) {
            assert(a.deep_view().subrange(0, b.len() as int)[i as int] != b.deep_view()[i as int]);
            return false;
        }
        i += 1;
    }
    assert(a.deep_view().subrange(0, b.len() as int) =~= b.deep_view());
    true
}

// ---- joining stays under the directory ----

proof fn lemma_pieces_shift(a: Seq<char>, b: Seq<char>, c: char, at: int)
    requires
        0 <= at <= b.len(),
    ensures
        text::pieces_from(a + b, c, a.len() + at) == text::pieces_from(b, c, at),
    decreases b.len() - at,
{
    let s = a + b;
    let k = a.len() as int;
    text::lemma_first_char(s, c, k + at);
    text::lemma_first_char(b, c, at);
    assert(forall|j: int| 0 <= j < b.len() ==> s[k + j] == #[trigger] b[j]);
    match text::first_char(b, c, at) {
        Some(i) => {
            assert(s[k + i] == b[i]);
            assert(text::first_char(s, c, k + at) == Some(k + i)) by {
                match text::first_char(s, c, k + at) {
                    Some(m) => {
                        assert(s[m] == b[m - k]);
                    },
                    None => {},
                }
            }
            assert(s.subrange(k + at, k + i) =~= b.subrange(at, i));
            lemma_pieces_shift(a, b, c, i + 1);
        },
        None => {
            assert(text::first_char(s, c, k + at) is None) by {
                match text::first_char(s, c, k + at) {
                    Some(m) => {
                        assert(s[m] == b[m - k]);
                    },
                    None => {},
                }
            }
            assert(s.skip(k + at) =~= b.skip(at));
        },
    }
}

proof fn lemma_pieces_sum(a: Seq<char>, b: Seq<char>, c: char, at: int)
    requires
        0 <= at <= a.len(),
    ensures
        text::pieces_from(a + seq![c] + b, c, at) == text::pieces_from(a, c, at) + text::pieces(b, c),
    decreases a.len() - at,
{
    let s = a + seq![c] + b;
    text::lemma_first_char(s, c, at);
    text::lemma_first_char(a, c, at);
    assert(forall|j: int| 0 <= j < a.len() ==> s[j] == #[trigger] a[j]);
    assert(s[a.len() as int] == c);
    match text::first_char(a, c, at) {
        Some(i) => {
            assert(s[i] == a[i]);
            assert(text::first_char(s, c, at) == Some(i)) by {
                let m = text::first_char(s, c, at)->0;
                if m < i {
                    assert(s[m] == a[m]);
                }
            }
            assert(s.subrange(at, i) =~= a.subrange(at, i));
            lemma_pieces_sum(a, b, c, i + 1);
            assert(seq![a.subrange(at, i)] + (text::pieces_from(a, c, i + 1) + text::pieces(b, c)) =~= seq![
                a.subrange(at, i),
            ] + text::pieces_from(a, c, i + 1) + text::pieces(b, c));
        },
        None => {
            assert(text::first_char(s, c, at) == Some(a.len() as int)) by {
                let m = text::first_char(s, c, at)->0;
                if m < a.len() {
                    assert(s[m] == a[m]);
                }
            }
            assert(s.subrange(at, a.len() as int) =~= a.skip(at));
            assert(s =~= (a + seq![c]) + b);
            lemma_pieces_shift(a + seq![c], b, c, 0);
        },
    }
}

proof fn lemma_components_sum(p: Seq<Seq<char>>, q: Seq<Seq<char>>, n: int)
    requires
        0 <= n <= q.len(),
    ensures
        components_upto(p, p.len() as int).is_prefix_of(components_upto(p + q, p.len() + n)),
        (forall|i: int| 0 <= i < n ==> (#[trigger] q[i]).len() == 0) ==> components_upto(
            p + q,
            p.len() + n,
        ) == components_upto(p, p.len() as int),
    decreases n,
{
    if n > 0 {
        lemma_components_sum(p, q, n - 1);
        let before = components_upto(p + q, p.len() + n - 1);
        let base = components_upto(p, p.len() as int);
        assert((p + q)[p.len() + n - 1] == q[n - 1]);
        assert(components_upto(p + q, p.len() + n).subrange(0, base.len() as int)
            =~= before.subrange(0, base.len() as int));
    } else {
        lemma_components_prefix(p, q, p.len() as int);
        let base = components_upto(p, p.len() as int);
        assert(base.subrange(0, base.len() as int) =~= base);
    }
}

proof fn lemma_components_prefix(p: Seq<Seq<char>>, q: Seq<Seq<char>>, n: int)
    requires
        0 <= n <= p.len(),
    ensures
        components_upto(p + q, n) == components_upto(p, n),
    decreases n,
{
    if n > 0 {
        lemma_components_prefix(p, q, n - 1);
        assert((p + q)[n - 1] == p[n - 1]);
    }
}

/// A relative path, joined to a directory, lies under the directory.
pub proof fn law_join_under(dir: Seq<char>, rest: Seq<char>)
    requires
        !(rest.len() > 0 && rest[0] == '/'),
    ensures
        is_under(joined_path(dir, rest), dir),
{
    let s = joined_path(dir, rest);
    if dir.len() == 0 {
        lemma_pieces_start(dir);
        assert(components_upto(path_pieces(dir), 0) =~= seq![]);
        assert(components_upto(path_pieces(dir), 1) =~= seq![]);
        assert(components_of(s).subrange(0, 0) =~= components_of(dir));
    } else {
        reveal_strlit("/");
        let q = text::pieces(rest, '/');
        let root: Seq<Seq<char>> = if dir[0] == '/' {
            seq!["/"@]
        } else {
            seq![]
        };
        if dir.last() == '/' {
            let a = dir.drop_last();
            let none = Seq::<char>::empty();
            assert(s =~= a + seq!['/'] + rest);
            assert(dir =~= a + seq!['/'] + none);
            lemma_pieces_sum(a, rest, '/', 0);
            lemma_pieces_sum(a, none, '/', 0);
            let p = text::pieces(a, '/');
            lemma_pieces_start(none);
            lemma_components_sum(p, text::pieces(none, '/'), text::pieces(none, '/').len() as int);
            lemma_components_sum(p, q, q.len() as int);
            let base = components_upto(p, p.len() as int);
            let all = components_upto(p + q, (p + q).len() as int);
            assert(components_of(dir) =~= root + base);
            assert(s[0] == dir[0]);
            assert(components_of(s) =~= root + all);
            assert((root + all).subrange(0, (root + base).len() as int) =~= root + all.subrange(
                0,
                base.len() as int,
            ));
        } else {
            assert(s =~= dir + seq!['/'] + rest);
            lemma_pieces_sum(dir, rest, '/', 0);
            let p = text::pieces(dir, '/');
            lemma_components_sum(p, q, q.len() as int);
            let base = components_upto(p, p.len() as int);
            let all = components_upto(p + q, (p + q).len() as int);
            assert(components_of(dir) =~= root + base);
            assert(s[0] == dir[0]);
            assert(components_of(s) =~= root + all);
            assert((root + all).subrange(0, (root + base).len() as int) =~= root + all.subrange(
                0,
                base.len() as int,
            ));
        }
    }
}

/// A plain name, joined to a directory, is one component more.
pub proof fn law_join_name(dir: Seq<char>, name: Seq<char>)
    requires
        name.len() > 0,
        name != "."@,
        !name.contains('/'),
    ensures
        components_of(joined_path(dir, name)) == components_of(dir).push(name),
{
    let s = joined_path(dir, name);
    let q = text::pieces(name, '/');
    text::lemma_first_char(name, '/', 0);
    assert(q =~= seq![name]) by {
        assert(name.skip(0) =~= name);
        assert(text::first_char(name, '/', 0) is None);
    }
    assert(name[0] != '/');
    if dir.len() == 0 {
        assert(s =~= name);
        lemma_pieces_start(dir);
        assert(components_upto(path_pieces(dir), 0) =~= seq![]);
        assert(components_upto(path_pieces(dir), 1) =~= seq![]);
        assert(components_upto(q, 0) =~= seq![]);
        assert(components_upto(q, 1) =~= seq![name]);
    } else {
        reveal_strlit("/");
        let root: Seq<Seq<char>> = if dir[0] == '/' {
            seq!["/"@]
        } else {
            seq![]
        };
        let none = Seq::<char>::empty();
        let a = if dir.last() == '/' {
            dir.drop_last()
        } else {
            dir
        };
        let p = text::pieces(a, '/');
        assert(s =~= a + seq!['/'] + name);
        assert(s[0] == dir[0]);
        lemma_pieces_sum(a, name, '/', 0);
        text::lemma_some_piece(a, '/');
        let base = components_upto(p, p.len() as int);
        if dir.last() == '/' {
            assert(dir =~= a + seq!['/'] + none);
            lemma_pieces_sum(a, none, '/', 0);
            lemma_pieces_start(none);
            lemma_components_sum(p, text::pieces(none, '/'), text::pieces(none, '/').len() as int);
        }
        assert(components_of(dir) =~= root + base);
        lemma_components_prefix(p, q, p.len() as int);
        assert((p + q)[p.len() as int] == name);
        assert(components_upto(p + q, p.len() as int + 1) =~= base.push(name));
        assert(components_of(s) =~= root + base.push(name));
        assert(root + base.push(name) =~= (root + base).push(name));
    }
}

// ---- the parts of a path ----

/// What stands behind the last of a character is the part without it.
pub proof fn law_after_last(a: Seq<char>, c: char, b: Seq<char>)
    requires
        !b.contains(c),
    ensures
        after_last(a + seq![c] + b, c) == b,
        after_last(b, c) == b,
{
    let s = a + seq![c] + b;
    lemma_last_char(a, c, b, s.len() as int);
    assert(s.skip(a.len() as int + 1) =~= b);
    lemma_no_last_char(b, c, b.len() as int);
}

proof fn lemma_last_char(a: Seq<char>, c: char, b: Seq<char>, n: int)
    requires
        !b.contains(c),
        a.len() < n <= a.len() + 1 + b.len(),
    ensures
        last_char(a + seq![c] + b, c, n) == Some(a.len() as int),
    decreases n,
{
    let s = a + seq![c] + b;
    if n > a.len() + 1 {
        assert(s[n - 1] == b[n - 1 - a.len() - 1]);
        lemma_last_char(a, c, b, n - 1);
    } else {
        assert(s[n - 1] == c);
    }
}

proof fn lemma_no_last_char(b: Seq<char>, c: char, n: int)
    requires
        !b.contains(c),
        0 <= n <= b.len(),
    ensures
        last_char(b, c, n) is None,
    decreases n,
{
    if n > 0 {
        assert(b[n - 1] != c);
        lemma_no_last_char(b, c, n - 1);
    }
}

proof fn lemma_one_piece(name: Seq<char>)
    requires
        !name.contains('/'),
    ensures
        path_pieces(name) == seq![name],
{
    text::lemma_first_char(name, '/', 0);
    assert(name.skip(0) =~= name);
}

/// The name of a file is what follows the last slash of its path.
pub proof fn law_file_name(dir: Seq<char>, name: Seq<char>)
    requires
        name.len() > 0,
        name != "."@,
        name != ".."@,
        !name.contains('/'),
    ensures
        file_name_of(dir + seq!['/'] + name) == Some(name),
        file_name_of(name) == Some(name),
{
    lemma_one_piece(name);
    lemma_pieces_sum(dir, name, '/', 0);
    let p = path_pieces(dir + seq!['/'] + name);
    assert(p =~= path_pieces(dir) + seq![name]);
    assert(p.last() == name);
    assert(is_component(p, p.len() - 1));
    assert(is_component(seq![name], 0));
}

/// The extension of a file is what follows the last dot of its name, and its
/// stem what stands before it; a name without a dot has no extension.
pub proof fn law_extension(dir: Seq<char>, stem: Seq<char>, ext: Seq<char>)
    requires
        stem.len() > 0,
        !stem.contains('/'),
        !ext.contains('/'),
        !ext.contains('.'),
        stem + seq!['.'] + ext != ".."@,
    ensures
        extension_of(dir + seq!['/'] + (stem + seq!['.'] + ext)) == Some(ext),
        stem_of(dir + seq!['/'] + (stem + seq!['.'] + ext)) == Some(stem),
        !stem.contains('.') ==> extension_of(dir + seq!['/'] + stem) is None && stem_of(
            dir + seq!['/'] + stem,
        ) == Some(stem),
{
    reveal_strlit(".");
    reveal_strlit("..");
    let f = stem + seq!['.'] + ext;
    assert(!f.contains('/')) by {
        if f.contains('/') {
            let i = choose|i: int| 0 <= i < f.len() && f[i] == '/';
            if i < stem.len() {
                assert(stem[i] == '/');
            } else if i > stem.len() {
                assert(ext[i - stem.len() - 1] == '/');
            }
        }
    }
    assert(f != "."@) by {
        assert(f.len() >= 2);
    }
    law_file_name(dir, f);
    lemma_last_char(stem, '.', ext, f.len() as int);
    assert(f.skip(stem.len() as int + 1) =~= ext);
    assert(f.take(stem.len() as int) =~= stem);
    if !stem.contains('.') {
        assert(stem != "."@ && stem != ".."@) by {
            if stem == "."@ || stem == ".."@ {
                assert(stem[0] == '.');
            }
        }
        law_file_name(dir, stem);
        lemma_no_last_char(stem, '.', stem.len() as int);
    }
}

/// A hidden file has no extension: its name is all stem.
pub proof fn law_hidden_file(dir: Seq<char>, name: Seq<char>)
    requires
        name.len() > 0,
        !name.contains('/'),
        !name.contains('.'),
    ensures
        extension_of(dir + seq!['/'] + (seq!['.'] + name)) is None,
        stem_of(dir + seq!['/'] + (seq!['.'] + name)) == Some(seq!['.'] + name),
{
    reveal_strlit(".");
    reveal_strlit("..");
    let f = seq!['.'] + name;
    assert(f =~= Seq::<char>::empty() + seq!['.'] + name);
    assert(f[1] == name[0]);
    assert(!f.contains('/')) by {
        if f.contains('/') {
            let i = choose|i: int| 0 <= i < f.len() && f[i] == '/';
            assert(name[i - 1] == '/');
        }
    }
    assert(f != "."@ && f != ".."@) by {
        assert(name.contains(name[0]));
        if f == ".."@ {
            assert(f[1] == '.');
        }
    }
    law_file_name(dir, f);
    lemma_last_char(seq![], '.', name, f.len() as int);
}

/// The directory of a file is what stands before the last slash of its path, and
/// a file without a slash lies in no directory of its own.
pub proof fn law_parent(dir: Seq<char>, name: Seq<char>)
    requires
        name.len() > 0,
        name != "."@,
        !name.contains('/'),
        dir.len() > 0,
        dir.last() != '/',
        path_pieces(dir).last() != "."@,
    ensures
        parent_of(dir + seq!['/'] + name) == Some(dir),
        parent_of(name) == Some(""@),
{
    reveal_strlit("/");
    assert("/"@ =~= seq!['/']);
    lemma_one_piece(name);
    lemma_pieces_sum(dir, name, '/', 0);
    text::law_pieces_joined(dir, '/');
    let d = path_pieces(dir);
    let p = path_pieces(dir + seq!['/'] + name);
    let k = d.len() as int;
    assert(p =~= d + seq![name]);
    assert(is_component(p, k));
    text::lemma_joined_last(d, seq!['/']);
    assert(d.last().len() > 0);
    assert(p[k - 1] == d.last());
    assert(is_component(p, k - 1));
    assert(p.take(k) =~= d);
    assert(last_component(p, k) == Some(k - 1));
    assert(name.contains(name[0]));
}

/// Joining an absolute path gives that path; any other follows the directory
/// behind exactly one slash.
pub proof fn law_joined_path(dir: Seq<char>, rest: Seq<char>)
    ensures
        rest.len() > 0 && rest[0] == '/' ==> joined_path(dir, rest) == rest,
        dir.len() > 0 && dir.last() != '/' && (rest.len() == 0 || rest[0] != '/') ==> joined_path(
            dir,
            rest,
        ) == dir + seq!['/'] + rest,
        dir.len() > 0 && dir.last() == '/' && (rest.len() == 0 || rest[0] != '/') ==> joined_path(
            dir,
            rest,
        ) == dir + rest,
        dir.len() == 0 ==> joined_path(dir, rest) == rest,
{
    reveal_strlit("/");
    assert("/"@ =~= seq!['/']);
    assert(dir.len() == 0 ==> dir + rest =~= rest);
}

} // verus!
