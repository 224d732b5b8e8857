//! File paths held as `/`-separated strings: ordering, prefixes, names and extensions.

use vstd::prelude::*;

use crate::text::string_from_range;
use crate::unicode::chars_of;

verus! {

/// The rank of a character in path order: `/` sorts below every other character, so that
/// paths compare segment by segment.
pub open spec fn path_char_key(c: char) -> int {
    if c == '/' {
        0
    } else {
        c as int + 1
    }
}

proof fn lemma_char_int_injective(a: char, b: char)
    requires
        a != b,
    ensures
        a as int != b as int,
        0 <= a as int,
        0 <= b as int,
{
}

/// The path-order rank of `c` (see `path_char_key`).
fn char_key(c: char) -> (k: u32)
    ensures
        k as int == path_char_key(c),
{
    if c == '/' {
        0
    } else {
        c as u32 + 1
    }
}

/// Strict path order: the first differing character decides by `path_char_key`, and a
/// proper prefix sorts first. For paths without empty segments this is the order of
/// their `/`-separated segments compared one by one.
pub open spec fn path_less(a: Seq<char>, b: Seq<char>) -> bool
    decreases a.len(),
{
    if a.len() == 0 {
        b.len() > 0
    } else if b.len() == 0 {
        false
    } else if a[0] == b[0] {
        path_less(a.drop_first(), b.drop_first())
    } else {
        path_char_key(a[0]) < path_char_key(b[0])
    }
}

/// Path order is irreflexive.
pub proof fn law_path_less_irreflexive(a: Seq<char>)
    ensures
        !path_less(a, a),
    decreases a.len(),
{
    if a.len() > 0 {
        law_path_less_irreflexive(a.drop_first());
    }
}

/// Path order is transitive.
pub proof fn law_path_less_transitive(a: Seq<char>, b: Seq<char>, c: Seq<char>)
    requires
        path_less(a, b),
        path_less(b, c),
    ensures
        path_less(a, c),
    decreases a.len(),
{
    if a.len() > 0 && b.len() > 0 && c.len() > 0 {
        if a[0] == b[0] && b[0] == c[0] {
            law_path_less_transitive(a.drop_first(), b.drop_first(), c.drop_first());
        }
    }
}

/// Path order is total: of two different paths one sorts before the other.
pub proof fn law_path_less_total(a: Seq<char>, b: Seq<char>)
    ensures
        a == b || path_less(a, b) || path_less(b, a),
    decreases a.len(),
{
    if a.len() > 0 && b.len() > 0 {
        if a[0] == b[0] {
            law_path_less_total(a.drop_first(), b.drop_first());
            if a.drop_first() == b.drop_first() {
                assert(a =~= seq![a[0]] + a.drop_first());
                assert(b =~= seq![b[0]] + b.drop_first());
            }
        } else {
            lemma_char_int_injective(a[0], b[0]);
            assert(path_char_key(a[0]) != path_char_key(b[0]));
        }
    } else if a.len() == 0 && b.len() == 0 {
        assert(a =~= b);
    }
}

/// Path order is asymmetric.
pub proof fn law_path_less_asymmetric(a: Seq<char>, b: Seq<char>)
    requires
        path_less(a, b),
    ensures
        !path_less(b, a),
{
    if path_less(b, a) {
        law_path_less_transitive(a, b, a);
        law_path_less_irreflexive(a);
    }
}

proof fn lemma_path_less_suffix(a: Seq<char>, b: Seq<char>, i: int)
    requires
        0 <= i <= a.len(),
        i <= b.len(),
        a.take(i) == b.take(i),
    ensures
        path_less(a, b) == path_less(a.skip(i), b.skip(i)),
    decreases i,
{
    if i > 0 {
        assert(a[0] == a.take(i)[0]);
        assert(b[0] == b.take(i)[0]);
        assert(a.drop_first().take(i - 1) =~= a.take(i).drop_first());
        assert(b.drop_first().take(i - 1) =~= b.take(i).drop_first());
        lemma_path_less_suffix(a.drop_first(), b.drop_first(), i - 1);
        assert(a.drop_first().skip(i - 1) =~= a.skip(i));
        assert(b.drop_first().skip(i - 1) =~= b.skip(i));
    } else {
        assert(a.skip(0) =~= a);
        assert(b.skip(0) =~= b);
    }
}

/// Compares two paths: `-1` when `a` sorts first, `0` when they are equal, `1` otherwise.
pub fn compare_paths(a: &str, b: &str) -> (r: i8)
    ensures
        r == -1 <==> path_less(a@, b@),
        r == 0 <==> a@ == b@,
        r == 1 <==> path_less(b@, a@),
{
    let x = chars_of(a);
    let y = chars_of(b);
    let mut i: usize = 0;
    while i < x.len() && i < y.len() && x[i] == y[i]
        invariant
            i <= x.len(),
            i <= y.len(),
            x@ == a@,
            y@ == b@,
            x@.take(i as int) == y@.take(i as int),
        decreases x.len() - i,
    {
        assert(x@.take(i + 1) =~= x@.take(i as int).push(x@[i as int]));
        assert(y@.take(i + 1) =~= y@.take(i as int).push(y@[i as int]));
        i = i + 1;
    }
    proof {
        lemma_path_less_suffix(x@, y@, i as int);
        lemma_path_less_suffix(y@, x@, i as int);
        law_path_less_irreflexive(x@);
        if x@ != y@ {
            law_path_less_total(x@, y@);
            if path_less(x@, y@) {
                law_path_less_asymmetric(x@, y@);
            }
        }
        if i == x.len() && i == y.len() {
            assert(x@ =~= x@.take(i as int));
            assert(y@ =~= y@.take(i as int));
        }
        if i < x.len() && i < y.len() {
            assert(x@.skip(i as int)[0] == x@[i as int]);
            assert(y@.skip(i as int)[0] == y@[i as int]);
        }
        if i < x.len() || i < y.len() {
            if x@ == y@ {
                assert(false);
            }
        }
    }
    if i == x.len() && i == y.len() {
        0
    } else if i == x.len() {
        -1
    } else if i == y.len() {
        1
    } else {
        let kx = char_key(x[i]);
        let ky = char_key(y[i]);
        if kx < ky {
            -1
        } else {
            1
        }
    }
}

/// `prefix` is a prefix of `s`.
pub open spec fn starts_with_spec(s: Seq<char>, prefix: Seq<char>) -> bool {
    prefix.len() <= s.len() && s.take(prefix.len() as int) == prefix
}

/// `s` without its leading separators and `.` segments, which path components skip.
pub open spec fn skip_separators(s: Seq<char>) -> Seq<char>
    decreases s.len(),
{
    if s.len() > 0 && (s[0] == '/' || (s[0] == '.' && (s.len() == 1 || s[1] == '/'))) {
        skip_separators(s.drop_first())
    } else {
        s
    }
}

/// The length of the segment that `s` begins with: its characters before the first `/`.
pub open spec fn segment_len(s: Seq<char>) -> nat
    decreases s.len(),
{
    if s.len() == 0 || s[0] == '/' {
        0
    } else {
        1 + segment_len(s.drop_first())
    }
}

/// Skipping separators never lengthens a path, and stops before a `/`.
pub proof fn lemma_skip_separators(s: Seq<char>)
    ensures
        skip_separators(s).len() <= s.len(),
        skip_separators(s).len() > 0 ==> skip_separators(s)[0] != '/',
    decreases s.len(),
{
    if s.len() > 0 && (s[0] == '/' || (s[0] == '.' && (s.len() == 1 || s[1] == '/'))) {
        lemma_skip_separators(s.drop_first());
    }
}

/// A segment lies within its path, and one that does not start with `/` is not empty.
pub proof fn lemma_segment_len(s: Seq<char>)
    ensures
        segment_len(s) <= s.len(),
        s.len() > 0 && s[0] != '/' ==> segment_len(s) >= 1,
    decreases s.len(),
{
    if s.len() > 0 && s[0] != '/' {
        lemma_segment_len(s.drop_first());
    }
}

/// What remains of `path` once the components of `base` are matched off its front, one
/// segment at a time, separators and `.` segments skipped; `None` when a segment differs
/// or `path` runs out first. The remainder starts at a component.
pub open spec fn strip_components(base: Seq<char>, path: Seq<char>) -> Option<Seq<char>>
    decreases base.len(),
{
    let b = skip_separators(base);
    let p = skip_separators(path);
    if b.len() == 0 {
        Some(p)
    } else {
        proof {
            lemma_skip_separators(base);
            lemma_segment_len(b);
        }
        let nb = segment_len(b);
        let np = segment_len(p);
        if p.len() > 0 && b.take(nb as int) == p.take(np as int) {
            strip_components(b.skip(nb as int), p.skip(np as int))
        } else {
            None
        }
    }
}

/// `s` begins with the root directory.
pub open spec fn starts_at_root(s: Seq<char>) -> bool {
    s.len() > 0 && s[0] == '/'
}

/// `s` begins with the current directory: it is `.` or starts with `./`.
pub open spec fn starts_at_current(s: Seq<char>) -> bool {
    s.len() > 0 && s[0] == '.' && (s.len() == 1 || s[1] == '/')
}

/// The path that joined onto `root` gives `path`, when the components of `root` begin the
/// components of `path`: a leading root or `.` must agree, then the segments, with repeated
/// separators and `.` segments ignored. The remainder is the rest of `path` from its next
/// component, without trailing separators and `.` segments. An empty `root` has no
/// components: `path` comes back with only its end trimmed.
pub open spec fn strip_root_spec(root: Seq<char>, path: Seq<char>) -> Option<Seq<char>> {
    if root.len() == 0 {
        if starts_at_root(path) || starts_at_current(path) {
            Some(path.take(1) + trim_path_end(path.skip(1)))
        } else {
            Some(trim_path_end(path))
        }
    } else if starts_at_root(root) != starts_at_root(path) || starts_at_current(root) != starts_at_current(
        path,
    ) {
        None
    } else {
        let lead: int = if starts_at_root(root) || starts_at_current(root) {
            1
        } else {
            0
        };
        match strip_components(root.skip(lead), path.skip(lead)) {
            Some(rest) => Some(trim_path_end(rest)),
            None => None,
        }
    }
}

/// `path` relative to `root`, or `path` unchanged when it does not lie under `root`.
pub open spec fn relative_path_spec(root: Seq<char>, path: Seq<char>) -> Seq<char> {
    match strip_root_spec(root, path) {
        Some(rest) => rest,
        None => path,
    }
}

/// The position of the first character of `chars[at..]` past leading separators and `.`
/// segments.
fn skip_separators_from(chars: &Vec<char>, at: usize) -> (r: usize)
    requires
        at <= chars.len(),
    ensures
        at <= r <= chars.len(),
        chars@.skip(r as int) == skip_separators(chars@.skip(at as int)),
        r < chars.len() ==> chars@[r as int] != '/',
{
    let mut r = at;
    while r < chars.len() && (chars[r] == '/' || (chars[r] == '.' && (r + 1 == chars.len() || chars[r + 1] == '/')))
        invariant
            at <= r <= chars.len(),
            skip_separators(chars@.skip(r as int)) == skip_separators(chars@.skip(at as int)),
        decreases chars.len() - r,
    {
        proof {
            assert(chars@.skip(r as int).drop_first() =~= chars@.skip(r + 1));
        }
        r = r + 1;
    }
    r
}

/// The end of the segment that starts at `at`: the next `/` or the end of `chars`.
fn segment_end(chars: &Vec<char>, at: usize) -> (r: usize)
    requires
        at <= chars.len(),
    ensures
        at <= r <= chars.len(),
        r - at == segment_len(chars@.skip(at as int)),
{
    let mut r = at;
    while r < chars.len() && chars[r] != '/'
        invariant
            at <= r <= chars.len(),
            segment_len(chars@.skip(at as int)) == (r - at) + segment_len(chars@.skip(r as int)),
        decreases chars.len() - r,
    {
        proof {
            assert(chars@.skip(r as int).drop_first() =~= chars@.skip(r + 1));
        }
        r = r + 1;
    }
    r
}

/// Whether `a[a0..a1]` and `b[b0..b1]` hold the same characters.
fn ranges_equal(a: &Vec<char>, a0: usize, a1: usize, b: &Vec<char>, b0: usize, b1: usize) -> (r: bool)
    requires
        a0 <= a1 <= a.len(),
        b0 <= b1 <= b.len(),
    ensures
        r == (a@.subrange(a0 as int, a1 as int) == b@.subrange(b0 as int, b1 as int)),
{
    if a1 - a0 != b1 - b0 {
        proof {
            assert(a@.subrange(a0 as int, a1 as int).len() != b@.subrange(b0 as int, b1 as int).len());
        }
        return false;
    }
    let ghost sa = a@.subrange(a0 as int, a1 as int);
    let ghost sb = b@.subrange(b0 as int, b1 as int);
    let mut i: usize = 0;
    while i < a1 - a0
        invariant
            a0 <= a1 <= a.len(),
            b0 <= b1 <= b.len(),
            a1 - a0 == b1 - b0,
            i <= a1 - a0,
            sa == a@.subrange(a0 as int, a1 as int),
            sb == b@.subrange(b0 as int, b1 as int),
            forall|j: int| 0 <= j < i ==> #[trigger] sa[j] == sb[j],
        decreases a1 - a0 - i,
    {
        if a[a0 + i] != b[b0 + i] {
            proof {
                assert(sa[i as int] != sb[i as int]);
            }
            return false;
        }
        i = i + 1;
    }
    assert(sa =~= sb);
    true
}

/// The end of `chars[start..]` once trailing separators and `.` segments are dropped.
fn trim_end_from(chars: &Vec<char>, start: usize) -> (end: usize)
    requires
        start <= chars.len(),
    ensures
        start <= end <= chars.len(),
        chars@.subrange(start as int, end as int) == trim_path_end(chars@.skip(start as int)),
{
    let mut end = chars.len();
    proof {
        assert(chars@.subrange(start as int, end as int) =~= chars@.skip(start as int));
    }
    while end > start && (chars[end - 1] == '/' || (chars[end - 1] == '.' && (end - 1 == start || chars[end - 2]
        == '/')))
        invariant
            start <= end <= chars.len(),
            trim_path_end(chars@.subrange(start as int, end as int)) == trim_path_end(chars@.skip(start as int)),
        decreases end,
    {
        proof {
            assert(chars@.subrange(start as int, end as int).drop_last() =~= chars@.subrange(
                start as int,
                end - 1,
            ));
        }
        end = end - 1;
    }
    end
}

/// `path` relative to `root` (see `strip_root_spec`).
fn strip_root(root: &Vec<char>, path: &Vec<char>) -> (r: Option<String>)
    ensures
        match r {
            Some(rest) => strip_root_spec(root@, path@) == Some(rest@),
            None => strip_root_spec(root@, path@) is None,
        },
{
    let root_at_root = root.len() > 0 && root[0] == '/';
    let path_at_root = path.len() > 0 && path[0] == '/';
    let root_at_current = root.len() > 0 && root[0] == '.' && (root.len() == 1 || root[1] == '/');
    let path_at_current = path.len() > 0 && path[0] == '.' && (path.len() == 1 || path[1] == '/');
    if root.len() == 0 {
        let start: usize = if path_at_root || path_at_current {
            1
        } else {
            0
        };
        let end = trim_end_from(path, start);
        proof {
            if start == 1 {
                assert(path@.subrange(0, end as int) =~= path@.take(1) + path@.subrange(1, end as int));
            } else {
                assert(path@.skip(0) =~= path@);
            }
        }
        return Some(string_from_range(path, 0, end));
    }
    if root_at_root != path_at_root || root_at_current != path_at_current {
        return None;
    }
    let lead: usize = if root_at_root || root_at_current {
        1
    } else {
        0
    };
    let mut b: usize = lead;
    let mut p: usize = lead;
    loop
        invariant
            lead <= b <= root.len(),
            lead <= p <= path.len(),
            strip_root_spec(root@, path@) == match strip_components(root@.skip(b as int), path@.skip(p as int)) {
                Some(rest) => Some(trim_path_end(rest)),
                None => None,
            },
        decreases root.len() - b,
    {
        let b1 = skip_separators_from(root, b);
        let p1 = skip_separators_from(path, p);
        if b1 == root.len() {
            let end = trim_end_from(path, p1);
            proof {
                assert(root@.skip(b1 as int).len() == 0);
            }
            return Some(string_from_range(path, p1, end));
        }
        let b2 = segment_end(root, b1);
        let p2 = segment_end(path, p1);
        proof {
            assert(root@.skip(b1 as int).take(b2 - b1) =~= root@.subrange(b1 as int, b2 as int));
            assert(path@.skip(p1 as int).take(p2 - p1) =~= path@.subrange(p1 as int, p2 as int));
            assert(root@.skip(b1 as int).skip(b2 - b1) =~= root@.skip(b2 as int));
            assert(path@.skip(p1 as int).skip(p2 - p1) =~= path@.skip(p2 as int));
            lemma_segment_len(root@.skip(b1 as int));
        }
        if p1 == path.len() || !ranges_equal(root, b1, b2, path, p1, p2) {
            return None;
        }
        b = b2;
        p = p2;
    }
}

/// The path of `absolute_file_path` relative to `search_root_path`, or the path
/// unchanged when it does not lie under that directory.
pub fn make_relative_path(search_root_path: &str, absolute_file_path: &str) -> (r: String)
    ensures
        r@ == relative_path_spec(search_root_path@, absolute_file_path@),
{
    let root = chars_of(search_root_path);
    let path = chars_of(absolute_file_path);
    match strip_root(&root, &path) {
        Some(rest) => rest,
        None => {
            proof {
                assert(path@.subrange(0, path.len() as int) =~= path@);
            }
            string_from_range(&path, 0, path.len())
        },
    }
}

/// Index of the last `c` in `s`, if any.
pub open spec fn last_index_of(s: Seq<char>, c: char) -> Option<int>
    decreases s.len(),
{
    if s.len() == 0 {
        None
    } else if s.last() == c {
        Some(s.len() - 1)
    } else {
        last_index_of(s.drop_last(), c)
    }
}

proof fn lemma_last_index_of(s: Seq<char>, c: char)
    ensures
        match last_index_of(s, c) {
            Some(i) => 0 <= i < s.len() && s[i] == c && forall|j: int| i < j < s.len() ==> s[j] != c,
            None => forall|j: int| 0 <= j < s.len() ==> s[j] != c,
        },
    decreases s.len(),
{
    if s.len() > 0 {
        lemma_last_index_of(s.drop_last(), c);
        if s.last() != c {
            match last_index_of(s.drop_last(), c) {
                Some(i) => {
                    assert forall|j: int| i < j < s.len() implies s[j] != c by {
                        if j < s.len() - 1 {
                            assert(s[j] == s.drop_last()[j]);
                        }
                    }
                },
                None => {
                    assert forall|j: int| 0 <= j < s.len() implies s[j] != c by {
                        if j < s.len() - 1 {
                            assert(s[j] == s.drop_last()[j]);
                        }
                    }
                },
            }
        }
    }
}

fn find_last(chars: &Vec<char>, c: char) -> (r: Option<usize>)
    ensures
        match r {
            Some(i) => i < chars.len() && last_index_of(chars@, c) == Some(i as int),
            None => last_index_of(chars@, c) is None,
        },
{
    let mut i: usize = chars.len();
    while i > 0
        invariant
            i <= chars.len(),
            forall|j: int| i <= j < chars.len() ==> chars@[j] != c,
        decreases i,
    {
        if chars[i - 1] == c {
            proof {
                lemma_last_index_of(chars@, c);
                match last_index_of(chars@, c) {
                    Some(k) => {
                        assert(k == i - 1);
                    },
                    None => {},
                }
            }
            return Some(i - 1);
        }
        i = i - 1;
    }
    proof {
        lemma_last_index_of(chars@, c);
    }
    None
}

/// `path` without what follows its last component: trailing `/` separators and trailing
/// `.` segments are dropped, as path components skip them.
pub open spec fn trim_path_end(path: Seq<char>) -> Seq<char>
    decreases path.len(),
{
    if path.len() > 0 && (path.last() == '/' || (path.last() == '.' && (path.len() == 1
        || path[path.len() - 2] == '/'))) {
        trim_path_end(path.drop_last())
    } else {
        path
    }
}

/// The last component of `path` (what follows the last `/` once trailing separators and
/// `.` segments are dropped), unless that is empty or `..`.
pub open spec fn file_name_spec(path: Seq<char>) -> Option<Seq<char>> {
    let p = trim_path_end(path);
    let name = match last_index_of(p, '/') {
        Some(i) => p.skip(i + 1),
        None => p,
    };
    if name.len() == 0 || name == seq!['.', '.'] {
        None
    } else {
        Some(name)
    }
}

/// A trailing separator or a trailing `.` component leaves the file name unchanged, as
/// path components skip both: `a/x.rs`, `a/x.rs/` and `a/x.rs/.` name the same file.
pub proof fn law_file_name_ignores_trailing_separators(path: Seq<char>)
    ensures
        file_name_spec(path.push('/')) == file_name_spec(path),
        file_name_spec(path.push('/').push('.')) == file_name_spec(path),
{
    assert(path.push('/').drop_last() =~= path);
    assert(path.push('/').push('.').drop_last() =~= path.push('/'));
    assert(trim_path_end(path.push('/')) == trim_path_end(path));
    assert(trim_path_end(path.push('/').push('.')) == trim_path_end(path.push('/')));
}

/// The extension of a file name: what follows its last `.`, when that `.` is not the
/// first character.
pub open spec fn extension_spec(name: Seq<char>) -> Option<Seq<char>> {
    match last_index_of(name, '.') {
        Some(i) => if i > 0 {
            Some(name.skip(i + 1))
        } else {
            None
        },
        None => None,
    }
}

/// The file name of `path` (see `file_name_spec`).
pub fn file_name(path: &str) -> (r: Option<String>)
    ensures
        match r {
            Some(n) => file_name_spec(path@) == Some(n@),
            None => file_name_spec(path@) is None,
        },
{
    let chars = chars_of(path);
    let end = trim_end_from(&chars, 0);
    let trimmed = string_from_range(&chars, 0, end);
    let p = chars_of(trimmed.as_str());
    proof {
        assert(chars@.skip(0) =~= chars@);
    }
    let start = match find_last(&p, '/') {
        Some(i) => i + 1,
        None => 0,
    };
    let name = string_from_range(&p, start, p.len());
    proof {
        assert(p@.skip(0) =~= p@);
        assert(p@.subrange(start as int, p.len() as int) =~= p@.skip(start as int));
    }
    let n = chars_of(name.as_str());
    if n.len() == 0 || (n.len() == 2 && n[0] == '.' && n[1] == '.') {
        proof {
            if n.len() == 2 {
                assert(n@ =~= seq!['.', '.']);
            }
        }
        None
    } else {
        proof {
            if n@ == seq!['.', '.'] {
                assert(n@[0] == '.' && n@[1] == '.');
            }
        }
        Some(name)
    }
}

/// The extension of the file name of `path`.
pub open spec fn path_extension_spec(path: Seq<char>) -> Option<Seq<char>> {
    match file_name_spec(path) {
        Some(name) => extension_spec(name),
        None => None,
    }
}

/// The extension of the file name of `path` (see `path_extension_spec`).
pub fn path_extension(path: &str) -> (r: Option<String>)
    ensures
        match r {
            Some(e) => path_extension_spec(path@) == Some(e@),
            None => path_extension_spec(path@) is None,
        },
{
    let name = match file_name(path) {
        Some(name) => name,
        None => return None,
    };
    let chars = chars_of(name.as_str());
    match find_last(&chars, '.') {
        Some(i) => {
            if i > 0 {
                let ext = string_from_range(&chars, i + 1, chars.len());
                proof {
                    assert(chars@.subrange(i + 1, chars.len() as int) =~= chars@.skip(i + 1));
                }
                Some(ext)
            } else {
                None
            }
        },
        None => None,
    }
}

} // verus!
