//! Text helpers of target extraction: lines, prefixes and suffixes, snippets, signatures
//! and comments.

use vstd::prelude::*;

use crate::model::{SearchTargetKind, SupportedLanguage};
use crate::paths::starts_with_spec;
use crate::text::{
    condense_spec, condense_whitespace, join_spec, join_strings, string_from_range, strings_view,
    trim, trim_spec, truncate_spec, truncate_text,
};
use crate::unicode::chars_of;

verus! {

/// Whether `s` holds no characters.
pub fn text_is_empty(s: &str) -> (r: bool)
    ensures
        r == (s@.len() == 0),
{
    chars_of(s).len() == 0
}

// ---------------------------------------------------------------------------
// Lines
// ---------------------------------------------------------------------------

/// The characters of `s` before the first `c` (all of `s` when it holds none).
pub open spec fn take_until(s: Seq<char>, c: char) -> Seq<char>
    decreases s.len(),
{
    if s.len() == 0 {
        s
    } else if s[0] == c {
        Seq::empty()
    } else {
        seq![s[0]] + take_until(s.drop_first(), c)
    }
}

proof fn lemma_take_until_prefix(s: Seq<char>, c: char, m: int)
    requires
        0 <= m <= s.len(),
        forall|k: int| 0 <= k < m ==> s[k] != c,
        m == s.len() || s[m] == c,
    ensures
        take_until(s, c) == s.take(m),
    decreases m,
{
    if m == 0 {
        assert(s.take(0) =~= Seq::<char>::empty());
    } else {
        lemma_take_until_prefix(s.drop_first(), c, m - 1);
        assert(s.take(m) =~= seq![s[0]] + s.drop_first().take(m - 1));
    }
}

/// A line without the carriage return that ends it, when a line feed followed.
pub open spec fn strip_cr(line: Seq<char>, terminated: bool) -> Seq<char> {
    if terminated && line.len() > 0 && line.last() == '\r' {
        line.drop_last()
    } else {
        line
    }
}

/// The lines of `s` as `str::lines` gives them: split at `\n`, a `\r` before it dropped,
/// no empty last line after a final line feed.
pub open spec fn lines_spec(s: Seq<char>) -> Seq<Seq<char>>
    decreases s.len(),
{
    if s.len() == 0 {
        Seq::empty()
    } else {
        let line = take_until(s, '\n');
        if line.len() < s.len() {
            seq![strip_cr(line, true)] + lines_spec(s.skip(line.len() + 1 as int))
        } else {
            seq![strip_cr(line, false)]
        }
    }
}

/// The lines of `text` (see `lines_spec`).
pub fn split_lines(text: &str) -> (lines: Vec<String>)
    ensures
        strings_view(lines@) == lines_spec(text@),
{
    let chars = chars_of(text);
    let n = chars.len();
    let mut lines: Vec<String> = Vec::new();
    let mut i: usize = 0;
    assert(chars@.skip(0) =~= chars@);
    assert(strings_view(lines@) + lines_spec(chars@.skip(0)) =~= lines_spec(text@));
    while i < n
        invariant
            i <= n == chars.len(),
            chars@ == text@,
            strings_view(lines@) + lines_spec(chars@.skip(i as int)) == lines_spec(text@),
        decreases n - i,
    {
        let mut j: usize = i;
        while j < n && chars[j] != '\n'
            invariant
                i <= j <= n == chars.len(),
                forall|k: int| i <= k < j ==> chars@[k] != '\n',
            decreases n - j,
        {
            j = j + 1;
        }
        let ghost rest = chars@.skip(i as int);
        proof {
            lemma_take_until_prefix(rest, '\n', j - i);
            assert(rest.take(j - i) =~= chars@.subrange(i as int, j as int));
        }
        let terminated = j < n;
        let mut end = j;
        if terminated && j > i && chars[j - 1] == '\r' {
            end = j - 1;
        }
        let line = string_from_range(&chars, i, end);
        proof {
            let full = chars@.subrange(i as int, j as int);
            assert(line@ =~= strip_cr(full, terminated));
            if terminated {
                assert(rest.skip(j - i + 1) =~= chars@.skip(j + 1));
            } else {
                assert(chars@.skip(n as int) =~= Seq::<char>::empty());
            }
        }
        let ghost before = lines@;
        lines.push(line);
        proof {
            assert(strings_view(lines@) =~= strings_view(before).push(lines@.last()@));
        }
        if terminated {
            i = j + 1;
        } else {
            i = n;
        }
        proof {
            assert(strings_view(lines@) + lines_spec(chars@.skip(i as int)) =~= strings_view(before)
                + lines_spec(rest));
        }
    }
    proof {
        assert(chars@.skip(n as int) =~= Seq::<char>::empty());
        assert(strings_view(lines@) + Seq::<Seq<char>>::empty() =~= strings_view(lines@));
    }
    lines
}

/// The first `n` elements of `s`, or all of them when it has fewer.
pub open spec fn take_at_most<A>(s: Seq<A>, n: nat) -> Seq<A> {
    if s.len() <= n {
        s
    } else {
        s.take(n as int)
    }
}

// ---------------------------------------------------------------------------
// Prefixes and suffixes
// ---------------------------------------------------------------------------

/// `suffix` is a suffix of `s`.
pub open spec fn ends_with_spec(s: Seq<char>, suffix: Seq<char>) -> bool {
    suffix.len() <= s.len() && s.skip(s.len() - suffix.len()) == suffix
}

/// Whether `s` starts with `prefix`.
pub fn has_prefix(s: &str, prefix: &str) -> (r: bool)
    ensures
        r == starts_with_spec(s@, prefix@),
{
    let x = chars_of(s);
    let p = chars_of(prefix);
    if p.len() > x.len() {
        return false;
    }
    let mut i: usize = 0;
    while i < p.len()
        invariant
            p.len() <= x.len(),
            x@ == s@,
            p@ == prefix@,
            i <= p.len(),
            forall|k: int| 0 <= k < i ==> x@[k] == p@[k],
        decreases p.len() - i,
    {
        if x[i] != p[i] {
            assert(s@.take(prefix@.len() as int)[i as int] != prefix@[i as int]);
            return false;
        }
        i = i + 1;
    }
    assert(s@.take(prefix@.len() as int) =~= prefix@);
    true
}

/// Whether `s` ends with `suffix`.
pub fn has_suffix(s: &str, suffix: &str) -> (r: bool)
    ensures
        r == ends_with_spec(s@, suffix@),
{
    let x = chars_of(s);
    let p = chars_of(suffix);
    if p.len() > x.len() {
        return false;
    }
    let off = x.len() - p.len();
    let mut i: usize = 0;
    while i < p.len()
        invariant
            p.len() <= x.len(),
            off == x.len() - p.len(),
            x@ == s@,
            p@ == suffix@,
            i <= p.len(),
            forall|k: int| 0 <= k < i ==> x@[off + k] == p@[k],
        decreases p.len() - i,
    {
        if x[off + i] != p[i] {
            assert(s@.skip(off as int)[i as int] != suffix@[i as int]);
            return false;
        }
        i = i + 1;
    }
    assert(s@.skip(off as int) =~= suffix@);
    true
}

/// `s` with every leading repetition of `p` removed (`str::trim_start_matches`).
pub open spec fn strip_prefixes(s: Seq<char>, p: Seq<char>) -> Seq<char>
    decreases s.len(),
{
    if p.len() > 0 && starts_with_spec(s, p) {
        strip_prefixes(s.skip(p.len() as int), p)
    } else {
        s
    }
}

/// `s` with every trailing repetition of `p` removed (`str::trim_end_matches`).
pub open spec fn strip_suffixes(s: Seq<char>, p: Seq<char>) -> Seq<char>
    decreases s.len(),
{
    if p.len() > 0 && ends_with_spec(s, p) {
        strip_suffixes(s.take(s.len() - p.len()), p)
    } else {
        s
    }
}

/// `s` with every leading repetition of `p` removed (see `strip_prefixes`).
pub fn trim_start_matches(s: &str, p: &str) -> (r: String)
    ensures
        r@ == strip_prefixes(s@, p@),
{
    let x = chars_of(s);
    let q = chars_of(p);
    let mut start: usize = 0;
    let mut done = q.len() == 0;
    assert(x@.skip(0) =~= x@);
    while !done
        invariant
            x@ == s@,
            q@ == p@,
            start <= x.len(),
            q.len() > 0 || done,
            strip_prefixes(x@.skip(start as int), q@) == strip_prefixes(s@, p@),
            done ==> strip_prefixes(x@.skip(start as int), q@) == x@.skip(start as int),
        decreases (x.len() - start) * 2 + (if done { 0int } else { 1int }),
    {
        let rest = x.len() - start;
        let mut agree = q.len() <= rest;
        let mut k: usize = 0;
        while agree && k < q.len()
            invariant
                start <= x.len(),
                agree ==> q.len() <= x.len() - start,
                k <= q.len(),
                agree ==> forall|j: int| 0 <= j < k ==> x@[start + j] == q@[j],
                !agree ==> !starts_with_spec(x@.skip(start as int), q@),
            decreases (q.len() - k) + (if agree { 1int } else { 0int }),
        {
            if x[start + k] != q[k] {
                assert(x@.skip(start as int).take(q.len() as int)[k as int] != q@[k as int]);
                agree = false;
            } else {
                k = k + 1;
            }
        }
        if agree {
            assert(x@.skip(start as int).take(q.len() as int) =~= q@);
            assert(x@.skip(start as int).skip(q.len() as int) =~= x@.skip(start + q.len()));
            start = start + q.len();
        } else {
            done = true;
        }
    }
    string_from_range(&x, start, x.len())
}

/// `s` with every trailing repetition of `p` removed (see `strip_suffixes`).
pub fn trim_end_matches(s: &str, p: &str) -> (r: String)
    ensures
        r@ == strip_suffixes(s@, p@),
{
    let x = chars_of(s);
    let q = chars_of(p);
    let mut end: usize = x.len();
    let mut done = q.len() == 0;
    assert(x@.take(x.len() as int) =~= x@);
    while !done
        invariant
            x@ == s@,
            q@ == p@,
            end <= x.len(),
            q.len() > 0 || done,
            strip_suffixes(x@.take(end as int), q@) == strip_suffixes(s@, p@),
            done ==> strip_suffixes(x@.take(end as int), q@) == x@.take(end as int),
        decreases end * 2 + (if done { 0int } else { 1int }),
    {
        let mut agree = q.len() <= end;
        let mut k: usize = 0;
        while agree && k < q.len()
            invariant
                end <= x.len(),
                agree ==> q.len() <= end,
                k <= q.len(),
                agree ==> forall|j: int| 0 <= j < k ==> x@[end - q.len() + j] == q@[j],
                !agree ==> !ends_with_spec(x@.take(end as int), q@),
            decreases (q.len() - k) + (if agree { 1int } else { 0int }),
        {
            if x[end - q.len() + k] != q[k] {
                assert(x@.take(end as int).skip(end - q.len())[k as int] != q@[k as int]);
                agree = false;
            } else {
                k = k + 1;
            }
        }
        if agree {
            assert(x@.take(end as int).skip(end - q.len()) =~= q@);
            assert(x@.take(end as int).take(end - q.len()) =~= x@.take(end - q.len()));
            end = end - q.len();
        } else {
            done = true;
        }
    }
    proof {
        if end == x.len() {
            assert(x@.take(end as int) =~= x@);
        }
    }
    string_from_range(&x, 0, end)
}

// ---------------------------------------------------------------------------
// Search text and snippets
// ---------------------------------------------------------------------------

/// The condensed form of a part, kept when it is not empty.
pub open spec fn condensed_part(part: Seq<char>) -> Option<Seq<char>> {
    if condense_spec(part).len() > 0 {
        Some(condense_spec(part))
    } else {
        None
    }
}

/// The non-empty condensed parts joined by line feeds.
pub open spec fn search_text_spec(parts: Seq<Seq<char>>) -> Seq<char> {
    join_spec(parts.filter_map(|p: Seq<char>| condensed_part(p)), seq!['\n'])
}

/// The condensed forms of `parts` that are not empty, in order.
fn condensed_parts(parts: &Vec<String>) -> (r: Vec<String>)
    ensures
        strings_view(r@) == strings_view(parts@).filter_map(|p: Seq<char>| condensed_part(p)),
{
    let ghost f = |p: Seq<char>| condensed_part(p);
    let mut r: Vec<String> = Vec::new();
    let mut i: usize = 0;
    while i < parts.len()
        invariant
            i <= parts.len(),
            f == |p: Seq<char>| condensed_part(p),
            strings_view(r@) == strings_view(parts@).take(i as int).filter_map(f),
        decreases parts.len() - i,
    {
        let c = condense_whitespace(parts[i].as_str());
        let ghost before = r@;
        proof {
            assert(strings_view(parts@).take(i + 1).drop_last() =~= strings_view(parts@).take(
                i as int,
            ));
        }
        if !text_is_empty(c.as_str()) {
            r.push(c);
            proof {
                assert(strings_view(r@) =~= strings_view(before) + seq![c@]);
            }
        }
        i = i + 1;
    }
    proof {
        assert(strings_view(parts@).take(parts.len() as int) =~= strings_view(parts@));
    }
    r
}

/// The non-empty condensed parts joined by line feeds (see `search_text_spec`).
pub fn build_search_text(parts: &Vec<String>) -> (text: String)
    ensures
        text@ == search_text_spec(strings_view(parts@)),
{
    let kept = condensed_parts(parts);
    proof {
        reveal_strlit("\n");
        assert("\n"@ =~= seq!['\n']);
    }
    join_strings(&kept, "\n")
}

/// The one-line snippet of a text: white space condensed, at most 180 characters.
pub open spec fn single_line_snippet_spec(text: Seq<char>) -> Seq<char> {
    truncate_spec(condense_spec(text), 180)
}

/// The one-line snippet of `text` (see `single_line_snippet_spec`).
pub fn build_single_line_snippet(text: &str) -> (snippet: String)
    ensures
        snippet@ == single_line_snippet_spec(text@),
{
    let condensed = condense_whitespace(text);
    truncate_text(condensed.as_str(), 180)
}

/// The condensed lines of a snippet: at most three lines of the comment, then at most
/// four non-empty lines of the node's text.
pub open spec fn display_lines(comment: Seq<char>, node_text: Seq<char>) -> Seq<Seq<char>> {
    let comment_lines = if comment.len() == 0 {
        Seq::empty()
    } else {
        take_at_most(lines_spec(comment), 3).map_values(|l: Seq<char>| condense_spec(l))
    };
    comment_lines + take_at_most(lines_spec(node_text).filter_map(|l: Seq<char>| condensed_part(l)), 4)
}

/// A display snippet: the display lines joined by line feeds, at most 400 characters.
pub open spec fn display_snippet_spec(comment: Seq<char>, node_text: Seq<char>) -> Seq<char> {
    truncate_spec(join_spec(display_lines(comment, node_text), seq!['\n']), 400)
}

/// A display snippet of a comment and a node's text (see `display_snippet_spec`).
pub fn build_display_snippet(comment_text: &str, node_text: &str) -> (snippet: String)
    ensures
        snippet@ == display_snippet_spec(comment_text@, node_text@),
{
    let mut snippet_lines: Vec<String> = Vec::new();
    let comment_chars = chars_of(comment_text);
    if comment_chars.len() > 0 {
        let lines = split_lines(comment_text);
        let limit: usize = if lines.len() < 3 {
            lines.len()
        } else {
            3
        };
        let mut i: usize = 0;
        while i < limit
            invariant
                limit <= lines.len(),
                limit == take_at_most(strings_view(lines@), 3).len(),
                i <= limit,
                strings_view(snippet_lines@) == take_at_most(strings_view(lines@), 3).take(
                    i as int,
                ).map_values(|l: Seq<char>| condense_spec(l)),
            decreases limit - i,
        {
            let ghost before = snippet_lines@;
            let line = condense_whitespace(lines[i].as_str());
            snippet_lines.push(line);
            proof {
                let all = take_at_most(strings_view(lines@), 3);
                assert(all[i as int] == lines@[i as int]@);
                assert(strings_view(snippet_lines@) =~= strings_view(before).push(line@));
                assert(all.take(i + 1).map_values(|l: Seq<char>| condense_spec(l)) =~= all.take(
                    i as int,
                ).map_values(|l: Seq<char>| condense_spec(l)).push(condense_spec(all[i as int])));
            }
            i = i + 1;
        }
        proof {
            assert(take_at_most(strings_view(lines@), 3).take(limit as int) =~= take_at_most(
                strings_view(lines@),
                3,
            ));
        }
    }
    let ghost comment_part = strings_view(snippet_lines@);
    let node_lines = split_lines(node_text);
    let kept = condensed_parts(&node_lines);
    let limit: usize = if kept.len() < 4 {
        kept.len()
    } else {
        4
    };
    let mut i: usize = 0;
    while i < limit
        invariant
            limit <= kept.len(),
            limit == take_at_most(strings_view(kept@), 4).len(),
            i <= limit,
            strings_view(snippet_lines@) == comment_part + take_at_most(strings_view(kept@), 4).take(
                i as int,
            ),
        decreases limit - i,
    {
        let ghost before = snippet_lines@;
        let line = kept[i].clone();
        snippet_lines.push(line);
        proof {
            let all = take_at_most(strings_view(kept@), 4);
            assert(all[i as int] == kept@[i as int]@);
            assert(strings_view(snippet_lines@) =~= strings_view(before).push(line@));
            assert(all.take(i + 1) =~= all.take(i as int).push(all[i as int]));
        }
        i = i + 1;
    }
    proof {
        assert(take_at_most(strings_view(kept@), 4).take(limit as int) =~= take_at_most(
            strings_view(kept@),
            4,
        ));
        assert(strings_view(snippet_lines@) =~= display_lines(comment_text@, node_text@));
        reveal_strlit("\n");
        assert("\n"@ =~= seq!['\n']);
    }
    let joined = join_strings(&snippet_lines, "\n");
    truncate_text(joined.as_str(), 400)
}


// ---------------------------------------------------------------------------
// Signatures
// ---------------------------------------------------------------------------

/// The characters of `s` before the first `c` (see `take_until`).
pub fn prefix_before(s: &str, c: char) -> (r: String)
    ensures
        r@ == take_until(s@, c),
{
    let x = chars_of(s);
    let mut j: usize = 0;
    while j < x.len() && x[j] != c
        invariant
            j <= x.len(),
            x@ == s@,
            forall|k: int| 0 <= k < j ==> x@[k] != c,
        decreases x.len() - j,
    {
        j = j + 1;
    }
    proof {
        lemma_take_until_prefix(x@, c, j as int);
    }
    string_from_range(&x, 0, j)
}

/// Whether `s` holds the character `c`.
pub fn contains_char(s: &str, c: char) -> (r: bool)
    ensures
        r == s@.contains(c),
{
    let x = chars_of(s);
    let mut j: usize = 0;
    while j < x.len()
        invariant
            j <= x.len(),
            x@ == s@,
            forall|k: int| 0 <= k < j ==> x@[k] != c,
        decreases x.len() - j,
    {
        if x[j] == c {
            assert(s@[j as int] == c);
            return true;
        }
        j = j + 1;
    }
    false
}

/// The signature part of a trimmed line: what comes before `{`, trimmed, without
/// trailing `;`, trimmed again.
pub open spec fn signature_part(t: Seq<char>) -> Seq<char> {
    trim_spec(strip_suffixes(trim_spec(take_until(t, '{')), ";"@))
}

/// A trimmed line that ends a signature: it opens a block or ends with `;`.
pub open spec fn ends_signature(t: Seq<char>) -> bool {
    t.contains('{') || ends_with_spec(t, ";"@)
}

/// The signature parts gathered from `lines` after `acc`: blank lines are skipped before
/// the first part and end the signature after it; a line that opens a block or ends with
/// `;` is the last one read.
pub open spec fn signature_lines(lines: Seq<Seq<char>>, acc: Seq<Seq<char>>) -> Seq<Seq<char>>
    decreases lines.len(),
{
    if lines.len() == 0 {
        acc
    } else {
        let t = trim_spec(lines[0]);
        if t.len() == 0 {
            if acc.len() > 0 {
                acc
            } else {
                signature_lines(lines.drop_first(), acc)
            }
        } else {
            let part = signature_part(t);
            let next = if part.len() > 0 {
                acc.push(part)
            } else {
                acc
            };
            if ends_signature(t) {
                next
            } else {
                signature_lines(lines.drop_first(), next)
            }
        }
    }
}

/// The signature of a declaration's text: the signature parts of its first eight lines,
/// joined by spaces and condensed.
pub open spec fn signature_text_spec(text: Seq<char>) -> Seq<char> {
    condense_spec(join_spec(signature_lines(take_at_most(lines_spec(text), 8), Seq::empty()), " "@))
}

/// The signature of a declaration's text (see `signature_text_spec`).
pub fn extract_signature_text(node_text: &str) -> (signature: String)
    ensures
        signature@ == signature_text_spec(node_text@),
{
    let lines = split_lines(node_text);
    let limit: usize = if lines.len() < 8 {
        lines.len()
    } else {
        8
    };
    let ghost all = take_at_most(strings_view(lines@), 8);
    let mut parts: Vec<String> = Vec::new();
    let mut i: usize = 0;
    let mut done = false;
    assert(all.skip(0) =~= all);
    assert(strings_view(parts@) =~= Seq::<Seq<char>>::empty());
    while i < limit && !done
        invariant
            limit <= lines.len(),
            all == take_at_most(strings_view(lines@), 8),
            limit == all.len(),
            i <= limit,
            !done ==> signature_lines(all, Seq::empty()) == signature_lines(
                all.skip(i as int),
                strings_view(parts@),
            ),
            done ==> signature_lines(all, Seq::empty()) == strings_view(parts@),
        decreases limit - i,
    {
        let ghost rest = all.skip(i as int);
        assert(rest[0] == lines@[i as int]@);
        assert(rest.drop_first() =~= all.skip(i + 1));
        let t = trim(lines[i].as_str());
        if text_is_empty(t.as_str()) {
            if parts.len() > 0 {
                done = true;
            }
        } else {
            let head = prefix_before(t.as_str(), '{');
            let head_trimmed = trim(head.as_str());
            let stripped = trim_end_matches(head_trimmed.as_str(), ";");
            let part = trim(stripped.as_str());
            let ghost before = parts@;
            if !text_is_empty(part.as_str()) {
                parts.push(part);
                proof {
                    assert(strings_view(parts@) =~= strings_view(before).push(parts@.last()@));
                }
            }
            if contains_char(t.as_str(), '{') || has_suffix(t.as_str(), ";") {
                done = true;
            }
        }
        i = i + 1;
    }
    proof {
        if !done {
            assert(all.skip(i as int).len() == 0);
        }
    }
    let joined = join_strings(&parts, " ");
    condense_whitespace(joined.as_str())
}

// ---------------------------------------------------------------------------
// Comments before a declaration
// ---------------------------------------------------------------------------

/// A trimmed line that is a comment line.
pub open spec fn is_comment_line(l: Seq<char>) -> bool {
    starts_with_spec(l, "//"@) || starts_with_spec(l, "/*"@) || starts_with_spec(l, "*"@)
        || starts_with_spec(l, "*/"@)
}

/// The trimmed comment lines that directly precede line `k + 1` (1-based): the longest run
/// of comment lines ending at line `k`, in order.
pub open spec fn comments_before(lines: Seq<Seq<char>>, k: int) -> Seq<Seq<char>>
    decreases k,
{
    if k <= 0 || k > lines.len() {
        Seq::empty()
    } else {
        let l = trim_spec(lines[k - 1]);
        if l.len() > 0 && is_comment_line(l) {
            comments_before(lines, k - 1).push(l)
        } else {
            Seq::empty()
        }
    }
}

/// The comment block directly above line `line_start`, its lines joined by line feeds.
pub open spec fn preceding_comments_spec(lines: Seq<Seq<char>>, line_start: int) -> Seq<char> {
    join_spec(comments_before(lines, line_start - 1), "\n"@)
}

/// The comment block directly above line `line_start` (see `preceding_comments_spec`).
pub fn collect_preceding_comments(source_lines: &Vec<String>, line_start: usize) -> (comments: String)
    ensures
        comments@ == preceding_comments_spec(strings_view(source_lines@), line_start as int),
{
    let ghost lines = strings_view(source_lines@);
    if line_start <= 1 {
        let empty: Vec<String> = Vec::new();
        proof {
            assert(strings_view(empty@) =~= Seq::<Seq<char>>::empty());
        }
        return join_strings(&empty, "\n");
    }
    let mut acc: Vec<String> = Vec::new();
    let mut k: usize = line_start - 1;
    let mut done = false;
    assert(strings_view(acc@) =~= Seq::<Seq<char>>::empty());
    assert(comments_before(lines, k as int) + strings_view(acc@) =~= comments_before(lines, k as int));
    while k > 0 && !done
        invariant
            lines == strings_view(source_lines@),
            line_start >= 2,
            k <= line_start - 1,
            !done ==> comments_before(lines, line_start - 1) == comments_before(lines, k as int)
                + strings_view(acc@),
            done ==> comments_before(lines, line_start - 1) == strings_view(acc@),
        decreases k * 2 + (if done { 0int } else { 1int }),
    {
        if k > source_lines.len() {
            done = true;
            assert(comments_before(lines, k as int) =~= Seq::<Seq<char>>::empty());
            assert(Seq::<Seq<char>>::empty() + strings_view(acc@) =~= strings_view(acc@));
        } else {
            let l = trim(source_lines[k - 1].as_str());
            let comment = !text_is_empty(l.as_str()) && (has_prefix(l.as_str(), "//") || has_prefix(
                l.as_str(),
                "/*",
            ) || has_prefix(l.as_str(), "*") || has_prefix(l.as_str(), "*/"));
            assert(lines[k - 1] == source_lines@[k - 1]@);
            if comment {
                let ghost before = strings_view(acc@);
                acc.insert(0, l);
                proof {
                    assert(strings_view(acc@) =~= seq![trim_spec(lines[k - 1])] + before);
                    assert(comments_before(lines, k - 1) + strings_view(acc@) =~= comments_before(
                        lines,
                        k as int,
                    ) + before);
                }
                k = k - 1;
            } else {
                done = true;
                assert(comments_before(lines, k as int) =~= Seq::<Seq<char>>::empty());
                assert(Seq::<Seq<char>>::empty() + strings_view(acc@) =~= strings_view(acc@));
            }
        }
    }
    proof {
        if !done {
            assert(comments_before(lines, 0) + strings_view(acc@) =~= strings_view(acc@));
        }
    }
    join_strings(&acc, "\n")
}

// ---------------------------------------------------------------------------
// Names and types
// ---------------------------------------------------------------------------

/// A call's display name: the callee's text condensed, leading `this.` removed.
pub open spec fn call_display_name_spec(text: Seq<char>) -> Seq<char> {
    strip_prefixes(condense_spec(text), "this."@)
}

/// A call's display name (see `call_display_name_spec`).
pub fn normalize_call_display_name(text: &str) -> (name: String)
    ensures
        name@ == call_display_name_spec(text@),
{
    let condensed = condense_whitespace(text);
    trim_start_matches(condensed.as_str(), "this.")
}

/// A type's text condensed, leading `:` removed, trimmed.
pub open spec fn type_text_spec(text: Seq<char>) -> Seq<char> {
    trim_spec(strip_prefixes(condense_spec(text), ":"@))
}

/// A type's text (see `type_text_spec`).
pub fn normalize_type_text(text: &str) -> (type_text: String)
    ensures
        type_text@ == type_text_spec(text@),
{
    let condensed = condense_whitespace(text);
    let stripped = trim_start_matches(condensed.as_str(), ":");
    trim(stripped.as_str())
}

/// Whether one of `values` holds the characters of `x`.
pub fn contains_text(values: &Vec<String>, x: &str) -> (r: bool)
    ensures
        r == strings_view(values@).contains(x@),
{
    let mut i: usize = 0;
    while i < values.len()
        invariant
            i <= values.len(),
            forall|k: int| 0 <= k < i ==> values@[k]@ != x@,
        decreases values.len() - i,
    {
        if crate::parser::syntax::str_eq(values[i].as_str(), x) {
            assert(strings_view(values@)[i as int] == x@);
            return true;
        }
        i = i + 1;
    }
    proof {
        if strings_view(values@).contains(x@) {
            let k = choose|k: int| 0 <= k < values.len() && strings_view(values@)[k] == x@;
            assert(values@[k]@ == x@);
        }
    }
    false
}

/// `values` without empty strings and repeats, first occurrences kept in order.
pub open spec fn dedup_strings_spec(values: Seq<Seq<char>>) -> Seq<Seq<char>>
    decreases values.len(),
{
    if values.len() == 0 {
        Seq::empty()
    } else {
        let d = dedup_strings_spec(values.drop_last());
        let x = values.last();
        if x.len() == 0 || d.contains(x) {
            d
        } else {
            d.push(x)
        }
    }
}

/// `values` without empty strings and repeats (see `dedup_strings_spec`).
pub fn dedup_strings_preserve_order(values: &Vec<String>) -> (r: Vec<String>)
    ensures
        strings_view(r@) == dedup_strings_spec(strings_view(values@)),
{
    let mut r: Vec<String> = Vec::new();
    let mut i: usize = 0;
    while i < values.len()
        invariant
            i <= values.len(),
            strings_view(r@) == dedup_strings_spec(strings_view(values@).take(i as int)),
        decreases values.len() - i,
    {
        proof {
            assert(strings_view(values@).take(i + 1).drop_last() =~= strings_view(values@).take(
                i as int,
            ));
            assert(strings_view(values@).take(i + 1).last() == values@[i as int]@);
        }
        let x = values[i].as_str();
        if !text_is_empty(x) && !contains_text(&r, x) {
            let ghost before = r@;
            r.push(values[i].clone());
            proof {
                assert(strings_view(r@) =~= strings_view(before).push(values@[i as int]@));
            }
        }
        i = i + 1;
    }
    proof {
        assert(strings_view(values@).take(values.len() as int) =~= strings_view(values@));
    }
    r
}


// ---------------------------------------------------------------------------
// Roles and import hints
// ---------------------------------------------------------------------------

/// `p` occurs in `s`.
pub open spec fn contains_seq(s: Seq<char>, p: Seq<char>) -> bool {
    exists|k: int| 0 <= k && k + p.len() <= s.len() && #[trigger] s.subrange(k, k + p.len()) == p
}

/// Whether `p` occurs in `s`.
pub fn contains_str(s: &str, p: &str) -> (r: bool)
    ensures
        r == contains_seq(s@, p@),
{
    let x = chars_of(s);
    let q = chars_of(p);
    if q.len() > x.len() {
        return false;
    }
    let mut k: usize = 0;
    while k <= x.len() - q.len()
        invariant
            q.len() <= x.len(),
            x@ == s@,
            q@ == p@,
            k <= x.len() - q.len(),
            forall|j: int| 0 <= j < k ==> #[trigger] x@.subrange(j, j + q.len()) != q@,
        decreases x.len() - q.len() - k,
    {
        let mut m: usize = 0;
        let mut agree = true;
        while agree && m < q.len()
            invariant
                k + q.len() <= x.len(),
                m <= q.len(),
                agree ==> forall|j: int| 0 <= j < m ==> x@[k + j] == q@[j],
                !agree ==> x@.subrange(k as int, k + q.len()) != q@,
            decreases (q.len() - m) + (if agree { 1int } else { 0int }),
        {
            if x[k + m] != q[m] {
                assert(x@.subrange(k as int, k + q.len())[m as int] != q@[m as int]);
                agree = false;
            } else {
                m = m + 1;
            }
        }
        if agree {
            assert(x@.subrange(k as int, k + q.len()) =~= q@);
            return true;
        }
        if k == x.len() - q.len() {
            return false;
        }
        k = k + 1;
    }
    false
}

/// The role a symbol's name or attributes give it, if any.
pub open spec fn semantic_role_spec(name: Seq<char>, language: SupportedLanguage, test_attribute: bool) -> Option<Seq<char>> {
    if language == SupportedLanguage::Rust && test_attribute {
        Some("test"@)
    } else if language == SupportedLanguage::Go && starts_with_spec(name, "Test"@) {
        Some("test"@)
    } else if language == SupportedLanguage::Go && starts_with_spec(name, "Benchmark"@) {
        Some("benchmark"@)
    } else if name == "new"@ || starts_with_spec(name, "new_"@) || name == "constructor"@ {
        Some("constructor"@)
    } else if starts_with_spec(name, "test_"@) {
        Some("test"@)
    } else if starts_with_spec(name, "build"@) {
        Some("builder"@)
    } else if starts_with_spec(name, "handle_"@) || starts_with_spec(name, "on_"@) {
        Some("handler"@)
    } else if starts_with_spec(name, "from_"@) || starts_with_spec(name, "into_"@) || starts_with_spec(
        name,
        "to_"@,
    ) {
        Some("converter"@)
    } else if starts_with_spec(name, "get_"@) {
        Some("getter"@)
    } else if starts_with_spec(name, "set_"@) {
        Some("setter"@)
    } else {
        None
    }
}

/// The role of a symbol (see `semantic_role_spec`); `has_test_attribute` tells whether a
/// Rust item carries a test attribute.
pub fn classify_semantic_role(symbol_name: &str, language: SupportedLanguage, has_test_attribute: bool) -> (role: Option<String>)
    ensures
        opt_seq(role) == semantic_role_spec(symbol_name@, language, has_test_attribute),
{
    let name = symbol_name;
    let eq = crate::parser::syntax::str_eq;
    if language == SupportedLanguage::Rust && has_test_attribute {
        Some(String::from_str("test"))
    } else if language == SupportedLanguage::Go && has_prefix(name, "Test") {
        Some(String::from_str("test"))
    } else if language == SupportedLanguage::Go && has_prefix(name, "Benchmark") {
        Some(String::from_str("benchmark"))
    } else if eq(name, "new") || has_prefix(name, "new_") || eq(name, "constructor") {
        Some(String::from_str("constructor"))
    } else if has_prefix(name, "test_") {
        Some(String::from_str("test"))
    } else if has_prefix(name, "build") {
        Some(String::from_str("builder"))
    } else if has_prefix(name, "handle_") || has_prefix(name, "on_") {
        Some(String::from_str("handler"))
    } else if has_prefix(name, "from_") || has_prefix(name, "into_") || has_prefix(name, "to_") {
        Some(String::from_str("converter"))
    } else if has_prefix(name, "get_") {
        Some(String::from_str("getter"))
    } else if has_prefix(name, "set_") {
        Some(String::from_str("setter"))
    } else {
        None
    }
}

/// The characters of an optional string.
pub open spec fn opt_seq(o: Option<String>) -> Option<Seq<char>> {
    match o {
        Some(s) => Some(s@),
        None => None,
    }
}

/// `s` with every `/` replaced by `::`.
pub open spec fn replace_slashes(s: Seq<char>) -> Seq<char>
    decreases s.len(),
{
    if s.len() == 0 {
        s
    } else {
        replace_slashes(s.drop_last()) + if s.last() == '/' {
            "::"@
        } else {
            seq![s.last()]
        }
    }
}

/// `s` with every `/` replaced by `::` (see `replace_slashes`).
fn replace_slashes_in(s: &str) -> (r: String)
    ensures
        r@ == replace_slashes(s@),
{
    let x = chars_of(s);
    let mut r = String::new();
    let mut i: usize = 0;
    while i < x.len()
        invariant
            i <= x.len(),
            x@ == s@,
            r@ == replace_slashes(x@.take(i as int)),
        decreases x.len() - i,
    {
        proof {
            assert(x@.take(i + 1).drop_last() =~= x@.take(i as int));
        }
        if x[i] == '/' {
            r.append("::");
        } else {
            crate::unicode::push_char(&mut r, x[i]);
        }
        i = i + 1;
    }
    assert(x@.take(x.len() as int) =~= x@);
    r
}

/// The Rust module path of a file: `src/` and `.rs` removed, `/` made `::`, a final
/// `::mod` removed.
pub open spec fn rust_module_path(path: Seq<char>) -> Seq<char> {
    strip_suffixes(replace_slashes(strip_suffixes(strip_prefixes(path, "src/"@), ".rs"@)), "::mod"@)
}

/// The import statement that brings a symbol of a file into scope, where the language
/// has one and the symbol is not a method.
pub open spec fn import_hint_spec(
    symbol: Seq<char>,
    path: Seq<char>,
    language: SupportedLanguage,
    kind: SearchTargetKind,
) -> Option<Seq<char>> {
    match language {
        SupportedLanguage::Rust => if kind == SearchTargetKind::Method {
            None
        } else {
            let m = rust_module_path(path);
            if m == "lib"@ || m == "main"@ {
                Some("use crate::"@ + symbol + ";"@)
            } else {
                Some("use crate::"@ + m + "::"@ + symbol + ";"@)
            }
        },
        SupportedLanguage::TypeScript => if kind == SearchTargetKind::Method {
            None
        } else {
            let m = strip_suffixes(strip_suffixes(path, ".ts"@), ".tsx"@);
            Some("import { "@ + symbol + " } from './"@ + m + "';"@)
        },
        SupportedLanguage::Go => None,
    }
}

/// The import statement for a symbol (see `import_hint_spec`).
pub fn build_import_hint(
    symbol_name: &str,
    relative_file_path: &str,
    language: SupportedLanguage,
    target_kind: SearchTargetKind,
) -> (hint: Option<String>)
    ensures
        opt_seq(hint) == import_hint_spec(symbol_name@, relative_file_path@, language, target_kind),
{
    match language {
        SupportedLanguage::Rust => {
            if target_kind == SearchTargetKind::Method {
                return None;
            }
            let a = trim_start_matches(relative_file_path, "src/");
            let b = trim_end_matches(a.as_str(), ".rs");
            let c = replace_slashes_in(b.as_str());
            let module_name = trim_end_matches(c.as_str(), "::mod");
            let eq = crate::parser::syntax::str_eq;
            let mut hint = String::from_str("use crate::");
            if !(eq(module_name.as_str(), "lib") || eq(module_name.as_str(), "main")) {
                hint.append(module_name.as_str());
                hint.append("::");
            }
            hint.append(symbol_name);
            hint.append(";");
            Some(hint)
        },
        SupportedLanguage::TypeScript => {
            if target_kind == SearchTargetKind::Method {
                return None;
            }
            let a = trim_end_matches(relative_file_path, ".ts");
            let module_name = trim_end_matches(a.as_str(), ".tsx");
            let mut hint = String::from_str("import { ");
            hint.append(symbol_name);
            hint.append(" } from './");
            hint.append(module_name.as_str());
            hint.append("';");
            Some(hint)
        },
        SupportedLanguage::Go => None,
    }
}

} // verus!
