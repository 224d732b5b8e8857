//! Ordering and de-duplicating extracted references: a stable sort by line and label,
//! then the first of each class kept.

use vstd::prelude::*;

use crate::unicode::chars_of;

verus! {

/// Text order: the first differing character decides by code point, and a proper prefix
/// sorts first (the order of `str` comparison).
pub open spec fn text_less(a: Seq<char>, b: Seq<char>) -> bool
    decreases a.len(),
{
    if a.len() == 0 {
        b.len() > 0
    } else if b.len() == 0 {
        false
    } else if a[0] == b[0] {
        text_less(a.drop_first(), b.drop_first())
    } else {
        (a[0] as int) < (b[0] as int)
    }
}

proof fn lemma_text_less_suffix(a: Seq<char>, b: Seq<char>, i: int)
    requires
        0 <= i <= a.len(),
        i <= b.len(),
        a.take(i) == b.take(i),
    ensures
        text_less(a, b) == text_less(a.skip(i), b.skip(i)),
    decreases i,
{
    if i > 0 {
        assert(a[0] == a.take(i)[0]);
        assert(b[0] == b.take(i)[0]);
        assert(a.drop_first().take(i - 1) =~= a.take(i).drop_first());
        assert(b.drop_first().take(i - 1) =~= b.take(i).drop_first());
        lemma_text_less_suffix(a.drop_first(), b.drop_first(), i - 1);
        assert(a.drop_first().skip(i - 1) =~= a.skip(i));
        assert(b.drop_first().skip(i - 1) =~= b.skip(i));
    } else {
        assert(a.skip(0) =~= a);
        assert(b.skip(0) =~= b);
    }
}

/// The code point of `c`.
fn code_point(c: char) -> (k: u32)
    ensures
        k as int == c as int,
{
    c as u32
}

/// Whether `a` sorts before `b` in text order (see `text_less`).
pub fn text_before(a: &str, b: &str) -> (r: bool)
    ensures
        r == text_less(a@, b@),
{
    let x = chars_of(a);
    let y = chars_of(b);
    let mut i: usize = 0;
    while i < x.len() && i < y.len() && x[i] == y[i]
        invariant
            i <= x.len(),
            i <= y.len(),
            x@ == a@,
            y@ == b@,
            x@.take(i as int) == y@.take(i as int),
        decreases x.len() - i,
    {
        assert(x@.take(i + 1) =~= x@.take(i as int).push(x@[i as int]));
        assert(y@.take(i + 1) =~= y@.take(i as int).push(y@[i as int]));
        i = i + 1;
    }
    proof {
        lemma_text_less_suffix(x@, y@, i as int);
        if i < x.len() && i < y.len() {
            assert(x@.skip(i as int)[0] == x@[i as int]);
            assert(y@.skip(i as int)[0] == y@[i as int]);
        }
    }
    if i == y.len() {
        false
    } else if i == x.len() {
        true
    } else {
        code_point(x[i]) < code_point(y[i])
    }
}

/// The sort key of an entry: its first line, then its label.
pub open spec fn key_less(a: (usize, Seq<char>), b: (usize, Seq<char>)) -> bool {
    a.0 < b.0 || (a.0 == b.0 && text_less(a.1, b.1))
}

/// `sorted` with index `x` inserted after every entry whose key is not greater than its
/// own (the step of a stable insertion sort).
pub open spec fn insert_by_key(keys: Seq<(usize, Seq<char>)>, sorted: Seq<int>, x: int) -> Seq<int>
    decreases sorted.len(),
{
    if sorted.len() == 0 {
        seq![x]
    } else if key_less(keys[x], keys[sorted.last()]) {
        insert_by_key(keys, sorted.drop_last(), x).push(sorted.last())
    } else {
        sorted.push(x)
    }
}

/// The indices of the first `n` entries, stably sorted by key.
pub open spec fn sorted_prefix(keys: Seq<(usize, Seq<char>)>, n: int) -> Seq<int>
    decreases n,
{
    if n <= 0 {
        Seq::empty()
    } else {
        insert_by_key(keys, sorted_prefix(keys, n - 1), n - 1)
    }
}

/// Entries `i` and `j` fall in the same class: the same label, or with `by_line` also
/// the same first line.
pub open spec fn same_class(keys: Seq<(usize, Seq<char>)>, by_line: bool, i: int, j: int) -> bool {
    keys[i].1 == keys[j].1 && (!by_line || keys[i].0 == keys[j].0)
}

/// `order` with every index dropped whose class an earlier index already has.
pub open spec fn first_of_class(keys: Seq<(usize, Seq<char>)>, by_line: bool, order: Seq<int>) -> Seq<int>
    decreases order.len(),
{
    if order.len() == 0 {
        Seq::empty()
    } else {
        let kept = first_of_class(keys, by_line, order.drop_last());
        let x = order.last();
        if exists|k: int| 0 <= k < kept.len() && same_class(keys, by_line, #[trigger] kept[k], x) {
            kept
        } else {
            kept.push(x)
        }
    }
}

/// The entries stably sorted by first line and label, then the first of each class kept:
/// the indices of the entries that remain, in order.
pub open spec fn sort_dedup_spec(keys: Seq<(usize, Seq<char>)>, by_line: bool) -> Seq<int> {
    first_of_class(keys, by_line, sorted_prefix(keys, keys.len() as int))
}

proof fn lemma_insert_by_key_split(keys: Seq<(usize, Seq<char>)>, sorted: Seq<int>, x: int, p: int)
    requires
        0 <= p <= sorted.len(),
        forall|k: int| p <= k < sorted.len() ==> key_less(keys[x], keys[#[trigger] sorted[k]]),
        p == 0 || !key_less(keys[x], keys[sorted[p - 1]]),
    ensures
        insert_by_key(keys, sorted, x) == sorted.take(p).push(x) + sorted.skip(p),
    decreases sorted.len(),
{
    if sorted.len() == p {
        if p == 0 {
            assert(sorted.take(p).push(x) + sorted.skip(p) =~= seq![x]);
        } else {
            assert(sorted.take(p) =~= sorted);
            assert(sorted.take(p).push(x) + sorted.skip(p) =~= sorted.push(x));
        }
    } else {
        let d = sorted.drop_last();
        assert forall|k: int| p <= k < d.len() implies key_less(keys[x], keys[#[trigger] d[k]]) by {
            assert(d[k] == sorted[k]);
        }
        if p > 0 {
            assert(d[p - 1] == sorted[p - 1]);
        }
        lemma_insert_by_key_split(keys, d, x, p);
        assert(d.take(p) =~= sorted.take(p));
        assert(d.skip(p).push(sorted.last()) =~= sorted.skip(p));
        assert(sorted.take(p).push(x) + d.skip(p) + seq![sorted.last()] =~= sorted.take(p).push(x)
            + sorted.skip(p));
    }
}

/// Whether `keys[i]` sorts before `keys[j]` (see `key_less`).
fn key_before(lines: &Vec<usize>, labels: &Vec<String>, i: usize, j: usize) -> (r: bool)
    requires
        lines.len() == labels.len(),
        i < lines.len(),
        j < lines.len(),
    ensures
        r == key_less((lines@[i as int], labels@[i as int]@), (lines@[j as int], labels@[j as int]@)),
{
    lines[i] < lines[j] || (lines[i] == lines[j] && text_before(labels[i].as_str(), labels[j].as_str()))
}

/// The keys made of parallel lists of first lines and labels.
pub open spec fn keys_of(lines: Seq<usize>, labels: Seq<String>) -> Seq<(usize, Seq<char>)> {
    Seq::new(lines.len(), |k: int| (lines[k], labels[k]@))
}

/// The entries sorted by first line and label and de-duplicated by class (see
/// `sort_dedup_spec`): the indices of the entries kept.
pub fn sort_dedup_indices(lines: &Vec<usize>, labels: &Vec<String>, by_line: bool) -> (r: Vec<usize>)
    requires
        lines.len() == labels.len(),
    ensures
        r@.map_values(|j: usize| j as int) == sort_dedup_spec(keys_of(lines@, labels@), by_line),
        forall|k: int| 0 <= k < r.len() ==> #[trigger] r@[k] < lines.len(),
{
    let ghost keys = keys_of(lines@, labels@);
    let n = lines.len();
    let mut sorted: Vec<usize> = Vec::new();
    let mut i: usize = 0;
    while i < n
        invariant
            n == lines.len() == labels.len(),
            keys == keys_of(lines@, labels@),
            i <= n,
            sorted@.map_values(|j: usize| j as int) == sorted_prefix(keys, i as int),
            forall|k: int| 0 <= k < sorted.len() ==> #[trigger] sorted@[k] < i,
        decreases n - i,
    {
        let ghost before = sorted@.map_values(|j: usize| j as int);
        let mut p: usize = sorted.len();
        while p > 0 && key_before(lines, labels, i, sorted[p - 1])
            invariant
                n == lines.len() == labels.len(),
                keys == keys_of(lines@, labels@),
                i < n,
                p <= sorted.len(),
                before == sorted@.map_values(|j: usize| j as int),
                forall|k: int| 0 <= k < sorted.len() ==> #[trigger] sorted@[k] < i,
                forall|k: int| p <= k < sorted.len() ==> key_less(keys[i as int], keys[#[trigger] before[k]]),
            decreases p,
        {
            assert(keys[sorted@[p - 1] as int] == (lines@[sorted@[p - 1] as int], labels@[sorted@[p - 1] as int]@));
            p = p - 1;
        }
        proof {
            if p > 0 {
                assert(keys[before[p - 1]] == (lines@[sorted@[p - 1] as int], labels@[sorted@[p - 1] as int]@));
            }
            assert(keys[i as int] == (lines@[i as int], labels@[i as int]@));
            lemma_insert_by_key_split(keys, before, i as int, p as int);
        }
        let ghost old_sorted = sorted@;
        sorted.insert(p, i);
        proof {
            assert(sorted@.map_values(|j: usize| j as int) =~= before.take(p as int).push(i as int)
                + before.skip(p as int));
            assert forall|k: int| 0 <= k < sorted.len() implies #[trigger] sorted@[k] < i + 1 by {
                if k < p {
                    assert(sorted@[k] == old_sorted[k]);
                } else if k > p {
                    assert(sorted@[k] == old_sorted[k - 1]);
                }
            }
        }
        i = i + 1;
    }
    let mut kept: Vec<usize> = Vec::new();
    let mut k: usize = 0;
    let ghost order = sorted@.map_values(|j: usize| j as int);
    while k < sorted.len()
        invariant
            n == lines.len() == labels.len(),
            keys == keys_of(lines@, labels@),
            order == sorted@.map_values(|j: usize| j as int),
            forall|m: int| 0 <= m < sorted.len() ==> #[trigger] sorted@[m] < n,
            k <= sorted.len(),
            kept@.map_values(|j: usize| j as int) == first_of_class(keys, by_line, order.take(k as int)),
            forall|m: int| 0 <= m < kept.len() ==> #[trigger] kept@[m] < n,
        decreases sorted.len() - k,
    {
        let x = sorted[k];
        let ghost kv = kept@.map_values(|j: usize| j as int);
        let mut found = false;
        let mut m: usize = 0;
        while m < kept.len() && !found
            invariant
                n == lines.len() == labels.len(),
                keys == keys_of(lines@, labels@),
                x < n,
                kv == kept@.map_values(|j: usize| j as int),
                forall|q: int| 0 <= q < kept.len() ==> #[trigger] kept@[q] < n,
                m <= kept.len(),
                found ==> exists|q: int| 0 <= q < kv.len() && same_class(keys, by_line, #[trigger] kv[q], x as int),
                !found ==> forall|q: int| 0 <= q < m ==> !same_class(keys, by_line, #[trigger] kv[q], x as int),
            decreases (kept.len() - m) * 2 + (if found { 0int } else { 1int }),
        {
            let y = kept[m];
            assert(keys[y as int] == (lines@[y as int], labels@[y as int]@));
            assert(keys[x as int] == (lines@[x as int], labels@[x as int]@));
            let same = crate::parser::syntax::str_eq(labels[y].as_str(), labels[x].as_str()) && (!by_line
                || lines[y] == lines[x]);
            if same {
                assert(same_class(keys, by_line, kv[m as int], x as int));
                found = true;
            } else {
                m = m + 1;
            }
        }
        proof {
            assert(order.take(k + 1).drop_last() =~= order.take(k as int));
            assert(order.take(k + 1).last() == x as int);
        }
        if !found {
            kept.push(x);
            proof {
                assert(kept@.map_values(|j: usize| j as int) =~= kv.push(x as int));
            }
        }
        k = k + 1;
    }
    proof {
        assert(order.take(sorted.len() as int) =~= order);
        assert(keys.len() == n);
    }
    kept
}


// ---------------------------------------------------------------------------
// Properties of text order and of the sort
// ---------------------------------------------------------------------------

/// Text order is irreflexive.
pub proof fn lemma_text_less_irreflexive(a: Seq<char>)
    ensures
        !text_less(a, a),
    decreases a.len(),
{
    if a.len() > 0 {
        lemma_text_less_irreflexive(a.drop_first());
    }
}

/// Text order is transitive.
pub proof fn lemma_text_less_transitive(a: Seq<char>, b: Seq<char>, c: Seq<char>)
    requires
        text_less(a, b),
        text_less(b, c),
    ensures
        text_less(a, c),
    decreases a.len(),
{
    if a.len() > 0 && b.len() > 0 && c.len() > 0 {
        if a[0] == b[0] && b[0] == c[0] {
            lemma_text_less_transitive(a.drop_first(), b.drop_first(), c.drop_first());
        }
    }
}

/// Text order is total.
pub proof fn lemma_text_less_total(a: Seq<char>, b: Seq<char>)
    ensures
        a == b || text_less(a, b) || text_less(b, a),
    decreases a.len(),
{
    if a.len() > 0 && b.len() > 0 {
        if a[0] == b[0] {
            lemma_text_less_total(a.drop_first(), b.drop_first());
            if a.drop_first() == b.drop_first() {
                assert(a =~= seq![a[0]] + a.drop_first());
                assert(b =~= seq![b[0]] + b.drop_first());
            }
        } else {
            assert((a[0] as int) != (b[0] as int));
        }
    } else if a.len() == 0 && b.len() == 0 {
        assert(a =~= b);
    }
}

/// Key order is transitive.
pub proof fn lemma_key_less_transitive(a: (usize, Seq<char>), b: (usize, Seq<char>), c: (usize, Seq<char>))
    requires
        key_less(a, b),
        key_less(b, c),
    ensures
        key_less(a, c),
{
    if a.0 == b.0 && b.0 == c.0 {
        lemma_text_less_transitive(a.1, b.1, c.1);
    }
}

/// Key order is total and irreflexive.
pub proof fn lemma_key_less_total(a: (usize, Seq<char>), b: (usize, Seq<char>))
    ensures
        a == b || key_less(a, b) || key_less(b, a),
        !key_less(a, a),
{
    lemma_text_less_total(a.1, b.1);
    lemma_text_less_irreflexive(a.1);
}

/// The indices of `s` are in key order: none sorts before an earlier one.
pub open spec fn in_key_order(keys: Seq<(usize, Seq<char>)>, s: Seq<int>) -> bool {
    forall|i: int, j: int| 0 <= i < j < s.len() ==> !key_less(keys[#[trigger] s[j]], keys[#[trigger] s[i]])
}

proof fn lemma_insert_by_key_members(keys: Seq<(usize, Seq<char>)>, sorted: Seq<int>, x: int)
    ensures
        forall|y: int| #[trigger] insert_by_key(keys, sorted, x).contains(y) ==> y == x || sorted.contains(y),
    decreases sorted.len(),
{
    if sorted.len() > 0 && key_less(keys[x], keys[sorted.last()]) {
        let d = sorted.drop_last();
        lemma_insert_by_key_members(keys, d, x);
        let r = insert_by_key(keys, d, x);
        assert forall|y: int| #[trigger] r.push(sorted.last()).contains(y) implies y == x || sorted.contains(y) by {
            let q = choose|q: int| 0 <= q < r.push(sorted.last()).len() && r.push(sorted.last())[q] == y;
            if q < r.len() {
                assert(r[q] == y);
                assert(r.contains(y));
                if y != x {
                    let p = choose|p: int| 0 <= p < d.len() && d[p] == y;
                    assert(sorted[p] == y);
                }
            } else {
                assert(sorted[sorted.len() - 1] == y);
            }
        }
    } else if sorted.len() > 0 {
        assert forall|y: int| #[trigger] sorted.push(x).contains(y) implies y == x || sorted.contains(y) by {
            let q = choose|q: int| 0 <= q < sorted.push(x).len() && sorted.push(x)[q] == y;
            if q < sorted.len() {
                assert(sorted[q] == y);
            }
        }
    } else {
        assert forall|y: int| #[trigger] seq![x].contains(y) implies y == x || sorted.contains(y) by {
            let q = choose|q: int| 0 <= q < 1 && seq![x][q] == y;
        }
    }
}

proof fn lemma_insert_by_key_ordered(keys: Seq<(usize, Seq<char>)>, sorted: Seq<int>, x: int)
    requires
        in_key_order(keys, sorted),
    ensures
        in_key_order(keys, insert_by_key(keys, sorted, x)),
    decreases sorted.len(),
{
    if sorted.len() > 0 {
        let d = sorted.drop_last();
        let last = sorted.last();
        assert(in_key_order(keys, d)) by {
            assert forall|i: int, j: int| 0 <= i < j < d.len() implies !key_less(keys[#[trigger] d[j]], keys[#[trigger] d[i]]) by {
                assert(d[i] == sorted[i] && d[j] == sorted[j]);
            }
        }
        if key_less(keys[x], keys[last]) {
            lemma_insert_by_key_ordered(keys, d, x);
            lemma_insert_by_key_members(keys, d, x);
            let r = insert_by_key(keys, d, x);
            let full = r.push(last);
            assert forall|i: int, j: int| 0 <= i < j < full.len() implies !key_less(keys[#[trigger] full[j]], keys[#[trigger] full[i]]) by {
                if j == r.len() {
                    let e = r[i];
                    assert(r.contains(e));
                    lemma_key_less_total(keys[x], keys[last]);
                    if e == x {
                        if key_less(keys[last], keys[x]) {
                            lemma_key_less_transitive(keys[x], keys[last], keys[x]);
                            lemma_key_less_total(keys[x], keys[x]);
                        }
                    } else {
                        assert(d.contains(e));
                        let q = choose|q: int| 0 <= q < d.len() && d[q] == e;
                        assert(sorted[q] == e);
                        assert(!key_less(keys[sorted[sorted.len() - 1]], keys[sorted[q]]));
                    }
                } else {
                    assert(full[i] == r[i] && full[j] == r[j]);
                }
            }
        } else {
            let full = sorted.push(x);
            assert forall|i: int, j: int| 0 <= i < j < full.len() implies !key_less(keys[#[trigger] full[j]], keys[#[trigger] full[i]]) by {
                if j == sorted.len() {
                    let e = sorted[i];
                    assert(full[i] == e);
                    if key_less(keys[x], keys[e]) {
                        if i < sorted.len() - 1 {
                            assert(!key_less(keys[sorted[sorted.len() - 1]], keys[sorted[i]]));
                            lemma_key_less_total(keys[e], keys[last]);
                            if key_less(keys[e], keys[last]) {
                                lemma_key_less_transitive(keys[x], keys[e], keys[last]);
                            }
                        }
                    }
                } else {
                    assert(full[i] == sorted[i] && full[j] == sorted[j]);
                }
            }
        }
    }
}

/// The stable sort puts the indices in key order.
pub proof fn lemma_sorted_prefix_ordered(keys: Seq<(usize, Seq<char>)>, n: int)
    ensures
        in_key_order(keys, sorted_prefix(keys, n)),
    decreases n,
{
    if n > 0 {
        lemma_sorted_prefix_ordered(keys, n - 1);
        lemma_insert_by_key_ordered(keys, sorted_prefix(keys, n - 1), n - 1);
    }
}

/// Keeping the first of each class keeps key order.
pub proof fn lemma_first_of_class_ordered(keys: Seq<(usize, Seq<char>)>, by_line: bool, order: Seq<int>)
    requires
        in_key_order(keys, order),
    ensures
        in_key_order(keys, first_of_class(keys, by_line, order)),
        forall|y: int| #[trigger] first_of_class(keys, by_line, order).contains(y) ==> order.contains(y),
    decreases order.len(),
{
    if order.len() > 0 {
        let d = order.drop_last();
        let x = order.last();
        assert(in_key_order(keys, d)) by {
            assert forall|i: int, j: int| 0 <= i < j < d.len() implies !key_less(keys[#[trigger] d[j]], keys[#[trigger] d[i]]) by {
                assert(d[i] == order[i] && d[j] == order[j]);
            }
        }
        lemma_first_of_class_ordered(keys, by_line, d);
        let kept = first_of_class(keys, by_line, d);
        let r = first_of_class(keys, by_line, order);
        assert forall|y: int| #[trigger] r.contains(y) implies order.contains(y) by {
            let q = choose|q: int| 0 <= q < r.len() && r[q] == y;
            if q < kept.len() {
                assert(kept[q] == y);
                assert(kept.contains(y));
                let p = choose|p: int| 0 <= p < d.len() && d[p] == y;
                assert(order[p] == y);
            } else {
                assert(order[order.len() - 1] == y);
            }
        }
        assert forall|i: int, j: int| 0 <= i < j < r.len() implies !key_less(keys[#[trigger] r[j]], keys[#[trigger] r[i]]) by {
            if j < kept.len() {
                assert(r[i] == kept[i] && r[j] == kept[j]);
            } else {
                assert(r[j] == x);
                assert(r[i] == kept[i]);
                assert(kept.contains(kept[i]));
                let p = choose|p: int| 0 <= p < d.len() && d[p] == kept[i];
                assert(order[p] == kept[i]);
                assert(!key_less(keys[order[order.len() - 1]], keys[order[p]]));
            }
        }
    }
}

} // verus!
