//! What holds of every extraction: files never come out empty, filling in containers
//! keeps the targets, local bindings belong to their callable, and de-duplication keeps
//! one entry per class.

use vstd::prelude::*;

use crate::model::{SearchTargetKind, SupportedLanguage, TargetView};
use crate::parser::bindings::BindingDescriptor;
use crate::parser::order::{
    first_of_class, in_key_order, insert_by_key, lemma_first_of_class_ordered, lemma_sorted_prefix_ordered,
    same_class, sort_dedup_spec, sorted_prefix,
};
use crate::parser::snippets::{condensed_part, contains_seq, dedup_strings_spec, search_text_spec};
use crate::parser::syntax::SyntaxTree;
use crate::parser::targets::{local_target_spec, local_targets_spec, primary_target_spec};
use crate::text::{condense_spec, is_ascii_text, join_spec, law_normalized_ascii_is_condensed, normalize_query_spec};
use crate::parser::{analysis_targets_spec, placed_target, sibling_context_spec, BlockView};

verus! {

/// Filling in containers and siblings keeps every target in its place: the same number of
/// targets, each with its id, name, kind, file and lines.
pub proof fn law_sibling_context_keeps_targets(ts: Seq<TargetView>, blocks: Seq<BlockView>)
    ensures
        sibling_context_spec(ts, blocks).len() == ts.len(),
        forall|i: int|
            0 <= i < ts.len() ==> {
                let r = #[trigger] sibling_context_spec(ts, blocks)[i];
                &&& r.target_id == ts[i].target_id
                &&& r.symbol_name == ts[i].symbol_name
                &&& r.target_kind == ts[i].target_kind
                &&& r.file_path == ts[i].file_path
                &&& r.line_start == ts[i].line_start
                &&& r.line_end == ts[i].line_end
            },
{
    let placed = ts.map_values(|t: TargetView| placed_target(t, blocks));
    assert forall|i: int| 0 <= i < ts.len() implies {
        let r = #[trigger] sibling_context_spec(ts, blocks)[i];
        &&& r.target_id == ts[i].target_id
        &&& r.symbol_name == ts[i].symbol_name
        &&& r.target_kind == ts[i].target_kind
        &&& r.file_path == ts[i].file_path
        &&& r.line_start == ts[i].line_start
        &&& r.line_end == ts[i].line_end
    } by {
        assert(placed[i] == placed_target(ts[i], blocks));
    }
}

/// The analysis of a file of a supported language never comes out empty: it holds the
/// targets of the file's declarations, or else the file target.
pub proof fn law_analysis_never_empty(
    tree: SyntaxTree,
    source: Seq<char>,
    path: Seq<char>,
    language: SupportedLanguage,
)
    ensures
        analysis_targets_spec(tree, source, path, language).len() >= 1,
{
    let found = crate::parser::tree_targets_spec(tree, path, crate::parser::snippets::lines_spec(source), language);
    let all = if found.len() == 0 {
        seq![crate::parser::fallback_target_spec(source, path, language)]
    } else {
        found
    };
    law_sibling_context_keeps_targets(all, crate::parser::blocks_spec(tree, language));
}

/// Every target that a callable's local bindings yield is a local binding of that file,
/// whose parent is the callable.
pub proof fn law_local_bindings_belong_to_callable(
    tree: SyntaxTree,
    c: int,
    callable: Seq<char>,
    path: Seq<char>,
    language: SupportedLanguage,
)
    ensures
        forall|k: int|
            0 <= k < local_targets_spec(tree, c, callable, path, language).len() ==> {
                let t = #[trigger] local_targets_spec(tree, c, callable, path, language)[k];
                &&& t.target_kind == SearchTargetKind::LocalBinding
                &&& t.parent_symbol_name == Some(callable)
                &&& t.file_path == path
                &&& t.language == language
            },
{
    broadcast use vstd::seq_lib::group_filter_ensures;
    let all = local_targets_spec(tree, c, callable, path, language);
    match crate::parser::syntax::child_by_field_spec(tree, c, "body"@) {
        Some(b) => {
            let params = crate::parser::queries::parameter_descriptions_spec(
                tree,
                crate::parser::syntax::child_by_field_spec(tree, c, "parameters"@),
            );
            let descriptors = crate::parser::bindings::local_descriptors_spec(tree, b as int, language);
            let f = |d: BindingDescriptor| local_target_spec(tree, b as int, callable, d, params, path, language);
            assert(all == descriptors.filter_map(f));
            assert forall|k: int| 0 <= k < all.len() implies {
                let t = #[trigger] all[k];
                &&& t.target_kind == SearchTargetKind::LocalBinding
                &&& t.parent_symbol_name == Some(callable)
                &&& t.file_path == path
                &&& t.language == language
            } by {
                let t = all[k];
                assert(all.contains(t));
                descriptors.lemma_filter_map_contains(f, t);
                let d = choose|d: BindingDescriptor| #[trigger] descriptors.contains(d) && f(d) == Some(t);
                assert(f(d) == Some(t));
            }
        },
        None => {},
    }
}

/// Every kept entry is an entry of `order`.
proof fn lemma_first_of_class_members(keys: Seq<(usize, Seq<char>)>, by_line: bool, order: Seq<int>)
    ensures
        forall|i: int|
            0 <= i < first_of_class(keys, by_line, order).len() ==> order.contains(
                #[trigger] first_of_class(keys, by_line, order)[i],
            ),
    decreases order.len(),
{
    if order.len() > 0 {
        let d = order.drop_last();
        let x = order.last();
        lemma_first_of_class_members(keys, by_line, d);
        let kept = first_of_class(keys, by_line, d);
        let r = first_of_class(keys, by_line, order);
        assert forall|i: int| 0 <= i < r.len() implies order.contains(#[trigger] r[i]) by {
            if i < kept.len() {
                assert(r[i] == kept[i]);
                let q = choose|q: int| 0 <= q < d.len() && d[q] == kept[i];
                assert(order[q] == kept[i]);
            } else {
                assert(r[i] == x);
                assert(order[order.len() - 1] == x);
            }
        }
    }
}

/// De-duplication keeps no two entries of one class.
proof fn lemma_first_of_class_distinct(keys: Seq<(usize, Seq<char>)>, by_line: bool, order: Seq<int>)
    ensures
        forall|i: int, j: int|
            0 <= i < j < first_of_class(keys, by_line, order).len() ==> !same_class(
                keys,
                by_line,
                #[trigger] first_of_class(keys, by_line, order)[i],
                #[trigger] first_of_class(keys, by_line, order)[j],
            ),
    decreases order.len(),
{
    if order.len() > 0 {
        let d = order.drop_last();
        let x = order.last();
        lemma_first_of_class_distinct(keys, by_line, d);
        let kept = first_of_class(keys, by_line, d);
        let r = first_of_class(keys, by_line, order);
        assert forall|i: int, j: int| 0 <= i < j < r.len() implies !same_class(
            keys,
            by_line,
            #[trigger] r[i],
            #[trigger] r[j],
        ) by {
            if j < kept.len() {
                assert(r[i] == kept[i] && r[j] == kept[j]);
            } else {
                assert(r[j] == x && r[i] == kept[i]);
                if same_class(keys, by_line, kept[i], x) {
                    assert(exists|k: int| 0 <= k < kept.len() && same_class(keys, by_line, #[trigger] kept[k], x));
                }
            }
        }
    }
}

/// Every entry of `order` has a kept entry of its class.
proof fn lemma_first_of_class_covers(keys: Seq<(usize, Seq<char>)>, by_line: bool, order: Seq<int>)
    ensures
        forall|x: int|
            order.contains(x) ==> exists|i: int|
                0 <= i < first_of_class(keys, by_line, order).len() && same_class(
                    keys,
                    by_line,
                    #[trigger] first_of_class(keys, by_line, order)[i],
                    x,
                ),
    decreases order.len(),
{
    if order.len() > 0 {
        let d = order.drop_last();
        let x = order.last();
        lemma_first_of_class_covers(keys, by_line, d);
        let kept = first_of_class(keys, by_line, d);
        let r = first_of_class(keys, by_line, order);
        assert forall|y: int| order.contains(y) implies exists|i: int|
            0 <= i < r.len() && same_class(keys, by_line, #[trigger] r[i], y) by {
            let q = choose|q: int| 0 <= q < order.len() && order[q] == y;
            if q < order.len() - 1 {
                assert(d[q] == y);
                assert(d.contains(y));
                let i = choose|i: int| 0 <= i < kept.len() && same_class(keys, by_line, #[trigger] kept[i], y);
                assert(r[i] == kept[i]);
            } else {
                if exists|k: int| 0 <= k < kept.len() && same_class(keys, by_line, #[trigger] kept[k], x) {
                    let i = choose|i: int| 0 <= i < kept.len() && same_class(keys, by_line, #[trigger] kept[i], x);
                    assert(r[i] == kept[i]);
                } else {
                    assert(r[kept.len() as int] == x);
                }
            }
        }
    }
}

/// Sorting keeps every entry.
proof fn lemma_insert_by_key_contains(keys: Seq<(usize, Seq<char>)>, sorted: Seq<int>, x: int)
    ensures
        insert_by_key(keys, sorted, x).contains(x),
        forall|y: int| sorted.contains(y) ==> insert_by_key(keys, sorted, x).contains(y),
    decreases sorted.len(),
{
    if sorted.len() == 0 {
        assert(seq![x][0] == x);
    } else if crate::parser::order::key_less(keys[x], keys[sorted.last()]) {
        let d = sorted.drop_last();
        lemma_insert_by_key_contains(keys, d, x);
        let r = insert_by_key(keys, d, x);
        let q = choose|q: int| 0 <= q < r.len() && r[q] == x;
        assert(r.push(sorted.last())[q] == x);
        assert forall|y: int| sorted.contains(y) implies r.push(sorted.last()).contains(y) by {
            let p = choose|p: int| 0 <= p < sorted.len() && sorted[p] == y;
            if p < sorted.len() - 1 {
                assert(d[p] == y);
                assert(d.contains(y));
                let t = choose|t: int| 0 <= t < r.len() && r[t] == y;
                assert(r.push(sorted.last())[t] == y);
            } else {
                assert(r.push(sorted.last())[r.len() as int] == y);
            }
        }
    } else {
        assert(sorted.push(x)[sorted.len() as int] == x);
        assert forall|y: int| sorted.contains(y) implies sorted.push(x).contains(y) by {
            let p = choose|p: int| 0 <= p < sorted.len() && sorted[p] == y;
            assert(sorted.push(x)[p] == y);
        }
    }
}

proof fn lemma_sorted_prefix_contains(keys: Seq<(usize, Seq<char>)>, n: int)
    ensures
        forall|x: int| 0 <= x < n ==> sorted_prefix(keys, n).contains(x),
    decreases n,
{
    if n > 0 {
        lemma_sorted_prefix_contains(keys, n - 1);
        lemma_insert_by_key_contains(keys, sorted_prefix(keys, n - 1), n - 1);
        assert(sorted_prefix(keys, n) == insert_by_key(keys, sorted_prefix(keys, n - 1), n - 1));
        assert forall|x: int| 0 <= x < n implies sorted_prefix(keys, n).contains(x) by {
            if x < n - 1 {
                assert(sorted_prefix(keys, n - 1).contains(x));
            }
        }
    }
}

proof fn lemma_insert_by_key_in_range(keys: Seq<(usize, Seq<char>)>, sorted: Seq<int>, x: int, n: int)
    requires
        0 <= x < n,
        forall|k: int| 0 <= k < sorted.len() ==> 0 <= #[trigger] sorted[k] < n,
    ensures
        forall|k: int| 0 <= k < insert_by_key(keys, sorted, x).len() ==> 0 <= #[trigger] insert_by_key(
            keys,
            sorted,
            x,
        )[k] < n,
    decreases sorted.len(),
{
    if sorted.len() > 0 && crate::parser::order::key_less(keys[x], keys[sorted.last()]) {
        lemma_insert_by_key_in_range(keys, sorted.drop_last(), x, n);
        let r = insert_by_key(keys, sorted.drop_last(), x);
        assert forall|k: int| 0 <= k < r.push(sorted.last()).len() implies 0 <= #[trigger] r.push(
            sorted.last(),
        )[k] < n by {
            if k < r.len() {
                assert(r.push(sorted.last())[k] == r[k]);
            }
        }
    }
}

proof fn lemma_sorted_prefix_in_range(keys: Seq<(usize, Seq<char>)>, n: int)
    requires
        n >= 0,
    ensures
        forall|k: int| 0 <= k < sorted_prefix(keys, n).len() ==> 0 <= #[trigger] sorted_prefix(keys, n)[k] < n,
    decreases n,
{
    if n > 0 {
        lemma_sorted_prefix_in_range(keys, n - 1);
        lemma_insert_by_key_in_range(keys, sorted_prefix(keys, n - 1), n - 1, n);
    }
}

/// Sorting and de-duplicating references, steps or calls keeps exactly one entry of each
/// class that occurs: no two kept entries share a class, every kept entry is an entry of
/// the input, and every entry of the input has a kept entry of its class.
pub proof fn law_dedup_one_per_class(keys: Seq<(usize, Seq<char>)>, by_line: bool)
    ensures
        forall|i: int, j: int|
            0 <= i < j < sort_dedup_spec(keys, by_line).len() ==> !same_class(
                keys,
                by_line,
                #[trigger] sort_dedup_spec(keys, by_line)[i],
                #[trigger] sort_dedup_spec(keys, by_line)[j],
            ),
        forall|i: int|
            0 <= i < sort_dedup_spec(keys, by_line).len() ==> 0 <= #[trigger] sort_dedup_spec(keys, by_line)[i]
                < keys.len(),
        forall|x: int|
            #![trigger keys[x]]
            0 <= x < keys.len() ==> exists|i: int|
                0 <= i < sort_dedup_spec(keys, by_line).len() && same_class(
                    keys,
                    by_line,
                    #[trigger] sort_dedup_spec(keys, by_line)[i],
                    x,
                ),
{
    let order = sorted_prefix(keys, keys.len() as int);
    let r = sort_dedup_spec(keys, by_line);
    assert(r == first_of_class(keys, by_line, order));
    assert(forall|i: int, j: int| 0 <= i < j < r.len() ==> !same_class(keys, by_line, #[trigger] r[i], #[trigger] r[j])) by {
        lemma_first_of_class_distinct(keys, by_line, order);
    }
    assert(forall|i: int| 0 <= i < r.len() ==> 0 <= #[trigger] r[i] < keys.len()) by {
        lemma_first_of_class_members(keys, by_line, order);
        lemma_sorted_prefix_in_range(keys, keys.len() as int);
        assert forall|i: int| 0 <= i < r.len() implies 0 <= #[trigger] r[i] < keys.len() by {
            assert(order.contains(r[i]));
            let q = choose|q: int| 0 <= q < order.len() && order[q] == r[i];
        }
    }
    assert(forall|x: int| #![trigger keys[x]] 0 <= x < keys.len() ==> exists|i: int|
        0 <= i < r.len() && same_class(keys, by_line, #[trigger] r[i], x)) by {
        lemma_first_of_class_covers(keys, by_line, order);
        lemma_sorted_prefix_contains(keys, keys.len() as int);
        assert forall|x: int| #![trigger keys[x]] 0 <= x < keys.len() implies exists|i: int|
            0 <= i < r.len() && same_class(keys, by_line, #[trigger] r[i], x) by {
            assert(order.contains(x));
        }
    }
}

/// Sorted and de-duplicated references, steps and calls come out ordered by first line,
/// then by label.
pub proof fn law_dedup_in_line_order(keys: Seq<(usize, Seq<char>)>, by_line: bool)
    ensures
        in_key_order(keys, sort_dedup_spec(keys, by_line)),
{
    lemma_sorted_prefix_ordered(keys, keys.len() as int);
    lemma_first_of_class_ordered(keys, by_line, sorted_prefix(keys, keys.len() as int));
}

/// De-duplicating names keeps each non-empty name of the input exactly once, and nothing
/// else.
pub proof fn law_dedup_strings(values: Seq<Seq<char>>)
    ensures
        forall|x: Seq<char>| #[trigger] dedup_strings_spec(values).contains(x) <==> (x.len() > 0 && values.contains(x)),
        forall|i: int, j: int|
            0 <= i < j < dedup_strings_spec(values).len() ==> #[trigger] dedup_strings_spec(values)[i]
                != #[trigger] dedup_strings_spec(values)[j],
    decreases values.len(),
{
    if values.len() > 0 {
        let d = values.drop_last();
        let x = values.last();
        law_dedup_strings(d);
        let kept = dedup_strings_spec(d);
        let r = dedup_strings_spec(values);
        assert forall|y: Seq<char>| #[trigger] r.contains(y) <==> (y.len() > 0 && values.contains(y)) by {
            if r.contains(y) {
                let q = choose|q: int| 0 <= q < r.len() && r[q] == y;
                if q < kept.len() {
                    assert(kept[q] == y);
                    assert(kept.contains(y));
                    let p = choose|p: int| 0 <= p < d.len() && d[p] == y;
                    assert(values[p] == y);
                } else {
                    assert(values[values.len() - 1] == y);
                }
            }
            if y.len() > 0 && values.contains(y) {
                let p = choose|p: int| 0 <= p < values.len() && values[p] == y;
                if p < values.len() - 1 {
                    assert(d[p] == y);
                    assert(kept.contains(y));
                    let q = choose|q: int| 0 <= q < kept.len() && kept[q] == y;
                    if !(x.len() == 0 || kept.contains(x)) {
                        assert(r[q] == y);
                    }
                } else if !kept.contains(x) {
                    assert(r[kept.len() as int] == y);
                }
            }
        }
    }
}

proof fn lemma_filter_map_keeps(
    parts: Seq<Seq<char>>,
    f: spec_fn(Seq<char>) -> Option<Seq<char>>,
    m: int,
    b: Seq<char>,
)
    requires
        0 <= m < parts.len(),
        f(parts[m]) == Some(b),
    ensures
        parts.filter_map(f).contains(b),
    decreases parts.len(),
{
    let rest = parts.drop_last();
    if m == parts.len() - 1 {
        assert(parts.filter_map(f) == rest.filter_map(f) + seq![b]);
        assert(parts.filter_map(f)[rest.filter_map(f).len() as int] == b);
    } else {
        assert(rest[m] == parts[m]);
        lemma_filter_map_keeps(rest, f, m, b);
        let e = choose|e: int| 0 <= e < rest.filter_map(f).len() && rest.filter_map(f)[e] == b;
        match f(parts.last()) {
            Some(x) => {
                assert(parts.filter_map(f) == rest.filter_map(f) + seq![x]);
                assert(parts.filter_map(f)[e] == b);
            },
            None => {},
        }
    }
}

proof fn lemma_join_contains(ws: Seq<Seq<char>>, sep: Seq<char>, b: Seq<char>)
    requires
        ws.contains(b),
    ensures
        contains_seq(join_spec(ws, sep), b),
    decreases ws.len(),
{
    let j = join_spec(ws, sep);
    if ws.len() == 1 {
        assert(ws[0] == b);
        let k: int = 0;
        assert(j.subrange(k, k + b.len()) =~= b);
    } else {
        let rest = ws.drop_last();
        let x = join_spec(rest, sep);
        assert(j == x + sep + ws.last());
        if ws.last() == b {
            let k: int = (x.len() + sep.len()) as int;
            assert(j.subrange(k, k + b.len()) =~= b);
        } else {
            let idx = choose|idx: int| 0 <= idx < ws.len() && ws[idx] == b;
            assert(idx < ws.len() - 1);
            assert(rest[idx] == b);
            lemma_join_contains(rest, sep, b);
            let k = choose|k: int| 0 <= k && k + b.len() <= x.len() && #[trigger] x.subrange(k, k + b.len()) == b;
            assert(j.subrange(k, k + b.len()) =~= x.subrange(k, k + b.len()));
        }
    }
}

/// The context search text of a declaration holds the normalized tokens of the
/// declaration's whole source text (condensed, which for ASCII text leaves them as they
/// are), so a word used only in a body still finds the declaration.
pub proof fn law_context_text_holds_declaration_tokens(
    tree: SyntaxTree,
    i: int,
    kind: SearchTargetKind,
    path: Seq<char>,
    lines: Seq<Seq<char>>,
    language: SupportedLanguage,
)
    requires
        primary_target_spec(tree, i, kind, path, lines, language) is Some,
    ensures
        ({
            let t = primary_target_spec(tree, i, kind, path, lines, language)->0;
            let tokens = condense_spec(normalize_query_spec(tree.text(i)));
            tokens.len() > 0 ==> contains_seq(t.context_search_text, tokens)
        }),
        is_ascii_text(tree.text(i)) ==> contains_seq(
            primary_target_spec(tree, i, kind, path, lines, language)->0.context_search_text,
            normalize_query_spec(tree.text(i)),
        ),
{
    let t = primary_target_spec(tree, i, kind, path, lines, language)->0;
    let n = normalize_query_spec(tree.text(i));
    let tokens = condense_spec(n);
    let node_text = tree.text(i);
    let parts = seq![crate::parser::snippets::preceding_comments_spec(lines, tree.nodes@[i].start_line as int), n]
        + t.call_names;
    let f = |p: Seq<char>| condensed_part(p);
    assert(t.context_search_text == search_text_spec(parts));
    if tokens.len() > 0 {
        assert(parts[1] == n);
        assert(f(parts[1]) == Some(tokens));
        lemma_filter_map_keeps(parts, f, 1, tokens);
        lemma_join_contains(parts.filter_map(f), seq!['\n'], tokens);
    }
    if is_ascii_text(node_text) {
        law_normalized_ascii_is_condensed(node_text);
        if n.len() == 0 {
            let k: int = 0;
            assert(t.context_search_text.subrange(k, k + n.len()) =~= n);
        }
    }
}

} // verus!
