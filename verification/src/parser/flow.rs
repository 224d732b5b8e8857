//! Data flow of a local binding: the statements that use it, and for TypeScript the
//! operators of a `combineLatest` chain that carries it.

use vstd::prelude::*;

use crate::model::{steps_view, StepView, SupportedLanguage, TraceStep};
use crate::parser::order::{keys_of, sort_dedup_indices, sort_dedup_spec};
use crate::parser::queries::{
    extract_terminal_identifier, is_identifier_like, is_identifier_like_kind, terminal_identifier_spec,
};
use crate::parser::snippets::{
    build_display_snippet, build_single_line_snippet, display_snippet_spec, single_line_snippet_spec,
    text_is_empty,
};
use crate::parser::syntax::{
    child_by_field_name, child_by_field_spec, collect_named_children, kind_is, named_children_spec,
    node_text, preorder, preorder_nodes, str_eq, SyntaxTree,
};

verus! {

// ---------------------------------------------------------------------------
// Containers and steps
// ---------------------------------------------------------------------------

/// Node `n` lies within node `d`: its byte range is inside `d`'s.
pub open spec fn within_spec(tree: SyntaxTree, n: int, d: int) -> bool {
    tree.nodes@[n].start_byte >= tree.nodes@[d].start_byte && tree.nodes@[n].end_byte
        <= tree.nodes@[d].end_byte
}

/// Whether node `n` lies within node `d` (see `within_spec`).
pub fn node_is_within(tree: &SyntaxTree, n: usize, d: usize) -> (r: bool)
    requires
        n < tree.nodes.len(),
        d < tree.nodes.len(),
    ensures
        r == within_spec(*tree, n as int, d as int),
{
    tree.nodes[n].start_byte >= tree.nodes[d].start_byte && tree.nodes[n].end_byte <= tree.nodes[d].end_byte
}

/// The grammar types of the statements and expressions a use of a binding is shown by.
pub open spec fn is_flow_container_kind(k: Seq<char>) -> bool {
    k == "call_expression"@ || k == "pair"@ || k == "return_statement"@ || k == "return_expression"@
        || k == "variable_declarator"@ || k == "let_declaration"@ || k == "short_var_declaration"@ || k
        == "var_spec"@ || k == "assignment_expression"@ || k == "augmented_assignment_expression"@ || k
        == "expression_statement"@
}

/// The innermost container of node `n` below `root`: `n` or its nearest ancestor of a
/// container kind, else `root` itself; `None` when the walk leaves the tree first.
pub open spec fn relevant_container_spec(tree: SyntaxTree, n: int, root: int) -> Option<int>
    decreases n,
{
    if !(0 <= n < tree.nodes.len()) {
        None
    } else if n == root {
        Some(root)
    } else if is_flow_container_kind(tree.kind(n)) {
        Some(n)
    } else {
        match tree.nodes@[n].parent {
            Some(p) => if p < n {
                relevant_container_spec(tree, p as int, root)
            } else {
                None
            },
            None => None,
        }
    }
}

/// Whether node `n` has a container kind (see `is_flow_container_kind`).
fn is_flow_container(tree: &SyntaxTree, n: usize) -> (r: bool)
    requires
        n < tree.nodes.len(),
    ensures
        r == is_flow_container_kind(tree.kind(n as int)),
{
    kind_is(tree, n, "call_expression") || kind_is(tree, n, "pair") || kind_is(tree, n, "return_statement")
        || kind_is(tree, n, "return_expression") || kind_is(tree, n, "variable_declarator") || kind_is(
        tree,
        n,
        "let_declaration",
    ) || kind_is(tree, n, "short_var_declaration") || kind_is(tree, n, "var_spec") || kind_is(
        tree,
        n,
        "assignment_expression",
    ) || kind_is(tree, n, "augmented_assignment_expression") || kind_is(tree, n, "expression_statement")
}

/// The innermost container of node `n` below `root` (see `relevant_container_spec`).
pub fn find_relevant_flow_container(tree: &SyntaxTree, n: usize, root: usize) -> (r: Option<usize>)
    requires
        tree.wf(),
        n < tree.nodes.len(),
    ensures
        match r {
            Some(c) => relevant_container_spec(*tree, n as int, root as int) == Some(c as int) && c
                < tree.nodes.len(),
            None => relevant_container_spec(*tree, n as int, root as int) is None,
        },
{
    let mut current = n;
    loop
        invariant
            tree.wf(),
            current < tree.nodes.len(),
            relevant_container_spec(*tree, n as int, root as int) == relevant_container_spec(
                *tree,
                current as int,
                root as int,
            ),
        decreases current,
    {
        if current == root {
            return Some(root);
        }
        if is_flow_container(tree, current) {
            return Some(current);
        }
        match tree.nodes[current].parent {
            Some(p) => {
                current = p;
            },
            None => {
                return None;
            },
        }
    }
}

/// The statement around `n` that a chain is shown by: `n` or its nearest ancestor below
/// `root` that is a return, an expression statement or a lexical declaration; `start`
/// when `root` is reached first.
pub open spec fn outer_container_spec(tree: SyntaxTree, n: int, root: int, start: int) -> Option<int>
    decreases n,
{
    if !(0 <= n < tree.nodes.len()) {
        None
    } else if n == root {
        Some(start)
    } else if tree.kind(n) == "return_statement"@ || tree.kind(n) == "return_expression"@ || tree.kind(n)
        == "expression_statement"@ || tree.kind(n) == "lexical_declaration"@ {
        Some(n)
    } else {
        match tree.nodes@[n].parent {
            Some(p) => if p < n {
                outer_container_spec(tree, p as int, root, start)
            } else {
                None
            },
            None => None,
        }
    }
}

/// The statement around `n` that a chain is shown by (see `outer_container_spec`).
pub fn find_outer_flow_container(tree: &SyntaxTree, n: usize, root: usize) -> (r: Option<usize>)
    requires
        tree.wf(),
        n < tree.nodes.len(),
    ensures
        match r {
            Some(c) => outer_container_spec(*tree, n as int, root as int, n as int) == Some(c as int) && c
                < tree.nodes.len(),
            None => outer_container_spec(*tree, n as int, root as int, n as int) is None,
        },
{
    let mut current = n;
    loop
        invariant
            tree.wf(),
            n < tree.nodes.len(),
            current < tree.nodes.len(),
            outer_container_spec(*tree, n as int, root as int, n as int) == outer_container_spec(
                *tree,
                current as int,
                root as int,
                n as int,
            ),
        decreases current,
    {
        if current == root {
            return Some(n);
        }
        if kind_is(tree, current, "return_statement") || kind_is(tree, current, "return_expression")
            || kind_is(tree, current, "expression_statement") || kind_is(tree, current, "lexical_declaration") {
            return Some(current);
        }
        match tree.nodes[current].parent {
            Some(p) => {
                current = p;
            },
            None => {
                return None;
            },
        }
    }
}

/// The step a container stands for: its one-line snippet as label and a display snippet;
/// none for a call of `from` or `pipe`, a call whose callee has no identifier, or an empty
/// label.
pub open spec fn flow_step_spec(tree: SyntaxTree, c: int) -> Option<StepView> {
    let callee_ok = if tree.kind(c) == "call_expression"@ {
        match child_by_field_spec(tree, c, "function"@) {
            Some(f) => match terminal_identifier_spec(tree, f as int) {
                Some(name) => name != "from"@ && name != "pipe"@,
                None => false,
            },
            None => false,
        }
    } else {
        true
    };
    let label = single_line_snippet_spec(tree.text(c));
    if callee_ok && label.len() > 0 {
        Some(
            StepView {
                label,
                line_start: tree.nodes@[c].start_line,
                line_end: tree.nodes@[c].end_line,
                snippet: display_snippet_spec(Seq::empty(), tree.text(c)),
            },
        )
    } else {
        None
    }
}

/// The view of an optional step.
pub open spec fn opt_step_view(s: Option<TraceStep>) -> Option<StepView> {
    match s {
        Some(s) => Some(s@),
        None => None,
    }
}

/// The step a container stands for (see `flow_step_spec`).
pub fn build_flow_step_from_node(tree: &SyntaxTree, c: usize) -> (r: Option<TraceStep>)
    requires
        tree.wf(),
        c < tree.nodes.len(),
    ensures
        opt_step_view(r) == flow_step_spec(*tree, c as int),
{
    if kind_is(tree, c, "call_expression") {
        let f = match child_by_field_name(tree, c, "function") {
            Some(f) => f,
            None => {
                return None;
            },
        };
        let name = match extract_terminal_identifier(tree, f) {
            Some(name) => name,
            None => {
                return None;
            },
        };
        if str_eq(name.as_str(), "from") || str_eq(name.as_str(), "pipe") {
            return None;
        }
    }
    let text = node_text(tree, c);
    let label = build_single_line_snippet(text.as_str());
    if text_is_empty(label.as_str()) {
        return None;
    }
    let snippet = build_display_snippet("", text.as_str());
    proof {
        reveal_strlit("");
        assert(""@ =~= Seq::<char>::empty());
    }
    Some(
        TraceStep {
            label,
            line_start: tree.nodes[c].start_line,
            line_end: tree.nodes[c].end_line,
            snippet,
        },
    )
}

// ---------------------------------------------------------------------------
// Direct uses
// ---------------------------------------------------------------------------

/// The step for node `n` when it is a use of `name` outside the declaration `decl`, shown
/// by a container that does not start above the declaration.
pub open spec fn direct_use_step(tree: SyntaxTree, n: int, root: int, decl: int, name: Seq<char>) -> Option<StepView> {
    if is_identifier_like_kind(tree.kind(n)) && tree.text(n) == name && !within_spec(tree, n, decl) {
        match relevant_container_spec(tree, n, root) {
            Some(c) => if tree.nodes@[c].start_line >= tree.nodes@[decl].start_line {
                flow_step_spec(tree, c)
            } else {
                None
            },
            None => None,
        }
    } else {
        None
    }
}

/// The steps of the direct uses of a binding in a body, in pre-order.
pub open spec fn direct_use_steps_spec(
    tree: SyntaxTree,
    body: int,
    decl: int,
    name: Seq<char>,
    language: SupportedLanguage,
) -> Seq<StepView> {
    preorder(tree, body, body, Some(language)).filter_map(
        |n: usize| direct_use_step(tree, n as int, body, decl, name),
    )
}

/// The step for one node (see `direct_use_step`).
fn direct_use_step_at(tree: &SyntaxTree, n: usize, root: usize, decl: usize, name: &str) -> (r: Option<TraceStep>)
    requires
        tree.wf(),
        n < tree.nodes.len(),
        decl < tree.nodes.len(),
    ensures
        opt_step_view(r) == direct_use_step(*tree, n as int, root as int, decl as int, name@),
{
    if !is_identifier_like(tree, n) {
        return None;
    }
    let t = node_text(tree, n);
    if !str_eq(t.as_str(), name) || node_is_within(tree, n, decl) {
        return None;
    }
    match find_relevant_flow_container(tree, n, root) {
        Some(c) => {
            if tree.nodes[c].start_line >= tree.nodes[decl].start_line {
                build_flow_step_from_node(tree, c)
            } else {
                None
            }
        },
        None => None,
    }
}

/// The steps of the direct uses of a binding (see `direct_use_steps_spec`).
pub fn collect_direct_binding_use_steps(
    tree: &SyntaxTree,
    body: usize,
    decl: usize,
    name: &str,
    language: SupportedLanguage,
) -> (r: Vec<TraceStep>)
    requires
        tree.wf(),
        body < tree.nodes.len(),
        decl < tree.nodes.len(),
    ensures
        steps_view(r@) == direct_use_steps_spec(*tree, body as int, decl as int, name@, language),
{
    let nodes = preorder_nodes(tree, body, body, Some(language));
    let mut r: Vec<TraceStep> = Vec::new();
    let mut k: usize = 0;
    while k < nodes.len()
        invariant
            tree.wf(),
            decl < tree.nodes.len(),
            nodes@ == preorder(*tree, body as int, body as int, Some(language)),
            forall|m: int| 0 <= m < nodes.len() ==> #[trigger] nodes@[m] < tree.nodes.len(),
            k <= nodes.len(),
            steps_view(r@) == nodes@.take(k as int).filter_map(
                |n: usize| direct_use_step(*tree, n as int, body as int, decl as int, name@),
            ),
        decreases nodes.len() - k,
    {
        proof {
            assert(nodes@.take(k + 1).drop_last() =~= nodes@.take(k as int));
            assert(nodes@.take(k + 1).last() == nodes@[k as int]);
        }
        let ghost before = r@;
        if let Some(step) = direct_use_step_at(tree, nodes[k], body, decl, name) {
            r.push(step);
            proof {
                assert(steps_view(r@) =~= steps_view(before) + seq![step@]);
            }
        }
        k = k + 1;
    }
    assert(nodes@.take(nodes.len() as int) =~= nodes@);
    r
}

/// The step for node `n` when it is a use of the alias `alias`.
pub open spec fn alias_use_step(tree: SyntaxTree, n: int, root: int, alias: Seq<char>) -> Option<StepView> {
    if is_identifier_like_kind(tree.kind(n)) && tree.text(n) == alias {
        match relevant_container_spec(tree, n, root) {
            Some(c) => flow_step_spec(tree, c),
            None => None,
        }
    } else {
        None
    }
}

/// The steps of the uses of an alias in a callback body, in pre-order.
pub open spec fn alias_steps_spec(tree: SyntaxTree, body: int, alias: Seq<char>, language: SupportedLanguage) -> Seq<StepView> {
    preorder(tree, body, body, Some(language)).filter_map(|n: usize| alias_use_step(tree, n as int, body, alias))
}

/// The step for one node (see `alias_use_step`).
fn alias_use_step_at(tree: &SyntaxTree, n: usize, root: usize, alias: &str) -> (r: Option<TraceStep>)
    requires
        tree.wf(),
        n < tree.nodes.len(),
    ensures
        opt_step_view(r) == alias_use_step(*tree, n as int, root as int, alias@),
{
    if !is_identifier_like(tree, n) {
        return None;
    }
    let t = node_text(tree, n);
    if !str_eq(t.as_str(), alias) {
        return None;
    }
    match find_relevant_flow_container(tree, n, root) {
        Some(c) => build_flow_step_from_node(tree, c),
        None => None,
    }
}

/// The steps of the uses of an alias (see `alias_steps_spec`).
pub fn collect_alias_use_steps(tree: &SyntaxTree, body: usize, alias: &str, language: SupportedLanguage) -> (r: Vec<TraceStep>)
    requires
        tree.wf(),
        body < tree.nodes.len(),
    ensures
        steps_view(r@) == alias_steps_spec(*tree, body as int, alias@, language),
{
    let nodes = preorder_nodes(tree, body, body, Some(language));
    let mut r: Vec<TraceStep> = Vec::new();
    let mut k: usize = 0;
    while k < nodes.len()
        invariant
            tree.wf(),
            nodes@ == preorder(*tree, body as int, body as int, Some(language)),
            forall|m: int| 0 <= m < nodes.len() ==> #[trigger] nodes@[m] < tree.nodes.len(),
            k <= nodes.len(),
            steps_view(r@) == nodes@.take(k as int).filter_map(
                |n: usize| alias_use_step(*tree, n as int, body as int, alias@),
            ),
        decreases nodes.len() - k,
    {
        proof {
            assert(nodes@.take(k + 1).drop_last() =~= nodes@.take(k as int));
            assert(nodes@.take(k + 1).last() == nodes@[k as int]);
        }
        let ghost before = r@;
        if let Some(step) = alias_use_step_at(tree, nodes[k], body, alias) {
            r.push(step);
            proof {
                assert(steps_view(r@) =~= steps_view(before) + seq![step@]);
            }
        }
        k = k + 1;
    }
    assert(nodes@.take(nodes.len() as int) =~= nodes@);
    r
}

// ---------------------------------------------------------------------------
// Sorting steps
// ---------------------------------------------------------------------------

/// Appends copies of the steps of `src` to `dst`.
pub fn append_steps(dst: &mut Vec<TraceStep>, src: &Vec<TraceStep>)
    ensures
        steps_view(final(dst)@) == steps_view(old(dst)@) + steps_view(src@),
{
    let ghost start = steps_view(dst@);
    let mut j: usize = 0;
    while j < src.len()
        invariant
            j <= src.len(),
            steps_view(dst@) == start + steps_view(src@).take(j as int),
        decreases src.len() - j,
    {
        let ghost prev = dst@;
        let step = src[j].duplicate();
        dst.push(step);
        proof {
            assert(steps_view(dst@) =~= steps_view(prev).push(step@));
            assert(steps_view(src@).take(j + 1) =~= steps_view(src@).take(j as int).push(
                steps_view(src@)[j as int],
            ));
        }
        j = j + 1;
    }
    assert(steps_view(src@).take(src.len() as int) =~= steps_view(src@));
}

/// Steps sorted by first line and label, one per line and label.
pub open spec fn dedup_steps_spec(steps: Seq<StepView>) -> Seq<StepView> {
    sort_dedup_spec(steps.map_values(|s: StepView| (s.line_start, s.label)), true).map_values(
        |j: int| steps[j],
    )
}

/// Steps sorted and de-duplicated (see `dedup_steps_spec`).
pub fn dedup_trace_steps(steps: &Vec<TraceStep>) -> (r: Vec<TraceStep>)
    ensures
        steps_view(r@) == dedup_steps_spec(steps_view(steps@)),
{
    let mut lines: Vec<usize> = Vec::new();
    let mut labels: Vec<String> = Vec::new();
    let mut i: usize = 0;
    while i < steps.len()
        invariant
            i <= steps.len(),
            lines.len() == i,
            labels.len() == i,
            forall|k: int| 0 <= k < i ==> #[trigger] lines@[k] == steps@[k].line_start,
            forall|k: int| 0 <= k < i ==> #[trigger] labels@[k]@ == steps@[k].label@,
        decreases steps.len() - i,
    {
        lines.push(steps[i].line_start);
        labels.push(steps[i].label.clone());
        i = i + 1;
    }
    let ghost view = steps_view(steps@);
    assert(keys_of(lines@, labels@) =~= view.map_values(|c: StepView| (c.line_start, c.label)));
    let order = sort_dedup_indices(&lines, &labels, true);
    let mut r: Vec<TraceStep> = Vec::new();
    let mut k: usize = 0;
    while k < order.len()
        invariant
            k <= order.len(),
            lines.len() == steps.len(),
            view == steps_view(steps@),
            forall|m: int| 0 <= m < order.len() ==> #[trigger] order@[m] < steps.len(),
            steps_view(r@) == order@.take(k as int).map_values(|j: usize| view[j as int]),
        decreases order.len() - k,
    {
        let ghost before = r@;
        let c = steps[order[k]].duplicate();
        r.push(c);
        proof {
            assert(steps_view(r@) =~= steps_view(before).push(c@));
            assert(c@ == view[order@[k as int] as int]);
            assert(order@.take(k + 1) =~= order@.take(k as int).push(order@[k as int]));
            assert(order@.take(k + 1).map_values(|j: usize| view[j as int]) =~= order@.take(
                k as int,
            ).map_values(|j: usize| view[j as int]).push(view[order@[k as int] as int]));
        }
        k = k + 1;
    }
    proof {
        assert(order@.take(order.len() as int) =~= order@);
        assert(steps_view(r@) =~= dedup_steps_spec(view));
    }
    r
}


// ---------------------------------------------------------------------------
// TypeScript operator chains
// ---------------------------------------------------------------------------

/// Node `n` is a call whose callee's last identifier is `name`.
pub open spec fn call_named(tree: SyntaxTree, n: int, name: Seq<char>) -> bool {
    tree.kind(n) == "call_expression"@ && match child_by_field_spec(tree, n, "function"@) {
        Some(f) => terminal_identifier_spec(tree, f as int) == Some(name),
        None => false,
    }
}

/// Whether node `n` is a call of `name` (see `call_named`).
fn is_call_named(tree: &SyntaxTree, n: usize, name: &str) -> (r: bool)
    requires
        tree.wf(),
        n < tree.nodes.len(),
    ensures
        r == call_named(*tree, n as int, name@),
{
    if !kind_is(tree, n, "call_expression") {
        return false;
    }
    match child_by_field_name(tree, n, "function") {
        Some(f) => match extract_terminal_identifier(tree, f) {
            Some(t) => str_eq(t.as_str(), name),
            None => false,
        },
        None => false,
    }
}

/// The nearest call of `name` among `n` and its ancestors.
pub open spec fn ancestor_call_from(tree: SyntaxTree, n: int, name: Seq<char>) -> Option<int>
    decreases n,
{
    if !(0 <= n < tree.nodes.len()) {
        None
    } else if call_named(tree, n, name) {
        Some(n)
    } else {
        match tree.nodes@[n].parent {
            Some(p) => if p < n {
                ancestor_call_from(tree, p as int, name)
            } else {
                None
            },
            None => None,
        }
    }
}

/// The nearest proper ancestor of `n` that is a call of `name`.
pub open spec fn ancestor_call_spec(tree: SyntaxTree, n: int, name: Seq<char>) -> Option<int> {
    match tree.nodes@[n].parent {
        Some(p) => if p < n {
            ancestor_call_from(tree, p as int, name)
        } else {
            None
        },
        None => None,
    }
}

/// The nearest proper ancestor of `n` that is a call of `name` (see `ancestor_call_spec`).
pub fn find_ancestor_call_with_name(tree: &SyntaxTree, n: usize, name: &str) -> (r: Option<usize>)
    requires
        tree.wf(),
        n < tree.nodes.len(),
    ensures
        match r {
            Some(c) => ancestor_call_spec(*tree, n as int, name@) == Some(c as int) && c < tree.nodes.len(),
            None => ancestor_call_spec(*tree, n as int, name@) is None,
        },
{
    let mut current = match tree.nodes[n].parent {
        Some(p) => p,
        None => {
            return None;
        },
    };
    loop
        invariant
            tree.wf(),
            current < tree.nodes.len(),
            ancestor_call_spec(*tree, n as int, name@) == ancestor_call_from(*tree, current as int, name@),
        decreases current,
    {
        if is_call_named(tree, current, name) {
            return Some(current);
        }
        match tree.nodes[current].parent {
            Some(p) => {
                current = p;
            },
            None => {
                return None;
            },
        }
    }
}

/// The nearest node of kind `kind` among `n` and its ancestors, stopping at `stop`.
pub open spec fn ancestor_kind_from(tree: SyntaxTree, n: int, kind: Seq<char>, stop: int) -> Option<int>
    decreases n,
{
    if !(0 <= n < tree.nodes.len()) {
        None
    } else if tree.kind(n) == kind {
        Some(n)
    } else if n == stop {
        None
    } else {
        match tree.nodes@[n].parent {
            Some(p) => if p < n {
                ancestor_kind_from(tree, p as int, kind, stop)
            } else {
                None
            },
            None => None,
        }
    }
}

/// The nearest proper ancestor of `n` of kind `kind`, not above `stop`.
pub open spec fn ancestor_kind_spec(tree: SyntaxTree, n: int, kind: Seq<char>, stop: int) -> Option<int> {
    match tree.nodes@[n].parent {
        Some(p) => if p < n {
            ancestor_kind_from(tree, p as int, kind, stop)
        } else {
            None
        },
        None => None,
    }
}

/// The nearest proper ancestor of `n` of kind `kind` (see `ancestor_kind_spec`).
pub fn find_ancestor_kind(tree: &SyntaxTree, n: usize, kind: &str, stop: usize) -> (r: Option<usize>)
    requires
        tree.wf(),
        n < tree.nodes.len(),
    ensures
        match r {
            Some(c) => ancestor_kind_spec(*tree, n as int, kind@, stop as int) == Some(c as int) && c
                < tree.nodes.len(),
            None => ancestor_kind_spec(*tree, n as int, kind@, stop as int) is None,
        },
{
    let mut current = match tree.nodes[n].parent {
        Some(p) => p,
        None => {
            return None;
        },
    };
    loop
        invariant
            tree.wf(),
            current < tree.nodes.len(),
            ancestor_kind_spec(*tree, n as int, kind@, stop as int) == ancestor_kind_from(
                *tree,
                current as int,
                kind@,
                stop as int,
            ),
        decreases current,
    {
        if kind_is(tree, current, kind) {
            return Some(current);
        }
        if current == stop {
            return None;
        }
        match tree.nodes[current].parent {
            Some(p) => {
                current = p;
            },
            None => {
                return None;
            },
        }
    }
}

/// The position in `cs` of the first node that contains `child`.
pub open spec fn first_containing(tree: SyntaxTree, cs: Seq<usize>, child: int) -> Option<int>
    decreases cs.len(),
{
    if cs.len() == 0 {
        None
    } else if within_spec(tree, child, cs[0] as int) {
        Some(0)
    } else {
        match first_containing(tree, cs.drop_first(), child) {
            Some(k) => Some(k + 1),
            None => None,
        }
    }
}

/// The position among the named children of `parent` of the first that contains `child`.
pub fn find_child_position(tree: &SyntaxTree, parent: usize, child: usize) -> (r: Option<usize>)
    requires
        tree.wf(),
        parent < tree.nodes.len(),
        child < tree.nodes.len(),
    ensures
        match r {
            Some(k) => first_containing(*tree, named_children_spec(*tree, parent as int), child as int)
                == Some(k as int),
            None => first_containing(*tree, named_children_spec(*tree, parent as int), child as int) is None,
        },
{
    let cs = collect_named_children(tree, parent);
    let mut k: usize = 0;
    assert(cs@.skip(0) =~= cs@);
    while k < cs.len()
        invariant
            tree.wf(),
            child < tree.nodes.len(),
            cs@ == named_children_spec(*tree, parent as int),
            forall|m: int| 0 <= m < cs.len() ==> #[trigger] cs@[m] < tree.nodes.len(),
            k <= cs.len(),
            first_containing(*tree, cs@, child as int) == match first_containing(*tree, cs@.skip(k as int), child as int) {
                Some(j) => Some(j + k),
                None => None,
            },
        decreases cs.len() - k,
    {
        assert(cs@.skip(k as int)[0] == cs@[k as int]);
        assert(cs@.skip(k as int).drop_first() =~= cs@.skip(k + 1));
        if node_is_within(tree, child, cs[k]) {
            assert(first_containing(*tree, cs@.skip(k as int), child as int) == Some(0int));
            return Some(k);
        }
        k = k + 1;
    }
    None
}

/// The operator names of a reactive chain.
pub open spec fn is_flow_operator_name(s: Seq<char>) -> bool {
    s == "combineLatest"@ || s == "map"@ || s == "filter"@ || s == "mergeMap"@ || s == "switchMap"@ || s
        == "flatMap"@ || s == "tap"@ || s == "reduce"@ || s == "scan"@ || s == "withLatestFrom"@
}

/// Node `n` is a call of a chain operator.
pub open spec fn operator_call_spec(tree: SyntaxTree, n: int) -> bool {
    tree.kind(n) == "call_expression"@ && match child_by_field_spec(tree, n, "function"@) {
        Some(f) => match terminal_identifier_spec(tree, f as int) {
            Some(name) => is_flow_operator_name(name),
            None => false,
        },
        None => false,
    }
}

/// The chain operator calls under `o`, not entering nested functions, in pre-order.
pub open spec fn operator_calls_spec(tree: SyntaxTree, o: int, language: SupportedLanguage) -> Seq<usize> {
    preorder(tree, o, o, Some(language)).filter_map(
        |n: usize|
            if operator_call_spec(tree, n as int) {
                Some(n)
            } else {
                None
            },
    )
}

/// Whether node `n` is a call of a chain operator (see `operator_call_spec`).
fn is_operator_call(tree: &SyntaxTree, n: usize) -> (r: bool)
    requires
        tree.wf(),
        n < tree.nodes.len(),
    ensures
        r == operator_call_spec(*tree, n as int),
{
    if !kind_is(tree, n, "call_expression") {
        return false;
    }
    match child_by_field_name(tree, n, "function") {
        Some(f) => match extract_terminal_identifier(tree, f) {
            Some(t) => {
                let s = t.as_str();
                str_eq(s, "combineLatest") || str_eq(s, "map") || str_eq(s, "filter") || str_eq(
                    s,
                    "mergeMap",
                ) || str_eq(s, "switchMap") || str_eq(s, "flatMap") || str_eq(s, "tap") || str_eq(
                    s,
                    "reduce",
                ) || str_eq(s, "scan") || str_eq(s, "withLatestFrom")
            },
            None => false,
        },
        None => false,
    }
}

/// The chain operator calls under `o` (see `operator_calls_spec`).
pub fn collect_flow_operator_calls(tree: &SyntaxTree, o: usize, language: SupportedLanguage) -> (r: Vec<usize>)
    requires
        tree.wf(),
        o < tree.nodes.len(),
    ensures
        r@ == operator_calls_spec(*tree, o as int, language),
        forall|m: int| 0 <= m < r.len() ==> #[trigger] r@[m] < tree.nodes.len(),
{
    let nodes = preorder_nodes(tree, o, o, Some(language));
    let ghost f = |n: usize|
        if operator_call_spec(*tree, n as int) {
            Some(n)
        } else {
            None
        };
    let mut r: Vec<usize> = Vec::new();
    let mut k: usize = 0;
    while k < nodes.len()
        invariant
            tree.wf(),
            nodes@ == preorder(*tree, o as int, o as int, Some(language)),
            forall|m: int| 0 <= m < nodes.len() ==> #[trigger] nodes@[m] < tree.nodes.len(),
            k <= nodes.len(),
            f == (|n: usize|
                if operator_call_spec(*tree, n as int) {
                    Some(n)
                } else {
                    None
                }),
            r@ == nodes@.take(k as int).filter_map(f),
            forall|m: int| 0 <= m < r.len() ==> #[trigger] r@[m] < tree.nodes.len(),
        decreases nodes.len() - k,
    {
        proof {
            assert(nodes@.take(k + 1).drop_last() =~= nodes@.take(k as int));
            assert(nodes@.take(k + 1).last() == nodes@[k as int]);
        }
        if is_operator_call(tree, nodes[k]) {
            r.push(nodes[k]);
        }
        k = k + 1;
    }
    assert(nodes@.take(nodes.len() as int) =~= nodes@);
    r
}

/// The first of `nodes` of kind `kind`.
pub open spec fn first_of_kind(tree: SyntaxTree, nodes: Seq<usize>, kind: Seq<char>) -> Option<usize>
    decreases nodes.len(),
{
    if nodes.len() == 0 {
        None
    } else if tree.kind(nodes[0] as int) == kind {
        Some(nodes[0])
    } else {
        first_of_kind(tree, nodes.drop_first(), kind)
    }
}

/// The first node of kind `kind` in the subtree of `n`, in pre-order.
pub open spec fn descendant_kind_spec(tree: SyntaxTree, n: int, kind: Seq<char>) -> Option<usize> {
    first_of_kind(tree, preorder(tree, n, n, None), kind)
}

/// The first node of kind `kind` in the subtree of `n` (see `descendant_kind_spec`).
pub fn find_descendant_kind(tree: &SyntaxTree, n: usize, kind: &str) -> (r: Option<usize>)
    requires
        tree.wf(),
        n < tree.nodes.len(),
    ensures
        r == descendant_kind_spec(*tree, n as int, kind@),
        match r {
            Some(c) => c < tree.nodes.len(),
            None => true,
        },
{
    let nodes = preorder_nodes(tree, n, n, None);
    let mut k: usize = 0;
    assert(nodes@.skip(0) =~= nodes@);
    while k < nodes.len()
        invariant
            tree.wf(),
            nodes@ == preorder(*tree, n as int, n as int, None),
            forall|m: int| 0 <= m < nodes.len() ==> #[trigger] nodes@[m] < tree.nodes.len(),
            k <= nodes.len(),
            descendant_kind_spec(*tree, n as int, kind@) == first_of_kind(*tree, nodes@.skip(k as int), kind@),
        decreases nodes.len() - k,
    {
        assert(nodes@.skip(k as int)[0] == nodes@[k as int]);
        assert(nodes@.skip(k as int).drop_first() =~= nodes@.skip(k + 1));
        if kind_is(tree, nodes[k], kind) {
            return Some(nodes[k]);
        }
        k = k + 1;
    }
    None
}

/// The first of `cs` that is an arrow function or a function expression.
pub open spec fn first_callback(tree: SyntaxTree, cs: Seq<usize>) -> Option<usize>
    decreases cs.len(),
{
    if cs.len() == 0 {
        None
    } else if tree.kind(cs[0] as int) == "arrow_function"@ || tree.kind(cs[0] as int) == "function_expression"@ {
        Some(cs[0])
    } else {
        first_callback(tree, cs.drop_first())
    }
}

/// The named children of `p` of kind `identifier`.
pub open spec fn identifier_children(tree: SyntaxTree, p: int) -> Seq<usize> {
    named_children_spec(tree, p).filter_map(
        |c: usize|
            if tree.kind(c as int) == "identifier"@ {
                Some(c)
            } else {
                None
            },
    )
}

/// The alias that a `map` call's callback gives to the element at `pos` of the combined
/// array, with the callback's body: the `pos`-th identifier of the first array pattern
/// in the first function argument.
pub open spec fn map_alias_spec(tree: SyntaxTree, call: int, pos: int) -> Option<(Seq<char>, usize)> {
    match child_by_field_spec(tree, call, "arguments"@) {
        Some(args) => match first_callback(tree, named_children_spec(tree, args as int)) {
            Some(cb) => {
                let body = match child_by_field_spec(tree, cb as int, "body"@) {
                    Some(b) => b,
                    None => cb,
                };
                match descendant_kind_spec(tree, cb as int, "array_pattern"@) {
                    Some(pat) => {
                        let ids = identifier_children(tree, pat as int);
                        if 0 <= pos < ids.len() && tree.text(ids[pos] as int).len() > 0 {
                            Some((tree.text(ids[pos] as int), body))
                        } else {
                            None
                        }
                    },
                    None => None,
                }
            },
            None => None,
        },
        None => None,
    }
}

/// The alias of the first `map` among chain calls (see `map_alias_spec`).
pub open spec fn resolve_alias_in(tree: SyntaxTree, calls: Seq<usize>, pos: int) -> Option<(Seq<char>, usize)>
    decreases calls.len(),
{
    if calls.len() == 0 {
        None
    } else {
        let c = calls[0] as int;
        match child_by_field_spec(tree, c, "function"@) {
            Some(f) => match terminal_identifier_spec(tree, f as int) {
                Some(name) => if name != "map"@ {
                    resolve_alias_in(tree, calls.drop_first(), pos)
                } else {
                    map_alias_spec(tree, c, pos)
                },
                None => None,
            },
            None => None,
        }
    }
}

/// The callback of a `map` call and its alias (see `map_alias_spec`).
fn map_alias(tree: &SyntaxTree, call: usize, pos: usize) -> (r: Option<(String, usize)>)
    requires
        tree.wf(),
        call < tree.nodes.len(),
    ensures
        match r {
            Some((alias, body)) => map_alias_spec(*tree, call as int, pos as int) == Some((alias@, body))
                && body < tree.nodes.len(),
            None => map_alias_spec(*tree, call as int, pos as int) is None,
        },
{
    let args = match child_by_field_name(tree, call, "arguments") {
        Some(a) => a,
        None => {
            return None;
        },
    };
    let cs = collect_named_children(tree, args);
    let mut k: usize = 0;
    let mut callback: Option<usize> = None;
    assert(cs@.skip(0) =~= cs@);
    while k < cs.len() && callback.is_none()
        invariant
            tree.wf(),
            forall|m: int| 0 <= m < cs.len() ==> #[trigger] cs@[m] < tree.nodes.len(),
            k <= cs.len(),
            callback is None ==> first_callback(*tree, cs@) == first_callback(*tree, cs@.skip(k as int)),
            callback matches Some(c) ==> first_callback(*tree, cs@) == Some(c) && c < tree.nodes.len(),
        decreases cs.len() - k,
    {
        assert(cs@.skip(k as int)[0] == cs@[k as int]);
        assert(cs@.skip(k as int).drop_first() =~= cs@.skip(k + 1));
        if kind_is(tree, cs[k], "arrow_function") || kind_is(tree, cs[k], "function_expression") {
            callback = Some(cs[k]);
        }
        k = k + 1;
    }
    let cb = match callback {
        Some(c) => c,
        None => {
            return None;
        },
    };
    let body = match child_by_field_name(tree, cb, "body") {
        Some(b) => b,
        None => cb,
    };
    let pat = match find_descendant_kind(tree, cb, "array_pattern") {
        Some(p) => p,
        None => {
            return None;
        },
    };
    let children = collect_named_children(tree, pat);
    let ghost f = |c: usize|
        if tree.kind(c as int) == "identifier"@ {
            Some(c)
        } else {
            None
        };
    let mut ids: Vec<usize> = Vec::new();
    let mut j: usize = 0;
    while j < children.len()
        invariant
            tree.wf(),
            children@ == named_children_spec(*tree, pat as int),
            forall|m: int| 0 <= m < children.len() ==> #[trigger] children@[m] < tree.nodes.len(),
            j <= children.len(),
            f == (|c: usize|
                if tree.kind(c as int) == "identifier"@ {
                    Some(c)
                } else {
                    None
                }),
            ids@ == children@.take(j as int).filter_map(f),
            forall|m: int| 0 <= m < ids.len() ==> #[trigger] ids@[m] < tree.nodes.len(),
        decreases children.len() - j,
    {
        proof {
            assert(children@.take(j + 1).drop_last() =~= children@.take(j as int));
            assert(children@.take(j + 1).last() == children@[j as int]);
        }
        if kind_is(tree, children[j], "identifier") {
            ids.push(children[j]);
        }
        j = j + 1;
    }
    assert(children@.take(children.len() as int) =~= children@);
    if pos >= ids.len() {
        return None;
    }
    let alias = node_text(tree, ids[pos]);
    if text_is_empty(alias.as_str()) {
        return None;
    }
    Some((alias, body))
}

/// The alias of the first `map` among chain calls (see `resolve_alias_in`).
pub fn resolve_typescript_map_alias(tree: &SyntaxTree, calls: &Vec<usize>, pos: usize) -> (r: Option<(String, usize)>)
    requires
        tree.wf(),
        forall|m: int| 0 <= m < calls.len() ==> #[trigger] calls@[m] < tree.nodes.len(),
    ensures
        match r {
            Some((alias, body)) => resolve_alias_in(*tree, calls@, pos as int) == Some((alias@, body)) && body
                < tree.nodes.len(),
            None => resolve_alias_in(*tree, calls@, pos as int) is None,
        },
{
    let mut k: usize = 0;
    assert(calls@.skip(0) =~= calls@);
    while k < calls.len()
        invariant
            tree.wf(),
            forall|m: int| 0 <= m < calls.len() ==> #[trigger] calls@[m] < tree.nodes.len(),
            k <= calls.len(),
            resolve_alias_in(*tree, calls@, pos as int) == resolve_alias_in(*tree, calls@.skip(k as int), pos as int),
        decreases calls.len() - k,
    {
        let c = calls[k];
        assert(calls@.skip(k as int)[0] == c);
        assert(calls@.skip(k as int).drop_first() =~= calls@.skip(k + 1));
        let f = match child_by_field_name(tree, c, "function") {
            Some(f) => f,
            None => {
                return None;
            },
        };
        let name = match extract_terminal_identifier(tree, f) {
            Some(name) => name,
            None => {
                return None;
            },
        };
        if str_eq(name.as_str(), "map") {
            return map_alias(tree, c, pos);
        }
        k = k + 1;
    }
    None
}


/// The steps of the chain calls, in order.
pub open spec fn operator_steps_spec(tree: SyntaxTree, calls: Seq<usize>) -> Seq<StepView> {
    calls.filter_map(|c: usize| flow_step_spec(tree, c as int))
}

/// The steps a chain adds for an identifier inside the array of a `combineLatest` call:
/// the operator calls of the statement around that call, then the uses of the alias
/// that a `map` callback gives to the identifier's position.
pub open spec fn chain_steps_spec(tree: SyntaxTree, n: int, root: int, language: SupportedLanguage) -> Seq<StepView> {
    match ancestor_call_spec(tree, n, "combineLatest"@) {
        Some(cl) => match ancestor_kind_spec(tree, n, "array"@, root) {
            Some(arr) => match first_containing(tree, named_children_spec(tree, arr), n) {
                Some(pos) => match outer_container_spec(tree, cl, root, cl) {
                    Some(outer) => {
                        let ops = operator_calls_spec(tree, outer, language);
                        let steps = operator_steps_spec(tree, ops);
                        match resolve_alias_in(tree, ops, pos) {
                            Some((alias, body)) => steps + alias_steps_spec(tree, body as int, alias, language),
                            None => steps,
                        }
                    },
                    None => Seq::empty(),
                },
                None => Seq::empty(),
            },
            None => Seq::empty(),
        },
        None => Seq::empty(),
    }
}

/// The steps of the chain calls (see `operator_steps_spec`).
fn operator_steps(tree: &SyntaxTree, calls: &Vec<usize>) -> (r: Vec<TraceStep>)
    requires
        tree.wf(),
        forall|m: int| 0 <= m < calls.len() ==> #[trigger] calls@[m] < tree.nodes.len(),
    ensures
        steps_view(r@) == operator_steps_spec(*tree, calls@),
{
    let mut r: Vec<TraceStep> = Vec::new();
    let mut k: usize = 0;
    while k < calls.len()
        invariant
            tree.wf(),
            forall|m: int| 0 <= m < calls.len() ==> #[trigger] calls@[m] < tree.nodes.len(),
            k <= calls.len(),
            steps_view(r@) == operator_steps_spec(*tree, calls@.take(k as int)),
        decreases calls.len() - k,
    {
        proof {
            assert(calls@.take(k + 1).drop_last() =~= calls@.take(k as int));
            assert(calls@.take(k + 1).last() == calls@[k as int]);
        }
        let ghost before = r@;
        if let Some(step) = build_flow_step_from_node(tree, calls[k]) {
            r.push(step);
            proof {
                assert(steps_view(r@) =~= steps_view(before) + seq![step@]);
            }
        }
        k = k + 1;
    }
    assert(calls@.take(calls.len() as int) =~= calls@);
    r
}

/// The steps a chain adds for an identifier (see `chain_steps_spec`).
pub fn collect_typescript_chain_steps_for_identifier(
    tree: &SyntaxTree,
    n: usize,
    root: usize,
    language: SupportedLanguage,
) -> (r: Vec<TraceStep>)
    requires
        tree.wf(),
        n < tree.nodes.len(),
    ensures
        steps_view(r@) == chain_steps_spec(*tree, n as int, root as int, language),
{
    let empty: Vec<TraceStep> = Vec::new();
    assert(steps_view(empty@) =~= Seq::<StepView>::empty());
    let cl = match find_ancestor_call_with_name(tree, n, "combineLatest") {
        Some(c) => c,
        None => {
            return empty;
        },
    };
    let arr = match find_ancestor_kind(tree, n, "array", root) {
        Some(a) => a,
        None => {
            return empty;
        },
    };
    let pos = match find_child_position(tree, arr, n) {
        Some(p) => p,
        None => {
            return empty;
        },
    };
    let outer = match find_outer_flow_container(tree, cl, root) {
        Some(o) => o,
        None => {
            return empty;
        },
    };
    let ops = collect_flow_operator_calls(tree, outer, language);
    let mut steps = operator_steps(tree, &ops);
    if let Some((alias, body)) = resolve_typescript_map_alias(tree, &ops, pos) {
        let alias_steps = collect_alias_use_steps(tree, body, alias.as_str(), language);
        append_steps(&mut steps, &alias_steps);
    }
    steps
}

/// Node `n` is a use of `name` (a plain identifier) outside the declaration `decl`.
pub open spec fn chain_candidate(tree: SyntaxTree, n: int, decl: int, name: Seq<char>) -> bool {
    tree.kind(n) == "identifier"@ && tree.text(n) == name && !within_spec(tree, n, decl)
}

/// The chain steps of the uses of `name` among `nodes`, in order.
pub open spec fn chain_steps_in(
    tree: SyntaxTree,
    nodes: Seq<usize>,
    root: int,
    decl: int,
    name: Seq<char>,
    language: SupportedLanguage,
) -> Seq<StepView>
    decreases nodes.len(),
{
    if nodes.len() == 0 {
        Seq::empty()
    } else {
        let n = nodes.last() as int;
        chain_steps_in(tree, nodes.drop_last(), root, decl, name, language) + if chain_candidate(
            tree,
            n,
            decl,
            name,
        ) {
            chain_steps_spec(tree, n, root, language)
        } else {
            Seq::empty()
        }
    }
}

/// The chain steps of the uses of a binding in a body, in pre-order.
pub open spec fn typescript_chain_steps_spec(
    tree: SyntaxTree,
    body: int,
    decl: int,
    name: Seq<char>,
    language: SupportedLanguage,
) -> Seq<StepView> {
    chain_steps_in(tree, preorder(tree, body, body, Some(language)), body, decl, name, language)
}

/// The chain steps of the uses of a binding (see `typescript_chain_steps_spec`).
pub fn collect_typescript_chain_flow_steps(
    tree: &SyntaxTree,
    body: usize,
    decl: usize,
    name: &str,
    language: SupportedLanguage,
) -> (r: Vec<TraceStep>)
    requires
        tree.wf(),
        body < tree.nodes.len(),
        decl < tree.nodes.len(),
    ensures
        steps_view(r@) == typescript_chain_steps_spec(*tree, body as int, decl as int, name@, language),
{
    let nodes = preorder_nodes(tree, body, body, Some(language));
    let mut r: Vec<TraceStep> = Vec::new();
    let mut k: usize = 0;
    assert(nodes@.take(0) =~= Seq::<usize>::empty());
    assert(steps_view(r@) =~= Seq::<StepView>::empty());
    while k < nodes.len()
        invariant
            tree.wf(),
            decl < tree.nodes.len(),
            nodes@ == preorder(*tree, body as int, body as int, Some(language)),
            forall|m: int| 0 <= m < nodes.len() ==> #[trigger] nodes@[m] < tree.nodes.len(),
            k <= nodes.len(),
            steps_view(r@) == chain_steps_in(*tree, nodes@.take(k as int), body as int, decl as int, name@, language),
        decreases nodes.len() - k,
    {
        let n = nodes[k];
        proof {
            assert(nodes@.take(k + 1).drop_last() =~= nodes@.take(k as int));
            assert(nodes@.take(k + 1).last() == n);
        }
        let ghost before = steps_view(r@);
        let candidate = kind_is(tree, n, "identifier") && {
            let t = node_text(tree, n);
            str_eq(t.as_str(), name)
        } && !node_is_within(tree, n, decl);
        if candidate {
            let found = collect_typescript_chain_steps_for_identifier(tree, n, body, language);
            append_steps(&mut r, &found);
        } else {
            assert(steps_view(r@) =~= before + Seq::<StepView>::empty());
        }
        k = k + 1;
    }
    assert(nodes@.take(nodes.len() as int) =~= nodes@);
    r
}

/// The flow of a local binding: its direct uses and, in TypeScript, its chain steps,
/// sorted by line and label with repeats removed.
pub open spec fn local_flow_steps_spec(
    tree: SyntaxTree,
    body: int,
    decl: int,
    name: Seq<char>,
    language: SupportedLanguage,
) -> Seq<StepView> {
    dedup_steps_spec(
        direct_use_steps_spec(tree, body, decl, name, language) + if language == SupportedLanguage::TypeScript {
            typescript_chain_steps_spec(tree, body, decl, name, language)
        } else {
            Seq::empty()
        },
    )
}

/// The flow of a local binding (see `local_flow_steps_spec`).
pub fn collect_local_binding_flow_steps(
    tree: &SyntaxTree,
    body: usize,
    decl: usize,
    name: &str,
    language: SupportedLanguage,
) -> (r: Vec<TraceStep>)
    requires
        tree.wf(),
        body < tree.nodes.len(),
        decl < tree.nodes.len(),
    ensures
        steps_view(r@) == local_flow_steps_spec(*tree, body as int, decl as int, name@, language),
{
    let mut steps = collect_direct_binding_use_steps(tree, body, decl, name, language);
    let ghost direct = steps_view(steps@);
    if language == SupportedLanguage::TypeScript {
        let chain = collect_typescript_chain_flow_steps(tree, body, decl, name, language);
        append_steps(&mut steps, &chain);
    } else {
        assert(steps_view(steps@) =~= direct + Seq::<StepView>::empty());
    }
    dedup_trace_steps(&steps)
}

} // verus!
