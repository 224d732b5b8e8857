//! Building search targets from a syntax tree: declarations and their local bindings.

use vstd::prelude::*;

use crate::model::{
    build_target_id, is_callable_kind, named_texts_view, references_view, steps_view, target_id_spec,
    targets_view, NamedText, ReferenceView, SearchTarget, SearchTargetKind, StepView, SupportedLanguage,
    TargetView, TraceReference, TraceStep,
};
use crate::parser::bindings::{
    collect_incoming_dependencies, collect_local_binding_descriptors, descriptor_valid,
    incoming_dependencies_spec, local_descriptors_spec, BindingDescriptor,
};
use crate::parser::flow::{collect_local_binding_flow_steps, local_flow_steps_spec};
use crate::parser::queries::{
    binding_type_hint_spec, call_dependency_spec, call_simple_names, calls_in_expression_spec,
    calls_in_scope_spec, calls_to_dependencies, calls_view, collect_call_references_in_expression,
    collect_call_references_in_scope, collect_parameter_descriptions, extract_explicit_binding_type_hint,
    extract_return_type_hint, extract_symbol_name, parameter_descriptions_spec, return_type_hint_spec,
    symbol_name_spec, CallReference, CallView,
};
use crate::parser::snippets::{
    build_import_hint, build_search_text, build_single_line_snippet, classify_semantic_role,
    collect_preceding_comments, contains_seq, contains_str, dedup_strings_preserve_order,
    dedup_strings_spec, extract_signature_text, import_hint_spec, opt_seq, preceding_comments_spec,
    search_text_spec, semantic_role_spec, signature_text_spec, single_line_snippet_spec, text_is_empty,
};
use crate::parser::syntax::{
    child_by_field_name, child_by_field_spec, collect_named_children, kind_is, named_children_spec,
    node_text, SyntaxTree,
};
use crate::text::{normalize_query, normalize_query_spec, strings_view};

verus! {

// ---------------------------------------------------------------------------
// Building lists of text parts
// ---------------------------------------------------------------------------

/// Appends copies of `src`.
pub fn push_texts(dst: &mut Vec<String>, src: &Vec<String>)
    ensures
        strings_view(final(dst)@) == strings_view(old(dst)@) + strings_view(src@),
{
    let ghost start = strings_view(dst@);
    let mut j: usize = 0;
    while j < src.len()
        invariant
            j <= src.len(),
            strings_view(dst@) == start + strings_view(src@).take(j as int),
        decreases src.len() - j,
    {
        let ghost prev = dst@;
        let x = src[j].clone();
        dst.push(x);
        proof {
            assert(strings_view(dst@) =~= strings_view(prev).push(x@));
            assert(strings_view(src@).take(j + 1) =~= strings_view(src@).take(j as int).push(
                strings_view(src@)[j as int],
            ));
        }
        j = j + 1;
    }
    assert(strings_view(src@).take(src.len() as int) =~= strings_view(src@));
}

/// Appends the texts of parameter descriptions.
fn push_parameter_texts(dst: &mut Vec<String>, src: &Vec<NamedText>)
    ensures
        strings_view(final(dst)@) == strings_view(old(dst)@) + named_texts_view(src@).map_values(
            |p: (Seq<char>, Seq<char>)| p.1,
        ),
{
    let ghost start = strings_view(dst@);
    let ghost all = named_texts_view(src@).map_values(|p: (Seq<char>, Seq<char>)| p.1);
    let mut j: usize = 0;
    while j < src.len()
        invariant
            j <= src.len(),
            all == named_texts_view(src@).map_values(|p: (Seq<char>, Seq<char>)| p.1),
            strings_view(dst@) == start + all.take(j as int),
        decreases src.len() - j,
    {
        let ghost prev = dst@;
        let x = src[j].text.clone();
        dst.push(x);
        proof {
            assert(strings_view(dst@) =~= strings_view(prev).push(x@));
            assert(all.take(j + 1) =~= all.take(j as int).push(all[j as int]));
        }
        j = j + 1;
    }
    assert(all.take(src.len() as int) =~= all);
}

/// Appends the labels of trace steps.
fn push_step_labels(dst: &mut Vec<String>, src: &Vec<TraceStep>)
    ensures
        strings_view(final(dst)@) == strings_view(old(dst)@) + steps_view(src@).map_values(
            |s: StepView| s.label,
        ),
{
    let ghost start = strings_view(dst@);
    let ghost all = steps_view(src@).map_values(|s: StepView| s.label);
    let mut j: usize = 0;
    while j < src.len()
        invariant
            j <= src.len(),
            all == steps_view(src@).map_values(|s: StepView| s.label),
            strings_view(dst@) == start + all.take(j as int),
        decreases src.len() - j,
    {
        let ghost prev = dst@;
        let x = src[j].label.clone();
        dst.push(x);
        proof {
            assert(strings_view(dst@) =~= strings_view(prev).push(x@));
            assert(all.take(j + 1) =~= all.take(j as int).push(all[j as int]));
        }
        j = j + 1;
    }
    assert(all.take(src.len() as int) =~= all);
}

/// Appends the labels of trace references.
fn push_reference_labels(dst: &mut Vec<String>, src: &Vec<TraceReference>)
    ensures
        strings_view(final(dst)@) == strings_view(old(dst)@) + references_view(src@).map_values(
            |s: ReferenceView| s.label,
        ),
{
    let ghost start = strings_view(dst@);
    let ghost all = references_view(src@).map_values(|s: ReferenceView| s.label);
    let mut j: usize = 0;
    while j < src.len()
        invariant
            j <= src.len(),
            all == references_view(src@).map_values(|s: ReferenceView| s.label),
            strings_view(dst@) == start + all.take(j as int),
        decreases src.len() - j,
    {
        let ghost prev = dst@;
        let x = src[j].label.clone();
        dst.push(x);
        proof {
            assert(strings_view(dst@) =~= strings_view(prev).push(x@));
            assert(all.take(j + 1) =~= all.take(j as int).push(all[j as int]));
        }
        j = j + 1;
    }
    assert(all.take(src.len() as int) =~= all);
}

/// The search text of a single part.
fn single_search_text(part: &String) -> (text: String)
    ensures
        text@ == search_text_spec(seq![part@]),
{
    let mut parts: Vec<String> = Vec::new();
    parts.push(part.clone());
    assert(strings_view(parts@) =~= seq![part@]);
    build_search_text(&parts)
}

// ---------------------------------------------------------------------------
// Test attributes
// ---------------------------------------------------------------------------

/// The first position of `x` in `s`.
pub open spec fn position_in(s: Seq<usize>, x: usize) -> Option<int>
    decreases s.len(),
{
    if s.len() == 0 {
        None
    } else if s[0] == x {
        Some(0)
    } else {
        match position_in(s.drop_first(), x) {
            Some(k) => Some(k + 1),
            None => None,
        }
    }
}

/// Among the attribute items right before position `k` of `siblings`, one mentions
/// `test`.
pub open spec fn test_attribute_run(tree: SyntaxTree, siblings: Seq<usize>, k: int) -> bool
    decreases k,
{
    if k <= 0 || k > siblings.len() {
        false
    } else {
        let s = siblings[k - 1] as int;
        tree.kind(s) == "attribute_item"@ && (contains_seq(tree.text(s), "test"@) || test_attribute_run(
            tree,
            siblings,
            k - 1,
        ))
    }
}

/// A declaration is preceded, among its named siblings, by a run of attribute items one
/// of which mentions `test`.
pub open spec fn test_attribute_spec(tree: SyntaxTree, i: int) -> bool {
    match tree.nodes@[i].parent {
        Some(p) => {
            let siblings = named_children_spec(tree, p as int);
            match position_in(siblings, i as usize) {
                Some(k) => test_attribute_run(tree, siblings, k),
                None => false,
            }
        },
        None => false,
    }
}

/// Whether a declaration carries a test attribute (see `test_attribute_spec`).
pub fn has_rust_test_attribute(tree: &SyntaxTree, i: usize) -> (r: bool)
    requires
        tree.wf(),
        i < tree.nodes.len(),
    ensures
        r == test_attribute_spec(*tree, i as int),
{
    let p = match tree.nodes[i].parent {
        Some(p) => p,
        None => {
            return false;
        },
    };
    let siblings = collect_named_children(tree, p);
    let mut k: usize = 0;
    let mut found = false;
    assert(siblings@.skip(0) =~= siblings@);
    while k < siblings.len() && !found
        invariant
            k <= siblings.len(),
            siblings@ == named_children_spec(*tree, p as int),
            !found ==> position_in(siblings@, i) == match position_in(siblings@.skip(k as int), i) {
                Some(j) => Some(j + k),
                None => None,
            },
            found ==> position_in(siblings@, i) == Some(k as int) && k < siblings.len(),
        decreases siblings.len() - k + (if found { 0int } else { 1int }),
    {
        assert(siblings@.skip(k as int)[0] == siblings@[k as int]);
        assert(siblings@.skip(k as int).drop_first() =~= siblings@.skip(k + 1));
        if siblings[k] == i {
            found = true;
        } else {
            k = k + 1;
        }
    }
    if !found {
        assert(siblings@.skip(k as int) =~= Seq::<usize>::empty());
        return false;
    }
    let mut m: usize = k;
    assert(test_attribute_spec(*tree, i as int) == test_attribute_run(*tree, siblings@, k as int));
    loop
        invariant
            tree.wf(),
            m <= k < siblings.len(),
            siblings@ == named_children_spec(*tree, p as int),
            forall|q: int| 0 <= q < siblings.len() ==> #[trigger] siblings@[q] < tree.nodes.len(),
            test_attribute_spec(*tree, i as int) == test_attribute_run(*tree, siblings@, m as int),
        decreases m,
    {
        if m == 0 {
            return false;
        }
        let s = siblings[m - 1];
        if !kind_is(tree, s, "attribute_item") {
            return false;
        }
        let text = node_text(tree, s);
        if contains_str(text.as_str(), "test") {
            return true;
        }
        m = m - 1;
    }
}

// ---------------------------------------------------------------------------
// Declaration targets
// ---------------------------------------------------------------------------

/// The calls of a callable declaration's body.
pub open spec fn primary_calls_spec(tree: SyntaxTree, i: int, kind: SearchTargetKind, language: SupportedLanguage) -> Seq<CallView> {
    if is_callable_kind(kind) {
        match child_by_field_spec(tree, i, "body"@) {
            Some(b) => calls_in_scope_spec(tree, b as int, language),
            None => Seq::empty(),
        }
    } else {
        Seq::empty()
    }
}

/// An optional text that is absent when empty.
pub open spec fn non_empty(s: Seq<char>) -> Option<Seq<char>> {
    if s.len() == 0 {
        None
    } else {
        Some(s)
    }
}

/// The target a declaration of kind `kind` at node `i` stands for; none when it has no
/// name.
pub open spec fn primary_target_spec(
    tree: SyntaxTree,
    i: int,
    kind: SearchTargetKind,
    path: Seq<char>,
    lines: Seq<Seq<char>>,
    language: SupportedLanguage,
) -> Option<TargetView> {
    match symbol_name_spec(tree, i) {
        Some(symbol) => {
            let line_start = tree.nodes@[i].start_line;
            let line_end = tree.nodes@[i].end_line;
            let node_text = tree.text(i);
            let comment = preceding_comments_spec(lines, line_start as int);
            let signature = signature_text_spec(node_text);
            let params = parameter_descriptions_spec(tree, child_by_field_spec(tree, i, "parameters"@));
            let calls = primary_calls_spec(tree, i, kind, language);
            let call_names = dedup_strings_spec(calls.map_values(|c: CallView| c.name));
            Some(
                TargetView {
                    target_id: target_id_spec(path, line_start as nat, line_end as nat, kind, symbol),
                    file_path: path,
                    language,
                    target_kind: kind,
                    symbol_name: symbol,
                    parent_symbol_name: None,
                    parent_symbol_name_search_text: None,
                    line_start,
                    line_end,
                    symbol_name_search_text: search_text_spec(seq![symbol]),
                    signature_search_text: search_text_spec(
                        seq![signature] + params.map_values(|p: (Seq<char>, Seq<char>)| p.1),
                    ),
                    context_search_text: search_text_spec(
                        seq![comment, normalize_query_spec(node_text)] + call_names,
                    ),
                    declaration_snippet: single_line_snippet_spec(signature),
                    signature_text: non_empty(signature),
                    return_type_hint: return_type_hint_spec(tree, i),
                    parameter_descriptions: params,
                    incoming_dependencies: Seq::empty(),
                    outgoing_dependencies: calls.map_values(|c: CallView| call_dependency_spec(c)),
                    flow_steps: Seq::empty(),
                    call_names,
                    doc_comment: non_empty(comment),
                    semantic_role: semantic_role_spec(symbol, language, test_attribute_spec(tree, i)),
                    sibling_symbol_names: Seq::empty(),
                    container_name: None,
                    import_hint: if kind == SearchTargetKind::Function || kind == SearchTargetKind::Type {
                        import_hint_spec(symbol, path, language, kind)
                    } else {
                        None
                    },
                },
            )
        },
        None => None,
    }
}

/// An optional string that is absent when empty.
fn non_empty_string(s: String) -> (r: Option<String>)
    ensures
        opt_seq(r) == non_empty(s@),
{
    if text_is_empty(s.as_str()) {
        None
    } else {
        Some(s)
    }
}

/// The view of an optional target.
pub open spec fn opt_target_view(t: Option<SearchTarget>) -> Option<TargetView> {
    match t {
        Some(t) => Some(t@),
        None => None,
    }
}

/// The target a declaration stands for (see `primary_target_spec`).
pub fn build_primary_target(
    tree: &SyntaxTree,
    i: usize,
    kind: SearchTargetKind,
    path: &str,
    lines: &Vec<String>,
    language: SupportedLanguage,
) -> (r: Option<SearchTarget>)
    requires
        tree.wf(),
        i < tree.nodes.len(),
    ensures
        opt_target_view(r) == primary_target_spec(*tree, i as int, kind, path@, strings_view(lines@), language),
{
    let symbol_name = match extract_symbol_name(tree, i) {
        Some(s) => s,
        None => {
            return None;
        },
    };
    let line_start = tree.nodes[i].start_line;
    let line_end = tree.nodes[i].end_line;
    let text = node_text(tree, i);
    let comment_text = collect_preceding_comments(lines, line_start);
    let signature_text = extract_signature_text(text.as_str());
    let declaration_snippet = build_single_line_snippet(signature_text.as_str());
    let token_text = normalize_query(text.as_str());
    let parameters = child_by_field_name(tree, i, "parameters");
    let parameter_descriptions = collect_parameter_descriptions(tree, parameters);
    let calls: Vec<CallReference> = if kind.is_callable() {
        match child_by_field_name(tree, i, "body") {
            Some(b) => collect_call_references_in_scope(tree, b, language),
            None => Vec::new(),
        }
    } else {
        Vec::new()
    };
    assert(calls_view(calls@) == primary_calls_spec(*tree, i as int, kind, language)) by {
        if calls_view(calls@).len() == 0 {
            assert(calls_view(calls@) =~= Seq::<CallView>::empty());
        }
    }
    let outgoing_dependencies = calls_to_dependencies(&calls);
    let names = call_simple_names(&calls);
    let call_names = dedup_strings_preserve_order(&names);
    let mut signature_parts: Vec<String> = Vec::new();
    signature_parts.push(signature_text.clone());
    assert(strings_view(signature_parts@) =~= seq![signature_text@]);
    push_parameter_texts(&mut signature_parts, &parameter_descriptions);
    let mut context_parts: Vec<String> = Vec::new();
    context_parts.push(comment_text.clone());
    context_parts.push(token_text);
    assert(strings_view(context_parts@) =~= seq![comment_text@, normalize_query_spec(text@)]);
    push_texts(&mut context_parts, &call_names);
    let doc_comment = non_empty_string(comment_text.clone());
    let test_attribute = has_rust_test_attribute(tree, i);
    let semantic_role = classify_semantic_role(symbol_name.as_str(), language, test_attribute);
    let import_hint = match kind {
        SearchTargetKind::Function | SearchTargetKind::Type => build_import_hint(
            symbol_name.as_str(),
            path,
            language,
            kind,
        ),
        _ => None,
    };
    let symbol_name_search_text = single_search_text(&symbol_name);
    let signature_search_text = build_search_text(&signature_parts);
    let context_search_text = build_search_text(&context_parts);
    let target_id = build_target_id(path, line_start, line_end, kind, symbol_name.as_str());
    let return_type_hint = extract_return_type_hint(tree, i);
    let signature = non_empty_string(signature_text);
    let target = SearchTarget {
        target_id,
        file_path: String::from_str(path),
        language,
        target_kind: kind,
        symbol_name,
        parent_symbol_name: None,
        parent_symbol_name_search_text: None,
        line_start,
        line_end,
        symbol_name_search_text,
        signature_search_text,
        context_search_text,
        declaration_snippet,
        signature_text: signature,
        return_type_hint,
        parameter_descriptions,
        incoming_dependencies: Vec::new(),
        outgoing_dependencies,
        flow_steps: Vec::new(),
        call_names,
        doc_comment,
        semantic_role,
        sibling_symbol_names: Vec::new(),
        container_name: None,
        import_hint,
    };
    proof {
        assert(references_view(target.incoming_dependencies@) =~= Seq::<ReferenceView>::empty());
        assert(steps_view(target.flow_steps@) =~= Seq::<StepView>::empty());
        assert(strings_view(target.sibling_symbol_names@) =~= Seq::<Seq<char>>::empty());
        assert(target@ == primary_target_spec(*tree, i as int, kind, path@, strings_view(lines@), language)->0);
    }
    Some(target)
}


// ---------------------------------------------------------------------------
// Local binding targets
// ---------------------------------------------------------------------------

/// The text of an optional node, empty when there is none.
pub open spec fn opt_node_text(tree: SyntaxTree, n: Option<usize>) -> Seq<char> {
    match n {
        Some(v) => tree.text(v as int),
        None => Seq::empty(),
    }
}

/// The calls of an optional initializer.
pub open spec fn initializer_calls_spec(tree: SyntaxTree, n: Option<usize>) -> Seq<CallView> {
    match n {
        Some(v) => calls_in_expression_spec(tree, v as int),
        None => Seq::empty(),
    }
}

/// An optional text as a list of zero or one part.
pub open spec fn opt_parts(o: Option<Seq<char>>) -> Seq<Seq<char>> {
    match o {
        Some(t) => seq![t],
        None => Seq::empty(),
    }
}

/// The target a local binding stands for, inside the callable named `callable`; none when
/// the binding's name is empty.
pub open spec fn local_target_spec(
    tree: SyntaxTree,
    body: int,
    callable: Seq<char>,
    d: BindingDescriptor,
    params: Seq<(Seq<char>, Seq<char>)>,
    path: Seq<char>,
    language: SupportedLanguage,
) -> Option<TargetView> {
    let symbol = tree.text(d.name_node as int);
    if symbol.len() == 0 {
        None
    } else {
        let decl = d.display_node as int;
        let line_start = tree.nodes@[decl].start_line;
        let line_end = tree.nodes@[decl].end_line;
        let declaration_text = tree.text(decl);
        let type_hint = binding_type_hint_spec(tree, decl);
        let initializer_text = opt_node_text(tree, d.initializer_node);
        let calls = initializer_calls_spec(tree, d.initializer_node);
        let outgoing = calls.map_values(|c: CallView| call_dependency_spec(c));
        let incoming = match d.initializer_node {
            Some(v) => incoming_dependencies_spec(tree, v as int, symbol, params, language),
            None => Seq::empty(),
        };
        let flow = local_flow_steps_spec(tree, body, decl, symbol, language);
        let context_parts = seq![declaration_text, initializer_text, callable] + opt_parts(type_hint)
            + flow.map_values(|s: StepView| s.label) + incoming.map_values(|r: ReferenceView| r.label)
            + outgoing.map_values(|r: ReferenceView| r.label) + seq![
            normalize_query_spec(declaration_text),
            normalize_query_spec(initializer_text),
        ];
        Some(
            TargetView {
                target_id: target_id_spec(
                    path,
                    line_start as nat,
                    line_end as nat,
                    SearchTargetKind::LocalBinding,
                    symbol,
                ),
                file_path: path,
                language,
                target_kind: SearchTargetKind::LocalBinding,
                symbol_name: symbol,
                parent_symbol_name: Some(callable),
                parent_symbol_name_search_text: Some(search_text_spec(seq![callable])),
                line_start,
                line_end,
                symbol_name_search_text: search_text_spec(seq![symbol]),
                signature_search_text: search_text_spec(opt_parts(type_hint)),
                context_search_text: search_text_spec(context_parts),
                declaration_snippet: single_line_snippet_spec(declaration_text),
                signature_text: None,
                return_type_hint: type_hint,
                parameter_descriptions: Seq::empty(),
                incoming_dependencies: incoming,
                outgoing_dependencies: outgoing,
                flow_steps: flow,
                call_names: dedup_strings_spec(calls.map_values(|c: CallView| c.name)),
                doc_comment: None,
                semantic_role: None,
                sibling_symbol_names: Seq::empty(),
                container_name: None,
                import_hint: None,
            },
        )
    }
}

/// The target a local binding stands for (see `local_target_spec`).
pub fn build_local_binding_target(
    tree: &SyntaxTree,
    body: usize,
    callable: &String,
    d: BindingDescriptor,
    params: &Vec<NamedText>,
    path: &str,
    language: SupportedLanguage,
) -> (r: Option<SearchTarget>)
    requires
        tree.wf(),
        body < tree.nodes.len(),
        descriptor_valid(*tree, d),
    ensures
        opt_target_view(r) == local_target_spec(
            *tree,
            body as int,
            callable@,
            d,
            named_texts_view(params@),
            path@,
            language,
        ),
{
    let symbol_name = node_text(tree, d.name_node);
    if text_is_empty(symbol_name.as_str()) {
        return None;
    }
    let decl = d.display_node;
    let line_start = tree.nodes[decl].start_line;
    let line_end = tree.nodes[decl].end_line;
    let declaration_text = node_text(tree, decl);
    let declaration_snippet = build_single_line_snippet(declaration_text.as_str());
    let type_hint = extract_explicit_binding_type_hint(tree, decl);
    let initializer_text = match d.initializer_node {
        Some(v) => node_text(tree, v),
        None => String::new(),
    };
    let calls: Vec<CallReference> = match d.initializer_node {
        Some(v) => collect_call_references_in_expression(tree, v),
        None => Vec::new(),
    };
    assert(calls_view(calls@) == initializer_calls_spec(*tree, d.initializer_node)) by {
        if d.initializer_node is None {
            assert(calls_view(calls@) =~= Seq::<CallView>::empty());
        }
    }
    let outgoing_dependencies = calls_to_dependencies(&calls);
    let names = call_simple_names(&calls);
    let call_names = dedup_strings_preserve_order(&names);
    let incoming_dependencies: Vec<TraceReference> = match d.initializer_node {
        Some(v) => collect_incoming_dependencies(tree, v, symbol_name.as_str(), params, language),
        None => Vec::new(),
    };
    assert(references_view(incoming_dependencies@) == match d.initializer_node {
        Some(v) => incoming_dependencies_spec(*tree, v as int, symbol_name@, named_texts_view(params@), language),
        None => Seq::<ReferenceView>::empty(),
    }) by {
        if d.initializer_node is None {
            assert(references_view(incoming_dependencies@) =~= Seq::<ReferenceView>::empty());
        }
    }
    let flow_steps = collect_local_binding_flow_steps(tree, body, decl, symbol_name.as_str(), language);
    let mut context_parts: Vec<String> = Vec::new();
    context_parts.push(declaration_text.clone());
    context_parts.push(initializer_text.clone());
    context_parts.push(callable.clone());
    let mut type_parts: Vec<String> = Vec::new();
    if let Some(t) = &type_hint {
        type_parts.push(t.clone());
    }
    assert(strings_view(type_parts@) =~= opt_parts(opt_seq(type_hint)));
    assert(strings_view(context_parts@) =~= seq![declaration_text@, initializer_text@, callable@]);
    push_texts(&mut context_parts, &type_parts);
    push_step_labels(&mut context_parts, &flow_steps);
    push_reference_labels(&mut context_parts, &incoming_dependencies);
    push_reference_labels(&mut context_parts, &outgoing_dependencies);
    let ghost before_tokens = strings_view(context_parts@);
    context_parts.push(normalize_query(declaration_text.as_str()));
    context_parts.push(normalize_query(initializer_text.as_str()));
    proof {
        assert(strings_view(context_parts@) =~= before_tokens + seq![
            normalize_query_spec(declaration_text@),
            normalize_query_spec(initializer_text@),
        ]);
    }
    let symbol_name_search_text = single_search_text(&symbol_name);
    let parent_search_text = single_search_text(callable);
    let signature_search_text = build_search_text(&type_parts);
    let context_search_text = build_search_text(&context_parts);
    let target_id = build_target_id(path, line_start, line_end, SearchTargetKind::LocalBinding, symbol_name.as_str());
    let target = SearchTarget {
        target_id,
        file_path: String::from_str(path),
        language,
        target_kind: SearchTargetKind::LocalBinding,
        symbol_name,
        parent_symbol_name: Some(callable.clone()),
        parent_symbol_name_search_text: Some(parent_search_text),
        line_start,
        line_end,
        symbol_name_search_text,
        signature_search_text,
        context_search_text,
        declaration_snippet,
        signature_text: None,
        return_type_hint: type_hint,
        parameter_descriptions: Vec::new(),
        incoming_dependencies,
        outgoing_dependencies,
        flow_steps,
        call_names,
        doc_comment: None,
        semantic_role: None,
        sibling_symbol_names: Vec::new(),
        container_name: None,
        import_hint: None,
    };
    proof {
        assert(named_texts_view(target.parameter_descriptions@) =~= Seq::<(Seq<char>, Seq<char>)>::empty());
        assert(strings_view(target.sibling_symbol_names@) =~= Seq::<Seq<char>>::empty());
        assert(target@ == local_target_spec(
            *tree,
            body as int,
            callable@,
            d,
            named_texts_view(params@),
            path@,
            language,
        )->0);
    }
    Some(target)
}

/// The targets of the local bindings of a callable declaration named `callable`.
pub open spec fn local_targets_spec(
    tree: SyntaxTree,
    c: int,
    callable: Seq<char>,
    path: Seq<char>,
    language: SupportedLanguage,
) -> Seq<TargetView> {
    match child_by_field_spec(tree, c, "body"@) {
        Some(b) => {
            let params = parameter_descriptions_spec(tree, child_by_field_spec(tree, c, "parameters"@));
            local_descriptors_spec(tree, b as int, language).filter_map(
                |d: BindingDescriptor| local_target_spec(tree, b as int, callable, d, params, path, language),
            )
        },
        None => Seq::empty(),
    }
}

/// Appends the targets of the local bindings of a callable declaration (see
/// `local_targets_spec`).
pub fn push_local_binding_targets(
    tree: &SyntaxTree,
    c: usize,
    callable: &String,
    path: &str,
    language: SupportedLanguage,
    out: &mut Vec<SearchTarget>,
)
    requires
        tree.wf(),
        c < tree.nodes.len(),
    ensures
        targets_view(final(out)@) == targets_view(old(out)@) + local_targets_spec(
            *tree,
            c as int,
            callable@,
            path@,
            language,
        ),
{
    let body = match child_by_field_name(tree, c, "body") {
        Some(b) => b,
        None => {
            assert(targets_view(out@) =~= targets_view(old(out)@) + Seq::<TargetView>::empty());
            return;
        },
    };
    let params = collect_parameter_descriptions(tree, child_by_field_name(tree, c, "parameters"));
    let descriptors = collect_local_binding_descriptors(tree, body, language);
    let ghost pv = named_texts_view(params@);
    let ghost f = |d: BindingDescriptor| local_target_spec(*tree, body as int, callable@, d, pv, path@, language);
    let ghost start = targets_view(out@);
    let mut k: usize = 0;
    assert(descriptors@.take(0) =~= Seq::<BindingDescriptor>::empty());
    while k < descriptors.len()
        invariant
            tree.wf(),
            body < tree.nodes.len(),
            forall|m: int| 0 <= m < descriptors.len() ==> descriptor_valid(*tree, #[trigger] descriptors@[m]),
            pv == named_texts_view(params@),
            f == (|d: BindingDescriptor| local_target_spec(*tree, body as int, callable@, d, pv, path@, language)),
            k <= descriptors.len(),
            targets_view(out@) == start + descriptors@.take(k as int).filter_map(f),
        decreases descriptors.len() - k,
    {
        proof {
            assert(descriptors@.take(k + 1).drop_last() =~= descriptors@.take(k as int));
            assert(descriptors@.take(k + 1).last() == descriptors@[k as int]);
        }
        let ghost before = out@;
        let d = descriptors[k];
        assert(descriptor_valid(*tree, descriptors@[k as int]));
        if let Some(t) = build_local_binding_target(tree, body, callable, d, &params, path, language) {
            out.push(t);
            proof {
                assert(targets_view(out@) =~= targets_view(before) + seq![t@]);
            }
        }
        k = k + 1;
    }
    assert(descriptors@.take(descriptors.len() as int) =~= descriptors@);
}

} // verus!
