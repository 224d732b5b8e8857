//! Queries on a syntax tree: identifiers, declaration kinds, parameters, types and calls.

use vstd::prelude::*;

use crate::model::{
    named_texts_view, references_view, NamedText, ReferenceView, SearchTargetKind, SupportedLanguage,
    TraceReference,
};
use crate::text::strings_view;
use crate::parser::order::{keys_of, sort_dedup_indices, sort_dedup_spec};
use crate::parser::snippets::{
    build_single_line_snippet, call_display_name_spec, normalize_call_display_name,
    normalize_type_text, opt_seq, single_line_snippet_spec, text_is_empty, type_text_spec,
};
use crate::parser::syntax::{
    child_by_field_name, child_by_field_spec, collect_named_children, kind_is, named_children_spec,
    node_text, preorder, preorder_nodes, str_eq, SyntaxTree,
};

verus! {

// ---------------------------------------------------------------------------
// Identifiers
// ---------------------------------------------------------------------------

/// The grammar types that name something.
pub open spec fn is_identifier_like_kind(k: Seq<char>) -> bool {
    k == "identifier"@ || k == "field_identifier"@ || k == "property_identifier"@ || k
        == "private_property_identifier"@ || k == "type_identifier"@ || k == "package_identifier"@
        || k == "scoped_identifier"@ || k == "statement_identifier"@
}

/// Whether node `i` is identifier-like (see `is_identifier_like_kind`).
pub fn is_identifier_like(tree: &SyntaxTree, i: usize) -> (r: bool)
    requires
        i < tree.nodes.len(),
    ensures
        r == is_identifier_like_kind(tree.kind(i as int)),
{
    kind_is(tree, i, "identifier") || kind_is(tree, i, "field_identifier") || kind_is(
        tree,
        i,
        "property_identifier",
    ) || kind_is(tree, i, "private_property_identifier") || kind_is(tree, i, "type_identifier")
        || kind_is(tree, i, "package_identifier") || kind_is(tree, i, "scoped_identifier")
        || kind_is(tree, i, "statement_identifier")
}

/// The text of node `n` when it is an identifier-like node with a non-empty text.
pub open spec fn identifier_of(tree: SyntaxTree, n: int) -> Option<Seq<char>> {
    if 0 <= n < tree.nodes.len() && is_identifier_like_kind(tree.kind(n)) && tree.text(n).len() > 0 {
        Some(tree.text(n))
    } else {
        None
    }
}

/// The first identifier among `nodes`.
pub open spec fn first_identifier_in(tree: SyntaxTree, nodes: Seq<usize>) -> Option<Seq<char>>
    decreases nodes.len(),
{
    if nodes.len() == 0 {
        None
    } else {
        match identifier_of(tree, nodes[0] as int) {
            Some(t) => Some(t),
            None => first_identifier_in(tree, nodes.drop_first()),
        }
    }
}

/// The last identifier among `nodes`.
pub open spec fn last_identifier_in(tree: SyntaxTree, nodes: Seq<usize>) -> Option<Seq<char>>
    decreases nodes.len(),
{
    if nodes.len() == 0 {
        None
    } else {
        match identifier_of(tree, nodes.last() as int) {
            Some(t) => Some(t),
            None => last_identifier_in(tree, nodes.drop_last()),
        }
    }
}

/// The first identifier of the subtree of `i`, in pre-order.
pub open spec fn first_identifier_spec(tree: SyntaxTree, i: int) -> Option<Seq<char>> {
    first_identifier_in(tree, preorder(tree, i, i, None))
}

/// The last identifier of the subtree of `i`, in pre-order.
pub open spec fn terminal_identifier_spec(tree: SyntaxTree, i: int) -> Option<Seq<char>> {
    last_identifier_in(tree, preorder(tree, i, i, None))
}

/// The identifier of node `n`, if it has one (see `identifier_of`).
fn identifier_at(tree: &SyntaxTree, n: usize) -> (r: Option<String>)
    requires
        tree.wf(),
        n < tree.nodes.len(),
    ensures
        opt_seq(r) == identifier_of(*tree, n as int),
{
    if is_identifier_like(tree, n) {
        let t = node_text(tree, n);
        if !text_is_empty(t.as_str()) {
            return Some(t);
        }
    }
    None
}

/// The first identifier of the subtree of `i` (see `first_identifier_spec`).
pub fn extract_first_identifier(tree: &SyntaxTree, i: usize) -> (r: Option<String>)
    requires
        tree.wf(),
        i < tree.nodes.len(),
    ensures
        opt_seq(r) == first_identifier_spec(*tree, i as int),
{
    let nodes = preorder_nodes(tree, i, i, None);
    let mut k: usize = 0;
    assert(nodes@.skip(0) =~= nodes@);
    while k < nodes.len()
        invariant
            tree.wf(),
            k <= nodes.len(),
            nodes@ == preorder(*tree, i as int, i as int, None),
            forall|m: int| 0 <= m < nodes.len() ==> #[trigger] nodes@[m] < tree.nodes.len(),
            first_identifier_spec(*tree, i as int) == first_identifier_in(*tree, nodes@.skip(k as int)),
        decreases nodes.len() - k,
    {
        assert(nodes@.skip(k as int)[0] == nodes@[k as int]);
        assert(nodes@.skip(k as int).drop_first() =~= nodes@.skip(k + 1));
        if let Some(t) = identifier_at(tree, nodes[k]) {
            return Some(t);
        }
        k = k + 1;
    }
    None
}

/// The last identifier of the subtree of `i` (see `terminal_identifier_spec`).
pub fn extract_terminal_identifier(tree: &SyntaxTree, i: usize) -> (r: Option<String>)
    requires
        tree.wf(),
        i < tree.nodes.len(),
    ensures
        opt_seq(r) == terminal_identifier_spec(*tree, i as int),
{
    let nodes = preorder_nodes(tree, i, i, None);
    let mut found: Option<String> = None;
    let mut k: usize = 0;
    assert(nodes@.take(0) =~= Seq::<usize>::empty());
    while k < nodes.len()
        invariant
            tree.wf(),
            k <= nodes.len(),
            nodes@ == preorder(*tree, i as int, i as int, None),
            forall|m: int| 0 <= m < nodes.len() ==> #[trigger] nodes@[m] < tree.nodes.len(),
            opt_seq(found) == last_identifier_in(*tree, nodes@.take(k as int)),
        decreases nodes.len() - k,
    {
        assert(nodes@.take(k + 1).drop_last() =~= nodes@.take(k as int));
        assert(nodes@.take(k + 1).last() == nodes@[k as int]);
        if let Some(t) = identifier_at(tree, nodes[k]) {
            found = Some(t);
        }
        k = k + 1;
    }
    assert(nodes@.take(nodes.len() as int) =~= nodes@);
    found
}

/// The name of a declaration: the text of its `name` field when not empty, else its first
/// identifier.
pub open spec fn symbol_name_spec(tree: SyntaxTree, i: int) -> Option<Seq<char>> {
    match child_by_field_spec(tree, i, "name"@) {
        Some(c) => if tree.text(c as int).len() > 0 {
            Some(tree.text(c as int))
        } else {
            first_identifier_spec(tree, i)
        },
        None => first_identifier_spec(tree, i),
    }
}

/// The name of a declaration (see `symbol_name_spec`).
pub fn extract_symbol_name(tree: &SyntaxTree, i: usize) -> (r: Option<String>)
    requires
        tree.wf(),
        i < tree.nodes.len(),
    ensures
        opt_seq(r) == symbol_name_spec(*tree, i as int),
{
    if let Some(c) = child_by_field_name(tree, i, "name") {
        let t = node_text(tree, c);
        if !text_is_empty(t.as_str()) {
            return Some(t);
        }
    }
    extract_first_identifier(tree, i)
}

// ---------------------------------------------------------------------------
// Declaration kinds
// ---------------------------------------------------------------------------

/// A Rust function sits in an `impl` block: its parent or grandparent is an `impl_item`.
pub open spec fn impl_member_spec(tree: SyntaxTree, i: int) -> bool {
    match tree.nodes@[i].parent {
        Some(p) => tree.kind(p as int) == "impl_item"@ || match tree.nodes@[p as int].parent {
            Some(g) => tree.kind(g as int) == "impl_item"@,
            None => false,
        },
        None => false,
    }
}

/// Whether node `i` sits in an `impl` block (see `impl_member_spec`).
pub fn is_rust_impl_member(tree: &SyntaxTree, i: usize) -> (r: bool)
    requires
        tree.wf(),
        i < tree.nodes.len(),
    ensures
        r == impl_member_spec(*tree, i as int),
{
    match tree.nodes[i].parent {
        Some(p) => {
            if kind_is(tree, p, "impl_item") {
                return true;
            }
            match tree.nodes[p].parent {
                Some(g) => kind_is(tree, g, "impl_item"),
                None => false,
            }
        },
        None => false,
    }
}

/// The kind of target that node `i` declares, if it declares one.
pub open spec fn primary_kind_spec(tree: SyntaxTree, i: int, language: SupportedLanguage) -> Option<SearchTargetKind> {
    let k = tree.kind(i);
    match language {
        SupportedLanguage::Rust => if k == "function_item"@ {
            if impl_member_spec(tree, i) {
                Some(SearchTargetKind::Method)
            } else {
                Some(SearchTargetKind::Function)
            }
        } else if k == "struct_item"@ || k == "enum_item"@ || k == "trait_item"@ || k == "type_item"@ {
            Some(SearchTargetKind::Type)
        } else {
            None
        },
        SupportedLanguage::Go => if k == "function_declaration"@ {
            Some(SearchTargetKind::Function)
        } else if k == "method_declaration"@ {
            Some(SearchTargetKind::Method)
        } else if k == "type_spec"@ {
            Some(SearchTargetKind::Type)
        } else {
            None
        },
        SupportedLanguage::TypeScript => if k == "function_declaration"@ {
            Some(SearchTargetKind::Function)
        } else if k == "method_definition"@ {
            Some(SearchTargetKind::Method)
        } else if k == "class_declaration"@ || k == "interface_declaration"@ || k
            == "type_alias_declaration"@ || k == "enum_declaration"@ {
            Some(SearchTargetKind::Type)
        } else {
            None
        },
    }
}

/// The kind of target that node `i` declares (see `primary_kind_spec`).
pub fn classify_primary_target_kind(tree: &SyntaxTree, i: usize, language: SupportedLanguage) -> (r: Option<SearchTargetKind>)
    requires
        tree.wf(),
        i < tree.nodes.len(),
    ensures
        r == primary_kind_spec(*tree, i as int, language),
{
    match language {
        SupportedLanguage::Rust => {
            if kind_is(tree, i, "function_item") {
                if is_rust_impl_member(tree, i) {
                    Some(SearchTargetKind::Method)
                } else {
                    Some(SearchTargetKind::Function)
                }
            } else if kind_is(tree, i, "struct_item") || kind_is(tree, i, "enum_item") || kind_is(
                tree,
                i,
                "trait_item",
            ) || kind_is(tree, i, "type_item") {
                Some(SearchTargetKind::Type)
            } else {
                None
            }
        },
        SupportedLanguage::Go => {
            if kind_is(tree, i, "function_declaration") {
                Some(SearchTargetKind::Function)
            } else if kind_is(tree, i, "method_declaration") {
                Some(SearchTargetKind::Method)
            } else if kind_is(tree, i, "type_spec") {
                Some(SearchTargetKind::Type)
            } else {
                None
            }
        },
        SupportedLanguage::TypeScript => {
            if kind_is(tree, i, "function_declaration") {
                Some(SearchTargetKind::Function)
            } else if kind_is(tree, i, "method_definition") {
                Some(SearchTargetKind::Method)
            } else if kind_is(tree, i, "class_declaration") || kind_is(
                tree,
                i,
                "interface_declaration",
            ) || kind_is(tree, i, "type_alias_declaration") || kind_is(tree, i, "enum_declaration") {
                Some(SearchTargetKind::Type)
            } else {
                None
            }
        },
    }
}

// ---------------------------------------------------------------------------
// Parameters and types
// ---------------------------------------------------------------------------

/// The first identifier under the field `field` of node `c`.
pub open spec fn field_identifier(tree: SyntaxTree, c: int, field: Seq<char>) -> Option<Seq<char>> {
    match child_by_field_spec(tree, c, field) {
        Some(n) => first_identifier_spec(tree, n as int),
        None => None,
    }
}

/// The name of a parameter: the first identifier under its `name`, `pattern` or
/// `parameter` field, tried in that order, else its own first identifier.
pub open spec fn parameter_name_spec(tree: SyntaxTree, c: int) -> Option<Seq<char>> {
    if field_identifier(tree, c, "name"@) is Some {
        field_identifier(tree, c, "name"@)
    } else if field_identifier(tree, c, "pattern"@) is Some {
        field_identifier(tree, c, "pattern"@)
    } else if field_identifier(tree, c, "parameter"@) is Some {
        field_identifier(tree, c, "parameter"@)
    } else {
        first_identifier_spec(tree, c)
    }
}

/// The first identifier under the field `field` of node `c` (see `field_identifier`).
fn identifier_under_field(tree: &SyntaxTree, c: usize, field: &str) -> (r: Option<String>)
    requires
        tree.wf(),
        c < tree.nodes.len(),
    ensures
        opt_seq(r) == field_identifier(*tree, c as int, field@),
{
    match child_by_field_name(tree, c, field) {
        Some(n) => extract_first_identifier(tree, n),
        None => None,
    }
}

/// The name of a parameter (see `parameter_name_spec`).
pub fn extract_parameter_name(tree: &SyntaxTree, c: usize) -> (r: Option<String>)
    requires
        tree.wf(),
        c < tree.nodes.len(),
    ensures
        opt_seq(r) == parameter_name_spec(*tree, c as int),
{
    let by_name = identifier_under_field(tree, c, "name");
    if by_name.is_some() {
        return by_name;
    }
    let by_pattern = identifier_under_field(tree, c, "pattern");
    if by_pattern.is_some() {
        return by_pattern;
    }
    let by_parameter = identifier_under_field(tree, c, "parameter");
    if by_parameter.is_some() {
        return by_parameter;
    }
    extract_first_identifier(tree, c)
}

/// The descriptions of the parameters among `children`: each named parameter once, first
/// occurrence kept, with the one-line snippet of its text.
pub open spec fn parameters_from(tree: SyntaxTree, children: Seq<usize>) -> Seq<(Seq<char>, Seq<char>)>
    decreases children.len(),
{
    if children.len() == 0 {
        Seq::empty()
    } else {
        let d = parameters_from(tree, children.drop_last());
        let c = children.last() as int;
        match parameter_name_spec(tree, c) {
            Some(name) => if d.map_values(|p: (Seq<char>, Seq<char>)| p.0).contains(name) {
                d
            } else {
                d.push((name, single_line_snippet_spec(tree.text(c))))
            },
            None => d,
        }
    }
}

/// The parameter descriptions of a parameter list node, if there is one.
pub open spec fn parameter_descriptions_spec(tree: SyntaxTree, parameters: Option<usize>) -> Seq<(Seq<char>, Seq<char>)> {
    match parameters {
        Some(p) => parameters_from(tree, named_children_spec(tree, p as int)),
        None => Seq::empty(),
    }
}

/// Whether one of `descriptions` is named `name`.
fn has_parameter_named(descriptions: &Vec<NamedText>, name: &str) -> (r: bool)
    ensures
        r == named_texts_view(descriptions@).map_values(|p: (Seq<char>, Seq<char>)| p.0).contains(
            name@,
        ),
{
    let ghost names = named_texts_view(descriptions@).map_values(|p: (Seq<char>, Seq<char>)| p.0);
    let mut i: usize = 0;
    while i < descriptions.len()
        invariant
            i <= descriptions.len(),
            names == named_texts_view(descriptions@).map_values(|p: (Seq<char>, Seq<char>)| p.0),
            forall|k: int| 0 <= k < i ==> names[k] != name@,
        decreases descriptions.len() - i,
    {
        if str_eq(descriptions[i].name.as_str(), name) {
            assert(names[i as int] == name@);
            return true;
        }
        i = i + 1;
    }
    false
}

/// The parameter descriptions of a parameter list node (see `parameter_descriptions_spec`).
pub fn collect_parameter_descriptions(tree: &SyntaxTree, parameters: Option<usize>) -> (r: Vec<NamedText>)
    requires
        tree.wf(),
        match parameters {
            Some(p) => p < tree.nodes.len(),
            None => true,
        },
    ensures
        named_texts_view(r@) == parameter_descriptions_spec(*tree, parameters),
{
    let mut descriptions: Vec<NamedText> = Vec::new();
    let p = match parameters {
        Some(p) => p,
        None => {
            assert(named_texts_view(descriptions@) =~= Seq::<(Seq<char>, Seq<char>)>::empty());
            return descriptions;
        },
    };
    let children = collect_named_children(tree, p);
    let mut k: usize = 0;
    assert(children@.take(0) =~= Seq::<usize>::empty());
    assert(named_texts_view(descriptions@) =~= Seq::<(Seq<char>, Seq<char>)>::empty());
    while k < children.len()
        invariant
            tree.wf(),
            p < tree.nodes.len(),
            children@ == named_children_spec(*tree, p as int),
            forall|m: int| 0 <= m < children.len() ==> #[trigger] children@[m] < tree.nodes.len(),
            k <= children.len(),
            named_texts_view(descriptions@) == parameters_from(*tree, children@.take(k as int)),
        decreases children.len() - k,
    {
        let c = children[k];
        proof {
            assert(children@.take(k + 1).drop_last() =~= children@.take(k as int));
            assert(children@.take(k + 1).last() == c);
        }
        if let Some(name) = extract_parameter_name(tree, c) {
            if !has_parameter_named(&descriptions, name.as_str()) {
                let text = node_text(tree, c);
                let snippet = build_single_line_snippet(text.as_str());
                let ghost before = descriptions@;
                descriptions.push(NamedText { name, text: snippet });
                proof {
                    assert(named_texts_view(descriptions@) =~= named_texts_view(before).push(
                        descriptions@.last()@,
                    ));
                }
            }
        }
        k = k + 1;
    }
    assert(children@.take(children.len() as int) =~= children@);
    descriptions
}

/// The normalized text of the child of `i` under `field`, when there is one and it is not
/// empty.
pub open spec fn field_type_text(tree: SyntaxTree, i: int, field: Seq<char>) -> Option<Seq<char>> {
    match child_by_field_spec(tree, i, field) {
        Some(c) => if type_text_spec(tree.text(c as int)).len() > 0 {
            Some(type_text_spec(tree.text(c as int)))
        } else {
            None
        },
        None => None,
    }
}

/// The normalized type text under a field (see `field_type_text`).
fn type_under_field(tree: &SyntaxTree, i: usize, field: &str) -> (r: Option<String>)
    requires
        tree.wf(),
        i < tree.nodes.len(),
    ensures
        opt_seq(r) == field_type_text(*tree, i as int, field@),
{
    match child_by_field_name(tree, i, field) {
        Some(c) => {
            let t = node_text(tree, c);
            let type_text = normalize_type_text(t.as_str());
            if text_is_empty(type_text.as_str()) {
                None
            } else {
                Some(type_text)
            }
        },
        None => None,
    }
}

/// A declaration's return type: the first non-empty normalized text under its
/// `return_type`, `result` or `type` field.
pub open spec fn return_type_hint_spec(tree: SyntaxTree, i: int) -> Option<Seq<char>> {
    if field_type_text(tree, i, "return_type"@) is Some {
        field_type_text(tree, i, "return_type"@)
    } else if field_type_text(tree, i, "result"@) is Some {
        field_type_text(tree, i, "result"@)
    } else {
        field_type_text(tree, i, "type"@)
    }
}

/// A declaration's return type (see `return_type_hint_spec`).
pub fn extract_return_type_hint(tree: &SyntaxTree, i: usize) -> (r: Option<String>)
    requires
        tree.wf(),
        i < tree.nodes.len(),
    ensures
        opt_seq(r) == return_type_hint_spec(*tree, i as int),
{
    let a = type_under_field(tree, i, "return_type");
    if a.is_some() {
        return a;
    }
    let b = type_under_field(tree, i, "result");
    if b.is_some() {
        return b;
    }
    type_under_field(tree, i, "type")
}

/// The first declarator among `children` with a non-empty type.
pub open spec fn declarator_type_in(tree: SyntaxTree, children: Seq<usize>) -> Option<Seq<char>>
    decreases children.len(),
{
    if children.len() == 0 {
        None
    } else {
        let c = children[0] as int;
        if tree.kind(c) == "variable_declarator"@ && field_type_text(tree, c, "type"@) is Some {
            field_type_text(tree, c, "type"@)
        } else {
            declarator_type_in(tree, children.drop_first())
        }
    }
}

/// A binding declaration's explicit type: the non-empty normalized text under its `type`
/// field, else that of the first of its named `variable_declarator` children that has one.
pub open spec fn binding_type_hint_spec(tree: SyntaxTree, d: int) -> Option<Seq<char>> {
    if field_type_text(tree, d, "type"@) is Some {
        field_type_text(tree, d, "type"@)
    } else {
        declarator_type_in(tree, named_children_spec(tree, d))
    }
}

/// A binding declaration's explicit type (see `binding_type_hint_spec`).
pub fn extract_explicit_binding_type_hint(tree: &SyntaxTree, d: usize) -> (r: Option<String>)
    requires
        tree.wf(),
        d < tree.nodes.len(),
    ensures
        opt_seq(r) == binding_type_hint_spec(*tree, d as int),
{
    let direct = type_under_field(tree, d, "type");
    if direct.is_some() {
        return direct;
    }
    let children = collect_named_children(tree, d);
    let mut k: usize = 0;
    assert(children@.skip(0) =~= children@);
    while k < children.len()
        invariant
            tree.wf(),
            d < tree.nodes.len(),
            children@ == named_children_spec(*tree, d as int),
            forall|m: int| 0 <= m < children.len() ==> #[trigger] children@[m] < tree.nodes.len(),
            k <= children.len(),
            binding_type_hint_spec(*tree, d as int) == declarator_type_in(*tree, children@.skip(k as int)),
        decreases children.len() - k,
    {
        let c = children[k];
        assert(children@.skip(k as int)[0] == c);
        assert(children@.skip(k as int).drop_first() =~= children@.skip(k + 1));
        if kind_is(tree, c, "variable_declarator") {
            let t = type_under_field(tree, c, "type");
            if t.is_some() {
                return t;
            }
        }
        k = k + 1;
    }
    None
}


// ---------------------------------------------------------------------------
// Calls
// ---------------------------------------------------------------------------

/// A call found in a body: how it is shown, the name it calls, where it is.
pub struct CallReference {
    pub display_label: String,
    pub simple_name: String,
    pub line_start: usize,
    pub line_end: usize,
    pub snippet: String,
}

/// The content of a `CallReference`.
pub struct CallView {
    pub label: Seq<char>,
    pub name: Seq<char>,
    pub line_start: usize,
    pub line_end: usize,
    pub snippet: Seq<char>,
}

impl View for CallReference {
    type V = CallView;

    open spec fn view(&self) -> CallView {
        CallView {
            label: self.display_label@,
            name: self.simple_name@,
            line_start: self.line_start,
            line_end: self.line_end,
            snippet: self.snippet@,
        }
    }
}

impl CallReference {
    /// An exact copy.
    pub fn duplicate(&self) -> (r: CallReference)
        ensures
            r@ == self@,
    {
        CallReference {
            display_label: self.display_label.clone(),
            simple_name: self.simple_name.clone(),
            line_start: self.line_start,
            line_end: self.line_end,
            snippet: self.snippet.clone(),
        }
    }
}

/// The call that node `n` makes, if it is a call expression whose callee has an
/// identifier: shown as the callee's display name followed by `()`, named by the callee's
/// last identifier.
pub open spec fn call_reference_spec(tree: SyntaxTree, n: int) -> Option<CallView> {
    if tree.kind(n) == "call_expression"@ {
        match child_by_field_spec(tree, n, "function"@) {
            Some(f) => match terminal_identifier_spec(tree, f as int) {
                Some(name) => Some(
                    CallView {
                        label: call_display_name_spec(tree.text(f as int)) + "()"@,
                        name,
                        line_start: tree.nodes@[n].start_line,
                        line_end: tree.nodes@[n].end_line,
                        snippet: single_line_snippet_spec(tree.text(n)),
                    },
                ),
                None => None,
            },
            None => None,
        }
    } else {
        None
    }
}

/// The view of an optional call.
pub open spec fn opt_call_view(c: Option<CallReference>) -> Option<CallView> {
    match c {
        Some(c) => Some(c@),
        None => None,
    }
}

/// The call that node `n` makes (see `call_reference_spec`).
pub fn extract_call_reference(tree: &SyntaxTree, n: usize) -> (r: Option<CallReference>)
    requires
        tree.wf(),
        n < tree.nodes.len(),
    ensures
        opt_call_view(r) == call_reference_spec(*tree, n as int),
{
    if !kind_is(tree, n, "call_expression") {
        return None;
    }
    let f = match child_by_field_name(tree, n, "function") {
        Some(f) => f,
        None => {
            return None;
        },
    };
    let simple_name = match extract_terminal_identifier(tree, f) {
        Some(name) => name,
        None => {
            return None;
        },
    };
    let callee = node_text(tree, f);
    let mut display_label = normalize_call_display_name(callee.as_str());
    display_label.append("()");
    let text = node_text(tree, n);
    Some(
        CallReference {
            display_label,
            simple_name,
            line_start: tree.nodes[n].start_line,
            line_end: tree.nodes[n].end_line,
            snippet: build_single_line_snippet(text.as_str()),
        },
    )
}

/// The calls made by `nodes`, in order.
pub open spec fn calls_of(tree: SyntaxTree, nodes: Seq<usize>) -> Seq<CallView> {
    nodes.filter_map(|n: usize| call_reference_spec(tree, n as int))
}

/// Calls sorted by first line and label, one per label (the first in that order).
pub open spec fn dedup_calls_spec(calls: Seq<CallView>) -> Seq<CallView> {
    sort_dedup_spec(calls.map_values(|c: CallView| (c.line_start, c.label)), false).map_values(
        |j: int| calls[j],
    )
}

/// The views of a list of calls.
pub open spec fn calls_view(v: Seq<CallReference>) -> Seq<CallView> {
    v.map_values(|c: CallReference| c@)
}

/// Calls sorted and de-duplicated (see `dedup_calls_spec`).
pub fn dedup_call_references(calls: &Vec<CallReference>) -> (r: Vec<CallReference>)
    ensures
        calls_view(r@) == dedup_calls_spec(calls_view(calls@)),
{
    let mut lines: Vec<usize> = Vec::new();
    let mut labels: Vec<String> = Vec::new();
    let mut i: usize = 0;
    while i < calls.len()
        invariant
            i <= calls.len(),
            lines.len() == i,
            labels.len() == i,
            forall|k: int| 0 <= k < i ==> #[trigger] lines@[k] == calls@[k].line_start,
            forall|k: int| 0 <= k < i ==> #[trigger] labels@[k]@ == calls@[k].display_label@,
        decreases calls.len() - i,
    {
        lines.push(calls[i].line_start);
        labels.push(calls[i].display_label.clone());
        i = i + 1;
    }
    let ghost view = calls_view(calls@);
    assert(keys_of(lines@, labels@) =~= view.map_values(|c: CallView| (c.line_start, c.label)));
    let order = sort_dedup_indices(&lines, &labels, false);
    let mut r: Vec<CallReference> = Vec::new();
    let mut k: usize = 0;
    while k < order.len()
        invariant
            k <= order.len(),
            lines.len() == calls.len(),
            view == calls_view(calls@),
            forall|m: int| 0 <= m < order.len() ==> #[trigger] order@[m] < calls.len(),
            calls_view(r@) == order@.take(k as int).map_values(|j: usize| view[j as int]),
        decreases order.len() - k,
    {
        let ghost before = r@;
        let c = calls[order[k]].duplicate();
        r.push(c);
        proof {
            assert(calls_view(r@) =~= calls_view(before).push(c@));
            assert(c@ == view[order@[k as int] as int]);
            assert(order@.take(k + 1) =~= order@.take(k as int).push(order@[k as int]));
            assert(order@.take(k + 1).map_values(|j: usize| view[j as int]) =~= order@.take(
                k as int,
            ).map_values(|j: usize| view[j as int]).push(view[order@[k as int] as int]));
        }
        k = k + 1;
    }
    proof {
        assert(order@.take(order.len() as int) =~= order@);
        assert(calls_view(r@) =~= dedup_calls_spec(view));
    }
    r
}

/// The calls made in the subtree of `nodes`' list (see `calls_of`).
fn gather_calls(tree: &SyntaxTree, nodes: &Vec<usize>) -> (r: Vec<CallReference>)
    requires
        tree.wf(),
        forall|m: int| 0 <= m < nodes.len() ==> #[trigger] nodes@[m] < tree.nodes.len(),
    ensures
        calls_view(r@) == calls_of(*tree, nodes@),
{
    let mut r: Vec<CallReference> = Vec::new();
    let mut k: usize = 0;
    while k < nodes.len()
        invariant
            tree.wf(),
            forall|m: int| 0 <= m < nodes.len() ==> #[trigger] nodes@[m] < tree.nodes.len(),
            k <= nodes.len(),
            calls_view(r@) == calls_of(*tree, nodes@.take(k as int)),
        decreases nodes.len() - k,
    {
        proof {
            assert(nodes@.take(k + 1).drop_last() =~= nodes@.take(k as int));
            assert(nodes@.take(k + 1).last() == nodes@[k as int]);
        }
        let ghost before = r@;
        if let Some(c) = extract_call_reference(tree, nodes[k]) {
            r.push(c);
            proof {
                assert(calls_view(r@) =~= calls_view(before) + seq![r@.last()@]);
            }
        }
        k = k + 1;
    }
    assert(nodes@.take(nodes.len() as int) =~= nodes@);
    r
}

/// The calls made in a scope, not entering nested functions, sorted and de-duplicated.
pub open spec fn calls_in_scope_spec(tree: SyntaxTree, s: int, language: SupportedLanguage) -> Seq<CallView> {
    dedup_calls_spec(calls_of(tree, preorder(tree, s, s, Some(language))))
}

/// The calls made in an expression, sorted and de-duplicated.
pub open spec fn calls_in_expression_spec(tree: SyntaxTree, e: int) -> Seq<CallView> {
    dedup_calls_spec(calls_of(tree, preorder(tree, e, e, None)))
}

/// The calls made in a scope (see `calls_in_scope_spec`).
pub fn collect_call_references_in_scope(tree: &SyntaxTree, s: usize, language: SupportedLanguage) -> (r: Vec<CallReference>)
    requires
        tree.wf(),
        s < tree.nodes.len(),
    ensures
        calls_view(r@) == calls_in_scope_spec(*tree, s as int, language),
{
    let nodes = preorder_nodes(tree, s, s, Some(language));
    let calls = gather_calls(tree, &nodes);
    dedup_call_references(&calls)
}

/// The calls made in an expression (see `calls_in_expression_spec`).
pub fn collect_call_references_in_expression(tree: &SyntaxTree, e: usize) -> (r: Vec<CallReference>)
    requires
        tree.wf(),
        e < tree.nodes.len(),
    ensures
        calls_view(r@) == calls_in_expression_spec(*tree, e as int),
{
    let nodes = preorder_nodes(tree, e, e, None);
    let calls = gather_calls(tree, &nodes);
    dedup_call_references(&calls)
}

/// The dependency a call stands for: its label, lines and snippet.
pub open spec fn call_dependency_spec(c: CallView) -> ReferenceView {
    ReferenceView { label: c.label, line_start: c.line_start, line_end: c.line_end, snippet: c.snippet, detail: None }
}

/// The dependency a call stands for (see `call_dependency_spec`).
pub fn call_reference_to_dependency(c: &CallReference) -> (r: TraceReference)
    ensures
        r@ == call_dependency_spec(c@),
{
    TraceReference {
        label: c.display_label.clone(),
        line_start: c.line_start,
        line_end: c.line_end,
        snippet: c.snippet.clone(),
        detail: None,
    }
}

/// The dependencies of a list of calls, in order.
pub fn calls_to_dependencies(calls: &Vec<CallReference>) -> (r: Vec<TraceReference>)
    ensures
        references_view(r@) == calls_view(calls@).map_values(|c: CallView| call_dependency_spec(c)),
{
    let mut r: Vec<TraceReference> = Vec::new();
    let mut i: usize = 0;
    while i < calls.len()
        invariant
            i <= calls.len(),
            references_view(r@) == calls_view(calls@).take(i as int).map_values(
                |c: CallView| call_dependency_spec(c),
            ),
        decreases calls.len() - i,
    {
        let ghost before = r@;
        let d = call_reference_to_dependency(&calls[i]);
        r.push(d);
        proof {
            let cv = calls_view(calls@);
            assert(references_view(r@) =~= references_view(before).push(d@));
            assert(cv[i as int] == calls@[i as int]@);
            assert(cv.take(i + 1) =~= cv.take(i as int).push(cv[i as int]));
            assert(cv.take(i + 1).map_values(|c: CallView| call_dependency_spec(c)) =~= cv.take(
                i as int,
            ).map_values(|c: CallView| call_dependency_spec(c)).push(call_dependency_spec(cv[i as int])));
        }
        i = i + 1;
    }
    assert(calls_view(calls@).take(calls.len() as int) =~= calls_view(calls@));
    r
}

/// The names that a list of calls calls, in order.
pub fn call_simple_names(calls: &Vec<CallReference>) -> (r: Vec<String>)
    ensures
        strings_view(r@) == calls_view(calls@).map_values(|c: CallView| c.name),
{
    let mut r: Vec<String> = Vec::new();
    let mut i: usize = 0;
    while i < calls.len()
        invariant
            i <= calls.len(),
            strings_view(r@) == calls_view(calls@).take(i as int).map_values(|c: CallView| c.name),
        decreases calls.len() - i,
    {
        let ghost before = r@;
        let name = calls[i].simple_name.clone();
        r.push(name);
        proof {
            let cv = calls_view(calls@);
            assert(strings_view(r@) =~= strings_view(before).push(name@));
            assert(cv[i as int] == calls@[i as int]@);
            assert(cv.take(i + 1) =~= cv.take(i as int).push(cv[i as int]));
            assert(cv.take(i + 1).map_values(|c: CallView| c.name) =~= cv.take(i as int).map_values(
                |c: CallView| c.name,
            ).push(cv[i as int].name));
        }
        i = i + 1;
    }
    assert(calls_view(calls@).take(calls.len() as int) =~= calls_view(calls@));
    r
}

} // verus!
