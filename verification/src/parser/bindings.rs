//! Local bindings: the declarations that name a value inside a function body, and what
//! their initializers depend on.

use vstd::prelude::*;

use crate::model::{
    named_texts_view, references_view, NamedText, ReferenceView, SupportedLanguage, TraceReference,
};
use crate::parser::order::{keys_of, sort_dedup_indices, sort_dedup_spec};
use crate::parser::queries::{is_identifier_like, is_identifier_like_kind};
use crate::parser::snippets::{build_single_line_snippet, single_line_snippet_spec, text_is_empty};
use crate::parser::syntax::{
    child_by_field_name, child_by_field_spec, collect_named_children, kind_is, named_children_spec,
    node_text, preorder, preorder_nodes, str_eq, SyntaxTree,
};

verus! {

// ---------------------------------------------------------------------------
// Binding descriptors
// ---------------------------------------------------------------------------

/// A local binding: the node shown for it, its initializer if any, and the node that
/// names it.
#[derive(Clone, Copy)]
pub struct BindingDescriptor {
    pub display_node: usize,
    pub initializer_node: Option<usize>,
    pub name_node: usize,
}

/// The nodes of a descriptor lie in the tree.
pub open spec fn descriptor_valid(tree: SyntaxTree, d: BindingDescriptor) -> bool {
    &&& d.display_node < tree.nodes.len()
    &&& d.name_node < tree.nodes.len()
    &&& match d.initializer_node {
        Some(v) => v < tree.nodes.len(),
        None => true,
    }
}

/// The element at `k`, if there is one.
pub open spec fn item_at(s: Seq<usize>, k: int) -> Option<usize> {
    if 0 <= k < s.len() {
        Some(s[k])
    } else {
        None
    }
}

/// A Rust `let` binding a single identifier.
pub open spec fn rust_descriptors_spec(tree: SyntaxTree, n: int) -> Seq<BindingDescriptor> {
    if tree.kind(n) == "let_declaration"@ {
        match child_by_field_spec(tree, n, "pattern"@) {
            Some(p) => if tree.kind(p as int) == "identifier"@ && tree.text(p as int).len() > 0 {
                seq![
                    BindingDescriptor {
                        display_node: n as usize,
                        initializer_node: child_by_field_spec(tree, n, "value"@),
                        name_node: p,
                    },
                ]
            } else {
                Seq::empty()
            },
            None => Seq::empty(),
        }
    } else {
        Seq::empty()
    }
}

/// The node shown for a TypeScript declarator: the enclosing `lexical_declaration` or
/// `variable_declaration` (the outer one when both enclose it), else the declarator.
pub open spec fn typescript_display_node(tree: SyntaxTree, n: int) -> usize {
    match tree.nodes@[n].parent {
        Some(p) => if tree.kind(p as int) == "variable_declaration"@ {
            match tree.nodes@[p as int].parent {
                Some(g) => if tree.kind(g as int) == "lexical_declaration"@ {
                    g
                } else {
                    p
                },
                None => p,
            }
        } else if tree.kind(p as int) == "lexical_declaration"@ {
            p
        } else {
            n as usize
        },
        None => n as usize,
    }
}

/// A TypeScript declarator naming a single identifier.
pub open spec fn typescript_descriptors_spec(tree: SyntaxTree, n: int) -> Seq<BindingDescriptor> {
    if tree.kind(n) == "variable_declarator"@ {
        match child_by_field_spec(tree, n, "name"@) {
            Some(m) => if tree.kind(m as int) == "identifier"@ && tree.text(m as int).len() > 0 {
                seq![
                    BindingDescriptor {
                        display_node: typescript_display_node(tree, n),
                        initializer_node: child_by_field_spec(tree, n, "value"@),
                        name_node: m,
                    },
                ]
            } else {
                Seq::empty()
            },
            None => Seq::empty(),
        }
    } else {
        Seq::empty()
    }
}

/// The descriptor for the `k`-th left item of a Go short variable declaration.
pub open spec fn go_short_item(tree: SyntaxTree, n: int, left: Seq<usize>, right: Seq<usize>, k: int) -> Option<BindingDescriptor> {
    let m = left[k];
    if tree.kind(m as int) == "identifier"@ && tree.text(m as int).len() > 0 {
        Some(BindingDescriptor { display_node: n as usize, initializer_node: item_at(right, k), name_node: m })
    } else {
        None
    }
}

/// The descriptors of the first `k` left items of a Go short variable declaration.
pub open spec fn go_short_from(tree: SyntaxTree, n: int, left: Seq<usize>, right: Seq<usize>, k: int) -> Seq<BindingDescriptor>
    decreases k,
{
    if k <= 0 {
        Seq::empty()
    } else {
        let d = go_short_from(tree, n, left, right, k - 1);
        match go_short_item(tree, n, left, right, k - 1) {
            Some(b) => d.push(b),
            None => d,
        }
    }
}

/// The descriptors of the first `k` children of a Go `var_spec`: each identifier paired
/// with the value at its own position among the identifiers.
pub open spec fn go_var_from(tree: SyntaxTree, n: int, children: Seq<usize>, values: Seq<usize>, k: int) -> Seq<BindingDescriptor>
    decreases k,
{
    if k <= 0 {
        Seq::empty()
    } else {
        let d = go_var_from(tree, n, children, values, k - 1);
        let c = children[k - 1];
        if tree.kind(c as int) == "identifier"@ && tree.text(c as int).len() > 0 {
            d.push(
                BindingDescriptor {
                    display_node: n as usize,
                    initializer_node: item_at(values, d.len() as int),
                    name_node: c,
                },
            )
        } else {
            d
        }
    }
}

/// The named children of the child of `n` under `field`, or none.
pub open spec fn field_items(tree: SyntaxTree, n: int, field: Seq<char>) -> Seq<usize> {
    match child_by_field_spec(tree, n, field) {
        Some(c) => named_children_spec(tree, c as int),
        None => Seq::empty(),
    }
}

/// The bindings of a Go short variable declaration or `var_spec`.
pub open spec fn go_descriptors_spec(tree: SyntaxTree, n: int) -> Seq<BindingDescriptor> {
    if tree.kind(n) == "short_var_declaration"@ {
        if child_by_field_spec(tree, n, "left"@) is Some && child_by_field_spec(tree, n, "right"@) is Some {
            let left = field_items(tree, n, "left"@);
            let right = field_items(tree, n, "right"@);
            go_short_from(tree, n, left, right, left.len() as int)
        } else {
            Seq::empty()
        }
    } else if tree.kind(n) == "var_spec"@ {
        let children = named_children_spec(tree, n);
        go_var_from(tree, n, children, field_items(tree, n, "value"@), children.len() as int)
    } else {
        Seq::empty()
    }
}

/// The bindings that node `n` declares.
pub open spec fn descriptors_spec(tree: SyntaxTree, n: int, language: SupportedLanguage) -> Seq<BindingDescriptor> {
    match language {
        SupportedLanguage::TypeScript => typescript_descriptors_spec(tree, n),
        SupportedLanguage::Go => go_descriptors_spec(tree, n),
        SupportedLanguage::Rust => rust_descriptors_spec(tree, n),
    }
}

/// The bindings that `nodes` declare, in order.
pub open spec fn descriptors_in(tree: SyntaxTree, nodes: Seq<usize>, language: SupportedLanguage) -> Seq<BindingDescriptor>
    decreases nodes.len(),
{
    if nodes.len() == 0 {
        Seq::empty()
    } else {
        descriptors_in(tree, nodes.drop_last(), language) + descriptors_spec(
            tree,
            nodes.last() as int,
            language,
        )
    }
}

/// The bindings declared in a body, not entering nested functions, in pre-order.
pub open spec fn local_descriptors_spec(tree: SyntaxTree, body: int, language: SupportedLanguage) -> Seq<BindingDescriptor> {
    descriptors_in(tree, preorder(tree, body, body, Some(language)), language)
}

/// The named children of the child under `field`, or none (see `field_items`).
fn items_under_field(tree: &SyntaxTree, n: usize, field: &str) -> (r: Vec<usize>)
    requires
        tree.wf(),
        n < tree.nodes.len(),
    ensures
        r@ == field_items(*tree, n as int, field@),
        forall|k: int| 0 <= k < r.len() ==> #[trigger] r@[k] < tree.nodes.len(),
{
    match child_by_field_name(tree, n, field) {
        Some(c) => collect_named_children(tree, c),
        None => Vec::new(),
    }
}

/// The bindings of a Rust `let` (see `rust_descriptors_spec`).
pub fn extract_rust_binding_descriptors(tree: &SyntaxTree, n: usize) -> (r: Vec<BindingDescriptor>)
    requires
        tree.wf(),
        n < tree.nodes.len(),
    ensures
        r@ == rust_descriptors_spec(*tree, n as int),
        forall|k: int| 0 <= k < r.len() ==> descriptor_valid(*tree, #[trigger] r@[k]),
{
    let mut r: Vec<BindingDescriptor> = Vec::new();
    if !kind_is(tree, n, "let_declaration") {
        return r;
    }
    let p = match child_by_field_name(tree, n, "pattern") {
        Some(p) => p,
        None => {
            return r;
        },
    };
    if !kind_is(tree, p, "identifier") {
        return r;
    }
    let t = node_text(tree, p);
    if text_is_empty(t.as_str()) {
        return r;
    }
    let value = child_by_field_name(tree, n, "value");
    r.push(BindingDescriptor { display_node: n, initializer_node: value, name_node: p });
    assert(r@ =~= rust_descriptors_spec(*tree, n as int));
    r
}

/// The bindings of a TypeScript declarator (see `typescript_descriptors_spec`).
pub fn extract_typescript_binding_descriptors(tree: &SyntaxTree, n: usize) -> (r: Vec<BindingDescriptor>)
    requires
        tree.wf(),
        n < tree.nodes.len(),
    ensures
        r@ == typescript_descriptors_spec(*tree, n as int),
        forall|k: int| 0 <= k < r.len() ==> descriptor_valid(*tree, #[trigger] r@[k]),
{
    let mut r: Vec<BindingDescriptor> = Vec::new();
    if !kind_is(tree, n, "variable_declarator") {
        return r;
    }
    let m = match child_by_field_name(tree, n, "name") {
        Some(m) => m,
        None => {
            return r;
        },
    };
    if !kind_is(tree, m, "identifier") {
        return r;
    }
    let mut display = n;
    if let Some(p) = tree.nodes[n].parent {
        if kind_is(tree, p, "variable_declaration") {
            display = p;
            if let Some(g) = tree.nodes[p].parent {
                if kind_is(tree, g, "lexical_declaration") {
                    display = g;
                }
            }
        } else if kind_is(tree, p, "lexical_declaration") {
            display = p;
        }
    }
    let t = node_text(tree, m);
    if text_is_empty(t.as_str()) {
        return r;
    }
    let value = child_by_field_name(tree, n, "value");
    r.push(BindingDescriptor { display_node: display, initializer_node: value, name_node: m });
    assert(r@ =~= typescript_descriptors_spec(*tree, n as int));
    r
}

/// The bindings of a Go declaration (see `go_descriptors_spec`).
pub fn extract_go_binding_descriptors(tree: &SyntaxTree, n: usize) -> (r: Vec<BindingDescriptor>)
    requires
        tree.wf(),
        n < tree.nodes.len(),
    ensures
        r@ == go_descriptors_spec(*tree, n as int),
        forall|k: int| 0 <= k < r.len() ==> descriptor_valid(*tree, #[trigger] r@[k]),
{
    let mut r: Vec<BindingDescriptor> = Vec::new();
    if kind_is(tree, n, "short_var_declaration") {
        if child_by_field_name(tree, n, "left").is_none() || child_by_field_name(tree, n, "right").is_none() {
            return r;
        }
        let left = items_under_field(tree, n, "left");
        let right = items_under_field(tree, n, "right");
        let mut k: usize = 0;
        while k < left.len()
            invariant
                tree.wf(),
                n < tree.nodes.len(),
                left@ == field_items(*tree, n as int, "left"@),
                right@ == field_items(*tree, n as int, "right"@),
                forall|m: int| 0 <= m < left.len() ==> #[trigger] left@[m] < tree.nodes.len(),
                forall|m: int| 0 <= m < right.len() ==> #[trigger] right@[m] < tree.nodes.len(),
                k <= left.len(),
                r@ == go_short_from(*tree, n as int, left@, right@, k as int),
                forall|m: int| 0 <= m < r.len() ==> descriptor_valid(*tree, #[trigger] r@[m]),
            decreases left.len() - k,
        {
            let m = left[k];
            if kind_is(tree, m, "identifier") {
                let t = node_text(tree, m);
                if !text_is_empty(t.as_str()) {
                    let init = if k < right.len() {
                        Some(right[k])
                    } else {
                        None
                    };
                    r.push(BindingDescriptor { display_node: n, initializer_node: init, name_node: m });
                }
            }
            k = k + 1;
        }
        r
    } else if kind_is(tree, n, "var_spec") {
        let values = items_under_field(tree, n, "value");
        let children = collect_named_children(tree, n);
        let mut k: usize = 0;
        while k < children.len()
            invariant
                tree.wf(),
                n < tree.nodes.len(),
                values@ == field_items(*tree, n as int, "value"@),
                children@ == named_children_spec(*tree, n as int),
                forall|m: int| 0 <= m < values.len() ==> #[trigger] values@[m] < tree.nodes.len(),
                forall|m: int| 0 <= m < children.len() ==> #[trigger] children@[m] < tree.nodes.len(),
                k <= children.len(),
                r@ == go_var_from(*tree, n as int, children@, values@, k as int),
                forall|m: int| 0 <= m < r.len() ==> descriptor_valid(*tree, #[trigger] r@[m]),
            decreases children.len() - k,
        {
            let c = children[k];
            if kind_is(tree, c, "identifier") {
                let t = node_text(tree, c);
                if !text_is_empty(t.as_str()) {
                    let index = r.len();
                    let init = if index < values.len() {
                        Some(values[index])
                    } else {
                        None
                    };
                    r.push(BindingDescriptor { display_node: n, initializer_node: init, name_node: c });
                }
            }
            k = k + 1;
        }
        r
    } else {
        r
    }
}

/// The bindings that node `n` declares (see `descriptors_spec`).
pub fn extract_binding_descriptors(tree: &SyntaxTree, n: usize, language: SupportedLanguage) -> (r: Vec<BindingDescriptor>)
    requires
        tree.wf(),
        n < tree.nodes.len(),
    ensures
        r@ == descriptors_spec(*tree, n as int, language),
        forall|k: int| 0 <= k < r.len() ==> descriptor_valid(*tree, #[trigger] r@[k]),
{
    match language {
        SupportedLanguage::TypeScript => extract_typescript_binding_descriptors(tree, n),
        SupportedLanguage::Go => extract_go_binding_descriptors(tree, n),
        SupportedLanguage::Rust => extract_rust_binding_descriptors(tree, n),
    }
}

/// The bindings declared in a body (see `local_descriptors_spec`).
pub fn collect_local_binding_descriptors(tree: &SyntaxTree, body: usize, language: SupportedLanguage) -> (r: Vec<BindingDescriptor>)
    requires
        tree.wf(),
        body < tree.nodes.len(),
    ensures
        r@ == local_descriptors_spec(*tree, body as int, language),
        forall|k: int| 0 <= k < r.len() ==> descriptor_valid(*tree, #[trigger] r@[k]),
{
    let nodes = preorder_nodes(tree, body, body, Some(language));
    let mut r: Vec<BindingDescriptor> = Vec::new();
    let mut k: usize = 0;
    assert(nodes@.take(0) =~= Seq::<usize>::empty());
    while k < nodes.len()
        invariant
            tree.wf(),
            nodes@ == preorder(*tree, body as int, body as int, Some(language)),
            forall|m: int| 0 <= m < nodes.len() ==> #[trigger] nodes@[m] < tree.nodes.len(),
            k <= nodes.len(),
            r@ == descriptors_in(*tree, nodes@.take(k as int), language),
            forall|m: int| 0 <= m < r.len() ==> descriptor_valid(*tree, #[trigger] r@[m]),
        decreases nodes.len() - k,
    {
        proof {
            assert(nodes@.take(k + 1).drop_last() =~= nodes@.take(k as int));
            assert(nodes@.take(k + 1).last() == nodes@[k as int]);
        }
        let found = extract_binding_descriptors(tree, nodes[k], language);
        let ghost before = r@;
        let mut j: usize = 0;
        while j < found.len()
            invariant
                j <= found.len(),
                r@ == before + found@.take(j as int),
                forall|m: int| 0 <= m < found.len() ==> descriptor_valid(*tree, #[trigger] found@[m]),
                forall|m: int| 0 <= m < before.len() ==> descriptor_valid(*tree, #[trigger] before[m]),
            decreases found.len() - j,
        {
            r.push(found[j]);
            j = j + 1;
            assert(r@ =~= before + found@.take(j as int));
        }
        assert(found@.take(found.len() as int) =~= found@);
        k = k + 1;
    }
    assert(nodes@.take(nodes.len() as int) =~= nodes@);
    r
}

// ---------------------------------------------------------------------------
// What an initializer depends on
// ---------------------------------------------------------------------------

/// The grammar types of member accesses.
pub open spec fn is_member_kind(k: Seq<char>) -> bool {
    k == "member_expression"@ || k == "field_expression"@ || k == "selector_expression"@
}

/// The field that holds the object of a member access in each language.
pub open spec fn member_field(language: SupportedLanguage) -> Seq<char> {
    match language {
        SupportedLanguage::TypeScript => "object"@,
        SupportedLanguage::Go => "operand"@,
        SupportedLanguage::Rust => "value"@,
    }
}

/// The object of a member access: the child under the language's object field, else the
/// first child.
pub open spec fn member_base_spec(tree: SyntaxTree, n: int, language: SupportedLanguage) -> Option<usize> {
    match child_by_field_spec(tree, n, member_field(language)) {
        Some(c) => Some(c),
        None => if tree.nodes@[n].children.len() > 0 {
            Some(tree.nodes@[n].children@[0])
        } else {
            None
        },
    }
}

/// The object of a member access (see `member_base_spec`).
pub fn member_base_node(tree: &SyntaxTree, n: usize, language: SupportedLanguage) -> (r: Option<usize>)
    requires
        tree.wf(),
        n < tree.nodes.len(),
    ensures
        r == member_base_spec(*tree, n as int, language),
        match r {
            Some(c) => n < c < tree.nodes.len(),
            None => true,
        },
{
    let field = match language {
        SupportedLanguage::TypeScript => "object",
        SupportedLanguage::Go => "operand",
        SupportedLanguage::Rust => "value",
    };
    match child_by_field_name(tree, n, field) {
        Some(c) => Some(c),
        None => {
            if tree.nodes[n].children.len() > 0 {
                Some(tree.nodes[n].children[0])
            } else {
                None
            }
        },
    }
}

/// The description of the parameter named `name`, the first one if several are.
pub open spec fn lookup_parameter(params: Seq<(Seq<char>, Seq<char>)>, name: Seq<char>) -> Option<Seq<char>>
    decreases params.len(),
{
    if params.len() == 0 {
        None
    } else if params[0].0 == name {
        Some(params[0].1)
    } else {
        lookup_parameter(params.drop_first(), name)
    }
}

/// The description of the parameter named `name` (see `lookup_parameter`).
fn find_parameter(params: &Vec<NamedText>, name: &str) -> (r: Option<String>)
    ensures
        opt_text(r) == lookup_parameter(named_texts_view(params@), name@),
{
    let ghost view = named_texts_view(params@);
    let mut i: usize = 0;
    assert(view.skip(0) =~= view);
    while i < params.len()
        invariant
            i <= params.len(),
            view == named_texts_view(params@),
            lookup_parameter(view, name@) == lookup_parameter(view.skip(i as int), name@),
        decreases params.len() - i,
    {
        assert(view.skip(i as int)[0] == params@[i as int]@);
        assert(view.skip(i as int).drop_first() =~= view.skip(i + 1));
        if str_eq(params[i].name.as_str(), name) {
            return Some(params[i].text.clone());
        }
        i = i + 1;
    }
    None
}

/// The characters of an optional string.
pub open spec fn opt_text(o: Option<String>) -> Option<Seq<char>> {
    match o {
        Some(s) => Some(s@),
        None => None,
    }
}

/// The dependency an identifier stands for: labelled by the description of the parameter
/// of that name if there is one, else by the identifier.
pub open spec fn identifier_dependency(tree: SyntaxTree, n: int, t: Seq<char>, params: Seq<(Seq<char>, Seq<char>)>) -> ReferenceView {
    ReferenceView {
        label: single_line_snippet_spec(
            match lookup_parameter(params, t) {
                Some(d) => d,
                None => t,
            },
        ),
        line_start: tree.nodes@[n].start_line,
        line_end: tree.nodes@[n].end_line,
        snippet: single_line_snippet_spec(t),
        detail: None,
    }
}

/// The identifiers an expression reads, as dependencies, in order: a call contributes
/// its arguments only, a member access its object only; the binding itself, `this` and
/// `self` are left out.
pub open spec fn incoming_in(
    tree: SyntaxTree,
    n: int,
    binding: Seq<char>,
    params: Seq<(Seq<char>, Seq<char>)>,
    language: SupportedLanguage,
) -> Seq<ReferenceView>
    decreases tree.nodes.len() - n, tree.nodes@[n].children.len() + 1,
{
    if !(0 <= n < tree.nodes.len()) {
        Seq::empty()
    } else if tree.kind(n) == "call_expression"@ {
        match child_by_field_spec(tree, n, "arguments"@) {
            Some(a) => if n < a < tree.nodes.len() {
                incoming_in(tree, a as int, binding, params, language)
            } else {
                Seq::empty()
            },
            None => Seq::empty(),
        }
    } else if is_member_kind(tree.kind(n)) {
        match member_base_spec(tree, n, language) {
            Some(b) => if n < b < tree.nodes.len() {
                incoming_in(tree, b as int, binding, params, language)
            } else {
                Seq::empty()
            },
            None => Seq::empty(),
        }
    } else if is_identifier_like_kind(tree.kind(n)) {
        let t = tree.text(n);
        if t.len() == 0 || t == binding || t == "this"@ || t == "self"@ {
            Seq::empty()
        } else {
            seq![identifier_dependency(tree, n, t, params)]
        }
    } else {
        incoming_children(tree, n, binding, params, language, 0)
    }
}

/// The dependencies read by the named children of `n` from position `k` on.
pub open spec fn incoming_children(
    tree: SyntaxTree,
    n: int,
    binding: Seq<char>,
    params: Seq<(Seq<char>, Seq<char>)>,
    language: SupportedLanguage,
    k: int,
) -> Seq<ReferenceView>
    decreases tree.nodes.len() - n, tree.nodes@[n].children.len() - k,
{
    if !(0 <= n < tree.nodes.len()) || k < 0 || k >= tree.nodes@[n].children.len() {
        Seq::empty()
    } else {
        let c = tree.nodes@[n].children@[k] as int;
        (if n < c < tree.nodes.len() && tree.nodes@[c].is_named {
            incoming_in(tree, c, binding, params, language)
        } else {
            Seq::empty()
        }) + incoming_children(tree, n, binding, params, language, k + 1)
    }
}

/// Appends the dependencies read by node `n` (see `incoming_in`).
fn append_incoming(
    tree: &SyntaxTree,
    n: usize,
    binding: &str,
    params: &Vec<NamedText>,
    language: SupportedLanguage,
    out: &mut Vec<TraceReference>,
)
    requires
        tree.wf(),
        n < tree.nodes.len(),
    ensures
        references_view(final(out)@) == references_view(old(out)@) + incoming_in(
            *tree,
            n as int,
            binding@,
            named_texts_view(params@),
            language,
        ),
    decreases tree.nodes.len() - n, tree.nodes@[n as int].children.len() + 1,
{
    let ghost pv = named_texts_view(params@);
    if kind_is(tree, n, "call_expression") {
        if let Some(a) = child_by_field_name(tree, n, "arguments") {
            append_incoming(tree, a, binding, params, language, out);
        } else {
            assert(references_view(out@) =~= references_view(old(out)@) + Seq::<ReferenceView>::empty());
        }
        return;
    }
    if kind_is(tree, n, "member_expression") || kind_is(tree, n, "field_expression") || kind_is(
        tree,
        n,
        "selector_expression",
    ) {
        if let Some(b) = member_base_node(tree, n, language) {
            append_incoming(tree, b, binding, params, language, out);
        } else {
            assert(references_view(out@) =~= references_view(old(out)@) + Seq::<ReferenceView>::empty());
        }
        return;
    }
    if is_identifier_like(tree, n) {
        let t = node_text(tree, n);
        if text_is_empty(t.as_str()) || str_eq(t.as_str(), binding) || str_eq(t.as_str(), "this")
            || str_eq(t.as_str(), "self") {
            assert(references_view(out@) =~= references_view(old(out)@) + Seq::<ReferenceView>::empty());
            return;
        }
        let label = match find_parameter(params, t.as_str()) {
            Some(d) => build_single_line_snippet(d.as_str()),
            None => build_single_line_snippet(t.as_str()),
        };
        let dependency = TraceReference {
            label,
            line_start: tree.nodes[n].start_line,
            line_end: tree.nodes[n].end_line,
            snippet: build_single_line_snippet(t.as_str()),
            detail: None,
        };
        let ghost before = out@;
        out.push(dependency);
        proof {
            assert(dependency@ == identifier_dependency(*tree, n as int, t@, pv));
            assert(references_view(out@) =~= references_view(before) + seq![dependency@]);
        }
        return;
    }
    let count = tree.nodes[n].children.len();
    let mut k: usize = 0;
    assert(references_view(out@) =~= references_view(old(out)@));
    while k < count
        invariant
            tree.wf(),
            n < tree.nodes.len(),
            count == tree.nodes@[n as int].children.len(),
            k <= count,
            pv == named_texts_view(params@),
            !(tree.kind(n as int) == "call_expression"@),
            !is_member_kind(tree.kind(n as int)),
            !is_identifier_like_kind(tree.kind(n as int)),
            references_view(old(out)@) + incoming_in(*tree, n as int, binding@, pv, language)
                == references_view(out@) + incoming_children(*tree, n as int, binding@, pv, language, k as int),
        decreases count - k,
    {
        let c = tree.nodes[n].children[k];
        assert(n < c < tree.nodes.len());
        let ghost before = references_view(out@);
        if tree.nodes[c].is_named {
            append_incoming(tree, c, binding, params, language, out);
        }
        assert(before + incoming_children(*tree, n as int, binding@, pv, language, k as int) =~= references_view(
            out@,
        ) + incoming_children(*tree, n as int, binding@, pv, language, k + 1));
        k = k + 1;
    }
    assert(references_view(out@) + incoming_children(*tree, n as int, binding@, pv, language, count as int)
        =~= references_view(out@));
}

/// References sorted by first line and label, one per label (the first in that order).
pub open spec fn dedup_references_spec(refs: Seq<ReferenceView>) -> Seq<ReferenceView> {
    sort_dedup_spec(refs.map_values(|r: ReferenceView| (r.line_start, r.label)), false).map_values(
        |j: int| refs[j],
    )
}

/// References sorted and de-duplicated by label (see `dedup_references_spec`).
pub fn dedup_trace_references(refs: &Vec<TraceReference>) -> (r: Vec<TraceReference>)
    ensures
        references_view(r@) == dedup_references_spec(references_view(refs@)),
{
    let mut lines: Vec<usize> = Vec::new();
    let mut labels: Vec<String> = Vec::new();
    let mut i: usize = 0;
    while i < refs.len()
        invariant
            i <= refs.len(),
            lines.len() == i,
            labels.len() == i,
            forall|k: int| 0 <= k < i ==> #[trigger] lines@[k] == refs@[k].line_start,
            forall|k: int| 0 <= k < i ==> #[trigger] labels@[k]@ == refs@[k].label@,
        decreases refs.len() - i,
    {
        lines.push(refs[i].line_start);
        labels.push(refs[i].label.clone());
        i = i + 1;
    }
    let ghost view = references_view(refs@);
    assert(keys_of(lines@, labels@) =~= view.map_values(|c: ReferenceView| (c.line_start, c.label)));
    let order = sort_dedup_indices(&lines, &labels, false);
    let mut r: Vec<TraceReference> = Vec::new();
    let mut k: usize = 0;
    while k < order.len()
        invariant
            k <= order.len(),
            lines.len() == refs.len(),
            view == references_view(refs@),
            forall|m: int| 0 <= m < order.len() ==> #[trigger] order@[m] < refs.len(),
            references_view(r@) == order@.take(k as int).map_values(|j: usize| view[j as int]),
        decreases order.len() - k,
    {
        let ghost before = r@;
        let c = refs[order[k]].duplicate();
        r.push(c);
        proof {
            assert(references_view(r@) =~= references_view(before).push(c@));
            assert(c@ == view[order@[k as int] as int]);
            assert(order@.take(k + 1) =~= order@.take(k as int).push(order@[k as int]));
            assert(order@.take(k + 1).map_values(|j: usize| view[j as int]) =~= order@.take(
                k as int,
            ).map_values(|j: usize| view[j as int]).push(view[order@[k as int] as int]));
        }
        k = k + 1;
    }
    proof {
        assert(order@.take(order.len() as int) =~= order@);
        assert(references_view(r@) =~= dedup_references_spec(view));
    }
    r
}

/// What an initializer depends on (see `incoming_in`), sorted and de-duplicated.
pub open spec fn incoming_dependencies_spec(
    tree: SyntaxTree,
    e: int,
    binding: Seq<char>,
    params: Seq<(Seq<char>, Seq<char>)>,
    language: SupportedLanguage,
) -> Seq<ReferenceView> {
    dedup_references_spec(incoming_in(tree, e, binding, params, language))
}

/// What an initializer depends on (see `incoming_dependencies_spec`).
pub fn collect_incoming_dependencies(
    tree: &SyntaxTree,
    e: usize,
    binding: &str,
    params: &Vec<NamedText>,
    language: SupportedLanguage,
) -> (r: Vec<TraceReference>)
    requires
        tree.wf(),
        e < tree.nodes.len(),
    ensures
        references_view(r@) == incoming_dependencies_spec(
            *tree,
            e as int,
            binding@,
            named_texts_view(params@),
            language,
        ),
{
    let mut raw: Vec<TraceReference> = Vec::new();
    append_incoming(tree, e, binding, params, language, &mut raw);
    assert(references_view(raw@) =~= incoming_in(*tree, e as int, binding@, named_texts_view(params@), language));
    dedup_trace_references(&raw)
}

} // verus!
