//! Search target extraction from source files.

pub mod bindings;
pub mod flow;
pub mod laws;
pub mod order;
pub mod queries;
pub mod snippets;
pub mod syntax;
pub mod targets;

use vstd::prelude::*;

use crate::model::{
    build_target_id, is_callable_kind, named_texts_view, references_view, steps_view, target_id_spec,
    targets_view, ReferenceView, SearchTarget, SearchTargetKind, StepView, SupportedLanguage, TargetView,
};
use crate::parser::queries::{classify_primary_target_kind, extract_symbol_name, primary_kind_spec, symbol_name_spec};
use crate::parser::snippets::{
    build_search_text, build_single_line_snippet, lines_spec, search_text_spec, single_line_snippet_spec,
    split_lines,
};
use crate::parser::syntax::{
    child_by_field_name, child_by_field_spec, collect_named_children, kind_is, named_children_spec,
    node_text, parse_syntax_tree, preorder, preorder_nodes, SyntaxTree, grammar_accepted, parsed_has_error,
    utf8_length, copies_parse,
};
use crate::parser::targets::{
    build_primary_target, local_targets_spec, primary_target_spec, push_local_binding_targets,
};
use crate::model::language_of_extension;
use crate::paths::{file_name, file_name_spec, make_relative_path, path_extension_spec, relative_path_spec};
use crate::text::{normalize_query, normalize_query_spec, strings_view, truncate_spec, truncate_text};

verus! {

/// The targets extracted from one file, and how many problems the extraction met.
pub struct FileAnalysis {
    pub targets: Vec<SearchTarget>,
    pub warning_count: usize,
}

// ---------------------------------------------------------------------------
// Collecting targets
// ---------------------------------------------------------------------------

/// The targets that node `n` declares: its own, then those of its local bindings when it
/// is callable.
pub open spec fn targets_at(
    tree: SyntaxTree,
    n: int,
    path: Seq<char>,
    lines: Seq<Seq<char>>,
    language: SupportedLanguage,
) -> Seq<TargetView> {
    match primary_kind_spec(tree, n, language) {
        Some(kind) => match primary_target_spec(tree, n, kind, path, lines, language) {
            Some(t) => seq![t] + if is_callable_kind(kind) {
                local_targets_spec(tree, n, t.symbol_name, path, language)
            } else {
                Seq::empty()
            },
            None => Seq::empty(),
        },
        None => Seq::empty(),
    }
}

/// The targets that `nodes` declare, in order.
pub open spec fn targets_in(
    tree: SyntaxTree,
    nodes: Seq<usize>,
    path: Seq<char>,
    lines: Seq<Seq<char>>,
    language: SupportedLanguage,
) -> Seq<TargetView>
    decreases nodes.len(),
{
    if nodes.len() == 0 {
        Seq::empty()
    } else {
        targets_in(tree, nodes.drop_last(), path, lines, language) + targets_at(
            tree,
            nodes.last() as int,
            path,
            lines,
            language,
        )
    }
}

/// The targets of a whole tree, in pre-order of their declarations.
pub open spec fn tree_targets_spec(
    tree: SyntaxTree,
    path: Seq<char>,
    lines: Seq<Seq<char>>,
    language: SupportedLanguage,
) -> Seq<TargetView> {
    targets_in(tree, preorder(tree, 0, 0, None), path, lines, language)
}

/// The targets of a whole tree (see `tree_targets_spec`).
pub fn collect_targets(
    tree: &SyntaxTree,
    path: &str,
    lines: &Vec<String>,
    language: SupportedLanguage,
) -> (r: Vec<SearchTarget>)
    requires
        tree.wf(),
    ensures
        targets_view(r@) == tree_targets_spec(*tree, path@, strings_view(lines@), language),
{
    let nodes = preorder_nodes(tree, 0, 0, None);
    let ghost lv = strings_view(lines@);
    let mut r: Vec<SearchTarget> = Vec::new();
    let mut k: usize = 0;
    assert(nodes@.take(0) =~= Seq::<usize>::empty());
    assert(targets_view(r@) =~= Seq::<TargetView>::empty());
    while k < nodes.len()
        invariant
            tree.wf(),
            lv == strings_view(lines@),
            nodes@ == preorder(*tree, 0, 0, None),
            forall|m: int| 0 <= m < nodes.len() ==> #[trigger] nodes@[m] < tree.nodes.len(),
            k <= nodes.len(),
            targets_view(r@) == targets_in(*tree, nodes@.take(k as int), path@, lv, language),
        decreases nodes.len() - k,
    {
        let n = nodes[k];
        proof {
            assert(nodes@.take(k + 1).drop_last() =~= nodes@.take(k as int));
            assert(nodes@.take(k + 1).last() == n);
        }
        let ghost before = targets_view(r@);
        match classify_primary_target_kind(tree, n, language) {
            Some(kind) => match build_primary_target(tree, n, kind, path, lines, language) {
                Some(primary) => {
                    let callable = primary.symbol_name.clone();
                    let ghost pv = primary@;
                    r.push(primary);
                    assert(targets_view(r@) =~= before + seq![pv]);
                    if kind.is_callable() {
                        push_local_binding_targets(tree, n, &callable, path, language, &mut r);
                    } else {
                        assert(targets_view(r@) =~= before + seq![pv] + Seq::<TargetView>::empty());
                    }
                },
                None => {
                    assert(targets_view(r@) =~= before + Seq::<TargetView>::empty());
                },
            },
            None => {
                assert(targets_view(r@) =~= before + Seq::<TargetView>::empty());
            },
        }
        k = k + 1;
    }
    assert(nodes@.take(nodes.len() as int) =~= nodes@);
    r
}

// ---------------------------------------------------------------------------
// The file target
// ---------------------------------------------------------------------------

/// The name a file target takes: the path's file name, else `file`.
pub open spec fn fallback_name(path: Seq<char>) -> Seq<char> {
    match file_name_spec(path) {
        Some(n) => n,
        None => "file"@,
    }
}

/// The target that stands for a whole file: named by its file name, spanning all its
/// lines (at least one), searchable by its tokens.
pub open spec fn fallback_target_spec(source: Seq<char>, path: Seq<char>, language: SupportedLanguage) -> TargetView {
    let line_end: usize = if lines_spec(source).len() > 1 {
        lines_spec(source).len() as usize
    } else {
        1
    };
    let name = fallback_name(path);
    TargetView {
        target_id: target_id_spec(path, 1, line_end as nat, SearchTargetKind::File, name),
        file_path: path,
        language,
        target_kind: SearchTargetKind::File,
        symbol_name: name,
        parent_symbol_name: None,
        parent_symbol_name_search_text: None,
        line_start: 1,
        line_end,
        symbol_name_search_text: search_text_spec(seq![name]),
        signature_search_text: Seq::empty(),
        context_search_text: normalize_query_spec(source),
        declaration_snippet: truncate_spec(single_line_snippet_spec(source), 200),
        signature_text: None,
        return_type_hint: None,
        parameter_descriptions: Seq::empty(),
        incoming_dependencies: Seq::empty(),
        outgoing_dependencies: Seq::empty(),
        flow_steps: Seq::empty(),
        call_names: Seq::empty(),
        doc_comment: None,
        semantic_role: None,
        sibling_symbol_names: Seq::empty(),
        container_name: None,
        import_hint: None,
    }
}

/// The target that stands for a whole file (see `fallback_target_spec`).
pub fn build_fallback_target(source: &str, path: &str, language: SupportedLanguage) -> (t: SearchTarget)
    ensures
        t@ == fallback_target_spec(source@, path@, language),
{
    let lines = split_lines(source);
    let line_end: usize = if lines.len() > 1 {
        lines.len()
    } else {
        1
    };
    let name = match file_name(path) {
        Some(n) => n,
        None => String::from_str("file"),
    };
    let mut name_parts: Vec<String> = Vec::new();
    name_parts.push(name.clone());
    assert(strings_view(name_parts@) =~= seq![name@]);
    let symbol_name_search_text = build_search_text(&name_parts);
    let target_id = build_target_id(path, 1, line_end, SearchTargetKind::File, name.as_str());
    let snippet = build_single_line_snippet(source);
    let t = SearchTarget {
        target_id,
        file_path: String::from_str(path),
        language,
        target_kind: SearchTargetKind::File,
        symbol_name: name,
        parent_symbol_name: None,
        parent_symbol_name_search_text: None,
        line_start: 1,
        line_end,
        symbol_name_search_text,
        signature_search_text: String::new(),
        context_search_text: normalize_query(source),
        declaration_snippet: truncate_text(snippet.as_str(), 200),
        signature_text: None,
        return_type_hint: None,
        parameter_descriptions: Vec::new(),
        incoming_dependencies: Vec::new(),
        outgoing_dependencies: Vec::new(),
        flow_steps: Vec::new(),
        call_names: Vec::new(),
        doc_comment: None,
        semantic_role: None,
        sibling_symbol_names: Vec::new(),
        container_name: None,
        import_hint: None,
    };
    proof {
        assert(named_texts_view(t.parameter_descriptions@) =~= Seq::<(Seq<char>, Seq<char>)>::empty());
        assert(references_view(t.incoming_dependencies@) =~= Seq::<ReferenceView>::empty());
        assert(references_view(t.outgoing_dependencies@) =~= Seq::<ReferenceView>::empty());
        assert(steps_view(t.flow_steps@) =~= Seq::<StepView>::empty());
        assert(strings_view(t.call_names@) =~= Seq::<Seq<char>>::empty());
        assert(strings_view(t.sibling_symbol_names@) =~= Seq::<Seq<char>>::empty());
        assert(t.signature_search_text@ =~= Seq::<char>::empty());
        assert(strings_view(lines@).len() == lines.len());
        assert(t@ == fallback_target_spec(source@, path@, language));
    }
    t
}


// ---------------------------------------------------------------------------
// Containers and siblings
// ---------------------------------------------------------------------------

/// A block that groups members: a Rust `impl` or a TypeScript class.
pub struct ContainerBlock {
    pub line_start: usize,
    pub line_end: usize,
    pub container_name: String,
    pub member_names: Vec<String>,
}

/// The content of a `ContainerBlock`.
pub struct BlockView {
    pub line_start: usize,
    pub line_end: usize,
    pub name: Seq<char>,
    pub members: Seq<Seq<char>>,
}

impl View for ContainerBlock {
    type V = BlockView;

    open spec fn view(&self) -> BlockView {
        BlockView {
            line_start: self.line_start,
            line_end: self.line_end,
            name: self.container_name@,
            members: strings_view(self.member_names@),
        }
    }
}

/// The contents of a list of blocks.
pub open spec fn blocks_view(v: Seq<ContainerBlock>) -> Seq<BlockView> {
    v.map_values(|b: ContainerBlock| b@)
}

/// The names of the declarations of kind `kind` among `cs`, in order.
pub open spec fn member_names_in(tree: SyntaxTree, cs: Seq<usize>, kind: Seq<char>) -> Seq<Seq<char>> {
    cs.filter_map(
        |c: usize|
            if tree.kind(c as int) == kind {
                symbol_name_spec(tree, c as int)
            } else {
                None
            },
    )
}

/// `acc` followed by those of `names` that it does not hold yet.
pub open spec fn add_missing(acc: Seq<Seq<char>>, names: Seq<Seq<char>>) -> Seq<Seq<char>>
    decreases names.len(),
{
    if names.len() == 0 {
        acc
    } else {
        let d = add_missing(acc, names.drop_last());
        if d.contains(names.last()) {
            d
        } else {
            d.push(names.last())
        }
    }
}

/// The block that node `n` opens, if any: a Rust `impl` named by its type, with the
/// functions it holds directly and in its body; a TypeScript class named by its name,
/// with the methods of its body.
pub open spec fn container_block_spec(tree: SyntaxTree, n: int, language: SupportedLanguage) -> Option<BlockView> {
    match language {
        SupportedLanguage::Rust => if tree.kind(n) == "impl_item"@ {
            match child_by_field_spec(tree, n, "type"@) {
                Some(t) => if tree.text(t as int).len() > 0 {
                    let direct = member_names_in(tree, named_children_spec(tree, n), "function_item"@);
                    let members = match child_by_field_spec(tree, n, "body"@) {
                        Some(b) => add_missing(
                            direct,
                            member_names_in(tree, named_children_spec(tree, b as int), "function_item"@),
                        ),
                        None => direct,
                    };
                    Some(
                        BlockView {
                            line_start: tree.nodes@[n].start_line,
                            line_end: tree.nodes@[n].end_line,
                            name: tree.text(t as int),
                            members,
                        },
                    )
                } else {
                    None
                },
                None => None,
            }
        } else {
            None
        },
        SupportedLanguage::TypeScript => if tree.kind(n) == "class_declaration"@ {
            match child_by_field_spec(tree, n, "name"@) {
                Some(m) => if tree.text(m as int).len() > 0 {
                    let members = match child_by_field_spec(tree, n, "body"@) {
                        Some(b) => member_names_in(
                            tree,
                            named_children_spec(tree, b as int),
                            "method_definition"@,
                        ),
                        None => Seq::empty(),
                    };
                    Some(
                        BlockView {
                            line_start: tree.nodes@[n].start_line,
                            line_end: tree.nodes@[n].end_line,
                            name: tree.text(m as int),
                            members,
                        },
                    )
                } else {
                    None
                },
                None => None,
            }
        } else {
            None
        },
        SupportedLanguage::Go => None,
    }
}

/// The blocks of a tree, in pre-order.
pub open spec fn blocks_spec(tree: SyntaxTree, language: SupportedLanguage) -> Seq<BlockView> {
    preorder(tree, 0, 0, None).filter_map(|n: usize| container_block_spec(tree, n as int, language))
}

/// The names of the declarations of kind `kind` among the named children of `p`,
/// appended to `acc` when `only_new` is false, or only those `acc` lacks otherwise.
fn push_member_names(tree: &SyntaxTree, p: usize, kind: &str, acc: &mut Vec<String>, only_new: bool)
    requires
        tree.wf(),
        p < tree.nodes.len(),
    ensures
        only_new ==> strings_view(final(acc)@) == add_missing(
            strings_view(old(acc)@),
            member_names_in(*tree, named_children_spec(*tree, p as int), kind@),
        ),
        !only_new ==> strings_view(final(acc)@) == strings_view(old(acc)@) + member_names_in(
            *tree,
            named_children_spec(*tree, p as int),
            kind@,
        ),
{
    let cs = collect_named_children(tree, p);
    let ghost start = strings_view(acc@);
    let ghost f = |c: usize|
        if tree.kind(c as int) == kind@ {
            symbol_name_spec(*tree, c as int)
        } else {
            None
        };
    let mut k: usize = 0;
    assert(cs@.take(0) =~= Seq::<usize>::empty());
    assert(start + Seq::<Seq<char>>::empty() =~= start);
    while k < cs.len()
        invariant
            tree.wf(),
            forall|m: int| 0 <= m < cs.len() ==> #[trigger] cs@[m] < tree.nodes.len(),
            k <= cs.len(),
            f == (|c: usize|
                if tree.kind(c as int) == kind@ {
                    symbol_name_spec(*tree, c as int)
                } else {
                    None
                }),
            only_new ==> strings_view(acc@) == add_missing(start, cs@.take(k as int).filter_map(f)),
            !only_new ==> strings_view(acc@) == start + cs@.take(k as int).filter_map(f),
        decreases cs.len() - k,
    {
        let c = cs[k];
        proof {
            assert(cs@.take(k + 1).drop_last() =~= cs@.take(k as int));
            assert(cs@.take(k + 1).last() == c);
        }
        let ghost before = acc@;
        if kind_is(tree, c, kind) {
            if let Some(name) = extract_symbol_name(tree, c) {
                let ghost names = cs@.take(k + 1).filter_map(f);
                assert(names.drop_last() =~= cs@.take(k as int).filter_map(f));
                assert(names.last() == name@);
                if !only_new || !crate::parser::snippets::contains_text(acc, name.as_str()) {
                    acc.push(name);
                    proof {
                        assert(strings_view(acc@) =~= strings_view(before).push(names.last()));
                    }
                }
            }
        }
        k = k + 1;
    }
    assert(cs@.take(cs.len() as int) =~= cs@);
}

/// The block that node `n` opens (see `container_block_spec`).
fn container_block_at(tree: &SyntaxTree, n: usize, language: SupportedLanguage) -> (r: Option<ContainerBlock>)
    requires
        tree.wf(),
        n < tree.nodes.len(),
    ensures
        match r {
            Some(b) => container_block_spec(*tree, n as int, language) == Some(b@),
            None => container_block_spec(*tree, n as int, language) is None,
        },
{
    match language {
        SupportedLanguage::Rust => {
            if !kind_is(tree, n, "impl_item") {
                return None;
            }
            let t = match child_by_field_name(tree, n, "type") {
                Some(t) => t,
                None => {
                    return None;
                },
            };
            let name = node_text(tree, t);
            if crate::parser::snippets::text_is_empty(name.as_str()) {
                return None;
            }
            let mut members: Vec<String> = Vec::new();
            assert(strings_view(members@) =~= Seq::<Seq<char>>::empty());
            push_member_names(tree, n, "function_item", &mut members, false);
            assert(strings_view(members@) =~= member_names_in(*tree, named_children_spec(*tree, n as int), "function_item"@));
            if let Some(b) = child_by_field_name(tree, n, "body") {
                push_member_names(tree, b, "function_item", &mut members, true);
            }
            Some(
                ContainerBlock {
                    line_start: tree.nodes[n].start_line,
                    line_end: tree.nodes[n].end_line,
                    container_name: name,
                    member_names: members,
                },
            )
        },
        SupportedLanguage::TypeScript => {
            if !kind_is(tree, n, "class_declaration") {
                return None;
            }
            let m = match child_by_field_name(tree, n, "name") {
                Some(m) => m,
                None => {
                    return None;
                },
            };
            let name = node_text(tree, m);
            if crate::parser::snippets::text_is_empty(name.as_str()) {
                return None;
            }
            let mut members: Vec<String> = Vec::new();
            assert(strings_view(members@) =~= Seq::<Seq<char>>::empty());
            if let Some(b) = child_by_field_name(tree, n, "body") {
                push_member_names(tree, b, "method_definition", &mut members, false);
                assert(strings_view(members@) =~= member_names_in(*tree, named_children_spec(*tree, b as int), "method_definition"@));
            }
            Some(
                ContainerBlock {
                    line_start: tree.nodes[n].start_line,
                    line_end: tree.nodes[n].end_line,
                    container_name: name,
                    member_names: members,
                },
            )
        },
        SupportedLanguage::Go => None,
    }
}

/// The blocks of a tree (see `blocks_spec`).
pub fn collect_container_blocks(tree: &SyntaxTree, language: SupportedLanguage) -> (r: Vec<ContainerBlock>)
    requires
        tree.wf(),
    ensures
        blocks_view(r@) == blocks_spec(*tree, language),
{
    let nodes = preorder_nodes(tree, 0, 0, None);
    let mut r: Vec<ContainerBlock> = Vec::new();
    let mut k: usize = 0;
    while k < nodes.len()
        invariant
            tree.wf(),
            nodes@ == preorder(*tree, 0, 0, None),
            forall|m: int| 0 <= m < nodes.len() ==> #[trigger] nodes@[m] < tree.nodes.len(),
            k <= nodes.len(),
            blocks_view(r@) == nodes@.take(k as int).filter_map(
                |n: usize| container_block_spec(*tree, n as int, language),
            ),
        decreases nodes.len() - k,
    {
        proof {
            assert(nodes@.take(k + 1).drop_last() =~= nodes@.take(k as int));
            assert(nodes@.take(k + 1).last() == nodes@[k as int]);
        }
        let ghost before = r@;
        if let Some(b) = container_block_at(tree, nodes[k], language) {
            r.push(b);
            proof {
                assert(blocks_view(r@) =~= blocks_view(before) + seq![r@.last()@]);
            }
        }
        k = k + 1;
    }
    assert(nodes@.take(nodes.len() as int) =~= nodes@);
    r
}


/// Block `b` spans target `t`'s lines.
pub open spec fn block_holds(b: BlockView, t: TargetView) -> bool {
    t.line_start >= b.line_start && t.line_end <= b.line_end
}

/// The first of `blocks` that spans `t`'s lines.
pub open spec fn first_block_for(blocks: Seq<BlockView>, t: TargetView) -> Option<BlockView>
    decreases blocks.len(),
{
    if blocks.len() == 0 {
        None
    } else if block_holds(blocks[0], t) {
        Some(blocks[0])
    } else {
        first_block_for(blocks.drop_first(), t)
    }
}

/// `names` without `name`.
pub open spec fn other_names(names: Seq<Seq<char>>, name: Seq<char>) -> Seq<Seq<char>> {
    names.filter_map(
        |x: Seq<char>|
            if x != name {
                Some(x)
            } else {
                None
            },
    )
}

/// A target placed in the first block that spans it: the block names its container (and
/// a method's parent), and the block's other members are its siblings.
pub open spec fn placed_target(t: TargetView, blocks: Seq<BlockView>) -> TargetView {
    match first_block_for(blocks, t) {
        Some(b) => TargetView {
            container_name: Some(b.name),
            parent_symbol_name: if t.target_kind == SearchTargetKind::Method {
                Some(b.name)
            } else {
                t.parent_symbol_name
            },
            sibling_symbol_names: other_names(b.members, t.symbol_name),
            ..t
        },
        None => t,
    }
}

/// The names of the targets outside every block, local bindings left out.
pub open spec fn top_level_names(ts: Seq<TargetView>) -> Seq<Seq<char>> {
    ts.filter_map(
        |t: TargetView|
            if t.container_name is None && t.target_kind != SearchTargetKind::LocalBinding {
                Some(t.symbol_name)
            } else {
                None
            },
    )
}

/// A target outside every block, with no siblings yet and not a local binding, gets the
/// other top-level names as siblings.
pub open spec fn with_top_level_siblings(t: TargetView, names: Seq<Seq<char>>) -> TargetView {
    if t.container_name is None && t.sibling_symbol_names.len() == 0 && t.target_kind
        != SearchTargetKind::LocalBinding {
        TargetView { sibling_symbol_names: other_names(names, t.symbol_name), ..t }
    } else {
        t
    }
}

/// The targets with their containers and siblings filled in.
pub open spec fn sibling_context_spec(ts: Seq<TargetView>, blocks: Seq<BlockView>) -> Seq<TargetView> {
    let placed = ts.map_values(|t: TargetView| placed_target(t, blocks));
    placed.map_values(|t: TargetView| with_top_level_siblings(t, top_level_names(placed)))
}

/// `names` without `name` (see `other_names`).
fn names_other_than(names: &Vec<String>, name: &str) -> (r: Vec<String>)
    ensures
        strings_view(r@) == other_names(strings_view(names@), name@),
{
    let ghost f = |x: Seq<char>|
        if x != name@ {
            Some(x)
        } else {
            None
        };
    let mut r: Vec<String> = Vec::new();
    let mut k: usize = 0;
    while k < names.len()
        invariant
            k <= names.len(),
            f == (|x: Seq<char>|
                if x != name@ {
                    Some(x)
                } else {
                    None
                }),
            strings_view(r@) == strings_view(names@).take(k as int).filter_map(f),
        decreases names.len() - k,
    {
        proof {
            assert(strings_view(names@).take(k + 1).drop_last() =~= strings_view(names@).take(k as int));
            assert(strings_view(names@).take(k + 1).last() == names@[k as int]@);
        }
        let ghost before = r@;
        if !crate::parser::syntax::str_eq(names[k].as_str(), name) {
            r.push(names[k].clone());
            proof {
                assert(strings_view(r@) =~= strings_view(before).push(names@[k as int]@));
            }
        }
        k = k + 1;
    }
    assert(strings_view(names@).take(names.len() as int) =~= strings_view(names@));
    r
}

/// Fills in the containers and siblings of `targets` (see `sibling_context_spec`).
pub fn populate_sibling_context(targets: &mut Vec<SearchTarget>, blocks: &Vec<ContainerBlock>)
    ensures
        targets_view(final(targets)@) == sibling_context_spec(targets_view(old(targets)@), blocks_view(blocks@)),
{
    let ghost bv = blocks_view(blocks@);
    let ghost tv = targets_view(targets@);
    let mut placed: Vec<SearchTarget> = Vec::new();
    let mut i: usize = 0;
    while i < targets.len()
        invariant
            i <= targets.len(),
            bv == blocks_view(blocks@),
            tv == targets_view(targets@),
            targets_view(placed@) == tv.take(i as int).map_values(|t: TargetView| placed_target(t, bv)),
        decreases targets.len() - i,
    {
        let mut u = targets[i].duplicate();
        let ghost uv = u@;
        let mut j: usize = 0;
        let mut found = false;
        assert(bv.skip(0) =~= bv);
        while j < blocks.len() && !found
            invariant
                j <= blocks.len(),
                bv == blocks_view(blocks@),
                uv == tv[i as int],
                !found ==> u@ == uv && first_block_for(bv, uv) == first_block_for(bv.skip(j as int), uv),
                found ==> u@ == placed_target(uv, bv),
            decreases blocks.len() - j + (if found { 0int } else { 1int }),
        {
            let b = &blocks[j];
            assert(bv.skip(j as int)[0] == b@);
            assert(bv.skip(j as int).drop_first() =~= bv.skip(j + 1));
            if u.line_start >= b.line_start && u.line_end <= b.line_end {
                u.container_name = Some(b.container_name.clone());
                if u.target_kind == SearchTargetKind::Method {
                    u.parent_symbol_name = Some(b.container_name.clone());
                }
                u.sibling_symbol_names = names_other_than(&b.member_names, u.symbol_name.as_str());
                found = true;
                assert(u@ == placed_target(uv, bv));
            } else {
                j = j + 1;
            }
        }
        proof {
            if !found {
                assert(bv.skip(j as int).len() == 0);
            }
        }
        let ghost before = placed@;
        placed.push(u);
        proof {
            assert(targets_view(placed@) =~= targets_view(before).push(placed_target(uv, bv)));
            assert(tv.take(i + 1) =~= tv.take(i as int).push(tv[i as int]));
            assert(tv.take(i + 1).map_values(|t: TargetView| placed_target(t, bv)) =~= tv.take(i as int).map_values(
                |t: TargetView| placed_target(t, bv),
            ).push(placed_target(tv[i as int], bv)));
        }
        i = i + 1;
    }
    assert(tv.take(targets.len() as int) =~= tv);
    let ghost pv = targets_view(placed@);
    let ghost g = |t: TargetView|
        if t.container_name is None && t.target_kind != SearchTargetKind::LocalBinding {
            Some(t.symbol_name)
        } else {
            None
        };
    let mut names: Vec<String> = Vec::new();
    let mut k: usize = 0;
    while k < placed.len()
        invariant
            k <= placed.len(),
            pv == targets_view(placed@),
            g == (|t: TargetView|
                if t.container_name is None && t.target_kind != SearchTargetKind::LocalBinding {
                    Some(t.symbol_name)
                } else {
                    None
                }),
            strings_view(names@) == pv.take(k as int).filter_map(g),
        decreases placed.len() - k,
    {
        proof {
            assert(pv.take(k + 1).drop_last() =~= pv.take(k as int));
            assert(pv.take(k + 1).last() == placed@[k as int]@);
        }
        let ghost before = names@;
        if placed[k].container_name.is_none() && placed[k].target_kind != SearchTargetKind::LocalBinding {
            names.push(placed[k].symbol_name.clone());
            proof {
                assert(strings_view(names@) =~= strings_view(before).push(placed@[k as int].symbol_name@));
            }
        }
        k = k + 1;
    }
    assert(pv.take(placed.len() as int) =~= pv);
    let ghost nv = strings_view(names@);
    let mut result: Vec<SearchTarget> = Vec::new();
    let mut m: usize = 0;
    while m < placed.len()
        invariant
            m <= placed.len(),
            pv == targets_view(placed@),
            nv == strings_view(names@),
            nv == top_level_names(pv),
            targets_view(result@) == pv.take(m as int).map_values(|t: TargetView| with_top_level_siblings(t, nv)),
        decreases placed.len() - m,
    {
        let mut u = placed[m].duplicate();
        let ghost uv = u@;
        assert(uv == pv[m as int]);
        if u.container_name.is_none() && u.sibling_symbol_names.len() == 0 && u.target_kind
            != SearchTargetKind::LocalBinding {
            u.sibling_symbol_names = names_other_than(&names, u.symbol_name.as_str());
        }
        assert(u@ == with_top_level_siblings(uv, nv));
        let ghost before = result@;
        result.push(u);
        proof {
            assert(targets_view(result@) =~= targets_view(before).push(with_top_level_siblings(uv, nv)));
            assert(pv.take(m + 1) =~= pv.take(m as int).push(pv[m as int]));
            assert(pv.take(m + 1).map_values(|t: TargetView| with_top_level_siblings(t, nv)) =~= pv.take(
                m as int,
            ).map_values(|t: TargetView| with_top_level_siblings(t, nv)).push(with_top_level_siblings(pv[m as int], nv)));
        }
        m = m + 1;
    }
    assert(pv.take(placed.len() as int) =~= pv);
    *targets = result;
}


// ---------------------------------------------------------------------------
// Analysing a file
// ---------------------------------------------------------------------------

/// The targets of a parsed file: those of its declarations, or the file target when there
/// are none, with containers and siblings filled in.
pub open spec fn analysis_targets_spec(
    tree: SyntaxTree,
    source: Seq<char>,
    path: Seq<char>,
    language: SupportedLanguage,
) -> Seq<TargetView> {
    let found = tree_targets_spec(tree, path, lines_spec(source), language);
    let all = if found.len() == 0 {
        seq![fallback_target_spec(source, path, language)]
    } else {
        found
    };
    sibling_context_spec(all, blocks_spec(tree, language))
}

/// Analyses a parsed file whose path relative to the search root is `path` (see
/// `analysis_targets_spec`); one warning when the tree holds a syntax error.
pub fn analyze_syntax_tree(tree: &SyntaxTree, source: &str, path: &str, language: SupportedLanguage) -> (r: FileAnalysis)
    requires
        tree.wf(),
    ensures
        targets_view(r.targets@) == analysis_targets_spec(*tree, source@, path@, language),
        r.warning_count == if tree.root_has_error {
            1usize
        } else {
            0usize
        },
{
    let lines = split_lines(source);
    let mut targets = collect_targets(tree, path, &lines, language);
    if targets.len() == 0 {
        let fallback = build_fallback_target(source, path, language);
        targets.push(fallback);
        proof {
            assert(targets_view(targets@) =~= seq![fallback_target_spec(source@, path@, language)]);
        }
    }
    let blocks = collect_container_blocks(tree, language);
    populate_sibling_context(&mut targets, &blocks);
    let warning_count: usize = if tree.root_has_error {
        1
    } else {
        0
    };
    FileAnalysis { targets, warning_count }
}

/// Analyses the source of the file at `absolute_file_path` under `search_root_path`.
/// A file of no supported language yields nothing. Otherwise the file is parsed with the
/// grammar of its language: when the parser accepts the grammar and the source fits the
/// parser's 32-bit offsets, the targets are those of `analysis_targets_spec` for the copy
/// of the parse (see `copies_parse`), with one warning when its root holds a syntax error;
/// else the file target alone comes out, with one warning.
pub fn analyze_file(search_root_path: &str, absolute_file_path: &str, source: &str) -> (r: FileAnalysis)
    ensures
        match language_of_extension(path_extension_spec(absolute_file_path@)) {
            None => r.targets.len() == 0 && r.warning_count == 0,
            Some(language) => {
                let path = relative_path_spec(search_root_path@, absolute_file_path@);
                if grammar_accepted(language) && utf8_length(source@) <= u32::MAX {
                    &&& r.warning_count == if parsed_has_error(language, source@, Seq::<usize>::empty()) {
                        1usize
                    } else {
                        0usize
                    }
                    &&& exists|tree: SyntaxTree|
                        #![trigger analysis_targets_spec(tree, source@, path, language)]
                        tree.wf() && copies_parse(tree, language, source@) && targets_view(r.targets@)
                            == analysis_targets_spec(tree, source@, path, language)
                } else {
                    targets_view(r.targets@) == seq![fallback_target_spec(source@, path, language)]
                        && r.warning_count == 1
                }
            },
        },
{
    let language = match SupportedLanguage::from_path(absolute_file_path) {
        Some(language) => language,
        None => {
            return FileAnalysis { targets: Vec::new(), warning_count: 0 };
        },
    };
    let path = make_relative_path(search_root_path, absolute_file_path);
    match parse_syntax_tree(language, source) {
        Some(tree) => {
            let analysis = analyze_syntax_tree(&tree, source, path.as_str(), language);
            proof {
                let p = relative_path_spec(search_root_path@, absolute_file_path@);
                assert(tree.wf() && copies_parse(tree, language, source@) && targets_view(analysis.targets@)
                    == analysis_targets_spec(tree, source@, p, language));
            }
            analysis
        },
        None => {
            let mut targets: Vec<SearchTarget> = Vec::new();
            let fallback = build_fallback_target(source, path.as_str(), language);
            targets.push(fallback);
            assert(targets_view(targets@) =~= seq![fallback_target_spec(source@, path@, language)]);
            FileAnalysis { targets, warning_count: 1 }
        },
    }
}

} // verus!
