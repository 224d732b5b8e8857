//! Syntax trees: a plain model of a parsed file, built from the tree-sitter parser.

use vstd::prelude::*;

use crate::model::SupportedLanguage;
use crate::text::{string_from_range, trim, trim_spec};
use crate::unicode::chars_of;

verus! {

// ---------------------------------------------------------------------------
// The tree-sitter boundary
// ---------------------------------------------------------------------------

#[verifier::external_type_specification]
#[verifier::external_body]
pub struct ExParser(tree_sitter::Parser);

#[verifier::external_type_specification]
#[verifier::external_body]
pub struct ExTree(tree_sitter::Tree);

#[verifier::external_type_specification]
#[verifier::external_body]
pub struct ExNode<'tree>(tree_sitter::Node<'tree>);

#[verifier::external_type_specification]
#[verifier::external_body]
pub struct ExLanguage(tree_sitter::Language);

// What the parse holds. A parse is fixed by the grammar (that of a language) and the
// source; a node of it by `path`, the child positions that lead to it from the root.

/// Whether `tree_sitter::Parser::set_language` accepts the grammar of `language`.
pub uninterp spec fn grammar_accepted(language: SupportedLanguage) -> bool;

/// `tree_sitter::Node::kind` of a node of a parse.
pub uninterp spec fn parsed_kind(language: SupportedLanguage, source: Seq<char>, path: Seq<usize>) -> Seq<char>;

/// `tree_sitter::Node::is_named` of a node of a parse.
pub uninterp spec fn parsed_is_named(language: SupportedLanguage, source: Seq<char>, path: Seq<usize>) -> bool;

/// `tree_sitter::Node::has_error` of a node of a parse.
pub uninterp spec fn parsed_has_error(language: SupportedLanguage, source: Seq<char>, path: Seq<usize>) -> bool;

/// `tree_sitter::Node::start_byte` of a node of a parse.
pub uninterp spec fn parsed_start_byte(language: SupportedLanguage, source: Seq<char>, path: Seq<usize>) -> usize;

/// `tree_sitter::Node::end_byte` of a node of a parse.
pub uninterp spec fn parsed_end_byte(language: SupportedLanguage, source: Seq<char>, path: Seq<usize>) -> usize;

/// The row of `tree_sitter::Node::start_position` of a node of a parse.
pub uninterp spec fn parsed_start_row(language: SupportedLanguage, source: Seq<char>, path: Seq<usize>) -> usize;

/// The row of `tree_sitter::Node::end_position` of a node of a parse.
pub uninterp spec fn parsed_end_row(language: SupportedLanguage, source: Seq<char>, path: Seq<usize>) -> usize;

/// `tree_sitter::Node::child_count` of a node of a parse.
pub uninterp spec fn parsed_child_count(language: SupportedLanguage, source: Seq<char>, path: Seq<usize>) -> u32;

/// `tree_sitter::Node::field_name_for_child` of a node of a parse, for position `i`.
pub uninterp spec fn parsed_field_name(
    language: SupportedLanguage,
    source: Seq<char>,
    path: Seq<usize>,
    i: u32,
) -> Option<Seq<char>>;

/// `tree_sitter::Node::descendant_count` of a node of a parse.
pub uninterp spec fn parsed_descendant_count(language: SupportedLanguage, source: Seq<char>, path: Seq<usize>) -> usize;

/// The grammar of a language.
pub struct Grammar {
    grammar: tree_sitter::Language,
    language: Ghost<SupportedLanguage>,
}

impl View for Grammar {
    type V = SupportedLanguage;

    closed spec fn view(&self) -> SupportedLanguage {
        self.language@
    }
}

/// A tree-sitter parser, with the language whose grammar it holds, if any.
pub struct SourceParser {
    parser: tree_sitter::Parser,
    language: Ghost<Option<SupportedLanguage>>,
}

impl View for SourceParser {
    type V = Option<SupportedLanguage>;

    closed spec fn view(&self) -> Option<SupportedLanguage> {
        self.language@
    }
}

/// A tree-sitter tree, with the grammar's language and the source it was parsed from.
pub struct ParsedTree {
    tree: tree_sitter::Tree,
    parse: Ghost<(SupportedLanguage, Seq<char>)>,
}

impl View for ParsedTree {
    type V = (SupportedLanguage, Seq<char>);

    closed spec fn view(&self) -> (SupportedLanguage, Seq<char>) {
        self.parse@
    }
}

/// A node of a tree-sitter tree, with its parse and its path from the root.
pub struct ParsedNode<'tree> {
    node: tree_sitter::Node<'tree>,
    at: Ghost<(SupportedLanguage, Seq<char>, Seq<usize>)>,
}

impl<'tree> View for ParsedNode<'tree> {
    type V = (SupportedLanguage, Seq<char>, Seq<usize>);

    closed spec fn view(&self) -> (SupportedLanguage, Seq<char>, Seq<usize>) {
        self.at@
    }
}

/// Calls `tree_sitter::Parser::new`: a parser that holds no grammar yet.
#[verifier::external_body]
fn new_parser() -> (r: SourceParser)
    ensures
        r@ is None,
{
    SourceParser { parser: tree_sitter::Parser::new(), language: Ghost(None) }
}

/// The grammar `tree_sitter_rust::LANGUAGE`, converted to a `tree_sitter::Language`.
#[verifier::external_body]
fn rust_grammar() -> (r: Grammar)
    ensures
        r@ == SupportedLanguage::Rust,
{
    Grammar { grammar: tree_sitter_rust::LANGUAGE.into(), language: Ghost(SupportedLanguage::Rust) }
}

/// The grammar `tree_sitter_go::LANGUAGE`, converted to a `tree_sitter::Language`.
#[verifier::external_body]
fn go_grammar() -> (r: Grammar)
    ensures
        r@ == SupportedLanguage::Go,
{
    Grammar { grammar: tree_sitter_go::LANGUAGE.into(), language: Ghost(SupportedLanguage::Go) }
}

/// The grammar `tree_sitter_typescript::LANGUAGE_TYPESCRIPT`, converted to a
/// `tree_sitter::Language`.
#[verifier::external_body]
fn typescript_grammar() -> (r: Grammar)
    ensures
        r@ == SupportedLanguage::TypeScript,
{
    Grammar {
        grammar: tree_sitter_typescript::LANGUAGE_TYPESCRIPT.into(),
        language: Ghost(SupportedLanguage::TypeScript),
    }
}

/// Calls `tree_sitter::Parser::set_language`. Whether the grammar is accepted depends on
/// the grammar alone (its version against the library's); once accepted, the parser holds
/// it, and otherwise the parser is as it was.
#[verifier::external_body]
fn parser_set_language(parser: &mut SourceParser, grammar: &Grammar) -> (r: bool)
    ensures
        r == grammar_accepted(grammar@),
        final(parser)@ == if r {
            Some(grammar@)
        } else {
            old(parser)@
        },
{
    parser.parser.set_language(&grammar.grammar).is_ok()
}

/// Calls `tree_sitter::Parser::parse` on `source`, with no earlier tree. Its documentation
/// names the only ways no tree comes back: no grammar set, a timeout or a cancellation
/// flag, and this parser has neither of the last two. So a parser that holds a grammar
/// gives the parse of `source` under it. Sources whose UTF-8 length does not fit the
/// library's 32-bit byte offsets are left out.
#[verifier::external_body]
fn parser_parse(parser: &mut SourceParser, source: &str) -> (r: Option<ParsedTree>)
    requires
        utf8_length(source@) <= u32::MAX,
    ensures
        final(parser)@ == old(parser)@,
        match old(parser)@ {
            Some(language) => r is Some && r.unwrap()@ == (language, source@),
            None => r is None,
        },
{
    match parser.parser.parse(source, None) {
        Some(tree) => Some(ParsedTree { tree, parse: Ghost((parser.language@.unwrap(), source@)) }),
        None => None,
    }
}

/// Calls `tree_sitter::Tree::root_node`: the node at the empty path.
#[verifier::external_body]
fn tree_root_node<'tree>(tree: &'tree ParsedTree) -> (r: ParsedNode<'tree>)
    ensures
        r@ == (tree@.0, tree@.1, Seq::<usize>::empty()),
{
    ParsedNode { node: tree.tree.root_node(), at: Ghost((tree.parse@.0, tree.parse@.1, Seq::empty())) }
}

/// Calls `tree_sitter::Node::kind`: the node's grammar type name, copied into a `String`.
#[verifier::external_body]
fn node_kind(node: &ParsedNode) -> (r: String)
    ensures
        r@ == parsed_kind(node@.0, node@.1, node@.2),
{
    node.node.kind().to_string()
}

/// Calls `tree_sitter::Node::is_named`.
#[verifier::external_body]
fn node_is_named(node: &ParsedNode) -> (r: bool)
    ensures
        r == parsed_is_named(node@.0, node@.1, node@.2),
{
    node.node.is_named()
}

/// Calls `tree_sitter::Node::has_error`.
#[verifier::external_body]
fn node_has_error(node: &ParsedNode) -> (r: bool)
    ensures
        r == parsed_has_error(node@.0, node@.1, node@.2),
{
    node.node.has_error()
}

/// Calls `tree_sitter::Node::start_byte`.
#[verifier::external_body]
fn node_start_byte(node: &ParsedNode) -> (r: usize)
    ensures
        r == parsed_start_byte(node@.0, node@.1, node@.2),
{
    node.node.start_byte()
}

/// Calls `tree_sitter::Node::end_byte`, which the library computes as the start byte plus
/// the node's length: it is not below the start while offsets fit in 32 bits.
#[verifier::external_body]
fn node_end_byte(node: &ParsedNode) -> (r: usize)
    ensures
        r == parsed_end_byte(node@.0, node@.1, node@.2),
        utf8_length(node@.1) <= u32::MAX ==> parsed_start_byte(node@.0, node@.1, node@.2) <= r,
{
    node.node.end_byte()
}

/// Calls `tree_sitter::Node::start_position` and returns its row (0-based).
#[verifier::external_body]
fn node_start_row(node: &ParsedNode) -> (r: usize)
    ensures
        r == parsed_start_row(node@.0, node@.1, node@.2),
{
    node.node.start_position().row
}

/// Calls `tree_sitter::Node::end_position` and returns its row (0-based). The library adds
/// the node's extent to its start, so the row is not below the start row while offsets fit
/// in 32 bits.
#[verifier::external_body]
fn node_end_row(node: &ParsedNode) -> (r: usize)
    ensures
        r == parsed_end_row(node@.0, node@.1, node@.2),
        utf8_length(node@.1) <= u32::MAX ==> parsed_start_row(node@.0, node@.1, node@.2) <= r,
{
    node.node.end_position().row
}

/// Calls `tree_sitter::Node::child_count`, a 32-bit count in the library.
#[verifier::external_body]
fn node_child_count(node: &ParsedNode) -> (r: usize)
    ensures
        r == parsed_child_count(node@.0, node@.1, node@.2) as usize,
{
    node.node.child_count()
}

/// Calls `tree_sitter::Node::child` below the node's child count, where the child is
/// there: the node one step further at position `i`. Its descendant count, which counts
/// the node itself, is below its parent's.
#[verifier::external_body]
fn node_child<'tree>(node: &ParsedNode<'tree>, i: usize) -> (r: Option<ParsedNode<'tree>>)
    requires
        i < parsed_child_count(node@.0, node@.1, node@.2),
    ensures
        r is Some,
        r.unwrap()@ == (node@.0, node@.1, node@.2.push(i)),
        parsed_descendant_count(r.unwrap()@.0, r.unwrap()@.1, r.unwrap()@.2) < parsed_descendant_count(
            node@.0,
            node@.1,
            node@.2,
        ),
{
    match node.node.child(i) {
        Some(child) => Some(ParsedNode { node: child, at: Ghost((node.at@.0, node.at@.1, node.at@.2.push(i))) }),
        None => None,
    }
}

/// Calls `tree_sitter::Node::field_name_for_child`: the field of the child at position
/// `i`, copied into a `String`.
#[verifier::external_body]
fn node_field_name_for_child(node: &ParsedNode, i: u32) -> (r: Option<String>)
    ensures
        field_view(r) == parsed_field_name(node@.0, node@.1, node@.2, i),
{
    node.node.field_name_for_child(i).map(|name| name.to_string())
}

/// Calls `tree_sitter::Node::descendant_count`.
#[verifier::external_body]
fn node_descendant_count(node: &ParsedNode) -> (r: usize)
    ensures
        r == parsed_descendant_count(node@.0, node@.1, node@.2),
{
    node.node.descendant_count()
}

// ---------------------------------------------------------------------------
// The plain model
// ---------------------------------------------------------------------------

/// A node of a syntax tree.
pub struct SyntaxNode {
    /// The grammar type, such as `function_item`.
    pub kind: String,
    /// The field under which the node is a child of its parent, if any.
    pub field_name: Option<String>,
    pub is_named: bool,
    /// The byte range of the node's text in the file.
    pub start_byte: usize,
    pub end_byte: usize,
    /// First and last line, 1-based.
    pub start_line: usize,
    pub end_line: usize,
    /// The node's source text as a range of characters of the file, when its byte range
    /// starts and ends on character boundaries.
    pub char_range: Option<(usize, usize)>,
    pub parent: Option<usize>,
    /// The children, in source order.
    pub children: Vec<usize>,
    /// The child positions that lead from the root of the parse to this node.
    pub path: Ghost<Seq<usize>>,
}

impl SyntaxNode {
    /// A copy of the node without its list of children.
    fn clone_without_children(&self) -> (r: SyntaxNode)
        ensures
            r.kind@ == self.kind@,
            r.field_name == self.field_name,
            r.is_named == self.is_named,
            r.start_byte == self.start_byte,
            r.end_byte == self.end_byte,
            r.start_line == self.start_line,
            r.end_line == self.end_line,
            r.char_range == self.char_range,
            r.parent == self.parent,
            r.children@ == Seq::<usize>::empty(),
            r.path == self.path,
    {
        SyntaxNode {
            kind: self.kind.clone(),
            field_name: match &self.field_name {
                Some(f) => Some(f.clone()),
                None => None,
            },
            is_named: self.is_named,
            start_byte: self.start_byte,
            end_byte: self.end_byte,
            start_line: self.start_line,
            end_line: self.end_line,
            char_range: self.char_range,
            parent: self.parent,
            children: Vec::new(),
            path: self.path,
        }
    }
}

/// A parsed file: its characters and its nodes, the root first.
pub struct SyntaxTree {
    pub source: Vec<char>,
    pub nodes: Vec<SyntaxNode>,
    pub root_has_error: bool,
}

impl SyntaxTree {
    /// Every child of a node comes after it, every parent before, character ranges lie
    /// within the source, and no node ends before it starts.
    pub open spec fn wf(&self) -> bool {
        &&& self.nodes.len() > 0
        &&& forall|i: int, k: int|
            0 <= i < self.nodes.len() && 0 <= k < self.nodes@[i].children.len() ==> i
                < #[trigger] self.nodes@[i].children@[k] < self.nodes.len()
        &&& forall|i: int|
            0 <= i < self.nodes.len() ==> match #[trigger] self.nodes@[i].parent {
                Some(p) => p < i,
                None => true,
            }
        &&& forall|i: int|
            0 <= i < self.nodes.len() ==> match #[trigger] self.nodes@[i].char_range {
                Some((s, e)) => s <= e <= self.source.len(),
                None => true,
            }
        &&& forall|i: int|
            #![trigger self.nodes@[i].start_line]
            #![trigger self.nodes@[i].end_line]
            0 <= i < self.nodes.len() ==> self.nodes@[i].start_line <= self.nodes@[i].end_line
        &&& forall|i: int|
            #![trigger self.nodes@[i].start_byte]
            #![trigger self.nodes@[i].end_byte]
            0 <= i < self.nodes.len() ==> self.nodes@[i].start_byte <= self.nodes@[i].end_byte
    }

    /// The trimmed source text of node `i` (empty when its range is not on character
    /// boundaries).
    pub open spec fn text(&self, i: int) -> Seq<char> {
        match self.nodes@[i].char_range {
            Some((s, e)) => trim_spec(self.source@.subrange(s as int, e as int)),
            None => Seq::empty(),
        }
    }

    /// The kind of node `i`.
    pub open spec fn kind(&self, i: int) -> Seq<char> {
        self.nodes@[i].kind@
    }
}

/// The trimmed source text of node `i`.
pub fn node_text(tree: &SyntaxTree, i: usize) -> (text: String)
    requires
        tree.wf(),
        i < tree.nodes.len(),
    ensures
        text@ == tree.text(i as int),
{
    match tree.nodes[i].char_range {
        Some((s, e)) => {
            let raw = string_from_range(&tree.source, s, e);
            trim(raw.as_str())
        },
        None => String::new(),
    }
}

/// Whether `a` and `b` hold the same characters.
pub fn str_eq(a: &str, b: &str) -> (r: bool)
    ensures
        r == (a@ == b@),
{
    let x = chars_of(a);
    let y = chars_of(b);
    if x.len() != y.len() {
        return false;
    }
    let mut i: usize = 0;
    while i < x.len()
        invariant
            i <= x.len() == y.len(),
            x@ == a@,
            y@ == b@,
            forall|j: int| 0 <= j < i ==> x@[j] == y@[j],
        decreases x.len() - i,
    {
        if x[i] != y[i] {
            return false;
        }
        i = i + 1;
    }
    assert(x@ =~= y@);
    true
}

/// Whether node `i` has kind `kind`.
pub fn kind_is(tree: &SyntaxTree, i: usize, kind: &str) -> (r: bool)
    requires
        i < tree.nodes.len(),
    ensures
        r == (tree.kind(i as int) == kind@),
{
    str_eq(tree.nodes[i].kind.as_str(), kind)
}

/// The first child of node `i` (in source order) under the field `field`.
pub open spec fn child_by_field_spec(tree: SyntaxTree, i: int, field: Seq<char>) -> Option<usize> {
    first_child_with_field(tree, tree.nodes@[i].children@, field)
}

/// The first of `children` whose field is `field`.
pub open spec fn first_child_with_field(tree: SyntaxTree, children: Seq<usize>, field: Seq<char>) -> Option<usize>
    decreases children.len(),
{
    if children.len() == 0 {
        None
    } else {
        let c = children[0];
        if 0 <= c < tree.nodes.len() && match tree.nodes@[c as int].field_name {
            Some(f) => f@ == field,
            None => false,
        } {
            Some(c)
        } else {
            first_child_with_field(tree, children.drop_first(), field)
        }
    }
}

/// The first child of node `i` under the field `field` (see `child_by_field_spec`).
pub fn child_by_field_name(tree: &SyntaxTree, i: usize, field: &str) -> (r: Option<usize>)
    requires
        tree.wf(),
        i < tree.nodes.len(),
    ensures
        r == child_by_field_spec(*tree, i as int, field@),
        match r {
            Some(c) => i < c < tree.nodes.len(),
            None => true,
        },
{
    let children = &tree.nodes[i].children;
    let mut k: usize = 0;
    assert(children@.skip(0) =~= children@);
    while k < children.len()
        invariant
            tree.wf(),
            i < tree.nodes.len(),
            children == tree.nodes@[i as int].children,
            k <= children.len(),
            child_by_field_spec(*tree, i as int, field@) == first_child_with_field(*tree, children@.skip(k as int), field@),
        decreases children.len() - k,
    {
        let c = children[k];
        assert(i < c < tree.nodes.len());
        assert(children@.skip(k as int)[0] == c);
        assert(children@.skip(k as int).drop_first() =~= children@.skip(k + 1));
        let matches = match &tree.nodes[c].field_name {
            Some(f) => str_eq(f.as_str(), field),
            None => false,
        };
        if matches {
            return Some(c);
        }
        k = k + 1;
    }
    None
}

/// The named children of node `i`, in source order.
pub open spec fn named_children_spec(tree: SyntaxTree, i: int) -> Seq<usize> {
    tree.nodes@[i].children@.filter(|c: usize| 0 <= c < tree.nodes.len() && tree.nodes@[c as int].is_named)
}

/// The named children of node `i` (see `named_children_spec`).
pub fn collect_named_children(tree: &SyntaxTree, i: usize) -> (r: Vec<usize>)
    requires
        tree.wf(),
        i < tree.nodes.len(),
    ensures
        r@ == named_children_spec(*tree, i as int),
        forall|k: int| 0 <= k < r.len() ==> i < #[trigger] r@[k] < tree.nodes.len(),
{
    let children = &tree.nodes[i].children;
    let ghost pred = |c: usize| 0 <= c < tree.nodes.len() && tree.nodes@[c as int].is_named;
    let mut r: Vec<usize> = Vec::new();
    let mut k: usize = 0;
    while k < children.len()
        invariant
            tree.wf(),
            i < tree.nodes.len(),
            children == tree.nodes@[i as int].children,
            k <= children.len(),
            pred == |c: usize| 0 <= c < tree.nodes.len() && tree.nodes@[c as int].is_named,
            r@ == children@.take(k as int).filter(pred),
            forall|j: int| 0 <= j < r.len() ==> i < #[trigger] r@[j] < tree.nodes.len(),
        decreases children.len() - k,
    {
        let c = children[k];
        assert(i < c < tree.nodes.len());
        proof {
            reveal(Seq::filter);
            assert(children@.take(k + 1).drop_last() =~= children@.take(k as int));
        }
        if tree.nodes[c].is_named {
            r.push(c);
        }
        k = k + 1;
    }
    assert(children@.take(children.len() as int) =~= children@);
    r
}

// ---------------------------------------------------------------------------
// Pre-order traversal
// ---------------------------------------------------------------------------

/// The grammar types of function and method declarations, which open a nested scope.
pub open spec fn is_nested_scope_kind(language: SupportedLanguage, kind: Seq<char>) -> bool {
    match language {
        SupportedLanguage::Rust => kind == "function_item"@,
        SupportedLanguage::Go => kind == "function_declaration"@ || kind == "method_declaration"@,
        SupportedLanguage::TypeScript => kind == "function_declaration"@ || kind == "method_definition"@,
    }
}

/// Whether node `i` opens a nested scope (a function or method declaration).
pub fn is_nested_scope(tree: &SyntaxTree, i: usize, language: SupportedLanguage) -> (r: bool)
    requires
        i < tree.nodes.len(),
    ensures
        r == is_nested_scope_kind(language, tree.kind(i as int)),
{
    match language {
        SupportedLanguage::Rust => kind_is(tree, i, "function_item"),
        SupportedLanguage::Go => kind_is(tree, i, "function_declaration") || kind_is(tree, i, "method_declaration"),
        SupportedLanguage::TypeScript => kind_is(tree, i, "function_declaration") || kind_is(tree, i, "method_definition"),
    }
}

/// Node `i` is skipped by a traversal from `root` that does not enter nested scopes.
pub open spec fn pruned(tree: SyntaxTree, i: int, root: int, scope: Option<SupportedLanguage>) -> bool {
    i != root && match scope {
        Some(language) => is_nested_scope_kind(language, tree.kind(i)),
        None => false,
    }
}

/// The nodes of the subtree of `i`, in pre-order (a node, then the subtrees of its
/// named children in order). With `scope`, the subtrees of nested scopes below `root` are
/// left out, their roots included.
pub open spec fn preorder(tree: SyntaxTree, i: int, root: int, scope: Option<SupportedLanguage>) -> Seq<usize>
    decreases tree.nodes.len() - i, tree.nodes@[i].children.len() + 1,
{
    if !(0 <= i < tree.nodes.len()) || pruned(tree, i, root, scope) {
        Seq::empty()
    } else {
        seq![i as usize] + preorder_children(tree, i, root, scope, 0)
    }
}

/// The pre-orders of the named children of `i` from position `k` on, concatenated.
pub open spec fn preorder_children(tree: SyntaxTree, i: int, root: int, scope: Option<SupportedLanguage>, k: int) -> Seq<usize>
    decreases tree.nodes.len() - i, tree.nodes@[i].children.len() - k,
{
    if !(0 <= i < tree.nodes.len()) || k < 0 || k >= tree.nodes@[i].children.len() {
        Seq::empty()
    } else {
        let c = tree.nodes@[i].children@[k] as int;
        if i < c < tree.nodes.len() && tree.nodes@[c].is_named {
            preorder(tree, c, root, scope) + preorder_children(tree, i, root, scope, k + 1)
        } else {
            preorder_children(tree, i, root, scope, k + 1)
        }
    }
}

/// Every node of a pre-order lies in the subtree's index range.
pub proof fn lemma_preorder_in_range(tree: SyntaxTree, i: int, root: int, scope: Option<SupportedLanguage>)
    requires
        tree.wf(),
    ensures
        forall|k: int|
            0 <= k < preorder(tree, i, root, scope).len() ==> i <= #[trigger] preorder(
                tree,
                i,
                root,
                scope,
            )[k] < tree.nodes.len(),
    decreases tree.nodes.len() - i, tree.nodes@[i].children.len() + 1,
{
    if 0 <= i < tree.nodes.len() && !pruned(tree, i, root, scope) {
        lemma_preorder_children_in_range(tree, i, root, scope, 0);
        let rest = preorder_children(tree, i, root, scope, 0);
        let all = preorder(tree, i, root, scope);
        assert(all == seq![i as usize] + rest);
        assert forall|k: int| 0 <= k < all.len() implies i <= #[trigger] all[k] < tree.nodes.len() by {
            if k > 0 {
                assert(all[k] == rest[k - 1]);
            }
        }
    }
}

/// Every node of the pre-orders of the children of `i` lies after `i`.
pub proof fn lemma_preorder_children_in_range(
    tree: SyntaxTree,
    i: int,
    root: int,
    scope: Option<SupportedLanguage>,
    k: int,
)
    requires
        tree.wf(),
        0 <= i < tree.nodes.len(),
    ensures
        forall|m: int|
            0 <= m < preorder_children(tree, i, root, scope, k).len() ==> i
                < #[trigger] preorder_children(tree, i, root, scope, k)[m] < tree.nodes.len(),
    decreases tree.nodes.len() - i, tree.nodes@[i].children.len() - k,
{
    if k >= 0 && k < tree.nodes@[i].children.len() {
        let c = tree.nodes@[i].children@[k] as int;
        lemma_preorder_children_in_range(tree, i, root, scope, k + 1);
        let rest = preorder_children(tree, i, root, scope, k + 1);
        let all = preorder_children(tree, i, root, scope, k);
        if i < c < tree.nodes.len() && tree.nodes@[c].is_named {
            lemma_preorder_in_range(tree, c, root, scope);
            let first = preorder(tree, c, root, scope);
            assert(all == first + rest);
            assert forall|m: int| 0 <= m < all.len() implies i < #[trigger] all[m] < tree.nodes.len() by {
                if m < first.len() {
                    assert(all[m] == first[m]);
                } else {
                    assert(all[m] == rest[m - first.len()]);
                }
            }
        }
    }
}

/// Appends the pre-order of node `i` (see `preorder`).
fn append_preorder(
    tree: &SyntaxTree,
    i: usize,
    root: usize,
    scope: Option<SupportedLanguage>,
    out: &mut Vec<usize>,
)
    requires
        tree.wf(),
        i < tree.nodes.len(),
    ensures
        final(out)@ == old(out)@ + preorder(*tree, i as int, root as int, scope),
    decreases tree.nodes.len() - i, tree.nodes@[i as int].children.len() + 1,
{
    let skip = i != root && match scope {
        Some(language) => is_nested_scope(tree, i, language),
        None => false,
    };
    if skip {
        assert(out@ =~= old(out)@ + Seq::<usize>::empty());
        return;
    }
    out.push(i);
    let n = tree.nodes[i].children.len();
    let mut k: usize = 0;
    while k < n
        invariant
            tree.wf(),
            i < tree.nodes.len(),
            n == tree.nodes@[i as int].children.len(),
            k <= n,
            old(out)@ + preorder(*tree, i as int, root as int, scope) == out@ + preorder_children(
                *tree,
                i as int,
                root as int,
                scope,
                k as int,
            ),
        decreases n - k,
    {
        let c = tree.nodes[i].children[k];
        assert(i < c < tree.nodes.len());
        let ghost before = out@;
        if tree.nodes[c].is_named {
            append_preorder(tree, c, root, scope, out);
        }
        assert(before + preorder_children(*tree, i as int, root as int, scope, k as int) =~= out@
            + preorder_children(*tree, i as int, root as int, scope, k + 1));
        k = k + 1;
    }
    assert(out@ + preorder_children(*tree, i as int, root as int, scope, n as int) =~= out@);
}

/// The nodes of the subtree of `i` in pre-order (see `preorder`).
pub fn preorder_nodes(tree: &SyntaxTree, i: usize, root: usize, scope: Option<SupportedLanguage>) -> (r: Vec<usize>)
    requires
        tree.wf(),
        i < tree.nodes.len(),
    ensures
        r@ == preorder(*tree, i as int, root as int, scope),
        forall|k: int| 0 <= k < r.len() ==> i <= #[trigger] r@[k] < tree.nodes.len(),
{
    proof {
        lemma_preorder_in_range(*tree, i as int, root as int, scope);
    }
    let mut r: Vec<usize> = Vec::new();
    append_preorder(tree, i, root, scope, &mut r);
    assert(r@ =~= preorder(*tree, i as int, root as int, scope));
    r
}


// ---------------------------------------------------------------------------
// Building the model from a parse
// ---------------------------------------------------------------------------

/// The number of bytes of `c` in UTF-8.
pub open spec fn utf8_len(c: char) -> nat {
    if (c as u32) < 0x80 {
        1
    } else if (c as u32) < 0x800 {
        2
    } else if (c as u32) < 0x10000 {
        3
    } else {
        4
    }
}

/// The byte offset in UTF-8 of character `k` of `chars`.
pub open spec fn byte_offset(chars: Seq<char>, k: int) -> nat
    decreases k,
{
    if k <= 0 {
        0
    } else {
        byte_offset(chars, k - 1) + utf8_len(chars[k - 1])
    }
}

proof fn lemma_byte_offset_increasing(chars: Seq<char>, j: int, k: int)
    requires
        0 <= j < k,
    ensures
        byte_offset(chars, j) < byte_offset(chars, k),
    decreases k,
{
    if j < k - 1 {
        lemma_byte_offset_increasing(chars, j, k - 1);
    }
}

/// The number of UTF-8 bytes of `c` (see `utf8_len`).
fn char_utf8_len(c: char) -> (n: usize)
    ensures
        n == utf8_len(c),
{
    let code = c as u32;
    if code < 0x80 {
        1
    } else if code < 0x800 {
        2
    } else if code < 0x10000 {
        3
    } else {
        4
    }
}

/// The byte offsets of the characters of `chars`, and of its end; `None` exactly when the
/// length of `chars` in UTF-8 does not fit in `usize`.
fn byte_offsets(chars: &Vec<char>) -> (r: Option<Vec<usize>>)
    ensures
        match r {
            Some(offsets) => offsets.len() == chars.len() + 1 && forall|k: int|
                0 <= k <= chars.len() ==> #[trigger] offsets@[k] == byte_offset(chars@, k),
            None => byte_offset(chars@, chars.len() as int) > usize::MAX,
        },
{
    let mut offsets: Vec<usize> = Vec::new();
    offsets.push(0);
    let mut total: usize = 0;
    let mut k: usize = 0;
    while k < chars.len()
        invariant
            k <= chars.len(),
            offsets.len() == k + 1,
            total == byte_offset(chars@, k as int),
            forall|j: int| 0 <= j <= k ==> #[trigger] offsets@[j] == byte_offset(chars@, j),
        decreases chars.len() - k,
    {
        let n = char_utf8_len(chars[k]);
        match total.checked_add(n) {
            Some(t) => {
                total = t;
            },
            None => {
                proof {
                    if k + 1 < chars.len() {
                        lemma_byte_offset_increasing(chars@, k + 1, chars.len() as int);
                    }
                }
                return None;
            },
        }
        offsets.push(total);
        k = k + 1;
    }
    Some(offsets)
}

/// The index of the character that starts at byte `b`, if one does (`b` equal to the
/// length in bytes gives the number of characters).
fn char_index_at_byte(offsets: &Vec<usize>, b: usize, Ghost(chars): Ghost<Seq<char>>) -> (r: Option<usize>)
    requires
        offsets.len() == chars.len() + 1,
        forall|k: int| 0 <= k <= chars.len() ==> #[trigger] offsets@[k] == byte_offset(chars, k),
    ensures
        match r {
            Some(k) => k <= chars.len() && byte_offset(chars, k as int) == b,
            None => forall|k: int| 0 <= k <= chars.len() ==> byte_offset(chars, k) != b,
        },
{
    let mut lo: usize = 0;
    let mut hi: usize = offsets.len();
    while lo < hi
        invariant
            offsets.len() == chars.len() + 1,
            forall|k: int| 0 <= k <= chars.len() ==> #[trigger] offsets@[k] == byte_offset(chars, k),
            0 <= lo <= hi <= offsets.len(),
            forall|k: int| 0 <= k < lo ==> #[trigger] byte_offset(chars, k) < b,
            forall|k: int| hi <= k <= chars.len() ==> #[trigger] byte_offset(chars, k) > b,
        decreases hi - lo,
    {
        let mid = lo + (hi - lo) / 2;
        let v = offsets[mid];
        if v == b {
            return Some(mid);
        } else if v < b {
            proof {
                assert forall|k: int| 0 <= k < mid + 1 implies #[trigger] byte_offset(chars, k) < b by {
                    if k < mid {
                        lemma_byte_offset_increasing(chars, k, mid as int);
                    }
                }
            }
            lo = mid + 1;
        } else {
            proof {
                assert forall|k: int| mid <= k <= chars.len() implies #[trigger] byte_offset(chars, k) > b by {
                    if k > mid {
                        lemma_byte_offset_increasing(chars, mid as int, k);
                    }
                }
            }
            hi = mid;
        }
    }
    None
}

/// The length of `chars` in UTF-8.
pub open spec fn utf8_length(chars: Seq<char>) -> nat {
    byte_offset(chars, chars.len() as int)
}

/// The index of the character of `chars` that starts at byte `b`, if one does (the end of
/// `chars` counts, as index `chars.len()`).
pub open spec fn char_at_byte(chars: Seq<char>, b: int) -> Option<int> {
    if exists|k: int| 0 <= k <= chars.len() && byte_offset(chars, k) == b {
        Some(choose|k: int| 0 <= k <= chars.len() && byte_offset(chars, k) == b)
    } else {
        None
    }
}

/// The characters of the bytes `start..end` of `chars`, when both ends fall on character
/// boundaries and in order.
pub open spec fn char_range_spec(chars: Seq<char>, start: int, end: int) -> Option<(usize, usize)> {
    match (char_at_byte(chars, start), char_at_byte(chars, end)) {
        (Some(s), Some(e)) => if s <= e {
            Some((s as usize, e as usize))
        } else {
            None
        },
        _ => None,
    }
}

/// The 1-based line of a 0-based row, saturating at the largest `usize`.
pub open spec fn line_of_row(row: usize) -> usize {
    if row < usize::MAX {
        (row + 1) as usize
    } else {
        row
    }
}

/// The characters of a field name, if any.
pub open spec fn field_view(name: Option<String>) -> Option<Seq<char>> {
    match name {
        Some(n) => Some(n@),
        None => None,
    }
}

/// Node `i` of `nodes` copies the node of the parse of `source` under the grammar of
/// `language` at its path: kind, byte range, lines, character range and children (those
/// at every position below the child count, in order, each with its field).
pub open spec fn copies_parsed_node(nodes: Seq<SyntaxNode>, i: int, language: SupportedLanguage, source: Seq<char>) -> bool {
    let n = nodes[i];
    let p = n.path@;
    &&& n.kind@ == parsed_kind(language, source, p)
    &&& n.is_named == parsed_is_named(language, source, p)
    &&& n.start_byte == parsed_start_byte(language, source, p)
    &&& n.end_byte == parsed_end_byte(language, source, p)
    &&& n.start_line == line_of_row(parsed_start_row(language, source, p))
    &&& n.end_line == line_of_row(parsed_end_row(language, source, p))
    &&& n.char_range == char_range_spec(source, n.start_byte as int, n.end_byte as int)
    &&& n.children.len() == parsed_child_count(language, source, p)
    &&& forall|k: int|
        0 <= k < n.children.len() ==> {
            let c = #[trigger] n.children@[k] as int;
            &&& 0 <= c < nodes.len()
            &&& nodes[c].path@ == p.push(k as usize)
            &&& nodes[c].parent == Some(i as usize)
            &&& field_view(nodes[c].field_name) == parsed_field_name(language, source, p, k as u32)
        }
}

/// Node `j` of `nodes` is the child of its parent at the last position of its path.
pub open spec fn reached_from_parent(nodes: Seq<SyntaxNode>, j: int) -> bool {
    let p = nodes[j].path@;
    match nodes[j].parent {
        Some(q) => p.len() > 0 && 0 <= q < j && p.last() < nodes[q as int].children.len()
            && nodes[q as int].children@[p.last() as int] == j,
        None => false,
    }
}

/// `tree` is the copy of the parse of `source` under the grammar of `language`: node 0 is
/// the root, every other node hangs under its parent, and every node copies the node of
/// the parse at its path.
pub open spec fn copies_parse(tree: SyntaxTree, language: SupportedLanguage, source: Seq<char>) -> bool {
    &&& tree.source@ == source
    &&& tree.nodes.len() > 0
    &&& tree.nodes@[0].path@ == Seq::<usize>::empty()
    &&& tree.nodes@[0].parent is None
    &&& tree.nodes@[0].field_name is None
    &&& tree.root_has_error == parsed_has_error(language, source, Seq::<usize>::empty())
    &&& forall|i: int| 0 <= i < tree.nodes.len() ==> #[trigger] copies_parsed_node(tree.nodes@, i, language, source)
    &&& forall|i: int| 0 < i < tree.nodes.len() ==> #[trigger] reached_from_parent(tree.nodes@, i)
}

/// The shape that `SyntaxTree::wf` asks of the nodes of a tree of `n` characters.
spec fn nodes_wf(nodes: Seq<SyntaxNode>, n: int) -> bool {
    &&& forall|i: int, k: int|
        0 <= i < nodes.len() && 0 <= k < nodes[i].children.len() ==> i < #[trigger] nodes[i].children@[k]
            < nodes.len()
    &&& forall|i: int|
        0 <= i < nodes.len() ==> match #[trigger] nodes[i].parent {
            Some(p) => p < i,
            None => true,
        }
    &&& forall|i: int|
        0 <= i < nodes.len() ==> match #[trigger] nodes[i].char_range {
            Some((s, e)) => s <= e <= n,
            None => true,
        }
    &&& forall|i: int|
        #![trigger nodes[i].start_line]
        #![trigger nodes[i].end_line]
        0 <= i < nodes.len() ==> nodes[i].start_line <= nodes[i].end_line
    &&& forall|i: int|
        #![trigger nodes[i].start_byte]
        #![trigger nodes[i].end_byte]
        0 <= i < nodes.len() ==> nodes[i].start_byte <= nodes[i].end_byte
}

/// One more than a 0-based row, saturating at the largest `usize`.
fn row_to_line(row: usize) -> (line: usize)
    ensures
        line == line_of_row(row),
{
    if row < usize::MAX {
        row + 1
    } else {
        row
    }
}

/// The character index that byte `b` starts (see `char_at_byte`).
fn char_index_of_byte(offsets: &Vec<usize>, b: usize, Ghost(chars): Ghost<Seq<char>>) -> (r: Option<usize>)
    requires
        offsets.len() == chars.len() + 1,
        forall|k: int| 0 <= k <= chars.len() ==> #[trigger] offsets@[k] == byte_offset(chars, k),
    ensures
        match r {
            Some(k) => k <= chars.len() && char_at_byte(chars, b as int) == Some(k as int),
            None => char_at_byte(chars, b as int) is None,
        },
{
    let r = char_index_at_byte(offsets, b, Ghost(chars));
    proof {
        match r {
            Some(k) => {
                let c = choose|j: int| 0 <= j <= chars.len() && byte_offset(chars, j) == b;
                if c < k {
                    lemma_byte_offset_increasing(chars, c, k as int);
                } else if c > k {
                    lemma_byte_offset_increasing(chars, k as int, c);
                }
            },
            None => {},
        }
    }
    r
}

/// The grammar of a language.
fn language_grammar(language: SupportedLanguage) -> (g: Grammar)
    ensures
        g@ == language,
{
    match language {
        SupportedLanguage::Rust => rust_grammar(),
        SupportedLanguage::Go => go_grammar(),
        SupportedLanguage::TypeScript => typescript_grammar(),
    }
}

/// Appends the copy of `node` and of its subtree to `nodes`, in pre-order: the node, then
/// each child's subtree in order. The node hangs under `parent` with field `field_name`.
fn copy_subtree(
    node: &ParsedNode,
    parent: Option<usize>,
    field_name: Option<String>,
    offsets: &Vec<usize>,
    Ghost(chars): Ghost<Seq<char>>,
    nodes: &mut Vec<SyntaxNode>,
)
    requires
        node@.1 == chars,
        utf8_length(chars) <= u32::MAX,
        offsets.len() == chars.len() + 1,
        forall|k: int| 0 <= k <= chars.len() ==> #[trigger] offsets@[k] == byte_offset(chars, k),
        nodes_wf(old(nodes)@, chars.len() as int),
        match parent {
            Some(q) => q < old(nodes).len(),
            None => true,
        },
    ensures
        final(nodes).len() > old(nodes).len(),
        forall|j: int| 0 <= j < old(nodes).len() ==> final(nodes)@[j] == old(nodes)@[j],
        nodes_wf(final(nodes)@, chars.len() as int),
        final(nodes)@[old(nodes).len() as int].path@ == node@.2,
        final(nodes)@[old(nodes).len() as int].parent == parent,
        final(nodes)@[old(nodes).len() as int].field_name == field_name,
        forall|j: int|
            old(nodes).len() <= j < final(nodes).len() ==> #[trigger] copies_parsed_node(
                final(nodes)@,
                j,
                node@.0,
                chars,
            ),
        forall|j: int|
            old(nodes).len() < j < final(nodes).len() ==> #[trigger] reached_from_parent(final(nodes)@, j)
                && final(nodes)@[j].parent.unwrap() >= old(nodes).len(),
    decreases parsed_descendant_count(node@.0, node@.1, node@.2),
{
    let ghost start = nodes@;
    let index = nodes.len();
    let start_byte = node_start_byte(node);
    let end_byte = node_end_byte(node);
    let first = char_index_of_byte(offsets, start_byte, Ghost(chars));
    let last = char_index_of_byte(offsets, end_byte, Ghost(chars));
    let char_range = match (first, last) {
        (Some(s), Some(e)) => if s <= e {
            Some((s, e))
        } else {
            None
        },
        _ => None,
    };
    let start_line = row_to_line(node_start_row(node));
    let end_line = row_to_line(node_end_row(node));
    let record = SyntaxNode {
        kind: node_kind(node),
        field_name,
        is_named: node_is_named(node),
        start_byte,
        end_byte,
        start_line,
        end_line,
        char_range,
        parent,
        children: Vec::new(),
        path: Ghost(node@.2),
    };
    nodes.push(record);
    let count = node_child_count(node);
    let mut kids: Vec<usize> = Vec::new();
    let mut k: usize = 0;
    while k < count
        invariant
            node@.1 == chars,
            utf8_length(chars) <= u32::MAX,
            offsets.len() == chars.len() + 1,
            forall|m: int| 0 <= m <= chars.len() ==> #[trigger] offsets@[m] == byte_offset(chars, m),
            count == parsed_child_count(node@.0, node@.1, node@.2),
            index == start.len(),
            index < nodes.len(),
            k <= count,
            kids.len() == k,
            forall|j: int| 0 <= j < index ==> nodes@[j] == start[j],
            nodes@[index as int].children.len() == 0,
            nodes@[index as int].path@ == node@.2,
            nodes@[index as int].parent == parent,
            nodes@[index as int].field_name == field_name,
            nodes@[index as int].kind@ == parsed_kind(node@.0, chars, node@.2),
            nodes@[index as int].is_named == parsed_is_named(node@.0, chars, node@.2),
            nodes@[index as int].start_byte == parsed_start_byte(node@.0, chars, node@.2),
            nodes@[index as int].end_byte == parsed_end_byte(node@.0, chars, node@.2),
            nodes@[index as int].start_line == line_of_row(parsed_start_row(node@.0, chars, node@.2)),
            nodes@[index as int].end_line == line_of_row(parsed_end_row(node@.0, chars, node@.2)),
            nodes@[index as int].char_range == char_range_spec(
                chars,
                nodes@[index as int].start_byte as int,
                nodes@[index as int].end_byte as int,
            ),
            nodes_wf(nodes@, chars.len() as int),
            forall|m: int|
                0 <= m < k ==> {
                    let c = #[trigger] kids@[m] as int;
                    &&& index < c < nodes.len()
                    &&& nodes@[c].path@ == node@.2.push(m as usize)
                    &&& nodes@[c].parent == Some(index)
                    &&& field_view(nodes@[c].field_name) == parsed_field_name(node@.0, chars, node@.2, m as u32)
                },
            forall|j: int| index < j < nodes.len() ==> #[trigger] copies_parsed_node(nodes@, j, node@.0, chars),
            forall|j: int|
                index < j < nodes.len() ==> match #[trigger] nodes@[j].parent {
                    Some(q) => index <= q < j && nodes@[j].path@.len() > 0 && if q == index {
                        nodes@[j].path@.last() < kids.len() && kids@[nodes@[j].path@.last() as int] == j
                    } else {
                        reached_from_parent(nodes@, j)
                    },
                    None => false,
                },
        decreases count - k,
    {
        assert(k < parsed_child_count(node@.0, node@.1, node@.2));
        match node_child(node, k) {
            Some(child) => {
                let field = node_field_name_for_child(node, k as u32);
                let c = nodes.len();
                let ghost before = nodes@;
                copy_subtree(&child, Some(index), field, offsets, Ghost(chars), nodes);
                kids.push(c);
                proof {
                    assert forall|m: int| 0 <= m < k + 1 implies {
                        let d = #[trigger] kids@[m] as int;
                        &&& index < d < nodes.len()
                        &&& nodes@[d].path@ == node@.2.push(m as usize)
                        &&& nodes@[d].parent == Some(index)
                        &&& field_view(nodes@[d].field_name) == parsed_field_name(node@.0, chars, node@.2, m as u32)
                    } by {
                        if m < k {
                            assert(nodes@[kids@[m] as int] == before[kids@[m] as int]);
                        }
                    }
                    assert forall|j: int| index < j < nodes.len() implies #[trigger] copies_parsed_node(
                        nodes@,
                        j,
                        node@.0,
                        chars,
                    ) by {
                        if j < c {
                            assert(copies_parsed_node(before, j, node@.0, chars));
                            assert(nodes@[j] == before[j]);
                            assert forall|m: int| 0 <= m < nodes@[j].children.len() implies nodes@[
                                nodes@[j].children@[m] as int] == before[before[j].children@[m] as int] by {
                                assert(j < before[j].children@[m] < c);
                            }
                        }
                    }
                    assert forall|j: int| index < j < nodes.len() implies match #[trigger] nodes@[j].parent {
                        Some(q) => index <= q < j && nodes@[j].path@.len() > 0 && if q == index {
                            nodes@[j].path@.last() < kids.len() && kids@[nodes@[j].path@.last() as int] == j
                        } else {
                            reached_from_parent(nodes@, j)
                        },
                        None => false,
                    } by {
                        if j < c {
                            assert(nodes@[j] == before[j]);
                            match nodes@[j].parent {
                                Some(q) => {
                                    if q != index {
                                        assert(reached_from_parent(before, j));
                                        assert(nodes@[q as int] == before[q as int]);
                                    }
                                },
                                None => {},
                            }
                        } else if j == c {
                            assert(nodes@[j].path@.last() == k);
                        } else {
                            assert(reached_from_parent(nodes@, j));
                        }
                    }
                }
            },
            None => {},
        }
        k = k + 1;
    }
    let mut done = nodes[index].clone_without_children();
    done.children = kids;
    let ghost filled = nodes@;
    nodes.set(index, done);
    proof {
        assert(nodes_wf(nodes@, chars.len() as int)) by {
            assert forall|i: int, m: int|
                0 <= i < nodes.len() && 0 <= m < nodes@[i].children.len() implies i
                    < #[trigger] nodes@[i].children@[m] < nodes.len() by {
                if i != index {
                    assert(nodes@[i] == filled[i]);
                }
            }
            assert forall|i: int| 0 <= i < nodes.len() implies match #[trigger] nodes@[i].parent {
                Some(p) => p < i,
                None => true,
            } by {
                if i != index {
                    assert(nodes@[i] == filled[i]);
                }
            }
            assert forall|i: int| 0 <= i < nodes.len() implies match #[trigger] nodes@[i].char_range {
                Some((s, e)) => s <= e <= chars.len(),
                None => true,
            } by {
                if i != index {
                    assert(nodes@[i] == filled[i]);
                }
            }
            assert forall|i: int| 0 <= i < nodes.len() implies #[trigger] nodes@[i].start_line
                <= nodes@[i].end_line by {
                if i != index {
                    assert(nodes@[i] == filled[i]);
                }
            }
            assert forall|i: int| 0 <= i < nodes.len() implies #[trigger] nodes@[i].start_byte
                <= nodes@[i].end_byte by {
                if i != index {
                    assert(nodes@[i] == filled[i]);
                }
            }
        }
        assert forall|j: int| index <= j < nodes.len() implies #[trigger] copies_parsed_node(
            nodes@,
            j,
            node@.0,
            chars,
        ) by {
            if j > index {
                assert(copies_parsed_node(filled, j, node@.0, chars));
                assert(nodes@[j] == filled[j]);
                assert forall|m: int| 0 <= m < nodes@[j].children.len() implies nodes@[
                    nodes@[j].children@[m] as int] == filled[filled[j].children@[m] as int] by {
                    assert(j < filled[j].children@[m] < nodes.len());
                }
            } else {
                assert forall|m: int| 0 <= m < nodes@[j].children.len() implies nodes@[
                    nodes@[j].children@[m] as int] == filled[nodes@[j].children@[m] as int] by {
                    assert(nodes@[j].children@[m] == kids@[m]);
                }
            }
        }
        assert forall|j: int| index < j < nodes.len() implies #[trigger] reached_from_parent(nodes@, j)
            && nodes@[j].parent.unwrap() >= index by {
            assert(nodes@[j] == filled[j]);
            match filled[j].parent {
                Some(q) => {
                    if q != index {
                        assert(reached_from_parent(filled, j));
                        assert(nodes@[q as int] == filled[q as int]);
                    }
                },
                None => {},
            }
        }
    }
}

/// Parses `source` with the grammar of `language` and copies the tree into the plain model
/// (see `copies_parse`). There is a tree exactly when the parser accepts the grammar and
/// the source's UTF-8 length fits in 32 bits.
pub fn parse_syntax_tree(language: SupportedLanguage, source: &str) -> (r: Option<SyntaxTree>)
    ensures
        match r {
            Some(tree) => tree.wf() && copies_parse(tree, language, source@),
            None => !grammar_accepted(language) || utf8_length(source@) > u32::MAX,
        },
        r is Some <==> grammar_accepted(language) && utf8_length(source@) <= u32::MAX,
{
    let mut parser = new_parser();
    let grammar = language_grammar(language);
    if !parser_set_language(&mut parser, &grammar) {
        return None;
    }
    let chars = chars_of(source);
    let offsets = match byte_offsets(&chars) {
        Some(offsets) => offsets,
        None => {
            return None;
        },
    };
    if offsets[chars.len()] > 0xffff_ffff {
        return None;
    }
    let parsed = match parser_parse(&mut parser, source) {
        Some(parsed) => parsed,
        None => {
            return None;
        },
    };
    let root = tree_root_node(&parsed);
    let root_has_error = node_has_error(&root);
    let mut nodes: Vec<SyntaxNode> = Vec::with_capacity(node_descendant_count(&root));
    copy_subtree(&root, None, None, &offsets, Ghost(chars@), &mut nodes);
    let tree = SyntaxTree { source: chars, nodes, root_has_error };
    proof {
        assert(tree.nodes@[0].path@ == Seq::<usize>::empty());
        assert forall|i: int| 0 <= i < tree.nodes.len() implies #[trigger] copies_parsed_node(
            tree.nodes@,
            i,
            language,
            source@,
        ) by {
            assert(copies_parsed_node(nodes@, i, parsed@.0, chars@));
        }
        assert forall|i: int| 0 < i < tree.nodes.len() implies #[trigger] reached_from_parent(tree.nodes@, i) by {
            assert(reached_from_parent(nodes@, i));
        }
    }
    Some(tree)
}

} // verus!
