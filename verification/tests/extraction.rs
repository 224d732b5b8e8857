use code_search::model::{SearchTarget, SearchTargetKind, SupportedLanguage};
use code_search::parser::bindings::dedup_trace_references;
use code_search::parser::flow::dedup_trace_steps;
use code_search::parser::{analyze_file, populate_sibling_context, ContainerBlock};
use code_search::parser::syntax::parse_syntax_tree;
use code_search::parser::snippets::{
    build_display_snippet, build_import_hint, build_search_text, classify_semantic_role,
    collect_preceding_comments, dedup_strings_preserve_order, extract_signature_text, split_lines,
    trim_end_matches, trim_start_matches,
};

const RUST_SOURCE: &str = "/// Adds numbers.
pub fn add(a: i32, b: i32) -> i32 {
    let total = a + b;
    helper(total)
}

pub struct Point {
    x: i32,
}

impl Point {
    pub fn new() -> Self {
        Point { x: 0 }
    }
}

#[test]
fn test_add() {
    add(1, 2);
}
";

const GO_SOURCE: &str = "package main

func TestSum(t *testing.T) {
	x := compute(1)
	use(x)
}
";

const TS_SOURCE: &str = "export function greet(name: string): string {
  const message = format(name);
  return message;
}

class Greeter {
  hello(): void {
    greet(\"x\");
  }
}
";

fn strings(values: &[&str]) -> Vec<String> {
    values.iter().map(|v| v.to_string()).collect()
}

fn names(targets: &[SearchTarget]) -> Vec<String> {
    targets.iter().map(|t| t.symbol_name.clone()).collect()
}

#[test]
fn rust_declarations_become_targets_in_source_order() {
    let analysis = analyze_file("/repo", "/repo/src/lib.rs", RUST_SOURCE);
    assert_eq!(analysis.warning_count, 0);
    assert_eq!(names(&analysis.targets), strings(&["add", "total", "Point", "new", "test_add"]));
    let kinds: Vec<SearchTargetKind> = analysis.targets.iter().map(|t| t.target_kind).collect();
    assert_eq!(
        kinds,
        vec![
            SearchTargetKind::Function,
            SearchTargetKind::LocalBinding,
            SearchTargetKind::Type,
            SearchTargetKind::Method,
            SearchTargetKind::Function,
        ]
    );
    assert!(analysis.targets.iter().all(|t| t.language == SupportedLanguage::Rust && t.file_path == "src/lib.rs"));
}

#[test]
fn rust_function_target_holds_its_declaration() {
    let analysis = analyze_file("/repo", "/repo/src/lib.rs", RUST_SOURCE);
    let add = &analysis.targets[0];
    assert_eq!(add.target_id, "src/lib.rs#L2-L5:function:add");
    assert_eq!((add.line_start, add.line_end), (2, 5));
    assert_eq!(add.doc_comment, Some("/// Adds numbers.".to_string()));
    assert_eq!(add.signature_text, Some("pub fn add(a: i32, b: i32) -> i32".to_string()));
    assert_eq!(add.declaration_snippet, "pub fn add(a: i32, b: i32) -> i32");
    assert_eq!(add.return_type_hint, Some("i32".to_string()));
    let parameter_names: Vec<String> = add.parameter_descriptions.iter().map(|p| p.name.clone()).collect();
    let parameter_texts: Vec<String> = add.parameter_descriptions.iter().map(|p| p.text.clone()).collect();
    assert_eq!(parameter_names, strings(&["a", "b"]));
    assert_eq!(parameter_texts, strings(&["a: i32", "b: i32"]));
    assert_eq!(add.call_names, strings(&["helper"]));
    assert_eq!(add.outgoing_dependencies.len(), 1);
    assert_eq!(add.outgoing_dependencies[0].label, "helper()");
    assert_eq!(add.outgoing_dependencies[0].line_start, 4);
    assert_eq!(add.import_hint, Some("use crate::add;".to_string()));
    assert_eq!(add.semantic_role, None);
    assert_eq!(add.symbol_name_search_text, "add");
    assert_eq!(add.signature_search_text, "pub fn add(a: i32, b: i32) -> i32\na: i32\nb: i32");
    assert_eq!(add.sibling_symbol_names, strings(&["Point", "test_add"]));
    assert_eq!(add.container_name, None);
}

#[test]
fn rust_local_binding_traces_its_inputs_and_uses() {
    let analysis = analyze_file("/repo", "/repo/src/lib.rs", RUST_SOURCE);
    let total = &analysis.targets[1];
    assert_eq!(total.target_id, "src/lib.rs#L3-L3:local_binding:total");
    assert_eq!(total.parent_symbol_name, Some("add".to_string()));
    assert_eq!(total.parent_symbol_name_search_text, Some("add".to_string()));
    assert_eq!(total.declaration_snippet, "let total = a + b;");
    let incoming: Vec<String> = total.incoming_dependencies.iter().map(|d| d.label.clone()).collect();
    assert_eq!(incoming, strings(&["a: i32", "b: i32"]));
    let flow: Vec<String> = total.flow_steps.iter().map(|s| s.label.clone()).collect();
    assert_eq!(flow, strings(&["helper(total)"]));
    assert_eq!(total.flow_steps[0].line_start, 4);
    assert!(total.sibling_symbol_names.is_empty());
}

#[test]
fn rust_impl_members_get_their_container() {
    let analysis = analyze_file("/repo", "/repo/src/lib.rs", RUST_SOURCE);
    let point = &analysis.targets[2];
    assert_eq!(point.import_hint, Some("use crate::Point;".to_string()));
    let new = &analysis.targets[3];
    assert_eq!(new.container_name, Some("Point".to_string()));
    assert_eq!(new.parent_symbol_name, Some("Point".to_string()));
    assert_eq!(new.semantic_role, Some("constructor".to_string()));
    assert_eq!(new.import_hint, None);
    assert!(new.sibling_symbol_names.is_empty());
    let test_add = &analysis.targets[4];
    assert_eq!(test_add.semantic_role, Some("test".to_string()));
    assert_eq!(test_add.call_names, strings(&["add"]));
}

#[test]
fn go_short_declarations_are_local_bindings() {
    let analysis = analyze_file("/repo", "/repo/main_test.go", GO_SOURCE);
    assert_eq!(analysis.warning_count, 0);
    assert_eq!(names(&analysis.targets), strings(&["TestSum", "x"]));
    let test_sum = &analysis.targets[0];
    assert_eq!(test_sum.target_kind, SearchTargetKind::Function);
    assert_eq!(test_sum.semantic_role, Some("test".to_string()));
    assert_eq!(test_sum.call_names, strings(&["compute", "use"]));
    assert_eq!(test_sum.parameter_descriptions[0].name, "t");
    assert_eq!(test_sum.import_hint, None);
    let x = &analysis.targets[1];
    assert_eq!(x.target_kind, SearchTargetKind::LocalBinding);
    assert_eq!(x.parent_symbol_name, Some("TestSum".to_string()));
    assert_eq!(x.call_names, strings(&["compute"]));
    let flow: Vec<String> = x.flow_steps.iter().map(|s| s.label.clone()).collect();
    assert_eq!(flow, strings(&["use(x)"]));
}

#[test]
fn typescript_classes_functions_and_bindings() {
    let analysis = analyze_file("/repo", "/repo/src/greet.ts", TS_SOURCE);
    assert_eq!(names(&analysis.targets), strings(&["greet", "message", "Greeter", "hello"]));
    let greet = &analysis.targets[0];
    assert_eq!(greet.return_type_hint, Some("string".to_string()));
    assert_eq!(greet.import_hint, Some("import { greet } from './src/greet';".to_string()));
    assert_eq!(greet.call_names, strings(&["format"]));
    let message = &analysis.targets[1];
    assert_eq!(message.declaration_snippet, "const message = format(name);");
    let incoming: Vec<String> = message.incoming_dependencies.iter().map(|d| d.label.clone()).collect();
    assert_eq!(incoming, strings(&["name: string"]));
    let flow: Vec<String> = message.flow_steps.iter().map(|s| s.label.clone()).collect();
    assert_eq!(flow, strings(&["return message;"]));
    let greeter = &analysis.targets[2];
    assert_eq!(greeter.target_kind, SearchTargetKind::Type);
    assert_eq!(greeter.container_name, Some("Greeter".to_string()));
    assert_eq!(greeter.sibling_symbol_names, strings(&["hello"]));
    let hello = &analysis.targets[3];
    assert_eq!(hello.target_kind, SearchTargetKind::Method);
    assert_eq!(hello.parent_symbol_name, Some("Greeter".to_string()));
    assert_eq!(hello.call_names, strings(&["greet"]));
}

#[test]
fn a_file_without_declarations_becomes_one_file_target() {
    let analysis = analyze_file("/repo", "/repo/main.go", "package main\n");
    assert_eq!(analysis.warning_count, 0);
    assert_eq!(analysis.targets.len(), 1);
    let file = &analysis.targets[0];
    assert_eq!(file.target_kind, SearchTargetKind::File);
    assert_eq!(file.symbol_name, "main.go");
    assert_eq!(file.target_id, "main.go#L1-L1:file:main.go");
    assert_eq!(file.context_search_text, "package main");
    assert_eq!(file.declaration_snippet, "package main");
}

#[test]
fn unsupported_files_yield_nothing() {
    let analysis = analyze_file("/repo", "/repo/notes.py", "def f(): pass\n");
    assert!(analysis.targets.is_empty());
    assert_eq!(analysis.warning_count, 0);
}

#[test]
fn syntax_errors_count_as_a_warning() {
    let analysis = analyze_file("/repo", "/repo/src/broken.rs", "fn broken( {\n");
    assert_eq!(analysis.warning_count, 1);
    assert!(!analysis.targets.is_empty());
}

#[test]
fn lines_split_like_str_lines() {
    assert_eq!(split_lines("a\r\nb\n\nc"), strings(&["a", "b", "", "c"]));
    assert_eq!(split_lines("x\n"), strings(&["x"]));
    assert_eq!(split_lines(""), Vec::<String>::new());
    assert_eq!(split_lines("a\r"), strings(&["a\r"]));
}

#[test]
fn signatures_stop_at_the_body() {
    assert_eq!(extract_signature_text("fn a(\n  x: u8,\n) -> u8 {\n  x\n}"), "fn a( x: u8, ) -> u8");
    assert_eq!(extract_signature_text("\n\nstruct S;"), "struct S");
    assert_eq!(extract_signature_text(""), "");
}

#[test]
fn comments_directly_above_a_line() {
    let lines = strings(&["// a", "/* b */", "fn x() {}"]);
    assert_eq!(collect_preceding_comments(&lines, 3), "// a\n/* b */");
    let separated = strings(&["// a", "", "fn x() {}"]);
    assert_eq!(collect_preceding_comments(&separated, 3), "");
    assert_eq!(collect_preceding_comments(&lines, 1), "");
}

#[test]
fn search_text_and_snippets() {
    assert_eq!(build_search_text(&strings(&["  a  b ", "", "c"])), "a b\nc");
    assert_eq!(build_display_snippet("", "fn a() {\n\n  x();\n}\n"), "fn a() {\nx();\n}");
    assert_eq!(build_display_snippet("// one\n// two", "x"), "// one\n// two\nx");
}

#[test]
fn names_deduplicate_in_order() {
    assert_eq!(dedup_strings_preserve_order(&strings(&["b", "", "a", "b"])), strings(&["b", "a"]));
}

#[test]
fn roles_follow_names_and_attributes() {
    assert_eq!(classify_semantic_role("new_thing", SupportedLanguage::Rust, false), Some("constructor".to_string()));
    assert_eq!(classify_semantic_role("TestX", SupportedLanguage::Go, false), Some("test".to_string()));
    assert_eq!(classify_semantic_role("BenchmarkX", SupportedLanguage::Go, false), Some("benchmark".to_string()));
    assert_eq!(classify_semantic_role("TestX", SupportedLanguage::Rust, false), None);
    assert_eq!(classify_semantic_role("check", SupportedLanguage::Rust, true), Some("test".to_string()));
    assert_eq!(classify_semantic_role("get_x", SupportedLanguage::TypeScript, false), Some("getter".to_string()));
    assert_eq!(classify_semantic_role("set_x", SupportedLanguage::TypeScript, false), Some("setter".to_string()));
    assert_eq!(classify_semantic_role("handle_y", SupportedLanguage::Rust, false), Some("handler".to_string()));
    assert_eq!(classify_semantic_role("to_string", SupportedLanguage::Rust, false), Some("converter".to_string()));
    assert_eq!(classify_semantic_role("builder", SupportedLanguage::Rust, false), Some("builder".to_string()));
}

#[test]
fn import_hints_by_language() {
    assert_eq!(
        build_import_hint("Svc", "src/search/mod.rs", SupportedLanguage::Rust, SearchTargetKind::Type),
        Some("use crate::search::Svc;".to_string())
    );
    assert_eq!(
        build_import_hint("f", "src/main.rs", SupportedLanguage::Rust, SearchTargetKind::Function),
        Some("use crate::f;".to_string())
    );
    assert_eq!(build_import_hint("m", "src/a.rs", SupportedLanguage::Rust, SearchTargetKind::Method), None);
    assert_eq!(
        build_import_hint("A", "web/app.tsx", SupportedLanguage::TypeScript, SearchTargetKind::Type),
        Some("import { A } from './web/app';".to_string())
    );
    assert_eq!(build_import_hint("F", "a.go", SupportedLanguage::Go, SearchTargetKind::Function), None);
}

#[test]
fn repeated_prefixes_and_suffixes_are_removed() {
    assert_eq!(trim_start_matches("this.this.x", "this."), "x");
    assert_eq!(trim_end_matches("a;;", ";"), "a");
    assert_eq!(trim_start_matches("abc", ""), "abc");
}

const TS_CHAIN_SOURCE: &str = "class ReviewService {
  getClinicalReview(query) {
    const clinicalReviewQuery = this.repo.find(query);
    return combineLatest([clinicalReviewQuery, patientInfoQuery]).pipe(
      map(([clinicalReviewData, patientInfo]) => {
        return clinicalReviewData.value;
      }),
    );
  }
}
";

#[test]
fn typescript_chains_carry_a_binding_through_its_operators() {
    let analysis = analyze_file("/repo", "/repo/review.service.ts", TS_CHAIN_SOURCE);
    let binding = analysis
        .targets
        .iter()
        .find(|t| t.symbol_name == "clinicalReviewQuery")
        .expect("the binding is a target");
    assert_eq!(binding.target_kind, SearchTargetKind::LocalBinding);
    assert_eq!(binding.parent_symbol_name, Some("getClinicalReview".to_string()));
    let incoming: Vec<String> = binding.incoming_dependencies.iter().map(|d| d.label.clone()).collect();
    assert_eq!(incoming, strings(&["query"]));
    let flow: Vec<(usize, String)> = binding.flow_steps.iter().map(|s| (s.line_start, s.label.clone())).collect();
    assert_eq!(
        flow,
        vec![
            (4, "combineLatest([clinicalReviewQuery, patientInfoQuery])".to_string()),
            (5, "map(([clinicalReviewData, patientInfo]) => { return clinicalReviewData.value; })".to_string()),
            (6, "return clinicalReviewData.value;".to_string()),
        ]
    );
}

fn reference(label: &str, line: usize) -> code_search::model::TraceReference {
    code_search::model::TraceReference {
        label: label.to_string(),
        line_start: line,
        line_end: line,
        snippet: label.to_string(),
        detail: None,
    }
}

fn step(label: &str, line: usize) -> code_search::model::TraceStep {
    code_search::model::TraceStep { label: label.to_string(), line_start: line, line_end: line, snippet: label.to_string() }
}

#[test]
fn references_keep_one_per_label_in_line_order() {
    let refs = vec![reference("b", 5), reference("a", 7), reference("b", 2), reference("c", 2), reference("a", 7)];
    let kept: Vec<(usize, String)> = dedup_trace_references(&refs).iter().map(|r| (r.line_start, r.label.clone())).collect();
    assert_eq!(kept, vec![(2, "b".to_string()), (2, "c".to_string()), (7, "a".to_string())]);
}

#[test]
fn steps_keep_one_per_line_and_label() {
    let steps = vec![step("x()", 4), step("x()", 2), step("x()", 4), step("a()", 4)];
    let kept: Vec<(usize, String)> = dedup_trace_steps(&steps).iter().map(|s| (s.line_start, s.label.clone())).collect();
    assert_eq!(kept, vec![(2, "x()".to_string()), (4, "a()".to_string()), (4, "x()".to_string())]);
}

#[test]
fn filling_in_containers_keeps_every_target() {
    let analysis = analyze_file("/repo", "/repo/src/lib.rs", RUST_SOURCE);
    let mut targets = analysis.targets.clone();
    let ids_before: Vec<String> = targets.iter().map(|t| t.target_id.clone()).collect();
    let blocks = vec![ContainerBlock {
        line_start: 1,
        line_end: 100,
        container_name: "Everything".to_string(),
        member_names: strings(&["add", "other"]),
    }];
    populate_sibling_context(&mut targets, &blocks);
    let ids_after: Vec<String> = targets.iter().map(|t| t.target_id.clone()).collect();
    assert_eq!(ids_before, ids_after);
    assert!(targets.iter().all(|t| t.container_name == Some("Everything".to_string())));
    assert_eq!(targets[0].sibling_symbol_names, strings(&["other"]));
    assert_eq!(targets[3].parent_symbol_name, Some("Everything".to_string()));
}

#[test]
fn parse_copies_the_syntax_tree() {
    let tree = parse_syntax_tree(SupportedLanguage::Rust, "fn main() {}\n").unwrap();
    assert_eq!(tree.nodes[0].kind, "source_file");
    assert_eq!(tree.nodes[0].parent, None);
    assert!(!tree.root_has_error);
    assert_eq!(tree.nodes[0].children.len(), 1);
    let function = tree.nodes[0].children[0];
    assert_eq!(tree.nodes[function].kind, "function_item");
    assert_eq!(tree.nodes[function].parent, Some(0));
    assert_eq!(tree.nodes[function].start_line, 1);
    assert_eq!(tree.nodes[function].end_line, 1);
    assert_eq!(tree.nodes[function].char_range, Some((0, 12)));
    let name = tree.nodes[function]
        .children
        .iter()
        .copied()
        .find(|&c| tree.nodes[c].field_name.as_deref() == Some("name"))
        .unwrap();
    assert_eq!(tree.nodes[name].kind, "identifier");
    assert!(tree.nodes[name].is_named);
    assert_eq!(tree.nodes[name].start_byte, 3);
    assert_eq!(tree.nodes[name].end_byte, 7);
    for node in &tree.nodes {
        assert!(node.start_line <= node.end_line);
        assert!(node.start_byte <= node.end_byte);
    }
}

#[test]
fn parse_reports_syntax_errors_and_character_ranges() {
    let broken = parse_syntax_tree(SupportedLanguage::Rust, "fn broken( {\n").unwrap();
    assert!(broken.root_has_error);
    let go = parse_syntax_tree(SupportedLanguage::Go, "package main\n// é\nfunc f() {}\n").unwrap();
    assert_eq!(go.nodes[0].kind, "source_file");
    let function = go.nodes[0]
        .children
        .iter()
        .copied()
        .find(|&c| go.nodes[c].kind == "function_declaration")
        .unwrap();
    assert_eq!(go.nodes[function].start_line, 3);
    assert_eq!(go.nodes[function].start_byte, 19);
    assert_eq!(go.nodes[function].char_range, Some((18, 29)));
}
