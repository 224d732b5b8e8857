use code_search::model::{SearchHit, SearchRawTarget, SearchResults, SearchTargetKind, SupportedLanguage, TraceEntry, TraceSection};
use code_search::output::response::{build_error_response, build_search_response};
use code_search::output::text::render_text;
use code_search::parser::FileAnalysis;
use code_search::search::absorb_file_analysis;
use code_search::search::discovery::collect_supported_files;
use code_search::search::validation::{validate_directory, validate_request};
use code_search::{SearchError, SearchMode, SearchRequest, SectionCategory};

fn strings(values: &[&str]) -> Vec<String> {
    values.iter().map(|v| v.to_string()).collect()
}

fn message_of(result: Result<(), SearchError>) -> String {
    match result {
        Err(SearchError::InvalidRequest(message)) => message,
        other => panic!("unexpected {other:?}"),
    }
}

#[test]
fn requests_need_a_limit_and_a_token() {
    let zero = SearchRequest { directory_path: ".".to_string(), query: "log".to_string(), limit: 0 };
    assert_eq!(message_of(validate_request(&zero)), "limit must be greater than 0");
    let empty = SearchRequest { directory_path: ".".to_string(), query: " !? ".to_string(), limit: 3 };
    assert_eq!(message_of(validate_request(&empty)), "query must include at least one searchable token");
    let good = SearchRequest { directory_path: ".".to_string(), query: "log".to_string(), limit: 3 };
    assert!(validate_request(&good).is_ok());
}

#[test]
fn missing_directories_are_rejected() {
    assert_eq!(message_of(validate_directory("/nowhere", false)), "directory does not exist: /nowhere");
    assert!(validate_directory("/somewhere", true).is_ok());
}

#[test]
fn supported_files_are_filtered_and_sorted_by_path() {
    let found = strings(&["b/x.rs", "a.py", "a/y.go", "a-b.ts", "a/z.tsx"]);
    assert_eq!(collect_supported_files(&found), strings(&["a/y.go", "a/z.tsx", "a-b.ts", "b/x.rs"]));
    assert_eq!(collect_supported_files(&Vec::new()), Vec::<String>::new());
}

#[test]
fn file_analyses_add_up() {
    let mut targets = Vec::new();
    let mut warnings = 0usize;
    absorb_file_analysis(&mut targets, &mut warnings, Some(FileAnalysis { targets: Vec::new(), warning_count: 2 }));
    absorb_file_analysis(&mut targets, &mut warnings, None);
    assert_eq!(warnings, 3);
    assert!(targets.is_empty());
}

fn hit() -> SearchHit {
    SearchHit {
        target_id: "src/example.rs#L10-L10:function:log".to_string(),
        target_kind: SearchTargetKind::Function,
        symbol_name: "log".to_string(),
        file_path: "src/example.rs".to_string(),
        language: SupportedLanguage::Rust,
        line_start: 10,
        line_end: 10,
        sections: vec![TraceSection {
            category: SectionCategory::Implementation,
            entries: vec![TraceEntry {
                relation: None,
                text: "fn log()".to_string(),
                location: None,
                annotations: vec!["-> Return type: ()".to_string()],
            }],
        }],
        semantic_role: None,
        raw_target: SearchRawTarget {
            signature_text: Some("fn log()".to_string()),
            return_type_hint: Some("()".to_string()),
            parameter_descriptions: Vec::new(),
            incoming_dependencies: Vec::new(),
            outgoing_dependencies: Vec::new(),
            flow_steps: Vec::new(),
            container_name: None,
            parent_symbol_name: None,
            import_hint: None,
        },
    }
}

#[test]
fn response_documents_carry_the_search() {
    let results = SearchResults { results: vec![hit()], scanned_file_count: 1, matched_target_count: 1, warning_count: 0 };
    let response = build_search_response("log", SearchMode::Direct, &results);
    assert_eq!(response.schema_version, 1);
    assert_eq!(response.query, "log");
    assert_eq!(response.mode, "direct");
    assert_eq!(response.results.len(), 1);
    assert_eq!(response.results[0].sections[0].category, "implementation");
    assert_eq!(response.results[0].sections[0].entries[0].annotations, strings(&["-> Return type: ()"]));
    assert_eq!(response.stats.scanned_file_count, 1);
}

#[test]
fn error_documents_carry_kind_and_message() {
    let response = build_error_response(&SearchError::InvalidRequest("limit must be greater than 0".to_string()));
    assert_eq!(response.error.kind, "invalid_request");
    assert_eq!(response.error.message, "limit must be greater than 0");
}

#[test]
fn text_output_without_results() {
    let results = SearchResults { results: Vec::new(), scanned_file_count: 1, matched_target_count: 0, warning_count: 0 };
    assert_eq!(
        render_text("log", SearchMode::Direct, &results, &Vec::new()),
        "Scanned files: 1\nMatched targets: 0\nWarnings: 0\n\nNo matches found."
    );
}

#[test]
fn text_output_lists_hits_with_their_sections() {
    let results = SearchResults { results: vec![hit()], scanned_file_count: 2, matched_target_count: 1, warning_count: 0 };
    let text = render_text("log", SearchMode::Explore, &results, &strings(&["1.500"]));
    assert!(text.starts_with("Scanned files: 2\nMatched targets: 1\nWarnings: 0\n\n"));
    assert!(text.contains("Mode: explore"));
    assert!(text.contains("━━━ Matches ━━━"));
    assert!(text.contains("  function  log  src/example.rs:10  [exact]  score=1.500"));
    assert!(text.contains("━━━ 구현 ━━━"));
}
