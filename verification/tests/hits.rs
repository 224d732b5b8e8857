use code_search::model::{SearchTarget, SearchTargetKind, SupportedLanguage};
use code_search::search::ranking::{
    build_caller_index, build_callable_indices_by_name, order_scored_targets, ScoredSearchTarget,
};
use code_search::search::trace::build_search_hit;
use code_search::search::build_search_results;
use code_search::SearchMode;

fn build_callable_target() -> SearchTarget {
    SearchTarget {
        target_id: "src/example.rs#L10-L10:function:log".to_string(),
        file_path: "src/example.rs".to_string(),
        language: SupportedLanguage::Rust,
        target_kind: SearchTargetKind::Function,
        symbol_name: "log".to_string(),
        parent_symbol_name: None,
        parent_symbol_name_search_text: None,
        line_start: 10,
        line_end: 10,
        symbol_name_search_text: "log".to_string(),
        signature_search_text: "log".to_string(),
        context_search_text: "log".to_string(),
        declaration_snippet: "fn log() -> String".to_string(),
        signature_text: Some("fn log() -> String".to_string()),
        return_type_hint: Some("String".to_string()),
        parameter_descriptions: Vec::new(),
        incoming_dependencies: Vec::new(),
        outgoing_dependencies: Vec::new(),
        flow_steps: Vec::new(),
        call_names: Vec::new(),
        doc_comment: None,
        semantic_role: None,
        sibling_symbol_names: Vec::new(),
        container_name: None,
        import_hint: None,
    }
}

fn target(kind: SearchTargetKind, name: &str, path: &str, line: usize, calls: &[&str]) -> SearchTarget {
    let mut t = build_callable_target();
    t.target_kind = kind;
    t.symbol_name = name.to_string();
    t.file_path = path.to_string();
    t.line_start = line;
    t.line_end = line;
    t.call_names = calls.iter().map(|c| c.to_string()).collect();
    t.target_id = format!("{path}#L{line}-L{line}:{}:{name}", kind.as_str());
    t
}

#[test]
fn build_search_hit_uses_english_generated_annotations() {
    let search_targets = vec![build_callable_target()];
    let callable_index = build_callable_indices_by_name(&search_targets);
    let caller_index = build_caller_index(&search_targets, &callable_index);
    let search_hit = build_search_hit(0, &search_targets, &callable_index, &caller_index);

    assert_eq!(
        search_hit.sections[0].entries[0].annotations,
        vec!["-> Return type: String".to_string()]
    );
}

#[test]
fn hit_carries_identity_and_raw_target() {
    let search_targets = vec![build_callable_target()];
    let callable_index = build_callable_indices_by_name(&search_targets);
    let caller_index = build_caller_index(&search_targets, &callable_index);
    let hit = build_search_hit(0, &search_targets, &callable_index, &caller_index);
    assert_eq!(hit.target_id, "src/example.rs#L10-L10:function:log");
    assert_eq!(hit.symbol_name, "log");
    assert_eq!(hit.file_path, "src/example.rs");
    assert_eq!(hit.line_start, 10);
    assert_eq!(hit.raw_target.return_type_hint, Some("String".to_string()));
    assert_eq!(hit.raw_target.signature_text, Some("fn log() -> String".to_string()));
}

#[test]
fn caller_index_lists_callers_of_a_callable() {
    let search_targets = vec![
        target(SearchTargetKind::Function, "log", "src/a.rs", 10, &[]),
        target(SearchTargetKind::Function, "run", "src/a.rs", 20, &["log"]),
        target(SearchTargetKind::Function, "other", "src/b.rs", 5, &["unknown"]),
    ];
    let callable_index = build_callable_indices_by_name(&search_targets);
    assert_eq!(callable_index.get("log"), vec![0]);
    assert_eq!(callable_index.get("missing"), Vec::<usize>::new());
    let caller_index = build_caller_index(&search_targets, &callable_index);
    assert_eq!(caller_index[0], vec![1]);
    assert!(caller_index[1].is_empty());
    assert!(caller_index[2].is_empty());
}

#[test]
fn direct_matches_come_first_in_direct_mode() {
    let search_targets = vec![
        target(SearchTargetKind::LocalBinding, "log", "src/a.rs", 30, &[]),
        target(SearchTargetKind::Function, "log", "src/a.rs", 10, &[]),
        target(SearchTargetKind::Method, "logger", "src/a.rs", 20, &[]),
    ];
    let scored = vec![
        ScoredSearchTarget { target_index: 0, score_rank: 0, is_direct_match: false },
        ScoredSearchTarget { target_index: 1, score_rank: 1, is_direct_match: true },
        ScoredSearchTarget { target_index: 2, score_rank: 2, is_direct_match: false },
    ];
    let order = order_scored_targets(SearchMode::Direct, &scored, &search_targets);
    assert_eq!(order[0], 1);
    let explore = order_scored_targets(SearchMode::Explore, &scored, &search_targets);
    assert_eq!(explore, vec![0, 1, 2]);
}

#[test]
fn search_results_take_the_first_ranked_hits() {
    let search_targets = vec![
        target(SearchTargetKind::Function, "log", "src/a.rs", 10, &[]),
        target(SearchTargetKind::Function, "run", "src/a.rs", 20, &["log"]),
    ];
    let callable_index = build_callable_indices_by_name(&search_targets);
    let caller_index = build_caller_index(&search_targets, &callable_index);
    let ranked = vec![
        ScoredSearchTarget { target_index: 1, score_rank: 0, is_direct_match: false },
        ScoredSearchTarget { target_index: 0, score_rank: 1, is_direct_match: false },
    ];
    let results = build_search_results(&ranked, 1, &search_targets, &callable_index, &caller_index, 3, 2, 1);
    assert_eq!(results.results.len(), 1);
    assert_eq!(results.results[0].symbol_name, "run");
    assert_eq!(results.scanned_file_count, 3);
    assert_eq!(results.matched_target_count, 2);
    assert_eq!(results.warning_count, 1);
}

#[test]
fn hits_open_with_the_section_of_their_kind() {
    let search_targets = vec![
        build_callable_target(),
        target(SearchTargetKind::LocalBinding, "total", "src/example.rs", 11, &[]),
        target(SearchTargetKind::Type, "Point", "src/example.rs", 20, &[]),
        target(SearchTargetKind::File, "example.rs", "src/example.rs", 1, &[]),
    ];
    let callable_index = build_callable_indices_by_name(&search_targets);
    let caller_index = build_caller_index(&search_targets, &callable_index);
    let categories: Vec<code_search::SectionCategory> = (0..search_targets.len())
        .map(|i| build_search_hit(i, &search_targets, &callable_index, &caller_index).sections[0].category)
        .collect();
    assert_eq!(
        categories,
        vec![
            code_search::SectionCategory::Implementation,
            code_search::SectionCategory::Declaration,
            code_search::SectionCategory::Declaration,
            code_search::SectionCategory::MatchCode,
        ]
    );
}
