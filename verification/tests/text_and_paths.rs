use code_search::model::{build_target_id, SearchError, SearchMode, SearchTargetKind, SectionCategory, SupportedLanguage, TraceRelation};
use code_search::paths::{compare_paths, file_name, make_relative_path, path_extension};
use code_search::text::{condense_whitespace, join_strings, normalize_query, tokenize_text, trim, truncate_text};

fn strings(values: &[&str]) -> Vec<String> {
    values.iter().map(|v| v.to_string()).collect()
}

#[test]
fn tokenize_splits_case_changes_and_acronyms() {
    assert_eq!(tokenize_text("HTTPServer"), strings(&["http", "server"]));
    assert_eq!(tokenize_text("fooBar v2Beta"), strings(&["foo", "bar", "v2", "beta"]));
    assert_eq!(tokenize_text("build_search_hit"), strings(&["build", "search", "hit"]));
    assert_eq!(tokenize_text("  --  "), Vec::<String>::new());
}

#[test]
fn tokens_cover_the_alphanumerics_lowercased() {
    let text = "parseHTTPRequest_v2";
    let joined: String = tokenize_text(text).concat();
    let expected: String = text.chars().filter(|c| c.is_alphanumeric()).flat_map(|c| c.to_lowercase()).collect();
    assert_eq!(joined, expected);
}

#[test]
fn normalizing_twice_is_normalizing_once() {
    let query = "parseHTTPResponse_v2Beta (draft)";
    let once = normalize_query(query);
    assert_eq!(once, "parse http response v2 beta draft");
    assert_eq!(normalize_query(&once), once);
    assert_eq!(tokenize_text(&once), tokenize_text(query));
}

#[test]
fn normalize_query_joins_tokens() {
    assert_eq!(normalize_query("CodeSearchService"), "code search service");
    assert_eq!(normalize_query("!!!"), "");
}

#[test]
fn condense_and_its_idempotence() {
    let once = condense_whitespace("  a\t b \n\n c  ");
    assert_eq!(once, "a b c");
    assert_eq!(condense_whitespace(&once), once);
    assert_eq!(condense_whitespace(""), "");
}

#[test]
fn truncate_keeps_short_text_and_marks_long_text() {
    assert_eq!(truncate_text("abc", 3), "abc");
    assert_eq!(truncate_text("abcdef", 3), "abc...");
    assert_eq!(truncate_text("", 0), "");
}

#[test]
fn trim_and_join() {
    assert_eq!(trim("  x y \n"), "x y");
    assert_eq!(join_strings(&strings(&["a", "b", "c"]), ", "), "a, b, c");
    assert_eq!(join_strings(&Vec::new(), ", "), "");
}

#[test]
fn path_order_puts_separator_first() {
    assert_eq!(compare_paths("src/a.rs", "src/b.rs"), -1);
    assert_eq!(compare_paths("src/b.rs", "src/a.rs"), 1);
    assert_eq!(compare_paths("src/a.rs", "src/a.rs"), 0);
    assert_eq!(compare_paths("a/b", "a-c"), -1);
    assert_eq!(compare_paths("a", "a/b"), -1);
}

#[test]
fn relative_paths_strip_the_root() {
    assert_eq!(make_relative_path("/repo", "/repo/src/lib.rs"), "src/lib.rs");
    assert_eq!(make_relative_path("/repo/", "/repo/src/lib.rs"), "src/lib.rs");
    assert_eq!(make_relative_path("/other", "/repo/src/lib.rs"), "/repo/src/lib.rs");
    assert_eq!(make_relative_path("/rep", "/repo/src/lib.rs"), "/repo/src/lib.rs");
}

#[test]
fn relative_paths_compare_whole_components() {
    assert_eq!(make_relative_path("/repo//", "/repo//src/./lib.rs"), "src/./lib.rs");
    assert_eq!(make_relative_path("/repo/./", "/repo/src/lib.rs/"), "src/lib.rs");
    assert_eq!(make_relative_path("/repo", "/repo"), "");
    assert_eq!(make_relative_path("/repo", "/repo/"), "");
    assert_eq!(make_relative_path("/", "/repo/a.rs"), "repo/a.rs");
    assert_eq!(make_relative_path("repo", "/repo/a.rs"), "/repo/a.rs");
    assert_eq!(make_relative_path("./repo", "./repo/a.rs"), "a.rs");
    assert_eq!(make_relative_path("", "src/a.rs/"), "src/a.rs");
}

#[test]
fn file_names_and_extensions() {
    assert_eq!(file_name("src/lib.rs"), Some("lib.rs".to_string()));
    assert_eq!(file_name("lib.rs"), Some("lib.rs".to_string()));
    assert_eq!(file_name("src/.."), None);
    assert_eq!(file_name("x.rs//"), Some("x.rs".to_string()));
    assert_eq!(file_name("a/x.rs/"), file_name("a/x.rs"));
    assert_eq!(file_name("a/x.rs/."), file_name("a/x.rs"));
    assert_eq!(file_name("x.rs/."), Some("x.rs".to_string()));
    assert_eq!(file_name("src/./"), Some("src".to_string()));
    assert_eq!(file_name("."), None);
    assert_eq!(file_name("/"), None);
    assert_eq!(path_extension("src/app.tsx"), Some("tsx".to_string()));
    assert_eq!(path_extension("src/.hidden"), None);
    assert_eq!(path_extension("Makefile"), None);
}

#[test]
fn languages_come_from_extensions() {
    assert_eq!(SupportedLanguage::from_path("a/b.rs"), Some(SupportedLanguage::Rust));
    assert_eq!(SupportedLanguage::from_path("main.go"), Some(SupportedLanguage::Go));
    assert_eq!(SupportedLanguage::from_path("x.ts"), Some(SupportedLanguage::TypeScript));
    assert_eq!(SupportedLanguage::from_path("x.tsx"), Some(SupportedLanguage::TypeScript));
    assert_eq!(SupportedLanguage::from_path("x.py"), None);
    assert_eq!(SupportedLanguage::from_path("x.rs/."), Some(SupportedLanguage::Rust));
    assert_eq!(SupportedLanguage::from_path("src//main.go//"), Some(SupportedLanguage::Go));
    assert_eq!(SupportedLanguage::TypeScript.as_str(), "typescript");
}

#[test]
fn target_ids_name_path_lines_kind_and_symbol() {
    assert_eq!(
        build_target_id("src/example.rs", 10, 12, SearchTargetKind::Function, "log"),
        "src/example.rs#L10-L12:function:log"
    );
    assert_eq!(
        build_target_id("a.go", 1, 1, SearchTargetKind::LocalBinding, "x"),
        "a.go#L1-L1:local_binding:x"
    );
}

#[test]
fn names_of_modes_kinds_sections_and_relations() {
    assert_eq!(SearchMode::Direct.as_str(), "direct");
    assert_eq!(SearchMode::Explore.as_str(), "explore");
    assert_eq!(SearchTargetKind::Method.as_str(), "method");
    assert!(SearchTargetKind::Method.is_callable());
    assert!(!SearchTargetKind::Type.is_callable());
    assert_eq!(SectionCategory::DataFlow.as_str(), "data_flow");
    assert_eq!(SectionCategory::DataFlow.title(), "데이터 흐름");
    assert_eq!(SectionCategory::Declaration.title(), "선언");
    assert_eq!(SectionCategory::Usage.title(), "사용법");
    assert_eq!(TraceRelation::OutgoingCall.as_str(), "outgoing_call");
}

#[test]
fn errors_have_kinds_and_messages() {
    let invalid = SearchError::InvalidRequest("limit must be greater than 0".to_string());
    assert_eq!(invalid.kind(), "invalid_request");
    assert_eq!(invalid.message(), "limit must be greater than 0");
    let io = SearchError::Io("denied".to_string());
    assert_eq!(io.kind(), "io");
    assert_eq!(io.message(), "I/O error: denied");
    let engine = SearchError::SearchEngine("broken".to_string());
    assert_eq!(engine.kind(), "search_engine");
    assert_eq!(engine.message(), "search engine error: broken");
}
