use rust_signatures_mcp::search::{case_insensitive_query, search_analysis, search_in_files};
use rust_signatures_mcp::types::{AnalyzeResult, FileResult, SearchResult, Signature};

#[test]
fn search_finds_matching_signature() {
    let files = vec![FileResult {
        path: "test.rs".into(),
        signatures: vec![
            Signature::Fn { docs: vec![], signature: "fn   process_data(input: &str) -> Vec<u8>".into() },
            Signature::Fn { docs: vec![], signature: "fn   cleanup()".into() },
        ],
    }];
    let result = search_in_files(&files, "process_data").unwrap();
    match result {
        SearchResult::Success { matches, total_matched } => {
            assert_eq!(total_matched, 1);
            assert_eq!(matches[0].file, "test.rs");
            assert!(matches[0].line.contains("process_data"));
        }
        SearchResult::Error { message } => panic!("expected success, got error: {}", message),
    }
}

#[test]
fn search_is_case_insensitive() {
    let files = vec![FileResult {
        path: "test.rs".into(),
        signatures: vec![Signature::Fn { docs: vec![], signature: "fn   ParseJSON()".into() }],
    }];
    let result = search_in_files(&files, "(?i)parsejson").unwrap();
    match result {
        SearchResult::Success { total_matched, .. } => assert_eq!(total_matched, 1),
        SearchResult::Error { message } => panic!("expected success, got: {}", message),
    }
}

#[test]
fn search_is_case_sensitive_by_default() {
    let files = vec![FileResult {
        path: "test.rs".into(),
        signatures: vec![Signature::Fn { docs: vec![], signature: "fn   ParseJSON()".into() }],
    }];
    let result = search_in_files(&files, "parsejson").unwrap();
    match result {
        SearchResult::Error { message } => assert!(message.contains("No signatures matching")),
        SearchResult::Success { .. } => panic!("expected error for case-sensitive match"),
    }
}

#[test]
fn search_returns_error_when_no_matches() {
    let files = vec![FileResult {
        path: "test.rs".into(),
        signatures: vec![Signature::Fn { docs: vec![], signature: "fn   foo()".into() }],
    }];
    match search_in_files(&files, "nonexistent").unwrap() {
        SearchResult::Error { message } => assert!(message.contains("No signatures matching")),
        SearchResult::Success { .. } => panic!("expected error"),
    }
}

#[test]
fn search_matches_doc_comments() {
    let files = vec![FileResult {
        path: "test.rs".into(),
        signatures: vec![Signature::Fn {
            docs: vec!["Retrieves the user profile from the database.".into()],
            signature: "fn   get_user()".into(),
        }],
    }];
    let result = search_in_files(&files, "database").unwrap();
    match result {
        SearchResult::Success { total_matched, .. } => assert_eq!(total_matched, 1),
        SearchResult::Error { message } => panic!("expected success, got: {}", message),
    }
}

#[test]
fn search_regex_patterns_work() {
    let files = vec![FileResult {
        path: "test.rs".into(),
        signatures: vec![
            Signature::Fn { docs: vec![], signature: "async fn fetch_data() -> Result<Data>".into() },
            Signature::Fn { docs: vec![], signature: "fn sync_process()".into() },
        ],
    }];
    let result = search_in_files(&files, "async fn\\s+\\w+").unwrap();
    match result {
        SearchResult::Success { total_matched, .. } => assert_eq!(total_matched, 1),
        SearchResult::Error { message } => panic!("expected success, got: {}", message),
    }
}

#[test]
fn search_invalid_regex_returns_error() {
    let files = vec![FileResult { path: "test.rs".into(), signatures: vec![] }];
    let result = search_in_files(&files, "(?invalid");
    match result {
        Err(e) => assert!(e.contains("Invalid regex")),
        Ok(_) => panic!("expected error for invalid regex"),
    }
}

#[test]
fn search_messages_are_exact() {
    let files = vec![FileResult {
        path: "a.rs".into(),
        signatures: vec![Signature::Fn { docs: vec![], signature: "fn   foo()".into() }],
    }];
    match search_in_files(&files, "bar").unwrap() {
        SearchResult::Error { message } => assert_eq!(message, "No signatures matching regex \"bar\" found."),
        SearchResult::Success { .. } => panic!("expected error"),
    }
    let err = search_in_files(&files, "[x").unwrap_err();
    assert!(err.starts_with("Invalid regex \"[x\": "));
    assert!(err.len() > "Invalid regex \"[x\": ".len());
}

#[test]
fn search_reports_rendered_text_per_file_in_order() {
    let files = vec![
        FileResult {
            path: "a.rs".into(),
            signatures: vec![
                Signature::Fn { docs: vec!["first".into()], signature: "fn   one()".into() },
                Signature::Struct { docs: vec![], name: "Skip".into(), generics: String::new() },
            ],
        },
        FileResult {
            path: "b.rs".into(),
            signatures: vec![Signature::Trait { docs: vec![], name: "Done".into(), generics: String::new() }],
        },
    ];
    match search_in_files(&files, "one|Done").unwrap() {
        SearchResult::Success { matches, total_matched } => {
            assert_eq!(total_matched, 2);
            assert_eq!(matches.len(), 2);
            assert_eq!(matches[0].file, "a.rs");
            assert_eq!(matches[0].line, "/// first\nfn   one()");
            assert_eq!(matches[1].file, "b.rs");
            assert_eq!(matches[1].line, "trait  Done");
        }
        SearchResult::Error { message } => panic!("expected success, got: {}", message),
    }
}

#[test]
fn search_analysis_passes_errors_through() {
    let failed = AnalyzeResult::Error { message: "Path not found: /x".into() };
    match search_analysis(failed, "x") {
        SearchResult::Error { message } => assert_eq!(message, "Path not found: /x"),
        SearchResult::Success { .. } => panic!("expected error"),
    }
    let ok = AnalyzeResult::Success { files: vec![FileResult { path: "a.rs".into(), signatures: vec![] }] };
    match search_analysis(ok, "[invalid") {
        SearchResult::Error { message } => assert!(message.starts_with("Invalid regex")),
        SearchResult::Success { .. } => panic!("expected error"),
    }
}

#[test]
fn search_analysis_of_parsed_source() {
    let files = vec![FileResult {
        path: "rust_sig_search.rs".into(),
        signatures: rust_signatures_mcp::syntax::analyze_source(
            "fn fetch_user(id: u64) -> User { unimplemented!() }\n",
        ),
    }];
    match search_analysis(AnalyzeResult::Success { files }, "fetch_user") {
        SearchResult::Success { matches, total_matched } => {
            assert_eq!(total_matched, 1);
            assert!(matches[0].line.contains("fetch_user"));
        }
        SearchResult::Error { message } => panic!("expected success, got: {}", message),
    }
}

#[test]
fn case_insensitive_query_matches_any_case() {
    assert_eq!(case_insensitive_query("parsejson"), "(?i)parsejson");
    let files = vec![FileResult {
        path: "test.rs".into(),
        signatures: vec![Signature::Fn { docs: vec![], signature: "fn   ParseJSON()".into() }],
    }];
    match search_in_files(&files, &case_insensitive_query("parsejson")).unwrap() {
        SearchResult::Success { total_matched, .. } => assert_eq!(total_matched, 1),
        SearchResult::Error { message } => panic!("expected success, got: {}", message),
    }
}
