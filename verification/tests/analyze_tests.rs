use rust_signatures_mcp::analyze::{file_result, path_not_found, single_file_outcome, WalkBudget};
use rust_signatures_mcp::types::{AnalyzeResult, FileResult, Signature};

fn fns(names: &[&str]) -> Vec<Signature> {
    names
        .iter()
        .map(|n| Signature::Fn { docs: vec![], signature: format!("fn   {}()", n) })
        .collect()
}

fn file(path: &str, names: &[&str]) -> FileResult {
    FileResult { path: path.into(), signatures: fns(names) }
}

#[test]
fn path_not_found_message() {
    match path_not_found("/nonexistent/path/to/file.rs") {
        AnalyzeResult::Error { message } => {
            assert_eq!(message, "Path not found: /nonexistent/path/to/file.rs")
        }
        AnalyzeResult::Success { .. } => panic!("expected error"),
    }
}

#[test]
fn single_file_not_rust() {
    match single_file_outcome(false, None, None) {
        AnalyzeResult::Error { message } => assert_eq!(message, "Not a Rust file."),
        AnalyzeResult::Success { .. } => panic!("expected error"),
    }
}

#[test]
fn single_file_unreadable() {
    match single_file_outcome(true, None, Some(3)) {
        AnalyzeResult::Error { message } => assert_eq!(message, "Failed to parse file."),
        AnalyzeResult::Success { .. } => panic!("expected error"),
    }
}

#[test]
fn single_file_counts_all_signatures() {
    let fr = file_result("valid.rs".into(), "fn test_fn() -> bool { true }\nstruct TestStruct;\n");
    match single_file_outcome(true, Some(fr), None) {
        AnalyzeResult::Success { files } => {
            assert_eq!(files.len(), 1);
            assert_eq!(files[0].path, "valid.rs");
            assert_eq!(files[0].signatures.len(), 2);
        }
        AnalyzeResult::Error { message } => panic!("expected success, got: {}", message),
    }
}

#[test]
fn single_file_limit_cuts_signatures() {
    let fr = file_result("max.rs".into(), "fn a() {}\nfn b() {}\nfn c() {}\nfn d() {}\nfn e() {}\n");
    match single_file_outcome(true, Some(fr), Some(2)) {
        AnalyzeResult::Success { files } => {
            assert_eq!(files[0].signatures.len(), 2);
            match &files[0].signatures[1] {
                Signature::Fn { signature, .. } => assert!(signature.contains("b")),
                other => panic!("expected Fn, got {:?}", other),
            }
        }
        AnalyzeResult::Error { message } => panic!("expected success, got: {}", message),
    }
}

#[test]
fn walk_limit_spreads_over_files() {
    let mut walk = WalkBudget::new(Some(3));
    assert!(walk.offer(file("a.rs", &["a1", "a2"])));
    assert!(walk.offer(file("b.rs", &["b1", "b2"])));
    assert!(!walk.offer(file("c.rs", &["c1"])));
    match walk.finish() {
        AnalyzeResult::Success { files } => {
            let total: usize = files.iter().map(|f| f.signatures.len()).sum();
            assert_eq!(total, 3);
            assert_eq!(files.len(), 2);
            assert_eq!(files[1].signatures.len(), 1);
        }
        AnalyzeResult::Error { message } => panic!("expected success, got: {}", message),
    }
}

#[test]
fn walk_without_limit_keeps_everything() {
    let mut walk = WalkBudget::new(None);
    assert!(walk.offer(file("a.rs", &["from_a"])));
    assert!(walk.offer(file("b.rs", &["from_b"])));
    assert!(walk.offer(file("nested/d.rs", &["from_d"])));
    match walk.finish() {
        AnalyzeResult::Success { files } => {
            assert_eq!(files.len(), 3);
            assert!(files.iter().any(|f| f.path.contains("nested") && f.path.ends_with("d.rs")));
        }
        AnalyzeResult::Error { message } => panic!("expected success, got: {}", message),
    }
}

#[test]
fn walk_with_nothing_kept_is_an_error() {
    match WalkBudget::new(None).finish() {
        AnalyzeResult::Error { message } => assert_eq!(message, "No Rust files found."),
        AnalyzeResult::Success { .. } => panic!("expected error"),
    }
    let mut zero = WalkBudget::new(Some(0));
    assert!(!zero.offer(file("a.rs", &["a"])));
    match zero.finish() {
        AnalyzeResult::Error { message } => assert_eq!(message, "No Rust files found."),
        AnalyzeResult::Success { .. } => panic!("expected error"),
    }
}

#[test]
fn file_result_of_invalid_source_is_empty() {
    let fr = file_result("bad.rs".into(), "fn {");
    assert_eq!(fr.path, "bad.rs");
    assert!(fr.signatures.is_empty());
}
