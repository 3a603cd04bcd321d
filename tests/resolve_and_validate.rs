use mx::error::AppError;
use mx::resolve::resolve_path;
use mx::validate::{normalize_path, validate_path};

#[test]
fn alias_table_keys() {
    assert_eq!(resolve_path("tk"), "tasks.md");
    assert_eq!(resolve_path("rq"), "requirements.md");
    assert_eq!(resolve_path("pdt"), "pending/tasks.md");
}

#[test]
fn resolution_is_repeatable() {
    for key in ["tk", "rq", "pdt", "tk4", "pd-rq", "docs/guide"] {
        assert_eq!(resolve_path(key), resolve_path(key));
    }
}

#[test]
fn numbered_family_keys() {
    assert_eq!(resolve_path("tk3"), "tasks-3.md");
    assert_eq!(resolve_path("rq12"), "requirements-12.md");
    assert_eq!(resolve_path("tk0"), "tk0.md");
    assert_eq!(resolve_path("tk03"), "tk03.md");
    assert_eq!(resolve_path("tkx"), "tkx.md");
}

#[test]
fn pending_prefix_keys() {
    assert_eq!(resolve_path("pd-tk"), "pending/tasks.md");
    assert_eq!(resolve_path("pd-tk2"), "pending/tasks-2.md");
    assert_eq!(resolve_path("pd-pdt"), "pending/pending/tasks.md");
    assert_eq!(resolve_path("pd-zz"), "pd-zz.md");
}

#[test]
fn fallback_keys() {
    assert_eq!(resolve_path("docs/guide"), "docs/guide.md");
    assert_eq!(resolve_path("notes.txt"), "notes.txt");
    assert_eq!(resolve_path("somedir.md"), "somedir.md");
    assert_eq!(resolve_path("empty"), "empty.md");
    assert_eq!(resolve_path(""), ".md");
    assert_eq!(resolve_path(".hidden"), ".hidden.md");
    assert_eq!(resolve_path("TK"), "TK.md");
    assert_eq!(resolve_path("../etc/passwd"), "../etc/passwd.md");
}

#[test]
fn traversal_is_refused_with_the_key() {
    match validate_path("../etc/passwd", "../etc/passwd.md") {
        Err(AppError::PathTraversal(k)) => assert_eq!(k, "../etc/passwd"),
        _ => panic!("expected a path traversal error"),
    }
    assert!(matches!(validate_path("k", "a/../../b.md"), Err(AppError::PathTraversal(_))));
    assert!(matches!(validate_path("k", "/etc/passwd.md"), Err(AppError::PathTraversal(_))));
    assert!(matches!(validate_path("k", ".."), Err(AppError::PathTraversal(_))));
}

#[test]
fn confined_paths_are_accepted() {
    assert!(validate_path("k", "a/../b.md").is_ok());
    assert!(validate_path("k", "./x.md").is_ok());
    assert!(validate_path("k", "a//b.md").is_ok());
    assert!(validate_path("k", "tasks.md").is_ok());
}

#[test]
fn normalisation_resolves_dots() {
    let n = normalize_path("a/./b/../c.md").unwrap();
    assert_eq!(n.path, "a/c.md");
    assert_eq!(n.parents, vec!["a".to_string()]);
    let n = normalize_path("x//y/z.md").unwrap();
    assert_eq!(n.path, "x/y/z.md");
    assert_eq!(n.parents, vec!["x/y".to_string(), "x".to_string()]);
    assert!(normalize_path("a/../../b.md").is_none());
    let n = normalize_path("tasks.md").unwrap();
    assert!(n.parents.is_empty());
}

#[test]
fn error_messages() {
    assert_eq!(AppError::NotFound("gone".to_string()).message(), "gone");
    assert_eq!(
        AppError::PathTraversal("../x".to_string()).message(),
        "Path traversal rejected for key: ../x"
    );
    assert_eq!(AppError::Io("disk".to_string()).message(), "I/O error: disk");
    assert_eq!(AppError::Clipboard("busy".to_string()).message(), "Clipboard error: busy");
}

#[test]
fn alias_paths_stay_inside_store() {
    for key in ["tk", "rq", "pdt"] {
        let resolved = resolve_path(key);
        assert!(resolved.ends_with(".md"));
        assert!(validate_path(key, &resolved).is_ok());
    }
}

#[test]
fn escaping_keys_fail_whatever_rule_applies() {
    for key in ["..", "../x", "a/../..", "../../tk", "./../rq"] {
        let resolved = resolve_path(key);
        match validate_path(key, &resolved) {
            Err(AppError::PathTraversal(k)) => assert_eq!(k, key),
            _ => panic!("expected a path traversal error for {}", key),
        }
    }
}
