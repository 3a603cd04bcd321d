use mx::error::AppError;
use mx::store::{
    cat_check, clean_context, clean_plan, copy_snippet, list_snippets, project_root_index,
    target_path, touch_outcome, TouchAction,
};

#[test]
fn alias_resolution_reads_requirements() {
    let t = target_path("rq").unwrap();
    assert_eq!(t.path, "requirements.md");
    assert!(cat_check(&t.path, true, true).is_ok());
}

#[test]
fn nested_alias_reads_pending_tasks() {
    let t = target_path("pdt").unwrap();
    assert_eq!(t.path, "pending/tasks.md");
    assert_eq!(t.parents, vec!["pending".to_string()]);
}

#[test]
fn directory_is_not_a_file() {
    let t = target_path("somedir.md").unwrap();
    let err = cat_check(&t.path, true, false).unwrap_err();
    assert!(matches!(err, AppError::NotFound(_)));
    let msg = err.message();
    assert!(msg.contains("⚠️"));
    assert!(msg.contains("not a file"));
}

#[test]
fn missing_file_is_not_found() {
    let err = cat_check("tasks.md", false, false).unwrap_err();
    let msg = err.message();
    assert!(msg.contains("⚠️"));
    assert!(msg.contains("not found"));
    assert_eq!(msg, "⚠️ Context file not found: tasks.md");
}

#[test]
fn traversal_key_names_no_file() {
    match target_path("../etc/passwd") {
        Err(AppError::PathTraversal(k)) => assert_eq!(k, "../etc/passwd"),
        _ => panic!("expected a path traversal error"),
    }
}

#[test]
fn pruning_removes_both_parents() {
    let plan = clean_plan(Some("a/b/c".to_string())).unwrap();
    let t = plan.target.as_ref().unwrap();
    assert_eq!(t.path, "a/b/c.md");
    assert_eq!(t.parents, vec!["a/b".to_string(), "a".to_string()]);
    assert!(!t.parents.iter().any(|d| d.is_empty()));
}

#[test]
fn pruning_stops_at_non_empty_parent() {
    let plan = clean_plan(Some("a/b/c".to_string())).unwrap();
    let t = plan.target.as_ref().unwrap();
    // Pruning goes deepest first and stops at the first directory that
    // cannot be removed: with a/d.md present, b goes and a stays.
    let still_full = "a";
    let mut removed = Vec::new();
    for d in &t.parents {
        if d == still_full {
            break;
        }
        removed.push(d.clone());
    }
    assert_eq!(removed, vec!["a/b".to_string()]);
}

#[test]
fn clean_messages() {
    let whole = clean_plan(None).unwrap();
    assert!(whole.target.is_none());
    assert_eq!(clean_context("/p/.mx", &whole, true).unwrap().message, "Removed .mx directory");
    assert_eq!(clean_context("/p/.mx", &whole, false).unwrap().message, ".mx directory not found");
    let one = clean_plan(Some("tk".to_string())).unwrap();
    assert_eq!(clean_context("/p/.mx", &one, true).unwrap().message, "Removed /p/.mx/tasks.md");
    match clean_context("/p/.mx", &one, false) {
        Err(AppError::NotFound(m)) => assert_eq!(m, "File not found: /p/.mx/tasks.md"),
        _ => panic!("expected not found"),
    }
}

#[test]
fn clean_refuses_traversal() {
    assert!(matches!(clean_plan(Some("../outside".to_string())), Err(AppError::PathTraversal(_))));
    assert!(matches!(clean_plan(Some("a/../..".to_string())), Err(AppError::PathTraversal(_))));
}

#[test]
fn touch_twice_keeps_first_file() {
    let first = touch_outcome("tk", "/p/.mx/tasks.md".to_string(), false, false);
    assert_eq!(first.action(), TouchAction::Create);
    assert!(!first.existed);
    let second = touch_outcome("tk", "/p/.mx/tasks.md".to_string(), true, false);
    assert!(second.existed);
    assert!(!second.overwritten);
    assert_eq!(second.action(), TouchAction::Keep);
    assert!(!second.takes_paste(true));
}

#[test]
fn forced_touch_overwrites_and_takes_paste() {
    let o = touch_outcome("tk", "/p/.mx/tasks.md".to_string(), true, true);
    assert_eq!(o.key, "tk");
    assert_eq!(o.path, "/p/.mx/tasks.md");
    assert!(o.existed && o.overwritten);
    assert_eq!(o.action(), TouchAction::Overwrite);
    assert!(o.takes_paste(true));
    assert!(!o.takes_paste(false));
    let created = touch_outcome("tk", "/p/.mx/tasks.md".to_string(), false, true);
    assert!(!created.overwritten);
    assert!(created.takes_paste(true));
}

#[test]
fn copy_snippet_locates_file() {
    let o = copy_snippet("/p/.mx", "pd-tk3").unwrap();
    assert_eq!(o.key, "pd-tk3");
    assert_eq!(o.relative_path, "pending/tasks-3.md");
    assert_eq!(o.absolute_path, "/p/.mx/pending/tasks-3.md");
    assert!(matches!(copy_snippet("/p/.mx", "/etc/passwd"), Err(AppError::PathTraversal(_))));
}

#[test]
fn listing_keeps_markdown_files() {
    let files = vec!["tasks.md".to_string(), "notes.txt".to_string(), "pending/tasks.md".to_string()];
    let entries = list_snippets(&files);
    assert_eq!(entries.len(), 2);
    assert_eq!(entries[0].key, "tasks");
    assert_eq!(entries[0].relative_path, "tasks.md");
    assert_eq!(entries[1].key, "pending/tasks");
    assert!(entries[1].title.is_none() && entries[1].description.is_none());
    assert!(list_snippets(&Vec::new()).is_empty());
}

#[test]
fn project_root_is_nearest_marked_ancestor() {
    assert_eq!(project_root_index(&vec![false, true, true]), 1);
    assert_eq!(project_root_index(&vec![true, false]), 0);
    assert_eq!(project_root_index(&vec![false, false, false]), 0);
    assert_eq!(project_root_index(&Vec::new()), 0);
}
