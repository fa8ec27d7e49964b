use tfpin::config::Config;
use tfpin::paths::{canonicalize_roots, display_path, relative_dir, select_files, walk_patterns};

#[test]
fn relative_dir_strips_base_and_uses_forward_slashes() {
    let base = "/repo";
    assert_eq!(relative_dir("/repo/aws/globex/backend.tf", base), "aws/globex");
    assert_eq!(relative_dir("/repo/platform/foo/bar/main.tf", base), "platform/foo/bar");
    // File directly in the config dir has an empty {dir}.
    assert_eq!(relative_dir("/repo/main.tf", base), "");
}

#[test]
fn relative_dir_of_a_file_outside_the_base_keeps_its_whole_directory() {
    assert_eq!(relative_dir("other/x/main.tf", "/repo"), "other/x");
}

#[test]
fn display_path_is_relative_when_possible() {
    assert_eq!(display_path("/repo/aws/main.tf", "/repo"), "aws/main.tf");
    assert_eq!(display_path("/elsewhere/main.tf", "/repo"), "/elsewhere/main.tf");
}

#[test]
fn canonicalize_roots_stops_at_the_first_error() {
    let paths = vec!["a".to_string(), "b".to_string(), "c".to_string()];
    let ok = vec![Ok("/r/a".to_string()), Ok("/r/b".to_string()), Ok("/r/c".to_string())];
    assert_eq!(canonicalize_roots(&paths, &ok), Ok(vec!["/r/a".to_string(), "/r/b".to_string(), "/r/c".to_string()]));
    let bad = vec![
        Ok("/r/a".to_string()),
        Err("No such file or directory (os error 2)".to_string()),
        Err("later".to_string()),
    ];
    assert_eq!(
        canonicalize_roots(&paths, &bad),
        Err("b: No such file or directory (os error 2)".to_string())
    );
}

#[test]
fn walk_patterns_prune_excluded_directories() {
    let cfg = Config { exclude_globs: vec!["legacy/**".to_string(), "*.bak".to_string()], ..Config::default() };
    assert_eq!(
        walk_patterns(&cfg),
        ["**/*.tf", "!legacy", "!legacy/**", "!*.bak", "!**/.terraform", "!**/.terraform/**"]
    );
}

#[test]
fn select_files_sorts_and_removes_repeats() {
    let files = vec!["/r/b/main.tf".to_string(), "/r/a/main.tf".to_string(), "/r/b/main.tf".to_string()];
    let canonical = vec![None, None, None];
    assert_eq!(select_files(&files, &canonical, None), ["/r/a/main.tf", "/r/b/main.tf"]);
}

#[test]
fn explicit_paths_narrow_never_widen() {
    let files = vec![
        "/r/platform/stack/badmod/main.tf".to_string(),
        "/r/platform/stack/prod/main.tf".to_string(),
        "/r/top.tf".to_string(),
    ];
    let canonical = vec![
        Some("/real/platform/stack/badmod/main.tf".to_string()),
        Some("/real/platform/stack/prod/main.tf".to_string()),
        None,
    ];
    let roots = vec!["/real/platform/stack/badmod".to_string(), "/r/top.tf".to_string()];
    assert_eq!(
        select_files(&files, &canonical, Some(&roots)),
        ["/r/platform/stack/badmod/main.tf", "/r/top.tf"]
    );
    // A root matches whole components only.
    let roots = vec!["/real/platform/stack/bad".to_string()];
    assert!(select_files(&files, &canonical, Some(&roots)).is_empty());
}

#[test]
fn selected_files_ascend_by_path_component_order() {
    // Path order compares component by component: "a/b.tf" comes before "a-b.tf"
    // although '-' sorts before '/' as text.
    let files = vec![
        "/r/a-b.tf".to_string(),
        "/r/a/b.tf".to_string(),
        "/r/z.tf".to_string(),
        "/r/a/b.tf".to_string(),
    ];
    let canonical = vec![None, None, None, None];
    assert_eq!(select_files(&files, &canonical, None), ["/r/a/b.tf", "/r/a-b.tf", "/r/z.tf"]);
}

#[test]
fn paths_equal_as_paths_are_kept_once() {
    // "/r//m.tf" and "/r/m.tf" are the same path; the first in path order stays.
    let files = vec!["/r//m.tf".to_string(), "/r/m.tf".to_string()];
    let canonical = vec![None, None];
    let out = select_files(&files, &canonical, None);
    assert_eq!(out.len(), 1);
    assert!(out[0] == "/r//m.tf" || out[0] == "/r/m.tf");
}

#[test]
fn narrowed_selection_is_the_unrestricted_one_filtered() {
    let files = vec![
        "/r/c/main.tf".to_string(),
        "/r/a/main.tf".to_string(),
        "/r/b/main.tf".to_string(),
        "/r/a/main.tf".to_string(),
        "/r/a/extra.tf".to_string(),
    ];
    let canonical: Vec<Option<String>> = files.iter().map(|f| Some(f.replace("/r/", "/real/"))).collect();
    let all = select_files(&files, &canonical, None);
    assert_eq!(all, ["/r/a/extra.tf", "/r/a/main.tf", "/r/b/main.tf", "/r/c/main.tf"]);
    let roots = vec!["/real/a".to_string(), "/real/c/main.tf".to_string()];
    let narrowed = select_files(&files, &canonical, Some(&roots));
    let expected: Vec<String> =
        all.iter().filter(|f| f.starts_with("/r/a/") || f.as_str() == "/r/c/main.tf").cloned().collect();
    assert_eq!(narrowed, expected);
}

#[test]
fn equal_paths_apart_in_the_walk_are_kept_once() {
    // "/r//a.tf" is the same path as "/r/a.tf"; sorting brings them together, so only one
    // stays although another file stood between them.
    let files = vec!["/r/a.tf".to_string(), "/r/b.tf".to_string(), "/r//a.tf".to_string()];
    let canonical = vec![None, None, None];
    let out = select_files(&files, &canonical, None);
    assert_eq!(out, ["/r/a.tf", "/r/b.tf"]);
}
