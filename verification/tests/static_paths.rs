//! The path resolver: traversal attempts are rejected, honest paths come
//! back as safe components, and the static-serving plan reflects both.

use lwoss::static_files::StaticPlan;
use lwoss::static_files::mime_for_path;
use lwoss::static_files::normalize_path;
use lwoss::static_files::serve_dir_plan;

fn comps(path: &str) -> Option<Vec<String>> {
    normalize_path(path)
}

#[test]
fn traversal_is_rejected() {
    assert_eq!(comps("/../../etc/passwd"), None);
    assert_eq!(comps("/a/../b"), None);
    assert_eq!(comps(".."), None);
    assert_eq!(comps("/.."), None);
}

#[test]
fn drive_prefixes_are_rejected() {
    assert_eq!(comps("/c:/secrets"), None);
    assert_eq!(comps("c:"), None);
    assert_eq!(comps("/a/b:c"), None);
}

#[test]
fn backslashes_are_rejected() {
    assert_eq!(comps("/a\\b"), None);
    assert_eq!(comps("\\a"), None);
}

#[test]
fn absolute_remainders_are_rejected() {
    // One leading separator is the route prefix; a second one would make
    // the remainder an absolute path.
    assert_eq!(comps("//etc/passwd"), None);
}

#[test]
fn honest_paths_resolve() {
    assert_eq!(comps("/foo/bar.txt"), Some(vec!["foo".to_string(), "bar.txt".to_string()]));
    assert_eq!(comps("foo/bar.txt"), Some(vec!["foo".to_string(), "bar.txt".to_string()]));
    assert_eq!(comps("/index.html"), Some(vec!["index.html".to_string()]));
    // Dot-names that are not pure dots are ordinary file names.
    assert_eq!(comps("/.well-known/x"), Some(vec![".well-known".to_string(), "x".to_string()]));
    assert_eq!(comps("/..x"), Some(vec!["..x".to_string()]));
}

#[test]
fn dots_and_empties_are_skipped() {
    assert_eq!(comps("/"), Some(vec![]));
    assert_eq!(comps(""), Some(vec![]));
    assert_eq!(comps("/./a"), Some(vec!["a".to_string()]));
    assert_eq!(comps("/a/./b"), Some(vec!["a".to_string(), "b".to_string()]));
    assert_eq!(comps("/a//b"), Some(vec!["a".to_string(), "b".to_string()]));
    assert_eq!(comps("/a/"), Some(vec!["a".to_string()]));
}

#[test]
fn plan_refuses_other_methods() {
    let p = serve_dir_plan(false, "/index.html");
    assert!(matches!(p, StaticPlan::MethodNotAllowed));
}

#[test]
fn plan_maps_rejection_to_not_found() {
    let p = serve_dir_plan(true, "/../../etc/passwd");
    assert!(matches!(p, StaticPlan::NotFound));
    let p = serve_dir_plan(true, "/c:/secrets");
    assert!(matches!(p, StaticPlan::NotFound));
}

#[test]
fn plan_serves_resolved_components() {
    let p = serve_dir_plan(true, "/assets/app.js");
    match p {
        StaticPlan::Serve(v) => assert_eq!(v, vec!["assets".to_string(), "app.js".to_string()]),
        _ => panic!("expected a Serve plan"),
    }
}

#[test]
fn mime_guesses_follow_the_extension() {
    assert_eq!(mime_for_path("a/b.png"), "image/png");
    assert_eq!(mime_for_path("index.html"), "text/html");
    assert_eq!(mime_for_path("mystery.zzyzx"), "application/octet-stream");
    assert_eq!(mime_for_path("noextension"), "application/octet-stream");
}
