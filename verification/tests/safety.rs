use clean_my_shit::paths::PathPart;
use clean_my_shit::safety::{is_safe_target, paths_equal, path_starts_with, SafetyGuard};
use std::path::PathBuf;

fn current_user_guard() -> SafetyGuard {
    SafetyGuard::for_current_user(&vec!["/tmp".to_string()])
}

/// The current user's guard, judged on the home directory alone: a home
/// placed inside the temp directory would otherwise be allowed by the temp
/// rule, whatever the home rule says.
fn home_only_guard() -> SafetyGuard {
    SafetyGuard::for_current_user(&vec![])
}

fn guard_with_home(home: &str) -> SafetyGuard {
    SafetyGuard::new(&vec!["/tmp".to_string()], Some(home.to_string()))
}

#[test]
fn rejects_relative_and_root() {
    let guard = current_user_guard();
    assert!(!is_safe_target("relative/path", &guard));
    assert!(!is_safe_target("/", &guard));
}

#[test]
fn rejects_parent_dir_components() {
    if let Some(home) = dirs::home_dir() {
        let guard = current_user_guard();
        let sneaky = home.join("..").join("..").join("etc");
        assert!(!is_safe_target(sneaky.to_str().unwrap(), &guard));
    }
}

#[test]
fn rejects_home_root_but_allows_below() {
    if let Some(home) = dirs::home_dir() {
        let guard = home_only_guard();
        assert!(!is_safe_target(home.to_str().unwrap(), &guard));
        let below: PathBuf = home.join("Library").join("Caches");
        assert!(is_safe_target(below.to_str().unwrap(), &guard));
    }
}

#[test]
fn home_root_refused_with_explicit_home() {
    let guard = guard_with_home("/home/ann");
    assert!(!is_safe_target("/home/ann", &guard));
    assert!(!is_safe_target("/home/ann/", &guard));
    assert!(is_safe_target("/home/ann/.cache", &guard));
    assert!(is_safe_target("/home/ann/.cache/pip/wheels", &guard));
}

#[test]
fn outside_home_and_temp_refused() {
    let guard = guard_with_home("/home/ann");
    assert!(!is_safe_target("/etc", &guard));
    assert!(!is_safe_target("/home", &guard));
    assert!(!is_safe_target("/home/annex/x", &guard));
    assert!(!is_safe_target("/usr/lib/cache", &guard));
}

#[test]
fn temp_directory_and_beneath_allowed() {
    let guard = guard_with_home("/home/ann");
    assert!(is_safe_target("/tmp", &guard));
    assert!(is_safe_target("/tmp/build-1234/file.o", &guard));
    assert!(!is_safe_target("/tmpfoo", &guard));
}

#[test]
fn parent_components_refused_even_below_home() {
    let guard = guard_with_home("/home/ann");
    assert!(!is_safe_target("/home/ann/.cache/../../bob", &guard));
    assert!(!is_safe_target("/tmp/../etc", &guard));
    assert!(!is_safe_target("/home/ann/a/..", &guard));
}

#[test]
fn recycle_bin_allowed_by_name() {
    let guard = SafetyGuard::new(&vec![], None);
    assert!(is_safe_target("/$Recycle.Bin", &guard));
    assert!(is_safe_target("/$Recycle.Bin/S-1-5-21", &guard));
    assert!(!is_safe_target("$Recycle.Bin/S-1-5-21", &guard));
    assert!(!is_safe_target("/Recycle.Bin", &guard));
}

#[test]
fn no_home_means_only_temp_and_recycle() {
    let guard = SafetyGuard::new(&vec!["/var/tmp".to_string()], None);
    assert!(!is_safe_target("/home/ann/.cache", &guard));
    assert!(is_safe_target("/var/tmp/x", &guard));
}

#[test]
fn several_temp_roots_are_each_honoured() {
    let guard = SafetyGuard::new(&vec!["/tmp".to_string(), "/var/tmp".to_string()], None);
    assert!(is_safe_target("/tmp/a", &guard));
    assert!(is_safe_target("/var/tmp/a", &guard));
    assert!(!is_safe_target("/var/a", &guard));
}

fn parts(names: &[&str]) -> Vec<PathPart> {
    let mut v = vec![PathPart::Root];
    v.extend(names.iter().map(|n| PathPart::Name(n.to_string())));
    v
}

#[test]
fn components_are_parsed_by_std() {
    let guard = SafetyGuard::new(&vec!["/tmp/a/".to_string()], Some("/home//ann/.".to_string()));
    assert_eq!(guard.temp_roots.len(), 1);
    let t = &guard.temp_roots[0];
    assert!(paths_equal(t, &parts(&["tmp", "a"])));
    let h = guard.home.as_ref().unwrap();
    assert!(paths_equal(h, &parts(&["home", "ann"])));
}

#[test]
fn equality_and_prefix_of_parsed_paths() {
    let a = parts(&["home", "ann"]);
    let b = parts(&["home", "ann"]);
    let c = parts(&["home", "ann", "x"]);
    let d = parts(&["home", "annex"]);
    assert!(paths_equal(&a, &b));
    assert!(!paths_equal(&a, &vec![PathPart::Root, PathPart::Up]));
    assert!(!paths_equal(&a, &c));
    assert!(path_starts_with(&c, &a));
    assert!(!path_starts_with(&a, &c));
    assert!(!path_starts_with(&d, &a));
}
