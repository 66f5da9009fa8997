use clean_my_shit::categories::{
    categories, dev_find_categories, home, join_all, platform_categories, start_search, Category,
    Locations, Platform, Risk, Source,
};
use clean_my_shit::scanner::SearchStep;
use clean_my_shit::safety::SafetyGuard;

fn locs(home_dir: Option<&str>) -> Locations {
    Locations {
        home: home_dir.map(|h| h.to_string()),
        cache: Some("/home/ann/.cache".to_string()),
        local_data: Some("/home/ann/.local/share".to_string()),
        temp: Some("/tmp".to_string()),
        system_root: None,
    }
}

fn ids(cats: &[Category]) -> Vec<&'static str> {
    cats.iter().map(|c| c.id).collect()
}

fn roots(c: &Category) -> Vec<String> {
    match &c.source {
        Source::Contents(r) => r.clone(),
        Source::FindDirs { .. } => panic!("not a contents category"),
    }
}

#[test]
fn linux_categories_in_order() {
    let cats = categories(Platform::Other, &locs(Some("/home/ann")), true);
    assert_eq!(
        ids(&cats),
        vec!["user_caches", "temp_files", "npm_cache", "cargo_cache", "trash", "node_modules", "rust_target", "py_cache"]
    );
    assert_eq!(roots(&cats[0]), vec!["/home/ann/.cache".to_string()]);
    assert_eq!(roots(&cats[1]), vec!["/tmp".to_string()]);
    assert_eq!(roots(&cats[2]), vec!["/home/ann/.npm/_cacache".to_string()]);
    assert_eq!(roots(&cats[4]), vec!["/home/ann/.local/share/Trash/files".to_string()]);
}

#[test]
fn macos_categories_in_order() {
    let cats = platform_categories(Platform::MacOs, &locs(Some("/Users/ann")));
    assert_eq!(
        ids(&cats),
        vec!["user_caches", "app_logs", "temp_files", "xcode_derived", "xcode_device_support", "simulator_caches", "npm_cache", "cargo_cache", "trash"]
    );
    assert_eq!(
        roots(&cats[4]),
        vec![
            "/Users/ann/Library/Developer/Xcode/iOS DeviceSupport".to_string(),
            "/Users/ann/Library/Developer/Xcode/watchOS DeviceSupport".to_string(),
            "/Users/ann/Library/Developer/Xcode/tvOS DeviceSupport".to_string(),
        ]
    );
    assert!(cats[8].risk == Risk::Caution && !cats[8].default_on);
}

#[test]
fn windows_categories_in_order() {
    let cats = platform_categories(Platform::Windows, &locs(Some("/Users/ann")));
    assert_eq!(
        ids(&cats),
        vec!["user_temp", "windows_temp", "crash_dumps", "browser_caches", "npm_cache", "pip_cache", "cargo_cache", "recycle_bin"]
    );
    assert_eq!(roots(&cats[3]).len(), 4);
    assert_eq!(roots(&cats[7]), vec!["C:\\$Recycle.Bin".to_string()]);
}

#[test]
fn without_home_the_home_categories_drop_out() {
    let cats = categories(Platform::Other, &locs(None), true);
    assert_eq!(ids(&cats), vec!["user_caches", "temp_files"]);
    assert!(dev_find_categories(&locs(None)).is_empty());
}

#[test]
fn hunts_drop_out_when_home_is_not_a_directory() {
    let cats = categories(Platform::Other, &locs(Some("/home/ann")), false);
    assert_eq!(ids(&cats), vec!["user_caches", "temp_files", "npm_cache", "cargo_cache", "trash"]);
}

#[test]
fn risky_categories_are_off_by_default() {
    for p in [Platform::MacOs, Platform::Windows, Platform::Other] {
        for c in categories(p, &locs(Some("/home/ann")), true) {
            if c.risk == Risk::Caution {
                assert!(!c.default_on, "{}", c.id);
            }
        }
    }
}

#[test]
fn dev_hunts_start_at_home() {
    let cats = dev_find_categories(&locs(Some("/home/ann")));
    assert_eq!(ids(&cats), vec!["node_modules", "rust_target", "py_cache"]);
    match &cats[1].source {
        Source::FindDirs { base, name, sibling, max_depth } => {
            assert_eq!(base, "/home/ann");
            assert_eq!(*name, "target");
            assert_eq!(*sibling, Some("Cargo.toml"));
            assert_eq!(*max_depth, 9);
        }
        Source::Contents(_) => panic!("expected a hunt"),
    }
    assert!(cats[2].risk == Risk::Caution && !cats[2].default_on);
}

#[test]
fn joining_appends_each_part() {
    assert_eq!(join_all("/home/ann", &["a", "b c"]), "/home/ann/a/b c");
    assert_eq!(join_all("/home/ann", &[]), "/home/ann");
    assert_eq!(home(&locs(Some("/h")), &[".npm", "_cacache"]), vec!["/h/.npm/_cacache".to_string()]);
    assert!(home(&locs(None), &["x"]).is_empty());
}

#[test]
fn category_search_starts_with_its_roots() {
    let cats = categories(Platform::Other, &locs(Some("/home/ann")), true);
    let guard = SafetyGuard::new(&vec!["/tmp".to_string()], Some("/home/ann".to_string()));
    let mut s = start_search(&cats[0]);
    match s.next_step(&guard) {
        SearchStep::List { dir, depth } => {
            assert_eq!(dir, "/home/ann/.cache");
            assert_eq!(depth, 0);
        }
        _ => panic!("expected a listing"),
    }
    let mut s = start_search(&cats[5]);
    match s.next_step(&guard) {
        SearchStep::List { dir, depth } => {
            assert_eq!(dir, "/home/ann");
            assert_eq!(depth, 0);
        }
        _ => panic!("expected a listing"),
    }
}

#[test]
fn duplicate_is_equal() {
    let cats = categories(Platform::MacOs, &locs(Some("/Users/ann")), true);
    let c = cats[0].duplicate();
    assert_eq!(c.id, cats[0].id);
    assert_eq!(roots(&c), roots(&cats[0]));
}

#[test]
fn every_hunt_is_caution_and_off() {
    for c in dev_find_categories(&locs(Some("/home/ann"))) {
        assert!(c.risk == Risk::Caution && !c.default_on, "{}", c.id);
    }
}

#[test]
fn temp_category_needs_a_temp_directory() {
    let mut l = locs(Some("/home/ann"));
    l.temp = None;
    let cats = categories(Platform::Other, &l, true);
    assert!(!ids(&cats).contains(&"temp_files"));
    assert_eq!(ids(&cats).len(), 7);
}
