use clean_my_shit::safety::SafetyGuard;
use clean_my_shit::scanner::{
    classify_entry, entry_measure, is_hidden, is_noise, scan_category, targets, total_size, Act,
    Entry, EntryKind, FindRule, Listed, Measure, SearchStep, TargetSearch,
};
use std::collections::BTreeMap;

/// An in-memory directory tree: every directory path maps to its children
/// (name, is_dir); files are the non-directory children.
struct Tree {
    dirs: BTreeMap<String, Vec<(String, bool)>>,
}

impl Tree {
    fn new(root: &str) -> Tree {
        let mut dirs = BTreeMap::new();
        dirs.insert(root.to_string(), Vec::new());
        Tree { dirs }
    }

    fn add(&mut self, parent: &str, name: &str, is_dir: bool) -> String {
        let path = format!("{}/{}", parent, name);
        let kids = self.dirs.get_mut(parent).expect("parent exists");
        if !kids.iter().any(|(n, _)| n == name) {
            kids.push((name.to_string(), is_dir));
        }
        if is_dir {
            self.dirs.entry(path.clone()).or_default();
        }
        path
    }

    fn mkdirs(&mut self, root: &str, rel: &str) {
        let mut cur = root.to_string();
        for part in rel.split('/') {
            cur = self.add(&cur, part, true);
        }
    }

    fn touch(&mut self, root: &str, rel: &str) {
        let (dir, name) = rel.rsplit_once('/').unwrap();
        self.mkdirs(root, dir);
        self.add(&format!("{}/{}", root, dir), name, false);
    }

    fn list(&self, dir: &str) -> Vec<Listed> {
        match self.dirs.get(dir) {
            Some(kids) => kids
                .iter()
                .map(|(n, d)| Listed { path: format!("{}/{}", dir, n), name: n.clone(), is_dir: *d })
                .collect(),
            None => Vec::new(),
        }
    }

    fn has(&self, path: &str) -> bool {
        let (dir, name) = path.rsplit_once('/').unwrap();
        self.dirs.get(dir).map(|k| k.iter().any(|(n, _)| n == name)).unwrap_or(false)
    }
}

fn run(tree: &Tree, mut search: TargetSearch, guard: &SafetyGuard) -> (Vec<String>, Vec<(String, usize)>) {
    let mut listed = Vec::new();
    loop {
        match search.next_step(guard) {
            SearchStep::List { dir, depth } => {
                listed.push((dir.clone(), depth));
                search.on_listing(tree.list(&dir));
            }
            SearchStep::CheckSibling { of, sibling } => {
                let (parent, _) = of.rsplit_once('/').unwrap();
                search.on_sibling(tree.has(&format!("{}/{}", parent, sibling)));
            }
            SearchStep::Continue => {}
            SearchStep::Finished => break,
        }
    }
    (targets(search, guard), listed)
}

fn home_guard() -> SafetyGuard {
    SafetyGuard::new(&vec!["/tmp".to_string()], Some("/home/ann".to_string()))
}

fn rule(name: &str, sibling: Option<&str>) -> FindRule {
    FindRule { name: name.to_string(), sibling: sibling.map(|s| s.to_string()), max_depth: 9 }
}

#[test]
fn finds_matches_without_descending_into_them() {
    let root = "/tmp/cms_find";
    let mut tree = Tree::new(root);
    tree.mkdirs(root, "proj/node_modules/pkg");
    tree.mkdirs(root, "proj/sub/node_modules");
    tree.mkdirs(root, "proj/node_modules/nested/node_modules");

    let search = TargetSearch::find(root.to_string(), rule("node_modules", None));
    let (out, _) = run(&tree, search, &home_guard());

    assert_eq!(out.len(), 2, "expected 2 top-level matches, got {out:?}");
    assert!(out.iter().all(|p| p.ends_with("node_modules")));
}

#[test]
fn sibling_requirement_is_enforced() {
    let root = "/tmp/cms_sib";
    let mut tree = Tree::new(root);
    tree.mkdirs(root, "with/target");
    tree.touch(root, "with/Cargo.toml");
    tree.mkdirs(root, "without/target");

    let search = TargetSearch::find(root.to_string(), rule("target", Some("Cargo.toml")));
    let (out, _) = run(&tree, search, &home_guard());

    assert_eq!(out.len(), 1, "only target next to Cargo.toml, got {out:?}");
    assert!(out[0].ends_with("with/target"));
}

#[test]
fn hunt_skips_hidden_noise_and_files_and_respects_depth() {
    let root = "/home/ann";
    let mut tree = Tree::new(root);
    tree.mkdirs(root, ".config/node_modules");
    tree.mkdirs(root, "Library/node_modules");
    tree.mkdirs(root, "Foo.app/node_modules");
    tree.touch(root, "code/node_modules");
    tree.mkdirs(root, "a/b/c/node_modules");
    tree.mkdirs(root, "code/web/node_modules");
    let search = TargetSearch::find(
        root.to_string(),
        FindRule { name: "node_modules".to_string(), sibling: None, max_depth: 2 },
    );
    let (out, listed) = run(&tree, search, &home_guard());
    assert_eq!(out, vec!["/home/ann/code/web/node_modules".to_string()]);
    assert!(listed.iter().all(|(_, d)| *d <= 2));
    assert!(!listed.iter().any(|(p, _)| p.contains(".config") || p.contains("Library") || p.contains(".app")));
}

#[test]
fn contents_search_lists_safe_roots_only() {
    let mut tree = Tree::new("/home/ann/.cache");
    tree.add("/home/ann/.cache", "pip", true);
    tree.add("/home/ann/.cache", "x.log", false);
    let mut etc = Tree::new("/etc");
    etc.add("/etc", "passwd", false);
    for (k, v) in etc.dirs {
        tree.dirs.insert(k, v);
    }
    let search = TargetSearch::contents(vec!["/etc".to_string(), "/home/ann/.cache".to_string()]);
    let (out, listed) = run(&tree, search, &home_guard());
    assert_eq!(listed, vec![("/home/ann/.cache".to_string(), 0)]);
    assert_eq!(out, vec!["/home/ann/.cache/pip".to_string(), "/home/ann/.cache/x.log".to_string()]);
}

#[test]
fn targets_drop_unsafe_entries() {
    let mut tree = Tree::new("/tmp");
    tree.add("/tmp", "..", true);
    tree.add("/tmp", "ok", false);
    let search = TargetSearch::contents(vec!["/tmp".to_string()]);
    let (out, _) = run(&tree, search, &home_guard());
    assert_eq!(out, vec!["/tmp/ok".to_string()]);
}

#[test]
fn classify_matches_the_rules() {
    let r = rule("target", Some("Cargo.toml"));
    let dir = |n: &str| Listed { path: format!("/x/{}", n), name: n.to_string(), is_dir: true };
    assert!(classify_entry(&r, 0, &dir("target")) == Act::Confirm);
    assert!(classify_entry(&rule("target", None), 0, &dir("target")) == Act::Record);
    assert!(classify_entry(&r, 0, &dir(".git")) == Act::Skip);
    assert!(classify_entry(&r, 0, &dir("go")) == Act::Skip);
    assert!(classify_entry(&r, 9, &dir("src")) == Act::Skip);
    assert!(classify_entry(&r, 8, &dir("src")) == Act::Descend);
    let file = Listed { path: "/x/target".to_string(), name: "target".to_string(), is_dir: false };
    assert!(classify_entry(&r, 0, &file) == Act::Skip);
}

#[test]
fn noise_and_hidden_names() {
    for n in ["Library", "Applications", "Music", "Movies", "Pictures", "Photos", "go", "Xcode.app", "My.photoslibrary", "Foo.framework"] {
        assert!(is_noise(n), "{n}");
    }
    for n in ["library", "src", "app", "gopher", ".app.bak", "framework"] {
        assert!(!is_noise(n), "{n}");
    }
    assert!(is_hidden(".git"));
    assert!(!is_hidden("git"));
    assert!(!is_hidden(""));
}

#[test]
fn sizes_are_measured_by_kind() {
    assert!(entry_measure(EntryKind::Symlink) == Measure::Nothing);
    assert!(entry_measure(EntryKind::File) == Measure::FileLength);
    assert!(entry_measure(EntryKind::Other) == Measure::TreeTotal);
    assert!(entry_measure(EntryKind::Unreadable) == Measure::Nothing);
}

#[test]
fn total_size_adds_and_detects_overflow() {
    assert_eq!(total_size(&vec![]), Some(0));
    assert_eq!(total_size(&vec![1, 2, 3]), Some(6));
    assert_eq!(total_size(&vec![u64::MAX, 0]), Some(u64::MAX));
    assert_eq!(total_size(&vec![u64::MAX, 1]), None);
}

fn e(p: &str, size: u64) -> Entry {
    Entry { path: p.to_string(), size }
}

#[test]
fn scan_summary_is_largest_first_without_empty_entries() {
    let scan = scan_category(vec![e("a", 5), e("b", 0), e("c", 9), e("d", 5), e("e", 1)]);
    assert_eq!(scan.total, 20);
    let got: Vec<(String, u64)> = scan.entries.iter().map(|x| (x.path.clone(), x.size)).collect();
    assert_eq!(
        got,
        vec![("c".to_string(), 9), ("a".to_string(), 5), ("d".to_string(), 5), ("e".to_string(), 1)]
    );
}

#[test]
fn scan_summary_of_nothing() {
    let scan = scan_category(vec![]);
    assert_eq!(scan.total, 0);
    assert!(scan.entries.is_empty());
    let scan = scan_category(vec![e("z", 0)]);
    assert_eq!(scan.total, 0);
    assert!(scan.entries.is_empty());
}
