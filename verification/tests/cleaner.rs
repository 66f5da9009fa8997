use clean_my_shit::cleaner::{
    clean_category, CleanAction, CleanEvent, Cleaned, PathKind, Purge, PurgeStep, Tally,
};
use clean_my_shit::safety::SafetyGuard;

fn guard() -> SafetyGuard {
    SafetyGuard::new(&vec!["/tmp".to_string()], Some("/home/ann".to_string()))
}

#[test]
fn unsafe_targets_are_refused_and_reported() {
    let mut state = Cleaned::new();
    let a = clean_category(&mut state, CleanEvent::Target("/etc/passwd".to_string()), &guard());
    assert!(matches!(a, CleanAction::Refused));
    assert_eq!(state.errors, vec!["refused unsafe path: /etc/passwd".to_string()]);
    assert_eq!(state.freed, 0);
}

#[test]
fn safe_targets_are_purged_and_outcomes_recorded() {
    let mut state = Cleaned::new();
    let a = clean_category(&mut state, CleanEvent::Target("/home/ann/.cache/pip".to_string()), &guard());
    match a {
        CleanAction::Purge(p) => assert_eq!(p, "/home/ann/.cache/pip"),
        _ => panic!("expected a purge"),
    }
    let a = clean_category(
        &mut state,
        CleanEvent::Purged { freed: 42, errors: vec!["x: busy".to_string()] },
        &guard(),
    );
    assert!(matches!(a, CleanAction::Recorded));
    assert_eq!(state.freed, 42);
    assert_eq!(state.errors, vec!["x: busy".to_string()]);
    let _ = clean_category(&mut state, CleanEvent::Purged { freed: 8, errors: vec![] }, &guard());
    assert_eq!(state.freed, 50);
}

#[test]
fn home_itself_is_never_purged() {
    let mut state = Cleaned::new();
    let a = clean_category(&mut state, CleanEvent::Target("/home/ann".to_string()), &guard());
    assert!(matches!(a, CleanAction::Refused));
    assert_eq!(state.errors.len(), 1);
}

enum Node {
    File(u64),
    Link,
    Dir(Vec<&'static str>),
    Locked,
}

fn kind_of(path: &str) -> Node {
    match path {
        "/tmp/t" => Node::Dir(vec!["a", "link", "sub", "bad"]),
        "/tmp/t/a" => Node::File(10),
        "/tmp/t/link" => Node::Link,
        "/tmp/t/sub" => Node::Dir(vec!["b"]),
        "/tmp/t/sub/b" => Node::File(5),
        _ => Node::Locked,
    }
}

#[test]
fn purge_removes_children_first_and_never_follows_links() {
    let mut purge = Purge::new("/tmp/t".to_string());
    let mut log: Vec<String> = Vec::new();
    loop {
        match purge.next_step() {
            PurgeStep::Inspect(p) => {
                let step = match kind_of(&p) {
                    Node::File(n) => purge.on_kind(PathKind::File(n)),
                    Node::Link => purge.on_kind(PathKind::Symlink),
                    Node::Dir(_) => purge.on_kind(PathKind::Other),
                    Node::Locked => purge.on_kind(PathKind::Unreadable("denied".to_string())),
                };
                match step {
                    PurgeStep::RemoveLink(p) => {
                        log.push(format!("unlink {p}"));
                        purge.on_link_removed();
                    }
                    PurgeStep::RemoveFile(p) => {
                        log.push(format!("rm {p}"));
                        purge.on_file_removed(None);
                    }
                    PurgeStep::ListChildren(p) => {
                        log.push(format!("ls {p}"));
                        let kids = match kind_of(&p) {
                            Node::Dir(k) => k.iter().map(|k| format!("{p}/{k}")).collect(),
                            _ => Vec::new(),
                        };
                        purge.on_children(kids);
                    }
                    PurgeStep::Continue => {}
                    _ => panic!("unexpected step"),
                }
            }
            PurgeStep::RemoveDir(p) => {
                log.push(format!("rmdir {p}"));
                purge.on_dir_removed(None);
            }
            PurgeStep::Continue => {}
            PurgeStep::Finished => break,
            _ => panic!("unexpected step"),
        }
    }
    let (freed, errors) = purge.outcome();
    assert_eq!(freed, 15);
    assert_eq!(errors, vec!["/tmp/t/bad: denied".to_string()]);
    assert_eq!(
        log,
        vec![
            "ls /tmp/t", "rm /tmp/t/a", "unlink /tmp/t/link", "ls /tmp/t/sub", "rm /tmp/t/sub/b",
            "rmdir /tmp/t/sub", "rmdir /tmp/t",
        ]
    );
}

#[test]
fn failed_removals_are_reported_and_free_nothing() {
    let mut purge = Purge::new("/tmp/f".to_string());
    assert!(matches!(purge.next_step(), PurgeStep::Inspect(_)));
    assert!(matches!(purge.on_kind(PathKind::File(7)), PurgeStep::RemoveFile(_)));
    purge.on_file_removed(Some("busy".to_string()));
    assert!(matches!(purge.next_step(), PurgeStep::Finished));
    let (freed, errors) = purge.outcome();
    assert_eq!(freed, 0);
    assert_eq!(errors, vec!["/tmp/f: busy".to_string()]);
}

#[test]
fn tally_counts_categories_bytes_and_failures() {
    let mut t = Tally::new(2);
    let c = Cleaned { freed: 100, errors: vec!["a".to_string(), "b".to_string()] };
    assert!(t.fits(&c));
    t.add(&c);
    assert_eq!((t.done, t.total, t.freed, t.errors), (1, 2, 100, 2));
    let full = Tally { done: 1, total: 2, freed: u64::MAX, errors: 0 };
    assert!(!full.fits(&c));
}
