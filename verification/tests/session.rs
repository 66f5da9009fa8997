use clean_my_shit::categories::{categories, Category, Locations, Platform, Risk};
use clean_my_shit::scanner::{CatScan, Entry};
use clean_my_shit::session::{preview_split, row_status, Phase, RowStatus, Session, PREVIEW_LIMIT};

fn cats() -> Vec<Category> {
    let locs = Locations {
        home: Some("/home/ann".to_string()),
        cache: Some("/home/ann/.cache".to_string()),
        local_data: None,
        temp: Some("/tmp".to_string()),
        system_root: None,
    };
    categories(Platform::Other, &locs, true)
}

fn scan(total: u64, n: usize) -> CatScan {
    let entries = (0..n).map(|i| Entry { path: format!("/x/{i}"), size: if n > 0 { total / n as u64 } else { 0 } }).collect();
    CatScan { total, entries }
}

fn scanned_session() -> Session {
    let mut s = Session::new();
    s.start_scan(cats());
    assert!(s.phase == Phase::Scanning);
    for (id, total, n) in [("user_caches", 100, 2), ("temp_files", 0, 0), ("trash", 50, 1), ("node_modules", 70, 7)] {
        let sc = scan(total, n);
        assert!(s.scan_fits(id, &sc));
        s.record_scan(id, sc);
    }
    s.finish_scan();
    s
}

#[test]
fn scan_results_select_default_categories_with_data() {
    let s = scanned_session();
    assert!(s.phase == Phase::Results);
    assert_eq!(s.scanned_count, 4);
    assert!(s.rows[0].selected && s.rows[0].scanned && s.rows[0].size == 100);
    assert!(!s.rows[1].selected && s.rows[1].scanned);
    assert!(!s.rows[4].selected, "trash is off by default");
    assert!(!s.rows[5].selected, "node_modules is off by default");
    assert!(!s.rows[2].scanned);
    assert_eq!(s.found_total(), 220);
    assert_eq!(s.selected_total(), 100);
    assert_eq!(s.selected_count(), 1);
    assert_eq!(s.selected_item_count(), 2);
}

#[test]
fn unknown_ids_only_count() {
    let mut s = Session::new();
    s.start_scan(cats());
    s.record_scan("nope", scan(5, 1));
    assert_eq!(s.scanned_count, 1);
    assert_eq!(s.found_total(), 0);
}

#[test]
fn select_safe_and_deselect_all() {
    let mut s = scanned_session();
    s.select_safe();
    let picked: Vec<&str> = s.rows.iter().filter(|r| r.selected).map(|r| r.cat.id).collect();
    assert_eq!(picked, vec!["user_caches"]);
    assert!(s.rows.iter().all(|r| !r.selected || r.cat.risk == Risk::Safe));
    s.deselect_all();
    assert!(s.rows.iter().all(|r| !r.selected));
    assert_eq!(s.selected_count(), 0);
    s.press_clean();
    assert!(!s.confirm_open && s.phase == Phase::Results);
}

#[test]
fn dry_run_previews_and_deletes_nothing() {
    let mut s = scanned_session();
    s.dry_run = true;
    s.press_clean();
    assert!(s.phase == Phase::DryReport);
    assert!(!s.confirm_open);
    assert!(s.confirm().is_none());
    assert!(s.phase == Phase::DryReport);
    s.press_back();
    assert!(s.phase == Phase::Results);
}

#[test]
fn cleaning_starts_only_after_confirmation() {
    let mut s = scanned_session();
    s.rows[4].selected = true;
    s.press_clean();
    assert!(s.confirm_open);
    assert!(s.phase == Phase::Results);
    s.cancel_confirm();
    assert!(!s.confirm_open);
    s.press_clean();
    let cats = s.confirm().expect("confirmed");
    let ids: Vec<&str> = cats.iter().map(|c| c.id).collect();
    assert_eq!(ids, vec!["user_caches", "trash"]);
    assert!(s.phase == Phase::Cleaning { done: 0, total: 2, freed: 0 });
    s.record_progress(1, 2, 100);
    assert!(s.phase == Phase::Cleaning { done: 1, total: 2, freed: 100 });
    s.finish_clean(150, 3);
    assert!(s.phase == Phase::Done { freed: 150, errors: 3 });
}

#[test]
fn delete_for_real_from_the_report() {
    let mut s = scanned_session();
    s.press_delete_for_real();
    assert!(!s.confirm_open, "only from the report");
    s.dry_run = true;
    s.press_clean();
    s.press_delete_for_real();
    assert!(s.confirm_open);
    assert!(s.shows_actions());
}

#[test]
fn row_status_and_preview_split() {
    let s = scanned_session();
    assert!(row_status(&s.rows[0]) == RowStatus::Holds(100));
    assert!(row_status(&s.rows[1]) == RowStatus::Empty);
    assert!(row_status(&s.rows[2]) == RowStatus::Pending);
    assert_eq!(preview_split(5), (5, 0));
    assert_eq!(preview_split(PREVIEW_LIMIT), (300, 0));
    assert_eq!(preview_split(301), (300, 1));
    assert_eq!(preview_split(1000), (300, 700));
}

#[test]
fn overflowing_scan_does_not_fit() {
    let mut s = Session::new();
    s.start_scan(cats());
    s.record_scan("user_caches", scan(u64::MAX, 0));
    assert!(!s.scan_fits("trash", &scan(1, 0)));
    assert!(s.scan_fits("user_caches", &scan(1, 0)));
}

#[test]
fn report_lists_the_selected_rows_with_data() {
    let mut s = scanned_session();
    assert_eq!(s.report_rows(), vec![0]);
    s.rows[4].selected = true;
    s.rows[1].selected = true;
    assert_eq!(s.report_rows(), vec![0, 4]);
}

#[test]
fn only_rows_with_data_can_be_ticked() {
    let mut s = scanned_session();
    s.set_selected(1, true);
    assert!(!s.rows[1].selected, "temp_files is empty");
    s.set_selected(5, true);
    assert!(s.rows[5].selected);
    s.set_selected(0, false);
    assert!(!s.rows[0].selected);
    s.set_selected(99, true);
    assert_eq!(s.selected_count(), 1);
}
