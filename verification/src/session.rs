//! The state of one run of the cleaner as the user sees it: the category rows
//! with their scan results and selection, and the phase the run is in. The
//! window draws this state and hands every click and worker message to it;
//! the decisions are all made here.

use vstd::prelude::*;
use crate::categories::{Category, Risk, categories_view};
use crate::paths::same_text;
use crate::scanner::{CatScan, Entry};

verus! {

/// How many items are listed under one expanded category, at most, to keep
/// the window responsive on enormous caches.
pub const PREVIEW_LIMIT: usize = 300;

/// What the run is currently doing.
#[derive(Clone, Copy, PartialEq, Eq, Structural)]
pub enum Phase {
    Idle,
    Scanning,
    Results,
    /// Dry-run report: shows exactly what would be deleted. Deletes nothing.
    DryReport,
    Cleaning { done: usize, total: usize, freed: u64 },
    Done { freed: u64, errors: usize },
}

/// One row in the category list.
pub struct Row {
    pub cat: Category,
    pub size: u64,
    pub entries: Vec<Entry>,
    pub selected: bool,
    pub scanned: bool,
}

/// One run of the cleaner.
pub struct Session {
    pub phase: Phase,
    pub rows: Vec<Row>,
    pub scanned_count: usize,
    pub confirm_open: bool,
    pub dry_run: bool,
}

/// A row counts towards the selection: it is ticked and has data.
pub open spec fn chosen(r: Row) -> bool {
    r.selected && r.size > 0
}

/// Bytes found over all rows.
pub open spec fn total_of(rows: Seq<Row>) -> int
    decreases rows.len(),
{
    if rows.len() == 0 {
        0
    } else {
        total_of(rows.drop_last()) + rows.last().size
    }
}

/// Bytes found over the chosen rows.
pub open spec fn chosen_total(rows: Seq<Row>) -> int
    decreases rows.len(),
{
    if rows.len() == 0 {
        0
    } else {
        chosen_total(rows.drop_last()) + if chosen(rows.last()) {
            rows.last().size as int
        } else {
            0
        }
    }
}

/// How many rows are chosen.
pub open spec fn chosen_count(rows: Seq<Row>) -> int
    decreases rows.len(),
{
    if rows.len() == 0 {
        0
    } else {
        chosen_count(rows.drop_last()) + if chosen(rows.last()) {
            1int
        } else {
            0
        }
    }
}

/// Items listed over all rows.
pub open spec fn items_of(rows: Seq<Row>) -> int
    decreases rows.len(),
{
    if rows.len() == 0 {
        0
    } else {
        items_of(rows.drop_last()) + rows.last().entries@.len()
    }
}

/// Items listed over the chosen rows.
pub open spec fn chosen_items(rows: Seq<Row>) -> int
    decreases rows.len(),
{
    if rows.len() == 0 {
        0
    } else {
        chosen_items(rows.drop_last()) + if chosen(rows.last()) {
            rows.last().entries@.len() as int
        } else {
            0
        }
    }
}

/// The categories of the chosen rows, in row order.
pub open spec fn chosen_cats(rows: Seq<Row>) -> Seq<Category>
    decreases rows.len(),
{
    if rows.len() == 0 {
        Seq::empty()
    } else {
        let rest = chosen_cats(rows.drop_last());
        if chosen(rows.last()) {
            rest.push(rows.last().cat)
        } else {
            rest
        }
    }
}

/// The positions of the chosen rows, in order.
pub open spec fn chosen_positions(rows: Seq<Row>) -> Seq<usize>
    decreases rows.len(),
{
    if rows.len() == 0 {
        Seq::empty()
    } else {
        let rest = chosen_positions(rows.drop_last());
        if chosen(rows.last()) {
            rest.push((rows.len() - 1) as usize)
        } else {
            rest
        }
    }
}

/// The totals of a session fit the machine: bytes in a `u64` and item counts
/// in a `usize`.
pub open spec fn session_wf(s: Session) -> bool {
    total_of(s.rows@) <= u64::MAX && items_of(s.rows@) <= usize::MAX
}

proof fn lemma_prefix_totals(rows: Seq<Row>, k: int)
    requires
        0 <= k <= rows.len(),
    ensures
        total_of(rows.take(k)) <= total_of(rows),
        items_of(rows.take(k)) <= items_of(rows),
        chosen_total(rows.take(k)) <= chosen_total(rows),
        chosen_items(rows.take(k)) <= chosen_items(rows),
        chosen_count(rows.take(k)) <= chosen_count(rows),
    decreases rows.len() - k,
{
    if k < rows.len() {
        lemma_prefix_totals(rows, k + 1);
        assert(rows.take(k + 1).drop_last() =~= rows.take(k));
    } else {
        assert(rows.take(k) =~= rows);
    }
}

/// What is selected never exceeds what was found: in bytes, in items and in
/// rows.
pub proof fn lemma_selection_within_found(rows: Seq<Row>)
    ensures
        0 <= chosen_total(rows) <= total_of(rows),
        0 <= chosen_items(rows) <= items_of(rows),
        0 <= chosen_count(rows) <= rows.len(),
        chosen_cats(rows).len() == chosen_count(rows),
    decreases rows.len(),
{
    if rows.len() > 0 {
        lemma_selection_within_found(rows.drop_last());
    }
}

/// The index of the first row whose category has the given id, or -1.
pub open spec fn id_index(rows: Seq<Row>, id: Seq<char>) -> int
    decreases rows.len(),
{
    if rows.len() == 0 {
        -1
    } else {
        let k = id_index(rows.drop_last(), id);
        if k >= 0 {
            k
        } else if rows.last().cat.id@ == id {
            rows.len() - 1
        } else {
            -1
        }
    }
}

proof fn lemma_id_index_extends(rows: Seq<Row>, id: Seq<char>, k: int)
    requires
        0 <= k <= rows.len(),
        id_index(rows.take(k), id) >= 0,
    ensures
        id_index(rows, id) == id_index(rows.take(k), id),
    decreases rows.len() - k,
{
    if k < rows.len() {
        assert(rows.take(k + 1).drop_last() =~= rows.take(k));
        lemma_id_index_extends(rows, id, k + 1);
    } else {
        assert(rows.take(k) =~= rows);
    }
}

proof fn lemma_id_index_range(rows: Seq<Row>, id: Seq<char>)
    ensures
        -1 <= id_index(rows, id) < rows.len(),
        id_index(rows, id) >= 0 ==> rows[id_index(rows, id)].cat.id@ == id,
    decreases rows.len(),
{
    if rows.len() > 0 {
        lemma_id_index_range(rows.drop_last(), id);
    }
}

/// A row after its scan result arrived: its size and items are the scan's,
/// and it is selected when its category is on by default and it has data.
pub open spec fn scanned_row(r: Row, scan: CatScan) -> Row {
    Row {
        cat: r.cat,
        size: scan.total,
        entries: scan.entries,
        selected: r.cat.default_on && scan.total > 0,
        scanned: true,
    }
}

/// The rows after the scan result for category `id` arrived: the first row of
/// that category takes it; without one, nothing changes.
pub open spec fn after_scan(rows: Seq<Row>, id: Seq<char>, scan: CatScan) -> Seq<Row> {
    let k = id_index(rows, id);
    if k >= 0 {
        rows.update(k, scanned_row(rows[k], scan))
    } else {
        rows
    }
}

/// A row as it reads in the list.
#[derive(Clone, Copy, PartialEq, Eq, Structural)]
pub enum RowStatus {
    /// Not scanned yet.
    Pending,
    /// Scanned and holding this many bytes.
    Holds(u64),
    /// Scanned and empty.
    Empty,
}

/// How a row reads in the list.
pub fn row_status(row: &Row) -> (s: RowStatus)
    ensures
        s == (if !row.scanned {
            RowStatus::Pending
        } else if row.size > 0 {
            RowStatus::Holds(row.size)
        } else {
            RowStatus::Empty
        }),
{
    if !row.scanned {
        RowStatus::Pending
    } else if row.size > 0 {
        RowStatus::Holds(row.size)
    } else {
        RowStatus::Empty
    }
}

/// How many of `len` items are listed in a preview, and how many more there
/// are beyond the listed ones ("…and N more").
pub fn preview_split(len: usize) -> (r: (usize, usize))
    ensures
        r.0 == (if len > PREVIEW_LIMIT { PREVIEW_LIMIT } else { len }),
        r.1 == (if len > PREVIEW_LIMIT { len - PREVIEW_LIMIT } else { 0 }),
        r.0 + r.1 == len,
{
    if len > PREVIEW_LIMIT {
        (PREVIEW_LIMIT, len - PREVIEW_LIMIT)
    } else {
        (len, 0)
    }
}

/// Takes every row out of `rows`, leaving it empty.
fn take_rows(rows: &mut Vec<Row>) -> (r: Vec<Row>)
    ensures
        r@ == old(rows)@,
        final(rows)@.len() == 0,
{
    let mut r: Vec<Row> = Vec::new();
    std::mem::swap(&mut r, rows);
    r
}

impl Session {
    /// A fresh run: idle, with no rows.
    pub fn new() -> (s: Session)
        ensures
            s.phase == Phase::Idle,
            s.rows@.len() == 0,
            s.scanned_count == 0,
            !s.confirm_open,
            !s.dry_run,
            session_wf(s),
    {
        Session { phase: Phase::Idle, rows: Vec::new(), scanned_count: 0, confirm_open: false, dry_run: false }
    }

    /// Starts a scan of the given categories: one unscanned, unselected,
    /// empty row per category, in order.
    pub fn start_scan(&mut self, cats: Vec<Category>)
        ensures
            final(self).phase == Phase::Scanning,
            final(self).scanned_count == 0,
            final(self).rows@.len() == cats@.len(),
            forall|i: int|
                0 <= i < cats@.len() ==> {
                    let r = #[trigger] final(self).rows@[i];
                    &&& r.cat == cats@[i]
                    &&& r.size == 0
                    &&& r.entries@.len() == 0
                    &&& !r.selected
                    &&& !r.scanned
                },
            final(self).confirm_open == old(self).confirm_open,
            final(self).dry_run == old(self).dry_run,
            session_wf(*final(self)),
    {
        let mut cats = cats;
        let ghost all = cats@;
        let n = cats.len();
        let mut rows: Vec<Row> = Vec::new();
        let mut k: usize = 0;
        while k < n
            invariant
                k <= n,
                n == all.len(),
                cats@ == all.skip(k as int),
                rows@.len() == k,
                total_of(rows@) == 0,
                items_of(rows@) == 0,
                forall|i: int|
                    0 <= i < k ==> {
                        let r = #[trigger] rows@[i];
                        &&& r.cat == all[i]
                        &&& r.size == 0
                        &&& r.entries@.len() == 0
                        &&& !r.selected
                        &&& !r.scanned
                    },
            decreases n - k,
        {
            let ghost prev = cats@;
            let cat = cats.remove(0);
            assert(cats@ =~= all.skip(k + 1));
            let ghost before = rows@;
            rows.push(Row { cat, size: 0, entries: Vec::new(), selected: false, scanned: false });
            assert(rows@.drop_last() =~= before);
            k = k + 1;
        }
        self.rows = rows;
        self.scanned_count = 0;
        self.phase = Phase::Scanning;
    }

    /// Whether the scan result for category `id` can be taken in without the
    /// run's totals overflowing.
    pub fn scan_fits(&self, id: &str, scan: &CatScan) -> (r: bool)
        ensures
            r == (total_of(after_scan(self.rows@, id@, *scan)) <= u64::MAX && items_of(
                after_scan(self.rows@, id@, *scan),
            ) <= usize::MAX),
    {
        let found = self.find_row(id);
        let ghost after = after_scan(self.rows@, id@, *scan);
        proof {
            lemma_id_index_range(self.rows@, id@);
        }
        let mut total: u64 = 0;
        let mut items: usize = 0;
        let mut i: usize = 0;
        while i < self.rows.len()
            invariant
                i <= self.rows@.len(),
                after == after_scan(self.rows@, id@, *scan),
                after.len() == self.rows@.len(),
                found matches Some(k) ==> k == id_index(self.rows@, id@),
                found is None ==> id_index(self.rows@, id@) == -1,
                -1 <= id_index(self.rows@, id@) < self.rows@.len(),
                total == total_of(after.take(i as int)),
                items == items_of(after.take(i as int)),
            decreases self.rows@.len() - i,
        {
            assert(after.take(i + 1).drop_last() =~= after.take(i as int));
            let (size, count) = match found {
                Some(k) if k == i => (scan.total, scan.entries.len()),
                _ => (self.rows[i].size, self.rows[i].entries.len()),
            };
            assert(after[i as int].size == size && after[i as int].entries@.len() == count);
            if total > u64::MAX - size || items > usize::MAX - count {
                proof {
                    lemma_prefix_totals(after, i as int + 1);
                }
                return false;
            }
            total = total + size;
            items = items + count;
            i = i + 1;
        }
        assert(after.take(i as int) =~= after);
        true
    }

    /// The index of the first row of category `id`.
    fn find_row(&self, id: &str) -> (r: Option<usize>)
        ensures
            r matches Some(k) ==> k == id_index(self.rows@, id@),
            r is None ==> id_index(self.rows@, id@) == -1,
    {
        let mut i: usize = 0;
        while i < self.rows.len()
            invariant
                i <= self.rows@.len(),
                id_index(self.rows@.take(i as int), id@) == -1,
            decreases self.rows@.len() - i,
        {
            assert(self.rows@.take(i + 1).drop_last() =~= self.rows@.take(i as int));
            if same_text(self.rows[i].cat.id, id) {
                proof {
                    lemma_id_index_extends(self.rows@, id@, i + 1);
                }
                return Some(i);
            }
            i = i + 1;
        }
        assert(self.rows@.take(i as int) =~= self.rows@);
        None
    }

    /// Takes in the scan result for category `id`: the first row of that
    /// category gets its size and items, is marked scanned, and is selected
    /// when the category is on by default and has data. The scan counter goes
    /// up either way.
    pub fn record_scan(&mut self, id: &str, scan: CatScan)
        requires
            old(self).scanned_count < usize::MAX,
            total_of(after_scan(old(self).rows@, id@, scan)) <= u64::MAX,
            items_of(after_scan(old(self).rows@, id@, scan)) <= usize::MAX,
        ensures
            final(self).rows@ == after_scan(old(self).rows@, id@, scan),
            final(self).scanned_count == old(self).scanned_count + 1,
            final(self).phase == old(self).phase,
            final(self).confirm_open == old(self).confirm_open,
            final(self).dry_run == old(self).dry_run,
            session_wf(*final(self)),
    {
        proof {
            lemma_id_index_range(self.rows@, id@);
        }
        match self.find_row(id) {
            Some(k) => {
                let mut rows = take_rows(&mut self.rows);
                let old_row = rows.remove(k);
                let selected = old_row.cat.default_on && scan.total > 0;
                let row = Row { cat: old_row.cat, size: scan.total, entries: scan.entries, selected, scanned: true };
                rows.insert(k, row);
                self.rows = rows;
                assert(self.rows@ =~= after_scan(old(self).rows@, id@, scan));
            },
            None => {},
        }
        self.scanned_count = self.scanned_count + 1;
    }

    /// The scan is over (or its worker went away): show the results.
    pub fn finish_scan(&mut self)
        ensures
            session_wf(*old(self)) ==> session_wf(*final(self)),
            final(self).phase == Phase::Results,
            final(self).rows@ == old(self).rows@,
            final(self).scanned_count == old(self).scanned_count,
            final(self).confirm_open == old(self).confirm_open,
            final(self).dry_run == old(self).dry_run,
    {
        self.phase = Phase::Results;
    }

    /// Whether the run's totals fit the machine (bytes in a `u64`, item
    /// counts in a `usize`), as every step of the run keeps them.
    pub fn totals_fit(&self) -> (r: bool)
        ensures
            r == session_wf(*self),
    {
        let mut total: u64 = 0;
        let mut items: usize = 0;
        let mut i: usize = 0;
        while i < self.rows.len()
            invariant
                i <= self.rows@.len(),
                total == total_of(self.rows@.take(i as int)),
                items == items_of(self.rows@.take(i as int)),
            decreases self.rows@.len() - i,
        {
            assert(self.rows@.take(i + 1).drop_last() =~= self.rows@.take(i as int));
            let size = self.rows[i].size;
            let count = self.rows[i].entries.len();
            if total > u64::MAX - size || items > usize::MAX - count {
                proof {
                    lemma_prefix_totals(self.rows@, i + 1);
                }
                return false;
            }
            total = total + size;
            items = items + count;
            i = i + 1;
        }
        assert(self.rows@.take(i as int) =~= self.rows@);
        true
    }

    /// The rows the dry-run report lists (selected, with data), by position
    /// in row order.
    pub fn report_rows(&self) -> (r: Vec<usize>)
        ensures
            r@ == chosen_positions(self.rows@),
    {
        let mut out: Vec<usize> = Vec::new();
        let mut i: usize = 0;
        while i < self.rows.len()
            invariant
                i <= self.rows@.len(),
                out@ == chosen_positions(self.rows@.take(i as int)),
            decreases self.rows@.len() - i,
        {
            assert(self.rows@.take(i + 1).drop_last() =~= self.rows@.take(i as int));
            assert(self.rows@.take(i + 1).last() == self.rows@[i as int]);
            if self.rows[i].selected && self.rows[i].size > 0 {
                out.push(i);
            }
            i = i + 1;
        }
        assert(self.rows@.take(i as int) =~= self.rows@);
        out
    }

    /// Ticks or unticks row `i`. Only a row with data can be ticked or
    /// unticked; any other row, or a position past the rows, stays as it is.
    pub fn set_selected(&mut self, i: usize, on: bool)
        ensures
            session_wf(*old(self)) ==> session_wf(*final(self)),
            final(self).rows@.len() == old(self).rows@.len(),
            forall|k: int|
                0 <= k < old(self).rows@.len() ==> {
                    let r = #[trigger] final(self).rows@[k];
                    let o = old(self).rows@[k];
                    &&& r.cat == o.cat
                    &&& r.size == o.size
                    &&& r.entries == o.entries
                    &&& r.scanned == o.scanned
                    &&& r.selected == (if k == i && o.size > 0 {
                        on
                    } else {
                        o.selected
                    })
                },
            total_of(final(self).rows@) == total_of(old(self).rows@),
            items_of(final(self).rows@) == items_of(old(self).rows@),
            final(self).phase == old(self).phase,
            final(self).scanned_count == old(self).scanned_count,
            final(self).confirm_open == old(self).confirm_open,
            final(self).dry_run == old(self).dry_run,
    {
        if i < self.rows.len() && self.rows[i].size > 0 {
            let ghost old_rows = self.rows@;
            let mut rows = take_rows(&mut self.rows);
            let row = rows.remove(i);
            rows.insert(i, Row { cat: row.cat, size: row.size, entries: row.entries, selected: on, scanned: row.scanned });
            self.rows = rows;
            proof {
                lemma_same_sizes(old_rows, self.rows@);
            }
        }
    }

    /// Bytes found over all rows.
    pub fn found_total(&self) -> (r: u64)
        requires
            session_wf(*self),
        ensures
            r == total_of(self.rows@),
    {
        let mut t: u64 = 0;
        let mut i: usize = 0;
        while i < self.rows.len()
            invariant
                i <= self.rows@.len(),
                session_wf(*self),
                t == total_of(self.rows@.take(i as int)),
            decreases self.rows@.len() - i,
        {
            assert(self.rows@.take(i + 1).drop_last() =~= self.rows@.take(i as int));
            proof {
                lemma_prefix_totals(self.rows@, i + 1);
            }
            t = t + self.rows[i].size;
            i = i + 1;
        }
        assert(self.rows@.take(i as int) =~= self.rows@);
        t
    }

    /// Bytes found over the selected rows that have data.
    pub fn selected_total(&self) -> (r: u64)
        requires
            session_wf(*self),
        ensures
            r == chosen_total(self.rows@),
    {
        let mut t: u64 = 0;
        let mut i: usize = 0;
        while i < self.rows.len()
            invariant
                i <= self.rows@.len(),
                session_wf(*self),
                t == chosen_total(self.rows@.take(i as int)),
            decreases self.rows@.len() - i,
        {
            assert(self.rows@.take(i + 1).drop_last() =~= self.rows@.take(i as int));
            proof {
                lemma_prefix_totals(self.rows@, i + 1);
                lemma_selection_within_found(self.rows@);
            }
            if self.rows[i].selected && self.rows[i].size > 0 {
                t = t + self.rows[i].size;
            }
            i = i + 1;
        }
        assert(self.rows@.take(i as int) =~= self.rows@);
        t
    }

    /// How many rows are selected and have data.
    pub fn selected_count(&self) -> (r: usize)
        ensures
            r == chosen_count(self.rows@),
    {
        let mut c: usize = 0;
        let mut i: usize = 0;
        while i < self.rows.len()
            invariant
                i <= self.rows@.len(),
                c == chosen_count(self.rows@.take(i as int)),
                c <= i,
            decreases self.rows@.len() - i,
        {
            assert(self.rows@.take(i + 1).drop_last() =~= self.rows@.take(i as int));
            if self.rows[i].selected && self.rows[i].size > 0 {
                c = c + 1;
            }
            i = i + 1;
        }
        assert(self.rows@.take(i as int) =~= self.rows@);
        c
    }

    /// Items listed over the selected rows that have data.
    pub fn selected_item_count(&self) -> (r: usize)
        requires
            session_wf(*self),
        ensures
            r == chosen_items(self.rows@),
    {
        let mut c: usize = 0;
        let mut i: usize = 0;
        while i < self.rows.len()
            invariant
                i <= self.rows@.len(),
                session_wf(*self),
                c == chosen_items(self.rows@.take(i as int)),
            decreases self.rows@.len() - i,
        {
            assert(self.rows@.take(i + 1).drop_last() =~= self.rows@.take(i as int));
            proof {
                lemma_prefix_totals(self.rows@, i + 1);
                lemma_selection_within_found(self.rows@);
            }
            if self.rows[i].selected && self.rows[i].size > 0 {
                c = c + self.rows[i].entries.len();
            }
            i = i + 1;
        }
        assert(self.rows@.take(i as int) =~= self.rows@);
        c
    }

    /// "Select safe": exactly the rows with data whose category is safe.
    pub fn select_safe(&mut self)
        ensures
            session_wf(*old(self)) ==> session_wf(*final(self)),
            final(self).rows@.len() == old(self).rows@.len(),
            forall|i: int|
                0 <= i < old(self).rows@.len() ==> {
                    let r = #[trigger] final(self).rows@[i];
                    let o = old(self).rows@[i];
                    &&& r.cat == o.cat
                    &&& r.size == o.size
                    &&& r.entries == o.entries
                    &&& r.scanned == o.scanned
                    &&& r.selected == (o.size > 0 && o.cat.risk == Risk::Safe)
                },
            final(self).phase == old(self).phase,
            final(self).scanned_count == old(self).scanned_count,
            final(self).confirm_open == old(self).confirm_open,
            final(self).dry_run == old(self).dry_run,
            total_of(final(self).rows@) == total_of(old(self).rows@),
            items_of(final(self).rows@) == items_of(old(self).rows@),
    {
        self.set_selection(true);
    }

    /// "Deselect all".
    pub fn deselect_all(&mut self)
        ensures
            session_wf(*old(self)) ==> session_wf(*final(self)),
            final(self).rows@.len() == old(self).rows@.len(),
            forall|i: int|
                0 <= i < old(self).rows@.len() ==> {
                    let r = #[trigger] final(self).rows@[i];
                    let o = old(self).rows@[i];
                    &&& r.cat == o.cat
                    &&& r.size == o.size
                    &&& r.entries == o.entries
                    &&& r.scanned == o.scanned
                    &&& !r.selected
                },
            final(self).phase == old(self).phase,
            final(self).scanned_count == old(self).scanned_count,
            final(self).confirm_open == old(self).confirm_open,
            final(self).dry_run == old(self).dry_run,
            total_of(final(self).rows@) == total_of(old(self).rows@),
            items_of(final(self).rows@) == items_of(old(self).rows@),
    {
        self.set_selection(false);
    }

    /// Re-selects every row: the safe rows with data when `safe` holds,
    /// none otherwise.
    fn set_selection(&mut self, safe: bool)
        ensures
            final(self).rows@.len() == old(self).rows@.len(),
            forall|i: int|
                0 <= i < old(self).rows@.len() ==> {
                    let r = #[trigger] final(self).rows@[i];
                    let o = old(self).rows@[i];
                    &&& r.cat == o.cat
                    &&& r.size == o.size
                    &&& r.entries == o.entries
                    &&& r.scanned == o.scanned
                    &&& r.selected == (safe && o.size > 0 && o.cat.risk == Risk::Safe)
                },
            final(self).phase == old(self).phase,
            final(self).scanned_count == old(self).scanned_count,
            final(self).confirm_open == old(self).confirm_open,
            final(self).dry_run == old(self).dry_run,
            total_of(final(self).rows@) == total_of(old(self).rows@),
            items_of(final(self).rows@) == items_of(old(self).rows@),
    {
        let mut rows = take_rows(&mut self.rows);
        let ghost all = rows@;
        let n = rows.len();
        let mut out: Vec<Row> = Vec::new();
        let mut k: usize = 0;
        while k < n
            invariant
                k <= n,
                n == all.len(),
                rows@ == all.skip(k as int),
                out@.len() == k,
                total_of(out@) == total_of(all.take(k as int)),
                items_of(out@) == items_of(all.take(k as int)),
                forall|i: int|
                    0 <= i < k ==> {
                        let r = #[trigger] out@[i];
                        let o = all[i];
                        &&& r.cat == o.cat
                        &&& r.size == o.size
                        &&& r.entries == o.entries
                        &&& r.scanned == o.scanned
                        &&& r.selected == (safe && o.size > 0 && o.cat.risk == Risk::Safe)
                    },
            decreases n - k,
        {
            let row = rows.remove(0);
            assert(row == all[k as int]);
            assert(rows@ =~= all.skip(k + 1));
            let selected = safe && row.size > 0 && row.cat.risk == Risk::Safe;
            let ghost before = out@;
            out.push(Row { cat: row.cat, size: row.size, entries: row.entries, selected, scanned: row.scanned });
            assert(out@.drop_last() =~= before);
            assert(all.take(k + 1).drop_last() =~= all.take(k as int));
            k = k + 1;
        }
        assert(all.take(n as int) =~= all);
        self.rows = out;
    }

    /// The categories to clean: those of the selected rows with data, in row
    /// order.
    pub fn selected_categories(&self) -> (r: Vec<Category>)
        ensures
            categories_view(r@) == categories_view(chosen_cats(self.rows@)),
    {
        let mut out: Vec<Category> = Vec::new();
        let mut i: usize = 0;
        while i < self.rows.len()
            invariant
                i <= self.rows@.len(),
                categories_view(out@) == categories_view(chosen_cats(self.rows@.take(i as int))),
            decreases self.rows@.len() - i,
        {
            assert(self.rows@.take(i + 1).drop_last() =~= self.rows@.take(i as int));
            if self.rows[i].selected && self.rows[i].size > 0 {
                let c = self.rows[i].cat.duplicate();
                let ghost before = out@;
                out.push(c);
                assert(categories_view(out@) =~= categories_view(before).push(c@));
                assert(categories_view(chosen_cats(self.rows@.take(i + 1))) =~= categories_view(
                    chosen_cats(self.rows@.take(i as int)),
                ).push(self.rows@[i as int].cat@));
            }
            i = i + 1;
        }
        assert(self.rows@.take(i as int) =~= self.rows@);
        out
    }

    /// The bottom bar (selection summary and actions) shows in the results and
    /// in the dry-run report.
    pub fn shows_actions(&self) -> (r: bool)
        ensures
            r == (self.phase == Phase::Results || self.phase == Phase::DryReport),
    {
        self.phase == Phase::Results || self.phase == Phase::DryReport
    }

    /// The main button of the results ("Clean", or "Preview" in a dry run).
    /// With something selected, a dry run opens the report and deletes
    /// nothing; otherwise it asks for confirmation. Elsewhere it does nothing.
    pub fn press_clean(&mut self)
        ensures
            session_wf(*old(self)) ==> session_wf(*final(self)),
            final(self).rows@ == old(self).rows@,
            final(self).scanned_count == old(self).scanned_count,
            final(self).dry_run == old(self).dry_run,
            (old(self).phase == Phase::Results && chosen_count(old(self).rows@) > 0) ==> (if old(self).dry_run {
                final(self).phase == Phase::DryReport && final(self).confirm_open == old(self).confirm_open
            } else {
                final(self).phase == old(self).phase && final(self).confirm_open
            }),
            !(old(self).phase == Phase::Results && chosen_count(old(self).rows@) > 0) ==> final(self).phase
                == old(self).phase && final(self).confirm_open == old(self).confirm_open,
    {
        if self.phase == Phase::Results && self.selected_count() > 0 {
            if self.dry_run {
                self.phase = Phase::DryReport;
            } else {
                self.confirm_open = true;
            }
        }
    }

    /// "Back" in the dry-run report: return to the results.
    pub fn press_back(&mut self)
        ensures
            session_wf(*old(self)) ==> session_wf(*final(self)),
            final(self).phase == (if old(self).phase == Phase::DryReport {
                Phase::Results
            } else {
                old(self).phase
            }),
            final(self).rows@ == old(self).rows@,
            final(self).scanned_count == old(self).scanned_count,
            final(self).confirm_open == old(self).confirm_open,
            final(self).dry_run == old(self).dry_run,
    {
        if self.phase == Phase::DryReport {
            self.phase = Phase::Results;
        }
    }

    /// "Delete for real" in the dry-run report: with something selected, ask
    /// for confirmation. Elsewhere it does nothing.
    pub fn press_delete_for_real(&mut self)
        ensures
            session_wf(*old(self)) ==> session_wf(*final(self)),
            final(self).confirm_open == (old(self).confirm_open || (old(self).phase == Phase::DryReport
                && chosen_count(old(self).rows@) > 0)),
            final(self).phase == old(self).phase,
            final(self).rows@ == old(self).rows@,
            final(self).scanned_count == old(self).scanned_count,
            final(self).dry_run == old(self).dry_run,
    {
        if self.phase == Phase::DryReport && self.selected_count() > 0 {
            self.confirm_open = true;
        }
    }

    /// "Cancel" in the confirmation: nothing happens.
    pub fn cancel_confirm(&mut self)
        ensures
            session_wf(*old(self)) ==> session_wf(*final(self)),
            !final(self).confirm_open,
            final(self).phase == old(self).phase,
            final(self).rows@ == old(self).rows@,
            final(self).scanned_count == old(self).scanned_count,
            final(self).dry_run == old(self).dry_run,
    {
        self.confirm_open = false;
    }

    /// "Delete now" in the confirmation: the only way a cleanup starts. When
    /// the confirmation is open it closes, the run enters the cleaning phase
    /// and the selected categories are handed out to be cleaned; otherwise
    /// nothing happens and nothing is handed out.
    pub fn confirm(&mut self) -> (r: Option<Vec<Category>>)
        ensures
            session_wf(*old(self)) ==> session_wf(*final(self)),
            final(self).rows@ == old(self).rows@,
            final(self).scanned_count == old(self).scanned_count,
            final(self).dry_run == old(self).dry_run,
            !final(self).confirm_open,
            old(self).confirm_open ==> (r matches Some(cats) && categories_view(cats@) == categories_view(
                chosen_cats(old(self).rows@),
            ) && final(self).phase == (Phase::Cleaning { done: 0, total: cats@.len() as usize, freed: 0 })),
            !old(self).confirm_open ==> r is None && final(self).phase == old(self).phase,
    {
        if !self.confirm_open {
            return None;
        }
        self.confirm_open = false;
        let cats = self.selected_categories();
        let total = cats.len();
        self.phase = Phase::Cleaning { done: 0, total, freed: 0 };
        Some(cats)
    }

    /// Progress reported by the cleaning worker.
    pub fn record_progress(&mut self, done: usize, total: usize, freed: u64)
        ensures
            session_wf(*old(self)) ==> session_wf(*final(self)),
            final(self).phase == (Phase::Cleaning { done, total, freed }),
            final(self).rows@ == old(self).rows@,
            final(self).scanned_count == old(self).scanned_count,
            final(self).confirm_open == old(self).confirm_open,
            final(self).dry_run == old(self).dry_run,
    {
        self.phase = Phase::Cleaning { done, total, freed };
    }

    /// The cleaning worker is done.
    pub fn finish_clean(&mut self, freed: u64, errors: usize)
        ensures
            session_wf(*old(self)) ==> session_wf(*final(self)),
            final(self).phase == (Phase::Done { freed, errors }),
            final(self).rows@ == old(self).rows@,
            final(self).scanned_count == old(self).scanned_count,
            final(self).confirm_open == old(self).confirm_open,
            final(self).dry_run == old(self).dry_run,
    {
        self.phase = Phase::Done { freed, errors };
    }
}

proof fn lemma_same_sizes(a: Seq<Row>, b: Seq<Row>)
    requires
        a.len() == b.len(),
        forall|k: int| 0 <= k < a.len() ==> a[k].size == b[k].size && a[k].entries@.len() == b[k].entries@.len(),
    ensures
        total_of(a) == total_of(b),
        items_of(a) == items_of(b),
    decreases a.len(),
{
    if a.len() > 0 {
        lemma_same_sizes(a.drop_last(), b.drop_last());
    }
}

} // verus!
