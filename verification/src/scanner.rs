//! Disk usage bookkeeping: per-target sizes, the per-category summary (sorted
//! largest first), and the search that resolves a category to the concrete
//! paths it would delete.

use vstd::prelude::*;
use crate::paths::{ends_with, same_text, text_ends_with};
use crate::safety::{GuardView, SafetyGuard, is_safe_target, safe_target};

verus! {

broadcast use vstd::seq_lib::group_seq_properties;

/// One deletable target: shown in previews and removed on clean.
pub struct Entry {
    pub path: String,
    pub size: u64,
}

impl View for Entry {
    type V = (Seq<char>, u64);

    open spec fn view(&self) -> (Seq<char>, u64) {
        (self.path@, self.size)
    }
}

/// Result of scanning a category: total reclaimable bytes plus the per-item
/// breakdown, largest first.
pub struct CatScan {
    pub total: u64,
    pub entries: Vec<Entry>,
}

/// The views of a sequence of entries.
pub open spec fn entries_view(entries: Seq<Entry>) -> Seq<(Seq<char>, u64)> {
    entries.map_values(|e: Entry| e@)
}

/// Sum of the sizes of a sequence of entries.
pub open spec fn size_sum(s: Seq<(Seq<char>, u64)>) -> int
    decreases s.len(),
{
    if s.len() == 0 {
        0
    } else {
        size_sum(s.drop_last()) + s.last().1
    }
}

/// Sum of a sequence of byte counts.
pub open spec fn count_sum(s: Seq<u64>) -> int
    decreases s.len(),
{
    if s.len() == 0 {
        0
    } else {
        count_sum(s.drop_last()) + s.last()
    }
}

/// Where an entry of the given size goes in a largest-first list: after every
/// leading entry at least as large.
pub open spec fn rank_position(s: Seq<(Seq<char>, u64)>, size: u64) -> int
    decreases s.len(),
{
    if s.len() == 0 || s[0].1 < size {
        0
    } else {
        1 + rank_position(s.drop_first(), size)
    }
}

/// The entries of `s` with a nonzero size, largest first; entries of equal
/// size keep their order in `s`.
pub open spec fn ranked(s: Seq<(Seq<char>, u64)>) -> Seq<(Seq<char>, u64)>
    decreases s.len(),
{
    if s.len() == 0 {
        s
    } else {
        let rest = ranked(s.drop_last());
        let e = s.last();
        if e.1 > 0 {
            rest.insert(rank_position(rest, e.1), e)
        } else {
            rest
        }
    }
}

/// Sizes never grow along the sequence.
pub open spec fn largest_first(s: Seq<(Seq<char>, u64)>) -> bool {
    forall|i: int, j: int| 0 <= i < j < s.len() ==> s[i].1 >= s[j].1
}

/// An entry of positive size.
pub open spec fn has_bytes(e: (Seq<char>, u64)) -> bool {
    e.1 > 0
}

proof fn lemma_rank_position_found(s: Seq<(Seq<char>, u64)>, size: u64, k: int)
    requires
        0 <= k <= s.len(),
        forall|j: int| 0 <= j < k ==> s[j].1 >= size,
        k == s.len() || s[k].1 < size,
    ensures
        rank_position(s, size) == k,
    decreases k,
{
    if k > 0 {
        lemma_rank_position_found(s.drop_first(), size, k - 1);
    }
}

proof fn lemma_rank_position_bounds(s: Seq<(Seq<char>, u64)>, size: u64)
    ensures
        0 <= rank_position(s, size) <= s.len(),
        forall|j: int| 0 <= j < rank_position(s, size) ==> s[j].1 >= size,
        rank_position(s, size) == s.len() || s[rank_position(s, size)].1 < size,
    decreases s.len(),
{
    if s.len() > 0 && s[0].1 >= size {
        let t = s.drop_first();
        lemma_rank_position_bounds(t, size);
        assert forall|j: int| 0 <= j < rank_position(s, size) implies s[j].1 >= size by {
            if j > 0 {
                assert(s[j] == t[j - 1]);
            }
        }
    }
}

proof fn lemma_size_sum_add(a: Seq<(Seq<char>, u64)>, b: Seq<(Seq<char>, u64)>)
    ensures
        size_sum(a + b) == size_sum(a) + size_sum(b),
    decreases b.len(),
{
    if b.len() > 0 {
        assert((a + b).drop_last() =~= a + b.drop_last());
        lemma_size_sum_add(a, b.drop_last());
    } else {
        assert(a + b =~= a);
    }
}

proof fn lemma_size_sum_insert(s: Seq<(Seq<char>, u64)>, p: int, e: (Seq<char>, u64))
    requires
        0 <= p <= s.len(),
    ensures
        size_sum(s.insert(p, e)) == size_sum(s) + e.1,
{
    let a = s.subrange(0, p);
    let b = s.subrange(p, s.len() as int);
    lemma_size_sum_add(a.push(e), b);
    lemma_size_sum_add(a, b);
    assert(a.push(e).drop_last() =~= a);
    assert(a + b =~= s);
}

proof fn lemma_multiset_insert<A>(s: Seq<A>, p: int, e: A)
    requires
        0 <= p <= s.len(),
    ensures
        s.insert(p, e).to_multiset() =~= s.to_multiset().insert(e),
{
    let t = s.insert(p, e);
    assert(t.remove(p) =~= s);
    t.to_multiset_ensures();
    assert(t[p] == e);
    assert(t.contains(e));
}

/// The summary keeps exactly the entries of positive size: its multiset of
/// entries is that of the input's entries with a nonzero size.
pub proof fn lemma_ranked_keeps_entries(s: Seq<(Seq<char>, u64)>)
    ensures
        ranked(s).to_multiset() =~= s.filter(|e: (Seq<char>, u64)| has_bytes(e)).to_multiset(),
    decreases s.len(),
{
    reveal(Seq::filter);
    if s.len() > 0 {
        lemma_ranked_keeps_entries(s.drop_last());
        let rest = ranked(s.drop_last());
        let e = s.last();
        if e.1 > 0 {
            lemma_rank_position_bounds(rest, e.1);
            lemma_multiset_insert(rest, rank_position(rest, e.1), e);
            s.drop_last().filter(|e: (Seq<char>, u64)| has_bytes(e)).to_multiset_ensures();
        }
    }
}

/// The summary lists its entries largest first.
pub proof fn lemma_ranked_largest_first(s: Seq<(Seq<char>, u64)>)
    ensures
        largest_first(ranked(s)),
    decreases s.len(),
{
    if s.len() > 0 {
        lemma_ranked_largest_first(s.drop_last());
        let rest = ranked(s.drop_last());
        let e = s.last();
        if e.1 > 0 {
            let p = rank_position(rest, e.1);
            lemma_rank_position_bounds(rest, e.1);
            let t = rest.insert(p, e);
            assert forall|i: int, j: int| 0 <= i < j < t.len() implies t[i].1 >= t[j].1 by {
                if j < p {
                } else if j == p {
                    assert(t[i] == rest[i]);
                } else if i < p {
                    assert(t[i] == rest[i]);
                    assert(t[j] == rest[j - 1]);
                } else if i == p {
                    assert(t[j] == rest[j - 1]);
                    assert(rest[p].1 >= rest[j - 1].1);
                } else {
                    assert(t[i] == rest[i - 1]);
                    assert(t[j] == rest[j - 1]);
                }
            }
        }
    }
}

/// Every listed entry has a nonzero size.
pub proof fn lemma_ranked_all_nonempty(s: Seq<(Seq<char>, u64)>)
    ensures
        forall|i: int| 0 <= i < ranked(s).len() ==> ranked(s)[i].1 > 0,
    decreases s.len(),
{
    if s.len() > 0 {
        lemma_ranked_all_nonempty(s.drop_last());
        let rest = ranked(s.drop_last());
        let e = s.last();
        if e.1 > 0 {
            let p = rank_position(rest, e.1);
            lemma_rank_position_bounds(rest, e.1);
            let t = rest.insert(p, e);
            assert forall|i: int| 0 <= i < t.len() implies t[i].1 > 0 by {
                if i < p {
                    assert(t[i] == rest[i]);
                } else if i > p {
                    assert(t[i] == rest[i - 1]);
                }
            }
        }
    }
}

/// The total of a summary is the sum of its listed entries, which is the sum
/// over all the sized targets.
pub proof fn lemma_ranked_total(s: Seq<(Seq<char>, u64)>)
    ensures
        size_sum(ranked(s)) == size_sum(s),
    decreases s.len(),
{
    if s.len() > 0 {
        lemma_ranked_total(s.drop_last());
        let rest = ranked(s.drop_last());
        let e = s.last();
        if e.1 > 0 {
            lemma_rank_position_bounds(rest, e.1);
            lemma_size_sum_insert(rest, rank_position(rest, e.1), e);
        }
    }
}

/// Adds up byte counts; `None` when the sum does not fit in a `u64`.
pub fn total_size(sizes: &Vec<u64>) -> (r: Option<u64>)
    ensures
        r matches Some(t) ==> t == count_sum(sizes@),
        r is None <==> count_sum(sizes@) > u64::MAX,
{
    let mut total: u64 = 0;
    let mut i: usize = 0;
    while i < sizes.len()
        invariant
            i <= sizes.len(),
            total == count_sum(sizes@.take(i as int)),
        decreases sizes.len() - i,
    {
        assert(sizes@.take(i + 1).drop_last() =~= sizes@.take(i as int));
        if total > u64::MAX - sizes[i] {
            proof { lemma_count_sum_prefix_bound(sizes@, i as int + 1) }
            return None;
        }
        total = total + sizes[i];
        i = i + 1;
    }
    assert(sizes@.take(i as int) =~= sizes@);
    Some(total)
}

proof fn lemma_count_sum_prefix_bound(s: Seq<u64>, k: int)
    requires
        0 <= k <= s.len(),
    ensures
        count_sum(s.take(k)) <= count_sum(s),
    decreases s.len() - k,
{
    if k < s.len() {
        lemma_count_sum_prefix_bound(s, k + 1);
        assert(s.take(k + 1).drop_last() =~= s.take(k));
    } else {
        assert(s.take(k) =~= s);
    }
}

proof fn lemma_size_sum_prefix_bound(s: Seq<(Seq<char>, u64)>, k: int)
    requires
        0 <= k <= s.len(),
    ensures
        size_sum(s.take(k)) <= size_sum(s),
    decreases s.len() - k,
{
    if k < s.len() {
        lemma_size_sum_prefix_bound(s, k + 1);
        assert(s.take(k + 1).drop_last() =~= s.take(k));
    } else {
        assert(s.take(k) =~= s);
    }
}

/// Summarises a category's sized targets: the entries of nonzero size,
/// largest first (equal sizes in their given order), and their total.
pub fn scan_category(sized: Vec<Entry>) -> (r: CatScan)
    requires
        size_sum(entries_view(sized@)) <= u64::MAX,
    ensures
        entries_view(r.entries@) == ranked(entries_view(sized@)),
        r.total == size_sum(entries_view(sized@)),
{
    let ghost input = entries_view(sized@);
    let mut out: Vec<Entry> = Vec::new();
    let mut total: u64 = 0;
    let mut i: usize = 0;
    while i < sized.len()
        invariant
            i <= sized.len(),
            input == entries_view(sized@),
            size_sum(input) <= u64::MAX,
            entries_view(out@) == ranked(input.take(i as int)),
            total == size_sum(input.take(i as int)),
        decreases sized.len() - i,
    {
        let ghost prefix = input.take(i + 1);
        assert(prefix.drop_last() =~= input.take(i as int));
        assert(prefix.last() == sized@[i as int]@);
        proof { lemma_size_sum_prefix_bound(input, i + 1) }
        let size = sized[i].size;
        total = total + size;
        if size > 0 {
            let ghost before = entries_view(out@);
            let mut k: usize = 0;
            while k < out.len() && out[k].size >= size
                invariant
                    k <= out.len(),
                    forall|j: int| 0 <= j < k ==> out@[j].size >= size,
                decreases out.len() - k,
            {
                k = k + 1;
            }
            proof {
                lemma_rank_position_found(before, size, k as int);
            }
            let e = Entry { path: sized[i].path.clone(), size };
            out.insert(k, e);
            assert(entries_view(out@) =~= before.insert(k as int, prefix.last()));
        }
        i = i + 1;
    }
    assert(input.take(i as int) =~= input);
    CatScan { total, entries: out }
}

/// What a directory entry is, as its (not followed) metadata tells.
#[derive(Clone, Copy, PartialEq, Eq, Structural)]
pub enum EntryKind {
    /// A symbolic link (never followed).
    Symlink,
    /// A regular file.
    File,
    /// Anything else: a directory, a socket, a device.
    Other,
    /// The metadata could not be read.
    Unreadable,
}

/// How a target's size is measured.
#[derive(Clone, Copy, PartialEq, Eq, Structural)]
pub enum Measure {
    /// It counts as zero bytes.
    Nothing,
    /// The file's own length.
    FileLength,
    /// The total size of the regular files beneath it.
    TreeTotal,
}

/// How the size of a target of the given kind is measured: symlinks count as
/// zero (only the link is ever removed), files by their length, anything else
/// by the files beneath it, and unreadable targets as zero.
pub fn entry_measure(kind: EntryKind) -> (m: Measure)
    ensures
        kind == EntryKind::Symlink ==> m == Measure::Nothing,
        kind == EntryKind::File ==> m == Measure::FileLength,
        kind == EntryKind::Other ==> m == Measure::TreeTotal,
        kind == EntryKind::Unreadable ==> m == Measure::Nothing,
{
    match kind {
        EntryKind::Symlink => Measure::Nothing,
        EntryKind::File => Measure::FileLength,
        EntryKind::Other => Measure::TreeTotal,
        EntryKind::Unreadable => Measure::Nothing,
    }
}

/// Directory names that are never descended into when hunting for developer
/// junk: known heavy or irrelevant places and application bundles.
pub open spec fn noise_name(n: Seq<char>) -> bool {
    ||| n == "Library"@
    ||| n == "Applications"@
    ||| n == "Music"@
    ||| n == "Movies"@
    ||| n == "Pictures"@
    ||| n == "Photos"@
    ||| n == "go"@
    ||| ends_with(n, ".app"@)
    ||| ends_with(n, ".photoslibrary"@)
    ||| ends_with(n, ".framework"@)
}

/// A hidden name: it starts with a dot.
pub open spec fn hidden_name(n: Seq<char>) -> bool {
    n.len() > 0 && n[0] == '.'
}

/// Whether a directory name is one that is not worth descending into.
pub fn is_noise(name: &str) -> (r: bool)
    ensures
        r == noise_name(name@),
{
    same_text(name, "Library") || same_text(name, "Applications") || same_text(name, "Music")
        || same_text(name, "Movies") || same_text(name, "Pictures") || same_text(name, "Photos")
        || same_text(name, "go") || text_ends_with(name, ".app") || text_ends_with(
        name,
        ".photoslibrary",
    ) || text_ends_with(name, ".framework")
}

/// Whether a name starts with a dot.
pub fn is_hidden(name: &str) -> (r: bool)
    ensures
        r == hidden_name(name@),
{
    name.unicode_len() > 0 && name.get_char(0) == '.'
}

/// One entry of a directory listing.
pub struct Listed {
    /// The entry's full path.
    pub path: String,
    /// The entry's file name.
    pub name: String,
    /// It is a real directory (symlinks to directories are not).
    pub is_dir: bool,
}

/// The mathematical value of a [`Listed`] entry.
pub struct ListedView {
    pub path: Seq<char>,
    pub name: Seq<char>,
    pub is_dir: bool,
}

impl View for Listed {
    type V = ListedView;

    open spec fn view(&self) -> ListedView {
        ListedView { path: self.path@, name: self.name@, is_dir: self.is_dir }
    }
}

/// The views of a listing.
pub open spec fn listing_view(l: Seq<Listed>) -> Seq<ListedView> {
    l.map_values(|e: Listed| e@)
}

/// A rule for finding directories: match directories named `name`, only where
/// a file named `sibling` (if any) stands next to the match, no deeper than
/// `max_depth` levels below the base.
pub struct FindRule {
    pub name: String,
    pub sibling: Option<String>,
    pub max_depth: usize,
}

/// The mathematical value of a [`FindRule`].
pub struct RuleView {
    pub name: Seq<char>,
    pub sibling: Option<Seq<char>>,
    pub max_depth: usize,
}

impl View for FindRule {
    type V = RuleView;

    open spec fn view(&self) -> RuleView {
        RuleView {
            name: self.name@,
            sibling: match self.sibling {
                Some(s) => Some(s@),
                None => None,
            },
            max_depth: self.max_depth,
        }
    }
}

/// What becomes of one entry of a listing during a directory hunt.
#[derive(Clone, Copy, PartialEq, Eq, Structural)]
pub enum Act {
    /// Passed over.
    Skip,
    /// A match, recorded at once.
    Record,
    /// A match, recorded once its sibling file is found to exist.
    Confirm,
    /// Searched in turn.
    Descend,
}

/// The decision for one entry found at `depth`: only real directories count;
/// a match is recorded and never descended into; hidden and noise directories
/// are passed over, and nothing deeper than the rule's limit is searched.
pub open spec fn classify(rule: RuleView, depth: usize, e: ListedView) -> Act {
    if !e.is_dir {
        Act::Skip
    } else if e.name == rule.name {
        if rule.sibling is Some {
            Act::Confirm
        } else {
            Act::Record
        }
    } else if hidden_name(e.name) || noise_name(e.name) || depth >= rule.max_depth {
        Act::Skip
    } else {
        Act::Descend
    }
}

/// The decision for one entry found at `depth` of a directory hunt.
pub fn classify_entry(rule: &FindRule, depth: usize, e: &Listed) -> (a: Act)
    ensures
        a == classify(rule@, depth, e@),
{
    if !e.is_dir {
        Act::Skip
    } else if e.name == rule.name {
        if rule.sibling.is_some() {
            Act::Confirm
        } else {
            Act::Record
        }
    } else if is_hidden(e.name.as_str()) || is_noise(e.name.as_str()) || depth >= rule.max_depth {
        Act::Skip
    } else {
        Act::Descend
    }
}

/// What a target search asks of its driver next.
pub enum SearchStep {
    /// List the directory `dir` (reached at `depth` below the base) and hand
    /// the entries back with [`TargetSearch::on_listing`]; a directory that
    /// cannot be read lists as empty.
    List { dir: String, depth: usize },
    /// Tell, with [`TargetSearch::on_sibling`], whether a file named `sibling`
    /// exists next to `of`.
    CheckSibling { of: String, sibling: String },
    /// Nothing to fetch: ask again.
    Continue,
    /// The search is over; collect its result with [`targets`].
    Finished,
}

/// The mathematical value of a [`SearchStep`].
pub enum StepView {
    List { dir: Seq<char>, depth: usize },
    CheckSibling { of: Seq<char>, sibling: Seq<char> },
    Continue,
    Finished,
}

impl View for SearchStep {
    type V = StepView;

    open spec fn view(&self) -> StepView {
        match self {
            SearchStep::List { dir, depth } => StepView::List { dir: dir@, depth: *depth },
            SearchStep::CheckSibling { of, sibling } => StepView::CheckSibling {
                of: of@,
                sibling: sibling@,
            },
            SearchStep::Continue => StepView::Continue,
            SearchStep::Finished => StepView::Finished,
        }
    }
}

/// What a search resolves: the contents of some directories, or directories
/// found by a rule beneath a base.
pub enum SearchMode {
    Contents(Vec<String>),
    Find(String, FindRule),
}

/// The mathematical value of a [`SearchMode`].
pub enum ModeView {
    Contents(Seq<Seq<char>>),
    Find(Seq<char>, RuleView),
}

/// What the search waits for from its driver.
pub enum WaitView {
    Idle,
    Listing(usize),
    Sibling(Seq<char>),
}

enum Wait {
    Idle,
    Listing(usize),
    Sibling(String),
}

struct Frame {
    depth: usize,
    entries: Vec<Listed>,
    next: usize,
}

/// A directory being searched: its depth, its listing and how far into the
/// listing the search has come.
pub struct FrameView {
    pub depth: usize,
    pub entries: Seq<ListedView>,
    pub next: int,
}

/// The mathematical value of a [`TargetSearch`].
pub struct SearchView {
    pub mode: ModeView,
    pub next_root: int,
    pub started: bool,
    pub frames: Seq<FrameView>,
    pub found: Seq<Seq<char>>,
    pub waiting: WaitView,
    pub seen: Seq<ListedView>,
}

/// The search that resolves a category to the paths it would delete. It
/// decides; its driver does the directory reads it asks for.
pub struct TargetSearch {
    mode: SearchMode,
    next_root: usize,
    started: bool,
    frames: Vec<Frame>,
    found: Vec<String>,
    waiting: Wait,
    seen: Ghost<Seq<ListedView>>,
}

impl View for TargetSearch {
    type V = SearchView;

    closed spec fn view(&self) -> SearchView {
        SearchView {
            mode: match self.mode {
                SearchMode::Contents(roots) => ModeView::Contents(
                    roots@.map_values(|r: String| r@),
                ),
                SearchMode::Find(base, rule) => ModeView::Find(base@, rule@),
            },
            next_root: self.next_root as int,
            started: self.started,
            frames: self.frames@.map_values(
                |f: Frame|
                    FrameView { depth: f.depth, entries: listing_view(f.entries@), next: f.next as int },
            ),
            found: self.found@.map_values(|f: String| f@),
            waiting: match self.waiting {
                Wait::Idle => WaitView::Idle,
                Wait::Listing(d) => WaitView::Listing(d),
                Wait::Sibling(p) => WaitView::Sibling(p@),
            },
            seen: self.seen@,
        }
    }
}

/// Some entry handed to the search is a directory at path `p` with the name
/// the rule looks for.
pub open spec fn seen_match(seen: Seq<ListedView>, rule: RuleView, p: Seq<char>) -> bool {
    exists|i: int| 0 <= i < seen.len() && seen[i].path == p && seen[i].is_dir && seen[i].name == rule.name
}

/// Some entry handed to the search has path `p`.
pub open spec fn seen_path(seen: Seq<ListedView>, p: Seq<char>) -> bool {
    exists|i: int| 0 <= i < seen.len() && seen[i].path == p
}

/// The entry `e` was handed to the search.
pub open spec fn was_seen(seen: Seq<ListedView>, e: ListedView) -> bool {
    exists|i: int| 0 <= i < seen.len() && seen[i] == e
}

/// The state of a search is coherent: positions lie within their listings,
/// directories being searched are within the depth limit, and whatever was
/// found (or waits for its sibling check) was handed in as a matching entry.
pub open spec fn search_wf(v: SearchView) -> bool {
    &&& forall|k: int| 0 <= k < v.frames.len() ==> 0 <= #[trigger] v.frames[k].next <= v.frames[k].entries.len()
    &&& match v.mode {
        ModeView::Contents(roots) => {
            &&& 0 <= v.next_root <= roots.len()
            &&& v.frames.len() == 0
            &&& !(v.waiting is Sibling)
            &&& forall|k: int| 0 <= k < v.found.len() ==> seen_path(v.seen, #[trigger] v.found[k])
        },
        ModeView::Find(base, rule) => {
            &&& (!v.started ==> v.frames.len() == 0 && v.waiting is Idle)
            &&& forall|k: int| 0 <= k < v.frames.len() ==> #[trigger] v.frames[k].depth <= rule.max_depth
            &&& forall|k: int, j: int|
                0 <= k < v.frames.len() && 0 <= j < v.frames[k].entries.len() ==> was_seen(
                    v.seen,
                    #[trigger] v.frames[k].entries[j],
                )
            &&& (v.waiting matches WaitView::Listing(d) ==> d <= rule.max_depth)
            &&& (v.waiting matches WaitView::Sibling(p) ==> seen_match(v.seen, rule, p))
            &&& forall|k: int| 0 <= k < v.found.len() ==> seen_match(v.seen, rule, #[trigger] v.found[k])
        },
    }
}

/// The outcome of asking a search for its next step, in the state `old`.
pub open spec fn search_step(old: SearchView, new: SearchView, r: StepView, g: GuardView) -> bool {
    &&& new.mode == old.mode
    &&& new.seen == old.seen
    &&& match old.mode {
        ModeView::Contents(roots) => {
            &&& new.frames == old.frames
            &&& new.found == old.found
            &&& new.started == old.started
            &&& if old.next_root < roots.len() {
                let root = roots[old.next_root];
                &&& new.next_root == old.next_root + 1
                &&& if safe_target(root, g) {
                    r == StepView::List { dir: root, depth: 0 } && new.waiting == WaitView::Listing(0)
                } else {
                    r == StepView::Continue && new.waiting == WaitView::Idle
                }
            } else {
                r == StepView::Finished && new == old
            }
        },
        ModeView::Find(base, rule) => {
            &&& new.next_root == old.next_root
            &&& if !old.started {
                &&& new.started
                &&& r == StepView::List { dir: base, depth: 0 }
                &&& new.waiting == WaitView::Listing(0)
                &&& new.frames == old.frames
                &&& new.found == old.found
            } else if old.frames.len() == 0 {
                r == StepView::Finished && new == old
            } else {
                let top = old.frames.last();
                &&& new.started
                &&& if top.next >= top.entries.len() {
                    &&& new.frames == old.frames.drop_last()
                    &&& new.found == old.found
                    &&& new.waiting == WaitView::Idle
                    &&& r == StepView::Continue
                } else {
                    let e = top.entries[top.next];
                    &&& new.frames == old.frames.drop_last().push(
                        FrameView { depth: top.depth, entries: top.entries, next: top.next + 1 },
                    )
                    &&& match classify(rule, top.depth, e) {
                        Act::Skip => r == StepView::Continue && new.found == old.found
                            && new.waiting == WaitView::Idle,
                        Act::Record => r == StepView::Continue && new.found == old.found.push(
                            e.path,
                        ) && new.waiting == WaitView::Idle,
                        Act::Confirm => r == StepView::CheckSibling {
                            of: e.path,
                            sibling: rule.sibling->0,
                        } && new.found == old.found && new.waiting == WaitView::Sibling(e.path),
                        Act::Descend => r == StepView::List { dir: e.path, depth: (top.depth + 1) as usize }
                            && new.found == old.found && new.waiting == WaitView::Listing(
                            (top.depth + 1) as usize,
                        ),
                    }
                }
            }
        },
    }
}

impl TargetSearch {
    /// A search over the immediate contents of `roots`.
    pub fn contents(roots: Vec<String>) -> (s: TargetSearch)
        ensures
            s@.mode == ModeView::Contents(roots@.map_values(|r: String| r@)),
            s@.next_root == 0,
            !s@.started,
            s@.frames.len() == 0,
            s@.found.len() == 0,
            s@.waiting == WaitView::Idle,
            search_wf(s@),
    {
        let s = TargetSearch {
            mode: SearchMode::Contents(roots),
            next_root: 0,
            started: false,
            frames: Vec::new(),
            found: Vec::new(),
            waiting: Wait::Idle,
            seen: Ghost(Seq::empty()),
        };
        assert(s@.frames =~= Seq::<FrameView>::empty());
        assert(s@.found =~= Seq::<Seq<char>>::empty());
        s
    }

    /// A hunt for directories matching `rule` beneath `base`.
    pub fn find(base: String, rule: FindRule) -> (s: TargetSearch)
        ensures
            s@.mode == ModeView::Find(base@, rule@),
            !s@.started,
            s@.next_root == 0,
            s@.frames.len() == 0,
            s@.found.len() == 0,
            s@.waiting == WaitView::Idle,
            search_wf(s@),
    {
        let s = TargetSearch {
            mode: SearchMode::Find(base, rule),
            next_root: 0,
            started: false,
            frames: Vec::new(),
            found: Vec::new(),
            waiting: Wait::Idle,
            seen: Ghost(Seq::empty()),
        };
        assert(s@.frames =~= Seq::<FrameView>::empty());
        assert(s@.found =~= Seq::<Seq<char>>::empty());
        s
    }

    /// Whether the search waits for an answer from its driver.
    pub fn is_waiting(&self) -> (r: bool)
        ensures
            r == !(self@.waiting is Idle),
    {
        match self.waiting {
            Wait::Idle => false,
            _ => true,
        }
    }

    /// Takes the search one step further: decides on the next root or the next
    /// listed entry and says what, if anything, its driver must fetch.
    pub fn next_step(&mut self, guard: &SafetyGuard) -> (r: SearchStep)
        requires
            search_wf(old(self)@),
            old(self)@.waiting is Idle,
        ensures
            search_wf(final(self)@),
            search_step(old(self)@, final(self)@, r@, guard@),
            final(self)@.mode matches ModeView::Find(_, rule) ==> (r@ matches StepView::List {
                depth,
                ..
            } ==> depth <= rule.max_depth),
    {
        let ghost old_v = self@;
        match &self.mode {
            SearchMode::Contents(roots) => {
                if self.next_root < roots.len() {
                    let root = &roots[self.next_root];
                    self.next_root = self.next_root + 1;
                    if is_safe_target(root.as_str(), guard) {
                        self.waiting = Wait::Listing(0);
                        let r = SearchStep::List { dir: root.clone(), depth: 0 };
                        proof {
                            assert(self@.frames =~= old_v.frames);
                            assert(self@.found =~= old_v.found);
                        }
                        r
                    } else {
                        proof {
                            assert(self@.frames =~= old_v.frames);
                            assert(self@.found =~= old_v.found);
                        }
                        SearchStep::Continue
                    }
                } else {
                    SearchStep::Finished
                }
            },
            SearchMode::Find(base, rule) => {
                if !self.started {
                    self.started = true;
                    self.waiting = Wait::Listing(0);
                    proof {
                        assert(self@.frames =~= old_v.frames);
                        assert(self@.found =~= old_v.found);
                    }
                    return SearchStep::List { dir: base.clone(), depth: 0 };
                }
                if self.frames.len() == 0 {
                    return SearchStep::Finished;
                }
                let mut top = self.frames.pop().unwrap();
                proof {
                    assert(self@.frames =~= old_v.frames.drop_last());
                }
                if top.next >= top.entries.len() {
                    proof {
                        assert(self@.found =~= old_v.found);
                    }
                    return SearchStep::Continue;
                }
                let idx = top.next;
                proof {
                    let e = old_v.frames.last().entries[idx as int];
                    assert(was_seen(old_v.seen, e));
                    assert(e.is_dir && e.name == old_v.mode->Find_1.name ==> seen_match(
                        old_v.seen,
                        old_v.mode->Find_1,
                        e.path,
                    ));
                }
                let act = classify_entry(rule, top.depth, &top.entries[idx]);
                let path = top.entries[idx].path.clone();
                let depth = top.depth;
                top.next = idx + 1;
                self.frames.push(top);
                proof {
                    assert(listing_view(top.entries@)[idx as int] == top.entries@[idx as int]@);
                    assert(self@.frames =~= old_v.frames.drop_last().push(
                        FrameView {
                            depth: old_v.frames.last().depth,
                            entries: old_v.frames.last().entries,
                            next: old_v.frames.last().next + 1,
                        },
                    ));
                }
                match act {
                    Act::Skip => {
                        proof {
                            assert(self@.found =~= old_v.found);
                        }
                        SearchStep::Continue
                    },
                    Act::Record => {
                        self.found.push(path);
                        proof {
                            assert(self@.found =~= old_v.found.push(path@));
                            assert(seen_match(old_v.seen, old_v.mode->Find_1, path@));
                        }
                        SearchStep::Continue
                    },
                    Act::Confirm => {
                        let sibling = match &rule.sibling {
                            Some(s) => s.clone(),
                            None => String::new(),
                        };
                        self.waiting = Wait::Sibling(path.clone());
                        proof {
                            assert(self@.found =~= old_v.found);
                            assert(seen_match(old_v.seen, old_v.mode->Find_1, path@));
                        }
                        SearchStep::CheckSibling { of: path, sibling }
                    },
                    Act::Descend => {
                        self.waiting = Wait::Listing(depth + 1);
                        proof {
                            assert(self@.found =~= old_v.found);
                        }
                        SearchStep::List { dir: path, depth: depth + 1 }
                    },
                }
            },
        }
    }

    /// Hands the search the listing it asked for. For a contents search every
    /// entry becomes a target; for a hunt the directory is searched next.
    pub fn on_listing(&mut self, entries: Vec<Listed>)
        requires
            search_wf(old(self)@),
            old(self)@.waiting is Listing,
        ensures
            search_wf(final(self)@),
            final(self)@.waiting == WaitView::Idle,
            final(self)@.mode == old(self)@.mode,
            final(self)@.next_root == old(self)@.next_root,
            final(self)@.started == old(self)@.started,
            final(self)@.seen == old(self)@.seen + listing_view(entries@),
            old(self)@.mode is Contents ==> final(self)@.frames == old(self)@.frames
                && final(self)@.found == old(self)@.found + listing_view(entries@).map_values(
                |e: ListedView| e.path,
            ),
            old(self)@.mode is Find ==> final(self)@.found == old(self)@.found
                && final(self)@.frames == old(self)@.frames.push(
                FrameView { depth: old(self)@.waiting->Listing_0, entries: listing_view(entries@), next: 0 },
            ),
    {
        let ghost old_v = self@;
        let ghost lv = listing_view(entries@);
        let depth = match self.waiting {
            Wait::Listing(d) => d,
            _ => 0,
        };
        self.waiting = Wait::Idle;
        self.seen = Ghost(self.seen@ + lv);
        assert forall|k: int| 0 <= k < old_v.seen.len() implies self@.seen[k] == old_v.seen[k] by {}
        assert forall|j: int| 0 <= j < lv.len() implies was_seen(self@.seen, lv[j]) by {
            assert(self@.seen[old_v.seen.len() + j] == lv[j]);
        }
        match &self.mode {
            SearchMode::Contents(_) => {
                let mut i: usize = 0;
                while i < entries.len()
                    invariant
                        i <= entries.len(),
                        lv == listing_view(entries@),
                        self@.frames == old_v.frames,
                        self@.seen == old_v.seen + lv,
                        self@.mode == old_v.mode,
                        self@.next_root == old_v.next_root,
                        self@.started == old_v.started,
                        self@.waiting == WaitView::Idle,
                        self@.found == old_v.found + lv.take(i as int).map_values(
                            |e: ListedView| e.path,
                        ),
                    decreases entries.len() - i,
                {
                    let ghost before = self@.found;
                    let ghost raw = self.found@;
                    self.found.push(entries[i].path.clone());
                    proof {
                        assert(lv[i as int] == entries@[i as int]@);
                        assert(self.found@ == raw.push(entries@[i as int].path));
                        assert(self@.found =~= before.push(lv[i as int].path));
                        assert(lv.take(i + 1).map_values(|e: ListedView| e.path) =~= lv.take(
                            i as int,
                        ).map_values(|e: ListedView| e.path).push(lv[i as int].path));
                        assert(self@.found =~= old_v.found + lv.take(i + 1).map_values(
                            |e: ListedView| e.path,
                        ));
                    }
                    i = i + 1;
                }
                proof {
                    assert(lv.take(i as int) =~= lv);
                    assert(self@.frames =~= old_v.frames);
                    assert forall|k: int| 0 <= k < self@.found.len() implies seen_path(
                        self@.seen,
                        self@.found[k],
                    ) by {
                        if k < old_v.found.len() {
                            let w = choose|w: int| 0 <= w < old_v.seen.len() && old_v.seen[w].path == old_v.found[k];
                            assert(self@.seen[w] == old_v.seen[w]);
                        } else {
                            let j = k - old_v.found.len();
                            assert(self@.found[k] == lv[j].path);
                            assert(self@.seen[old_v.seen.len() + j] == lv[j]);
                        }
                    }
                }
            },
            SearchMode::Find(_, _) => {
                let frame = Frame { depth, entries, next: 0 };
                self.frames.push(frame);
                proof {
                    assert(self@.found =~= old_v.found);
                    assert(self@.frames =~= old_v.frames.push(
                        FrameView { depth, entries: lv, next: 0 },
                    ));
                    let rule = old_v.mode->Find_1;
                    assert forall|k: int| 0 <= k < self@.found.len() implies seen_match(
                        self@.seen,
                        rule,
                        self@.found[k],
                    ) by {
                        let w = choose|w: int|
                            0 <= w < old_v.seen.len() && old_v.seen[w].path == old_v.found[k]
                                && old_v.seen[w].is_dir && old_v.seen[w].name == rule.name;
                        assert(self@.seen[w] == old_v.seen[w]);
                    }
                    assert forall|k: int, j: int|
                        0 <= k < self@.frames.len() && 0 <= j < self@.frames[k].entries.len()
                        implies was_seen(self@.seen, #[trigger] self@.frames[k].entries[j]) by {
                        if k < old_v.frames.len() {
                            let e = old_v.frames[k].entries[j];
                            assert(was_seen(old_v.seen, e));
                            let w = choose|w: int| 0 <= w < old_v.seen.len() && old_v.seen[w] == e;
                            assert(self@.seen[w] == old_v.seen[w]);
                        }
                    }
                }
            },
        }
    }

    /// Tells the search whether the sibling file it asked about exists; the
    /// match waiting for it is recorded only if it does.
    pub fn on_sibling(&mut self, present: bool)
        requires
            search_wf(old(self)@),
            old(self)@.waiting is Sibling,
        ensures
            search_wf(final(self)@),
            final(self)@.waiting == WaitView::Idle,
            final(self)@.mode == old(self)@.mode,
            final(self)@.next_root == old(self)@.next_root,
            final(self)@.started == old(self)@.started,
            final(self)@.seen == old(self)@.seen,
            final(self)@.frames == old(self)@.frames,
            final(self)@.found == (if present {
                old(self)@.found.push(old(self)@.waiting->Sibling_0)
            } else {
                old(self)@.found
            }),
    {
        let ghost old_v = self@;
        let mut waiting = Wait::Idle;
        std::mem::swap(&mut waiting, &mut self.waiting);
        if let Wait::Sibling(p) = waiting {
            if present {
                self.found.push(p);
            }
        }
        proof {
            if present {
                assert(self@.found =~= old_v.found.push(old_v.waiting->Sibling_0));
            } else {
                assert(self@.found =~= old_v.found);
            }
            assert(self@.frames =~= old_v.frames);
        }
    }
}

/// The paths a finished (or abandoned) search resolved to, keeping only
/// those that pass the safety guard, in the order they were found.
pub fn targets(search: TargetSearch, guard: &SafetyGuard) -> (r: Vec<String>)
    ensures
        r@.map_values(|p: String| p@) == search@.found.filter(|p: Seq<char>| safe_target(p, guard@)),
        forall|i: int| 0 <= i < r@.len() ==> safe_target(#[trigger] r@[i]@, guard@),
{
    let ghost found = search@.found;
    let ghost pred = |p: Seq<char>| safe_target(p, guard@);
    let all = search.found;
    let mut out: Vec<String> = Vec::new();
    let mut i: usize = 0;
    while i < all.len()
        invariant
            i <= all.len(),
            found == all@.map_values(|p: String| p@),
            pred == (|p: Seq<char>| safe_target(p, guard@)),
            out@.map_values(|p: String| p@) == found.take(i as int).filter(pred),
            forall|k: int| 0 <= k < out@.len() ==> safe_target(#[trigger] out@[k]@, guard@),
        decreases all.len() - i,
    {
        assert(found.take(i + 1) =~= found.take(i as int).push(found[i as int]));
        proof { found.take(i as int).lemma_filter_push(found[i as int], pred); }
        if is_safe_target(all[i].as_str(), guard) {
            out.push(all[i].clone());
            assert(out@.map_values(|p: String| p@) =~= found.take(i as int).filter(pred).push(
                found[i as int],
            ));
        }
        i = i + 1;
    }
    assert(found.take(i as int) =~= found);
    out
}

/// How a directory hunt treats an entry: only real directories count, a
/// directory with the searched name is a match (recorded at once, or once
/// its sibling file is confirmed) and is never descended into, and hidden,
/// noise and too-deep directories are never searched.
pub proof fn lemma_hunt_decisions(rule: RuleView, depth: usize, e: ListedView)
    ensures
        !e.is_dir ==> classify(rule, depth, e) == Act::Skip,
        (classify(rule, depth, e) == Act::Record) <==> (e.is_dir && e.name == rule.name
            && rule.sibling is None),
        (classify(rule, depth, e) == Act::Confirm) <==> (e.is_dir && e.name == rule.name
            && rule.sibling is Some),
        classify(rule, depth, e) == Act::Descend ==> {
            &&& e.is_dir
            &&& e.name != rule.name
            &&& !hidden_name(e.name)
            &&& !noise_name(e.name)
            &&& depth < rule.max_depth
        },
{
}

/// Everything a hunt has found was handed in as a directory entry bearing the
/// searched name.
pub proof fn lemma_found_are_matches(v: SearchView)
    requires
        search_wf(v),
        v.mode is Find,
    ensures
        forall|k: int| 0 <= k < v.found.len() ==> seen_match(v.seen, v.mode->Find_1, #[trigger] v.found[k]),
{
}

/// A hunt searches every ordinary directory: a real directory within the depth
/// limit that does not bear the searched name, is not hidden and is none of
/// the noise places (`Library`, `Applications`, `Music`, `Movies`, `Pictures`,
/// `Photos`, `go`, or an `.app`, `.photoslibrary` or `.framework` bundle) is
/// descended into, so a match anywhere beneath it is reached.
pub proof fn lemma_hunt_searches_ordinary_dirs(rule: RuleView, depth: usize, e: ListedView)
    requires
        e.is_dir,
        e.name != rule.name,
        !(e.name.len() > 0 && e.name[0] == '.'),
        depth < rule.max_depth,
        e.name != "Library"@,
        e.name != "Applications"@,
        e.name != "Music"@,
        e.name != "Movies"@,
        e.name != "Pictures"@,
        e.name != "Photos"@,
        e.name != "go"@,
        !ends_with(e.name, ".app"@),
        !ends_with(e.name, ".photoslibrary"@),
        !ends_with(e.name, ".framework"@),
    ensures
        classify(rule, depth, e) == Act::Descend,
{
}

/// A run of a contents search over `roots`: `before[k]` is the state in which
/// step `k` is asked for and `after[k]` the state right after it answers
/// `steps[k]`; between two steps the driver may hand in a listing, which keeps
/// what is searched and how far the search has come.
pub open spec fn contents_run(
    roots: Seq<Seq<char>>,
    g: GuardView,
    before: Seq<SearchView>,
    after: Seq<SearchView>,
    steps: Seq<StepView>,
) -> bool {
    &&& before.len() == steps.len() + 1
    &&& after.len() == steps.len()
    &&& before[0].mode == ModeView::Contents(roots)
    &&& before[0].next_root == 0
    &&& forall|k: int| 0 <= k < steps.len() ==> #[trigger] search_step(before[k], after[k], steps[k], g)
    &&& forall|k: int|
        0 <= k < steps.len() ==> before[k + 1].mode == (#[trigger] after[k]).mode && before[k
            + 1].next_root == after[k].next_root
}

proof fn lemma_contents_run_position(
    roots: Seq<Seq<char>>,
    g: GuardView,
    before: Seq<SearchView>,
    after: Seq<SearchView>,
    steps: Seq<StepView>,
    k: int,
)
    requires
        contents_run(roots, g, before, after, steps),
        0 <= k <= steps.len(),
    ensures
        before[k].mode == ModeView::Contents(roots),
        before[k].next_root == (if k < roots.len() { k } else { roots.len() as int }),
    decreases k,
{
    if k > 0 {
        lemma_contents_run_position(roots, g, before, after, steps, k - 1);
        assert(search_step(before[k - 1], after[k - 1], steps[k - 1], g));
        assert(before[k].mode == after[k - 1].mode);
    }
}

/// A contents search asks about every root once, in order, and finishes only
/// after the last: step `i` lists root `i` when it passes the guard and passes
/// over it otherwise, and the step after the last root is the end.
pub proof fn lemma_contents_run_asks_every_root(
    roots: Seq<Seq<char>>,
    g: GuardView,
    before: Seq<SearchView>,
    after: Seq<SearchView>,
    steps: Seq<StepView>,
)
    requires
        contents_run(roots, g, before, after, steps),
        steps.len() > 0,
        steps.last() == StepView::Finished,
    ensures
        roots.len() < steps.len(),
        steps[roots.len() as int] == StepView::Finished,
        forall|i: int|
            0 <= i < roots.len() ==> #[trigger] steps[i] == (if safe_target(roots[i], g) {
                StepView::List { dir: roots[i], depth: 0 }
            } else {
                StepView::Continue
            }),
{
    let n = steps.len() - 1;
    lemma_contents_run_position(roots, g, before, after, steps, n);
    assert(search_step(before[n], after[n], steps[n], g));
    assert(n >= roots.len());
    lemma_contents_run_position(roots, g, before, after, steps, roots.len() as int);
    assert(search_step(before[roots.len() as int], after[roots.len() as int], steps[roots.len() as int], g));
    assert forall|i: int| 0 <= i < roots.len() implies #[trigger] steps[i] == (if safe_target(roots[i], g) {
        StepView::List { dir: roots[i], depth: 0 }
    } else {
        StepView::Continue
    }) by {
        lemma_contents_run_position(roots, g, before, after, steps, i);
        assert(search_step(before[i], after[i], steps[i], g));
    }
}

} // verus!
