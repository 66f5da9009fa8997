//! Deletion decisions. The only place that says what gets removed: a target
//! is purged only when the safety guard allows it, and every refusal and
//! failure is reported.

use vstd::prelude::*;
use crate::safety::{SafetyGuard, is_safe_target, safe_target};

verus! {

/// Result of cleaning a category: bytes reclaimed and what went wrong.
pub struct Cleaned {
    pub freed: u64,
    pub errors: Vec<String>,
}

/// The views of a list of messages.
pub open spec fn texts_view(v: Seq<String>) -> Seq<Seq<char>> {
    v.map_values(|m: String| m@)
}

impl Cleaned {
    /// Nothing freed, nothing wrong yet.
    pub fn new() -> (c: Cleaned)
        ensures
            c.freed == 0,
            c.errors@.len() == 0,
    {
        Cleaned { freed: 0, errors: Vec::new() }
    }
}

/// What the driver of a cleanup hands in.
pub enum CleanEvent {
    /// The next target of the category.
    Target(String),
    /// The outcome of purging the last target the cleanup asked to purge:
    /// bytes reclaimed and the failures met.
    Purged { freed: u64, errors: Vec<String> },
}

/// What the driver of a cleanup must do next.
pub enum CleanAction {
    /// Purge this target (recursively; symlinks are removed, never followed)
    /// and hand back the outcome.
    Purge(String),
    /// The target was refused as unsafe; go on with the next one.
    Refused,
    /// The purge's outcome was recorded; go on with the next target.
    Recorded,
}

/// The message recorded for a target the guard refuses.
pub open spec fn refusal(target: Seq<char>) -> Seq<char> {
    "refused unsafe path: "@ + target
}

/// One step of cleaning a category. Targets are re-resolved by the driver
/// before cleaning, so the deletion reflects the filesystem as it is now;
/// each one is checked against the guard again before it may be purged.
pub fn clean_category(state: &mut Cleaned, event: CleanEvent, guard: &SafetyGuard) -> (a: CleanAction)
    requires
        event matches CleanEvent::Purged { freed, .. } ==> old(state).freed + freed <= u64::MAX,
    ensures
        match event {
            CleanEvent::Target(t) => if safe_target(t@, guard@) {
                &&& a matches CleanAction::Purge(p) && p@ == t@
                &&& final(state).freed == old(state).freed
                &&& final(state).errors@ == old(state).errors@
            } else {
                &&& a is Refused
                &&& final(state).freed == old(state).freed
                &&& texts_view(final(state).errors@) == texts_view(old(state).errors@).push(
                    refusal(t@),
                )
            },
            CleanEvent::Purged { freed, errors } => {
                &&& a is Recorded
                &&& final(state).freed == old(state).freed + freed
                &&& final(state).errors@ == old(state).errors@ + errors@
            },
        },
        a matches CleanAction::Purge(p) ==> safe_target(p@, guard@),
{
    match event {
        CleanEvent::Target(t) => {
            if is_safe_target(t.as_str(), guard) {
                CleanAction::Purge(t)
            } else {
                let mut msg = String::from_str("refused unsafe path: ");
                msg.append(t.as_str());
                let ghost before = state.errors@;
                state.errors.push(msg);
                assert(texts_view(state.errors@) =~= texts_view(before).push(refusal(t@)));
                CleanAction::Refused
            }
        },
        CleanEvent::Purged { freed, errors } => {
            state.freed = state.freed + freed;
            let mut errors = errors;
            state.errors.append(&mut errors);
            CleanAction::Recorded
        },
    }
}

/// Running totals of a cleanup over several categories.
pub struct Tally {
    /// Categories cleaned so far.
    pub done: usize,
    /// Categories to clean.
    pub total: usize,
    /// Bytes reclaimed so far.
    pub freed: u64,
    /// Failures met so far.
    pub errors: usize,
}

impl Tally {
    /// Nothing cleaned yet out of `total` categories.
    pub fn new(total: usize) -> (t: Tally)
        ensures
            t.done == 0,
            t.total == total,
            t.freed == 0,
            t.errors == 0,
    {
        Tally { done: 0, total, freed: 0, errors: 0 }
    }

    /// Whether one more category's outcome can be counted without overflow.
    pub fn fits(&self, c: &Cleaned) -> (r: bool)
        ensures
            r == (self.done < usize::MAX && self.freed + c.freed <= u64::MAX && self.errors
                + c.errors@.len() <= usize::MAX),
    {
        self.done < usize::MAX && self.freed <= u64::MAX - c.freed && self.errors <= usize::MAX
            - c.errors.len()
    }

    /// Counts one more cleaned category: its bytes and its failures.
    pub fn add(&mut self, c: &Cleaned)
        requires
            old(self).done < usize::MAX,
            old(self).freed + c.freed <= u64::MAX,
            old(self).errors + c.errors@.len() <= usize::MAX,
        ensures
            final(self).done == old(self).done + 1,
            final(self).total == old(self).total,
            final(self).freed == old(self).freed + c.freed,
            final(self).errors == old(self).errors + c.errors@.len(),
    {
        self.done = self.done + 1;
        self.freed = self.freed + c.freed;
        self.errors = self.errors + c.errors.len();
    }
}

/// What a path to purge turned out to be, from its (not followed) metadata.
pub enum PathKind {
    /// A symbolic link: only the link is ever removed.
    Symlink,
    /// A regular file of this many bytes.
    File(u64),
    /// Anything else: emptied, then removed as a directory.
    Other,
    /// Its metadata could not be read, with this error.
    Unreadable(String),
}

/// What a purge asks of its driver next.
pub enum PurgeStep {
    /// Read the (not followed) metadata of this path; answer with
    /// [`Purge::on_kind`].
    Inspect(String),
    /// Remove this link itself, as a file or else as a directory; answer with
    /// [`Purge::on_link_removed`].
    RemoveLink(String),
    /// Remove this file; answer with [`Purge::on_file_removed`].
    RemoveFile(String),
    /// List this directory's children; answer with [`Purge::on_children`]
    /// (an unreadable directory has none).
    ListChildren(String),
    /// Remove this (now empty) directory; answer with
    /// [`Purge::on_dir_removed`].
    RemoveDir(String),
    /// Nothing to do: ask again.
    Continue,
    /// The purge is over; collect its outcome with [`Purge::outcome`].
    Finished,
}

/// The mathematical value of a [`PurgeStep`].
pub enum PurgeStepView {
    Inspect(Seq<char>),
    RemoveLink(Seq<char>),
    RemoveFile(Seq<char>),
    ListChildren(Seq<char>),
    RemoveDir(Seq<char>),
    Continue,
    Finished,
}

impl View for PurgeStep {
    type V = PurgeStepView;

    open spec fn view(&self) -> PurgeStepView {
        match self {
            PurgeStep::Inspect(p) => PurgeStepView::Inspect(p@),
            PurgeStep::RemoveLink(p) => PurgeStepView::RemoveLink(p@),
            PurgeStep::RemoveFile(p) => PurgeStepView::RemoveFile(p@),
            PurgeStep::ListChildren(p) => PurgeStepView::ListChildren(p@),
            PurgeStep::RemoveDir(p) => PurgeStepView::RemoveDir(p@),
            PurgeStep::Continue => PurgeStepView::Continue,
            PurgeStep::Finished => PurgeStepView::Finished,
        }
    }
}

/// What a purge waits for from its driver.
pub enum PurgeWaitView {
    Idle,
    Kind(Seq<char>),
    Link(Seq<char>),
    File(Seq<char>, u64),
    Children(Seq<char>),
    Dir(Seq<char>),
}

enum PurgeWait {
    Idle,
    Kind(String),
    Link(String),
    File(String, u64),
    Children(String),
    Dir(String),
}

struct DirFrame {
    path: String,
    children: Vec<String>,
    next: usize,
}

/// A directory being emptied: its path, its children and how many of them
/// were taken up so far.
pub struct DirFrameView {
    pub path: Seq<char>,
    pub children: Seq<Seq<char>>,
    pub next: int,
}

/// The mathematical value of a [`Purge`].
pub struct PurgeView {
    pub todo: Option<Seq<char>>,
    pub frames: Seq<DirFrameView>,
    pub freed: u64,
    pub errors: Seq<Seq<char>>,
    pub waiting: PurgeWaitView,
}

/// The recursive removal of one target (file, directory or symlink), counting
/// the bytes reclaimed and the failures. It decides; its driver does the
/// filesystem work it asks for. Symlinks are removed as links, never
/// followed, so deletion can't escape the intended tree.
pub struct Purge {
    todo: Option<String>,
    frames: Vec<DirFrame>,
    freed: u64,
    errors: Vec<String>,
    waiting: PurgeWait,
}

impl View for Purge {
    type V = PurgeView;

    closed spec fn view(&self) -> PurgeView {
        PurgeView {
            todo: match self.todo {
                Some(p) => Some(p@),
                None => None,
            },
            frames: self.frames@.map_values(
                |f: DirFrame|
                    DirFrameView { path: f.path@, children: texts_view(f.children@), next: f.next as int },
            ),
            freed: self.freed,
            errors: texts_view(self.errors@),
            waiting: match self.waiting {
                PurgeWait::Idle => PurgeWaitView::Idle,
                PurgeWait::Kind(p) => PurgeWaitView::Kind(p@),
                PurgeWait::Link(p) => PurgeWaitView::Link(p@),
                PurgeWait::File(p, n) => PurgeWaitView::File(p@, n),
                PurgeWait::Children(p) => PurgeWaitView::Children(p@),
                PurgeWait::Dir(p) => PurgeWaitView::Dir(p@),
            },
        }
    }
}

/// The message recorded for a failure on a path.
pub open spec fn failure(path: Seq<char>, err: Seq<char>) -> Seq<char> {
    path + ": "@ + err
}

/// The positions within each directory being emptied lie within its children.
pub open spec fn purge_wf(v: PurgeView) -> bool {
    forall|k: int| 0 <= k < v.frames.len() ==> 0 <= #[trigger] v.frames[k].next <= v.frames[k].children.len()
}

fn failure_message(path: &str, err: &str) -> (m: String)
    ensures
        m@ == failure(path@, err@),
{
    let mut m = String::from_str(path);
    m.append(": ");
    m.append(err);
    m
}

impl Purge {
    /// A purge of `root`.
    pub fn new(root: String) -> (p: Purge)
        ensures
            p@.todo == Some(root@),
            p@.frames.len() == 0,
            p@.freed == 0,
            p@.errors.len() == 0,
            p@.waiting == PurgeWaitView::Idle,
            purge_wf(p@),
    {
        let p = Purge { todo: Some(root), frames: Vec::new(), freed: 0, errors: Vec::new(), waiting: PurgeWait::Idle };
        assert(p@.frames =~= Seq::<DirFrameView>::empty());
        assert(p@.errors =~= Seq::<Seq<char>>::empty());
        p
    }

    /// Takes the purge one step further: the next path to inspect (a child
    /// of the directory being emptied, in order), or the removal of a
    /// directory all of whose children were taken up.
    pub fn next_step(&mut self) -> (r: PurgeStep)
        requires
            purge_wf(old(self)@),
            old(self)@.waiting is Idle,
        ensures
            purge_wf(final(self)@),
            final(self)@.freed == old(self)@.freed,
            final(self)@.errors == old(self)@.errors,
            final(self)@.todo is None,
            match old(self)@.todo {
                Some(p) => r@ == PurgeStepView::Inspect(p) && final(self)@.waiting == PurgeWaitView::Kind(p)
                    && final(self)@.frames == old(self)@.frames,
                None => if old(self)@.frames.len() == 0 {
                    r@ == PurgeStepView::Finished && final(self)@ == old(self)@
                } else {
                    let top = old(self)@.frames.last();
                    if top.next < top.children.len() {
                        &&& r@ == PurgeStepView::Inspect(top.children[top.next])
                        &&& final(self)@.waiting == PurgeWaitView::Kind(top.children[top.next])
                        &&& final(self)@.frames == old(self)@.frames.drop_last().push(
                            DirFrameView { path: top.path, children: top.children, next: top.next + 1 },
                        )
                    } else {
                        &&& r@ == PurgeStepView::RemoveDir(top.path)
                        &&& final(self)@.waiting == PurgeWaitView::Dir(top.path)
                        &&& final(self)@.frames == old(self)@.frames.drop_last()
                    }
                },
            },
    {
        let ghost old_v = self@;
        let mut todo: Option<String> = None;
        std::mem::swap(&mut todo, &mut self.todo);
        if let Some(p) = todo {
            self.waiting = PurgeWait::Kind(p.clone());
            return PurgeStep::Inspect(p);
        }
        if self.frames.len() == 0 {
            return PurgeStep::Finished;
        }
        let mut top = self.frames.pop().unwrap();
        proof {
            assert(self@.frames =~= old_v.frames.drop_last());
        }
        if top.next < top.children.len() {
            let child = top.children[top.next].clone();
            assert(texts_view(top.children@)[top.next as int] == child@);
            top.next = top.next + 1;
            self.frames.push(top);
            self.waiting = PurgeWait::Kind(child.clone());
            assert(self@.frames =~= old_v.frames.drop_last().push(
                DirFrameView {
                    path: old_v.frames.last().path,
                    children: old_v.frames.last().children,
                    next: old_v.frames.last().next + 1,
                },
            ));
            PurgeStep::Inspect(child)
        } else {
            self.waiting = PurgeWait::Dir(top.path.clone());
            PurgeStep::RemoveDir(top.path)
        }
    }

    /// Hands the purge what the path it inspects turned out to be. A symlink
    /// is removed as a link (never followed), a file is removed, anything
    /// else is emptied first; unreadable metadata is a failure on the path.
    pub fn on_kind(&mut self, kind: PathKind) -> (r: PurgeStep)
        requires
            purge_wf(old(self)@),
            old(self)@.waiting is Kind,
        ensures
            purge_wf(final(self)@),
            final(self)@.todo == old(self)@.todo,
            final(self)@.frames == old(self)@.frames,
            final(self)@.freed == old(self)@.freed,
            ({
                let p = old(self)@.waiting->Kind_0;
                match kind {
                    PathKind::Symlink => r@ == PurgeStepView::RemoveLink(p) && final(self)@.waiting
                        == PurgeWaitView::Link(p) && final(self)@.errors == old(self)@.errors,
                    PathKind::File(n) => r@ == PurgeStepView::RemoveFile(p) && final(self)@.waiting
                        == PurgeWaitView::File(p, n) && final(self)@.errors == old(self)@.errors,
                    PathKind::Other => r@ == PurgeStepView::ListChildren(p) && final(self)@.waiting
                        == PurgeWaitView::Children(p) && final(self)@.errors == old(self)@.errors,
                    PathKind::Unreadable(e) => r@ == PurgeStepView::Continue && final(self)@.waiting
                        == PurgeWaitView::Idle && final(self)@.errors == old(self)@.errors.push(
                        failure(p, e@),
                    ),
                }
            }),
    {
        let ghost old_v = self@;
        let mut waiting = PurgeWait::Idle;
        std::mem::swap(&mut waiting, &mut self.waiting);
        let path = match waiting {
            PurgeWait::Kind(p) => p,
            _ => String::new(),
        };
        assert(self@.frames =~= old_v.frames);
        match kind {
            PathKind::Symlink => {
                self.waiting = PurgeWait::Link(path.clone());
                PurgeStep::RemoveLink(path)
            },
            PathKind::File(n) => {
                self.waiting = PurgeWait::File(path.clone(), n);
                PurgeStep::RemoveFile(path)
            },
            PathKind::Other => {
                self.waiting = PurgeWait::Children(path.clone());
                PurgeStep::ListChildren(path)
            },
            PathKind::Unreadable(e) => {
                let m = failure_message(path.as_str(), e.as_str());
                self.errors.push(m);
                assert(self@.errors =~= old_v.errors.push(failure(path@, e@)));
                PurgeStep::Continue
            },
        }
    }

    /// The link asked about is gone, or could not be removed: either way it
    /// frees nothing and is not reported.
    pub fn on_link_removed(&mut self)
        requires
            purge_wf(old(self)@),
            old(self)@.waiting is Link,
        ensures
            purge_wf(final(self)@),
            final(self)@.waiting == PurgeWaitView::Idle,
            final(self)@.todo == old(self)@.todo,
            final(self)@.frames == old(self)@.frames,
            final(self)@.freed == old(self)@.freed,
            final(self)@.errors == old(self)@.errors,
    {
        let ghost old_v = self@;
        self.waiting = PurgeWait::Idle;
        assert(self@.frames =~= old_v.frames);
    }

    /// The outcome of removing the file asked about: `None` when it was
    /// removed, which reclaims its bytes, or the error met.
    pub fn on_file_removed(&mut self, error: Option<String>)
        requires
            purge_wf(old(self)@),
            old(self)@.waiting is File,
            error is None ==> old(self)@.freed + old(self)@.waiting->File_1 <= u64::MAX,
        ensures
            purge_wf(final(self)@),
            final(self)@.waiting == PurgeWaitView::Idle,
            final(self)@.todo == old(self)@.todo,
            final(self)@.frames == old(self)@.frames,
            match error {
                None => final(self)@.freed == old(self)@.freed + old(self)@.waiting->File_1
                    && final(self)@.errors == old(self)@.errors,
                Some(e) => final(self)@.freed == old(self)@.freed && final(self)@.errors
                    == old(self)@.errors.push(failure(old(self)@.waiting->File_0, e@)),
            },
    {
        let ghost old_v = self@;
        let mut waiting = PurgeWait::Idle;
        std::mem::swap(&mut waiting, &mut self.waiting);
        assert(self@.frames =~= old_v.frames);
        if let PurgeWait::File(path, n) = waiting {
            match error {
                None => {
                    self.freed = self.freed + n;
                },
                Some(e) => {
                    let m = failure_message(path.as_str(), e.as_str());
                    self.errors.push(m);
                    assert(self@.errors =~= old_v.errors.push(failure(path@, e@)));
                },
            }
        }
    }

    /// The children of the directory asked about; it is emptied before it is
    /// removed.
    pub fn on_children(&mut self, children: Vec<String>)
        requires
            purge_wf(old(self)@),
            old(self)@.waiting is Children,
        ensures
            purge_wf(final(self)@),
            final(self)@.waiting == PurgeWaitView::Idle,
            final(self)@.todo == old(self)@.todo,
            final(self)@.frames == old(self)@.frames.push(
                DirFrameView { path: old(self)@.waiting->Children_0, children: texts_view(children@), next: 0 },
            ),
            final(self)@.freed == old(self)@.freed,
            final(self)@.errors == old(self)@.errors,
    {
        let ghost old_v = self@;
        let mut waiting = PurgeWait::Idle;
        std::mem::swap(&mut waiting, &mut self.waiting);
        if let PurgeWait::Children(path) = waiting {
            self.frames.push(DirFrame { path, children, next: 0 });
            assert(self@.frames =~= old_v.frames.push(
                DirFrameView { path: old_v.waiting->Children_0, children: texts_view(children@), next: 0 },
            ));
        }
    }

    /// The outcome of removing the emptied directory asked about: `None` when
    /// it was removed, or the error met.
    pub fn on_dir_removed(&mut self, error: Option<String>)
        requires
            purge_wf(old(self)@),
            old(self)@.waiting is Dir,
        ensures
            purge_wf(final(self)@),
            final(self)@.waiting == PurgeWaitView::Idle,
            final(self)@.todo == old(self)@.todo,
            final(self)@.frames == old(self)@.frames,
            final(self)@.freed == old(self)@.freed,
            match error {
                None => final(self)@.errors == old(self)@.errors,
                Some(e) => final(self)@.errors == old(self)@.errors.push(
                    failure(old(self)@.waiting->Dir_0, e@),
                ),
            },
    {
        let ghost old_v = self@;
        let mut waiting = PurgeWait::Idle;
        std::mem::swap(&mut waiting, &mut self.waiting);
        assert(self@.frames =~= old_v.frames);
        if let PurgeWait::Dir(path) = waiting {
            if let Some(e) = error {
                let m = failure_message(path.as_str(), e.as_str());
                self.errors.push(m);
                assert(self@.errors =~= old_v.errors.push(failure(path@, e@)));
            }
        }
    }

    /// Bytes reclaimed so far.
    pub fn freed(&self) -> (r: u64)
        ensures
            r == self@.freed,
    {
        self.freed
    }

    /// Bytes reclaimed and failures met.
    pub fn outcome(self) -> (r: (u64, Vec<String>))
        ensures
            r.0 == self@.freed,
            texts_view(r.1@) == self@.errors,
    {
        (self.freed, self.errors)
    }
}

} // verus!
