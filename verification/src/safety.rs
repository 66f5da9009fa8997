//! Defensive guard rails: a path may be wiped only when it is clearly a
//! per-user cache, temp or trash location. Nothing is deleted unless
//! [`is_safe_target`] says so.

use vstd::prelude::*;
use crate::places::home_dir;
use crate::paths::{PathPart, PartView, parts_view, std_components, std_is_absolute, same_text, path_is_absolute, path_components};

verus! {

/// The places against which a target is judged: the OS temp directories
/// (each with everything beneath it) and the user's home directory.
pub struct SafetyGuard {
    /// Parsed temp directories.
    pub temp_roots: Vec<Vec<PathPart>>,
    /// Parsed home directory, if there is one.
    pub home: Option<Vec<PathPart>>,
}

/// The mathematical value of a [`SafetyGuard`].
pub struct GuardView {
    pub temps: Seq<Seq<PartView>>,
    pub home: Option<Seq<PartView>>,
}

impl View for SafetyGuard {
    type V = GuardView;

    open spec fn view(&self) -> GuardView {
        GuardView {
            temps: self.temp_roots@.map_values(|t: Vec<PathPart>| parts_view(t@)),
            home: match self.home {
                Some(h) => Some(parts_view(h@)),
                None => None,
            },
        }
    }
}

/// The path holds a `..` component.
pub open spec fn has_up(parts: Seq<PartView>) -> bool {
    exists|i: int| 0 <= i < parts.len() && parts[i] == PartView::Up
}

/// The reserved folder name of the Windows recycle bin.
pub open spec fn recycle_bin() -> Seq<char> {
    "$Recycle.Bin"@
}

/// Some component of the path has the recycle bin's name as its text.
pub open spec fn names_recycle_bin(parts: Seq<PartView>) -> bool {
    exists|i: int|
        0 <= i < parts.len() && (parts[i] == PartView::Name(recycle_bin()) || parts[i]
            == PartView::Prefix(recycle_bin()))
}

/// `base` is a whole-component prefix of `path` (as `Path::starts_with`).
pub open spec fn starts_with(path: Seq<PartView>, base: Seq<PartView>) -> bool {
    base.len() <= path.len() && path.subrange(0, base.len() as int) == base
}

/// The path is one of the temp directories or lies beneath one.
pub open spec fn within_temp(parts: Seq<PartView>, temps: Seq<Seq<PartView>>) -> bool {
    exists|j: int| 0 <= j < temps.len() && starts_with(parts, temps[j])
}

/// The path lies strictly beneath `home` (never `home` itself).
pub open spec fn strictly_below(parts: Seq<PartView>, home: Seq<PartView>) -> bool {
    starts_with(parts, home) && parts != home
}

/// When a path, absolute or not and with these components, may be wiped.
pub open spec fn safe_parts(absolute: bool, parts: Seq<PartView>, g: GuardView) -> bool {
    &&& absolute
    &&& !has_up(parts)
    &&& {
        ||| names_recycle_bin(parts)
        ||| within_temp(parts, g.temps)
        ||| (g.home matches Some(h) && strictly_below(parts, h))
    }
}

/// When the path text `root` may be wiped, judged on its `std` parsing.
pub open spec fn safe_target(root: Seq<char>, g: GuardView) -> bool {
    safe_parts(std_is_absolute(root), std_components(root), g)
}

/// The parsed form of an optional path text.
pub open spec fn optional_components(p: Option<String>) -> Option<Seq<PartView>> {
    match p {
        Some(h) => Some(std_components(h@)),
        None => None,
    }
}

impl SafetyGuard {
    /// A guard over the given temp directories and home directory.
    pub fn new(temp_roots: &Vec<String>, home: Option<String>) -> (g: SafetyGuard)
        ensures
            g@.temps == temp_roots@.map_values(|t: String| std_components(t@)),
            g@.home == optional_components(home),
    {
        let mut temps: Vec<Vec<PathPart>> = Vec::new();
        let mut i: usize = 0;
        while i < temp_roots.len()
            invariant
                i <= temp_roots.len(),
                temps@.len() == i,
                forall|k: int|
                    0 <= k < i ==> parts_view(#[trigger] temps@[k]@) == std_components(
                        temp_roots@[k]@,
                    ),
            decreases temp_roots.len() - i,
        {
            temps.push(path_components(temp_roots[i].as_str()));
            i = i + 1;
        }
        let parsed_home = match &home {
            Some(h) => Some(path_components(h.as_str())),
            None => None,
        };
        let g = SafetyGuard { temp_roots: temps, home: parsed_home };
        assert(g@.temps =~= temp_roots@.map_values(|t: String| std_components(t@)));
        g
    }

    /// A guard over the given temp directories and the current user's home
    /// directory, as `dirs` reports it.
    pub fn for_current_user(temp_roots: &Vec<String>) -> (g: SafetyGuard)
        ensures
            g@.temps == temp_roots@.map_values(|t: String| std_components(t@)),
            g@.home is None || exists|h: String| g@.home == optional_components(Some(h)),
    {
        let home = home_dir();
        SafetyGuard::new(temp_roots, home)
    }
}

/// Two parts are the same.
pub fn same_part(a: &PathPart, b: &PathPart) -> (r: bool)
    ensures
        r == (a@ == b@),
{
    match (a, b) {
        (PathPart::Prefix(x), PathPart::Prefix(y)) => same_text(x.as_str(), y.as_str()),
        (PathPart::Root, PathPart::Root) => true,
        (PathPart::Here, PathPart::Here) => true,
        (PathPart::Up, PathPart::Up) => true,
        (PathPart::Name(x), PathPart::Name(y)) => same_text(x.as_str(), y.as_str()),
        _ => false,
    }
}

/// Two parsed paths have the same components.
pub fn paths_equal(a: &Vec<PathPart>, b: &Vec<PathPart>) -> (r: bool)
    ensures
        r == (parts_view(a@) == parts_view(b@)),
{
    if a.len() != b.len() {
        assert(parts_view(a@).len() != parts_view(b@).len());
        return false;
    }
    let mut i: usize = 0;
    while i < a.len()
        invariant
            a.len() == b.len(),
            i <= a.len(),
            forall|k: int| 0 <= k < i ==> a@[k]@ == b@[k]@,
        decreases a.len() - i,
    {
        if !same_part(&a[i], &b[i]) {
            assert(parts_view(a@)[i as int] != parts_view(b@)[i as int]);
            return false;
        }
        i = i + 1;
    }
    assert(parts_view(a@) =~= parts_view(b@));
    true
}

/// `base` is a whole-component prefix of `path`.
pub fn path_starts_with(path: &Vec<PathPart>, base: &Vec<PathPart>) -> (r: bool)
    ensures
        r == starts_with(parts_view(path@), parts_view(base@)),
{
    if base.len() > path.len() {
        return false;
    }
    let ghost pv = parts_view(path@);
    let ghost bv = parts_view(base@);
    let mut i: usize = 0;
    while i < base.len()
        invariant
            base.len() <= path.len(),
            i <= base.len(),
            pv == parts_view(path@),
            bv == parts_view(base@),
            forall|k: int| 0 <= k < i ==> path@[k]@ == base@[k]@,
        decreases base.len() - i,
    {
        if !same_part(&path[i], &base[i]) {
            assert(pv.subrange(0, bv.len() as int)[i as int] != bv[i as int]);
            return false;
        }
        i = i + 1;
    }
    assert(pv.subrange(0, bv.len() as int) =~= bv);
    true
}

/// Whether some component is `..`.
fn has_parent_dir(parts: &Vec<PathPart>) -> (r: bool)
    ensures
        r == has_up(parts_view(parts@)),
{
    let mut i: usize = 0;
    while i < parts.len()
        invariant
            i <= parts.len(),
            forall|k: int| 0 <= k < i ==> parts@[k]@ != PartView::Up,
        decreases parts.len() - i,
    {
        if let PathPart::Up = &parts[i] {
            assert(parts_view(parts@)[i as int] == PartView::Up);
            return true;
        }
        i = i + 1;
    }
    false
}

/// Whether some component's text is the recycle bin's reserved name.
fn mentions_recycle_bin(parts: &Vec<PathPart>) -> (r: bool)
    ensures
        r == names_recycle_bin(parts_view(parts@)),
{
    let mut i: usize = 0;
    while i < parts.len()
        invariant
            i <= parts.len(),
            forall|k: int|
                0 <= k < i ==> parts@[k]@ != PartView::Name(recycle_bin()) && parts@[k]@
                    != PartView::Prefix(recycle_bin()),
        decreases parts.len() - i,
    {
        let hit = match &parts[i] {
            PathPart::Prefix(s) => same_text(s.as_str(), "$Recycle.Bin"),
            PathPart::Name(s) => same_text(s.as_str(), "$Recycle.Bin"),
            _ => false,
        };
        if hit {
            assert(parts_view(parts@)[i as int] == parts@[i as int]@);
            return true;
        }
        i = i + 1;
    }
    false
}

/// Whether a path with these components (absolute or not) may be wiped.
pub fn is_safe_parts(absolute: bool, parts: &Vec<PathPart>, guard: &SafetyGuard) -> (r: bool)
    ensures
        r == safe_parts(absolute, parts_view(parts@), guard@),
{
    let ghost pv = parts_view(parts@);
    // Must be an absolute path with no `..` trickery.
    if !absolute {
        return false;
    }
    if has_parent_dir(parts) {
        return false;
    }
    // The recycle bin lives at a drive root and is allowed by its reserved name.
    if mentions_recycle_bin(parts) {
        return true;
    }
    // The OS temp directories themselves, and anything beneath them.
    let mut j: usize = 0;
    while j < guard.temp_roots.len()
        invariant
            j <= guard.temp_roots.len(),
            pv == parts_view(parts@),
            absolute,
            !has_up(pv),
            forall|k: int| 0 <= k < j ==> !starts_with(pv, #[trigger] guard@.temps[k]),
        decreases guard.temp_roots.len() - j,
    {
        let temp = &guard.temp_roots[j];
        if paths_equal(parts, temp) || path_starts_with(parts, temp) {
            assert(guard@.temps[j as int] == parts_view(temp@));
            assert(pv.subrange(0, pv.len() as int) =~= pv);
            assert(starts_with(pv, guard@.temps[j as int]));
            assert(within_temp(pv, guard@.temps));
            return true;
        }
        assert(guard@.temps[j as int] == parts_view(temp@));
        j = j + 1;
    }
    assert(!within_temp(pv, guard@.temps));
    // Anything strictly inside the home directory, never the home root itself.
    if let Some(home) = &guard.home {
        if path_starts_with(parts, home) && !paths_equal(parts, home) {
            let ghost hv = parts_view(home@);
            assert(pv.len() == parts.len() && hv.len() == home.len());
            if parts.len() == home.len() {
                assert(pv.subrange(0, pv.len() as int) =~= pv);
            }
            return parts.len() > home.len();
        }
    }
    false
}

/// True only for paths that are safe to wipe: absolute, free of `..`, and
/// either the recycle bin, a temp directory or something beneath one, or
/// something strictly inside the home directory.
pub fn is_safe_target(root: &str, guard: &SafetyGuard) -> (r: bool)
    ensures
        r == safe_target(root@, guard@),
{
    let absolute = path_is_absolute(root);
    let parts = path_components(root);
    is_safe_parts(absolute, &parts, guard)
}

/// A path that may be wiped is absolute and holds no `..` component.
pub proof fn lemma_safe_is_absolute_without_up(absolute: bool, parts: Seq<PartView>, g: GuardView)
    requires
        safe_parts(absolute, parts, g),
    ensures
        absolute,
        !has_up(parts),
{
}

/// The home directory itself may never be wiped, unless it names the recycle
/// bin or lies within a temp directory.
pub proof fn lemma_home_root_never_safe(absolute: bool, h: Seq<PartView>, g: GuardView)
    requires
        g.home == Some(h),
        !names_recycle_bin(h),
        !within_temp(h, g.temps),
    ensures
        !safe_parts(absolute, h, g),
{
}

/// Any absolute path strictly inside the home directory, free of `..`, may be
/// wiped.
pub proof fn lemma_inside_home_is_safe(parts: Seq<PartView>, h: Seq<PartView>, g: GuardView)
    requires
        g.home == Some(h),
        starts_with(parts, h),
        parts.len() > h.len(),
        !has_up(parts),
    ensures
        safe_parts(true, parts, g),
{
}

/// A temp directory, and any absolute path beneath it free of `..`, may be
/// wiped.
pub proof fn lemma_within_temp_is_safe(parts: Seq<PartView>, g: GuardView, j: int)
    requires
        0 <= j < g.temps.len(),
        starts_with(parts, g.temps[j]),
        !has_up(parts),
    ensures
        safe_parts(true, parts, g),
{
}

/// Whatever lies beneath a path that may be wiped may be wiped too, as long as
/// the way down holds no `..`.
pub proof fn lemma_beneath_safe_is_safe(parts: Seq<PartView>, extra: Seq<PartView>, g: GuardView)
    requires
        safe_parts(true, parts, g),
        !has_up(extra),
    ensures
        safe_parts(true, parts + extra, g),
{
    let whole = parts + extra;
    assert forall|i: int| 0 <= i < whole.len() implies whole[i] != PartView::Up by {
        if i < parts.len() {
            assert(whole[i] == parts[i]);
        } else {
            assert(whole[i] == extra[i - parts.len()]);
        }
    }
    if names_recycle_bin(parts) {
        let i = choose|i: int|
            0 <= i < parts.len() && (parts[i] == PartView::Name(recycle_bin()) || parts[i]
                == PartView::Prefix(recycle_bin()));
        assert(whole[i] == parts[i]);
    } else if within_temp(parts, g.temps) {
        let j = choose|j: int| 0 <= j < g.temps.len() && starts_with(parts, g.temps[j]);
        let t = g.temps[j];
        assert(whole.subrange(0, t.len() as int) =~= parts.subrange(0, t.len() as int));
        assert(starts_with(whole, t));
    } else {
        let h = g.home->0;
        assert(whole.subrange(0, h.len() as int) =~= parts.subrange(0, h.len() as int));
        if whole == h {
            assert(whole.len() == parts.len() + extra.len());
            assert(extra.len() == 0);
            assert(whole =~= parts);
        }
    }
}

/// An absolute path free of `..` may be wiped when any of its components,
/// at whatever position (after a drive prefix and root too), is the recycle
/// bin's reserved name `$Recycle.Bin`.
pub proof fn lemma_recycle_bin_anywhere_is_safe(parts: Seq<PartView>, g: GuardView, i: int)
    requires
        0 <= i < parts.len(),
        parts[i] == PartView::Name("$Recycle.Bin"@) || parts[i] == PartView::Prefix("$Recycle.Bin"@),
        !has_up(parts),
    ensures
        safe_parts(true, parts, g),
{
}

} // verus!
