//! Paths as the rest of the library sees them: a path string, its parsed
//! components, and joining a name onto a directory. Parsing and joining are
//! done by `std::path`; their results are named here.

use vstd::prelude::*;

verus! {

/// One component of a parsed path.
pub enum PathPart {
    /// A drive or UNC prefix (Windows only), by its text.
    Prefix(String),
    /// The root directory separator.
    Root,
    /// A `.` component.
    Here,
    /// A `..` component.
    Up,
    /// An ordinary file or directory name.
    Name(String),
}

/// The mathematical value of a [`PathPart`].
pub enum PartView {
    Prefix(Seq<char>),
    Root,
    Here,
    Up,
    Name(Seq<char>),
}

impl View for PathPart {
    type V = PartView;

    open spec fn view(&self) -> PartView {
        match self {
            PathPart::Prefix(s) => PartView::Prefix(s@),
            PathPart::Root => PartView::Root,
            PathPart::Here => PartView::Here,
            PathPart::Up => PartView::Up,
            PathPart::Name(s) => PartView::Name(s@),
        }
    }
}

/// The views of a sequence of parts.
pub open spec fn parts_view(parts: Seq<PathPart>) -> Seq<PartView> {
    parts.map_values(|p: PathPart| p@)
}

/// What `std::path::Path::components` yields for a path, on the target the
/// crate is built for.
pub uninterp spec fn std_components(path: Seq<char>) -> Seq<PartView>;

/// What `std::path::Path::is_absolute` answers for a path, on the target the
/// crate is built for.
pub uninterp spec fn std_is_absolute(path: Seq<char>) -> bool;

/// The text of `std::path::Path::join` of a directory and a relative name, on
/// the target the crate is built for.
pub uninterp spec fn std_join(dir: Seq<char>, name: Seq<char>) -> Seq<char>;

/// Parses `path` with `std::path::Path::components`, turning each component
/// into a [`PathPart`]. The contract claims only that the parts are those
/// components, in order; what they are is left to `std`.
#[verifier::external_body]
pub(crate) fn path_components(path: &str) -> (parts: Vec<PathPart>)
    ensures
        parts_view(parts@) == std_components(path@),
{
    let mut parts = Vec::new();
    for c in std::path::Path::new(path).components() {
        parts.push(match c {
            std::path::Component::Prefix(p) => PathPart::Prefix(p.as_os_str().to_string_lossy().into_owned()),
            std::path::Component::RootDir => PathPart::Root,
            std::path::Component::CurDir => PathPart::Here,
            std::path::Component::ParentDir => PathPart::Up,
            std::path::Component::Normal(n) => PathPart::Name(n.to_string_lossy().into_owned()),
        });
    }
    parts
}

/// Asks `std::path::Path::is_absolute` whether `path` is absolute. The
/// contract claims only that the answer is that function's.
#[verifier::external_body]
pub(crate) fn path_is_absolute(path: &str) -> (r: bool)
    ensures
        r == std_is_absolute(path@),
{
    std::path::Path::new(path).is_absolute()
}

/// Joins `name` onto `dir` with `std::path::Path::join` and returns the text of
/// the result. The contract claims only that the text is that of the join.
#[verifier::external_body]
pub(crate) fn path_join(dir: &str, name: &str) -> (r: String)
    ensures
        r@ == std_join(dir@, name@),
{
    std::path::Path::new(dir).join(name).to_string_lossy().into_owned()
}

/// Two strings hold the same characters.
pub fn same_text(a: &str, b: &str) -> (r: bool)
    ensures
        r == (a@ == b@),
{
    let n = a.unicode_len();
    if n != b.unicode_len() {
        return false;
    }
    let mut i: usize = 0;
    while i < n
        invariant
            n == a@.len(),
            n == b@.len(),
            i <= n,
            forall|k: int| 0 <= k < i ==> a@[k] == b@[k],
        decreases n - i,
    {
        if a.get_char(i) != b.get_char(i) {
            return false;
        }
        i = i + 1;
    }
    assert(a@ =~= b@);
    true
}

/// `text` ends with `suffix`.
pub open spec fn ends_with(text: Seq<char>, suffix: Seq<char>) -> bool {
    suffix.len() <= text.len() && text.subrange(text.len() - suffix.len(), text.len() as int)
        == suffix
}

/// Whether `text` ends with `suffix`, character by character.
pub fn text_ends_with(text: &str, suffix: &str) -> (r: bool)
    ensures
        r == ends_with(text@, suffix@),
{
    let n = text.unicode_len();
    let m = suffix.unicode_len();
    if m > n {
        return false;
    }
    let off = n - m;
    let mut i: usize = 0;
    while i < m
        invariant
            n == text@.len(),
            m == suffix@.len(),
            off == n - m,
            i <= m,
            forall|k: int| 0 <= k < i ==> text@[off + k] == suffix@[k],
        decreases m - i,
    {
        if text.get_char(off + i) != suffix.get_char(i) {
            assert(text@.subrange(off as int, n as int)[i as int] != suffix@[i as int]);
            return false;
        }
        i = i + 1;
    }
    assert(text@.subrange(off as int, n as int) =~= suffix@);
    true
}

} // verus!
