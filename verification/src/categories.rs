//! What can be cleaned, per platform. A category is either a set of cache
//! roots whose contents are purged, or a rule that finds matching directories
//! anywhere under the home directory (such as `node_modules`). Either way it
//! resolves to a list of target paths.

use vstd::prelude::*;
use crate::paths::{path_join, std_join};
use crate::places::{cache_dir, data_local_dir, home_dir};
use crate::scanner::{FindRule, ModeView, RuleView, TargetSearch, WaitView, search_wf};

verus! {

/// How risky deleting a category is.
#[derive(Clone, Copy, PartialEq, Eq, Structural)]
pub enum Risk {
    /// Safe to delete; regenerated automatically by the OS or apps.
    Safe,
    /// Deletion is irreversible, or removes regenerable project state.
    Caution,
}

/// How a category's deletable targets are produced.
#[derive(Clone)]
pub enum Source {
    /// Delete the immediate contents of these directories (the dirs stay).
    Contents(Vec<String>),
    /// Walk `base` and match directories named `name`; each match is deleted
    /// whole. Matches are not descended into. `sibling`, if set, requires a
    /// file of that name next to the match (e.g. `Cargo.toml` beside `target`).
    FindDirs { base: String, name: &'static str, sibling: Option<&'static str>, max_depth: usize },
}

/// Something the user can choose to clean.
#[derive(Clone)]
pub struct Category {
    pub id: &'static str,
    pub name: &'static str,
    pub description: &'static str,
    pub source: Source,
    pub risk: Risk,
    pub default_on: bool,
}

/// The mathematical value of a [`Source`].
pub enum SourceView {
    Contents(Seq<Seq<char>>),
    FindDirs { base: Seq<char>, name: Seq<char>, sibling: Option<Seq<char>>, max_depth: usize },
}

/// The mathematical value of a [`Category`].
pub struct CategoryView {
    pub id: Seq<char>,
    pub name: Seq<char>,
    pub description: Seq<char>,
    pub source: SourceView,
    pub risk: Risk,
    pub default_on: bool,
}

impl View for Source {
    type V = SourceView;

    open spec fn view(&self) -> SourceView {
        match self {
            Source::Contents(roots) => SourceView::Contents(roots@.map_values(|r: String| r@)),
            Source::FindDirs { base, name, sibling, max_depth } => SourceView::FindDirs {
                base: base@,
                name: name@,
                sibling: match sibling {
                    Some(s) => Some(s@),
                    None => None,
                },
                max_depth: *max_depth,
            },
        }
    }
}

impl View for Category {
    type V = CategoryView;

    open spec fn view(&self) -> CategoryView {
        CategoryView {
            id: self.id@,
            name: self.name@,
            description: self.description@,
            source: self.source@,
            risk: self.risk,
            default_on: self.default_on,
        }
    }
}

/// The views of a sequence of categories.
pub open spec fn categories_view(cats: Seq<Category>) -> Seq<CategoryView> {
    cats.map_values(|c: Category| c@)
}

/// The platform whose category list applies.
#[derive(Clone, Copy, PartialEq, Eq, Structural)]
pub enum Platform {
    MacOs,
    Windows,
    /// Linux and every other platform.
    Other,
}

/// The directories a category list is built from.
pub struct Locations {
    /// The user's home directory.
    pub home: Option<String>,
    /// The user's cache directory.
    pub cache: Option<String>,
    /// The user's local data directory (`%LOCALAPPDATA%` on Windows).
    pub local_data: Option<String>,
    /// The per-user OS temp directory, when its path is valid UTF-8.
    pub temp: Option<String>,
    /// The Windows system root (`%SystemRoot%`), when it is set.
    pub system_root: Option<String>,
}

impl Locations {
    /// The current user's directories as `dirs` reports them, with the temp
    /// directory and system root given.
    pub fn current(temp: Option<String>, system_root: Option<String>) -> (l: Locations)
        ensures
            l.temp == temp,
            l.system_root == system_root,
    {
        Locations {
            home: home_dir(),
            cache: cache_dir(),
            local_data: data_local_dir(),
            temp,
            system_root,
        }
    }
}

/// The views of a list of path parts.
pub open spec fn strs_view(parts: Seq<&str>) -> Seq<Seq<char>> {
    parts.map_values(|p: &str| p@)
}

/// `dir` with each part joined onto it in turn.
pub open spec fn joined(dir: Seq<char>, parts: Seq<Seq<char>>) -> Seq<char>
    decreases parts.len(),
{
    if parts.len() == 0 {
        dir
    } else {
        std_join(joined(dir, parts.drop_last()), parts.last())
    }
}

/// Zero or one path: the parts joined onto `base` when there is one.
pub open spec fn beneath(base: Option<String>, parts: Seq<Seq<char>>) -> Seq<Seq<char>> {
    match base {
        Some(b) => seq![joined(b@, parts)],
        None => Seq::empty(),
    }
}

/// Joins each part onto `dir` in turn.
pub fn join_all(dir: &str, parts: &[&str]) -> (r: String)
    ensures
        r@ == joined(dir@, strs_view(parts@)),
{
    let mut p = String::from_str(dir);
    let mut i: usize = 0;
    while i < parts.len()
        invariant
            i <= parts.len(),
            p@ == joined(dir@, strs_view(parts@).take(i as int)),
        decreases parts.len() - i,
    {
        let ghost before = strs_view(parts@).take(i as int);
        assert(strs_view(parts@).take(i + 1).drop_last() =~= before);
        p = path_join(p.as_str(), parts[i]);
        i = i + 1;
    }
    assert(strs_view(parts@).take(i as int) =~= strs_view(parts@));
    p
}

/// The parts joined onto the user's home directory: zero or one paths.
pub fn home(locs: &Locations, parts: &[&str]) -> (r: Vec<String>)
    ensures
        r@.map_values(|p: String| p@) == beneath(locs.home, strs_view(parts@)),
{
    match &locs.home {
        Some(h) => {
            let p = join_all(h.as_str(), parts);
            let r = vec![p];
            assert(r@.map_values(|p: String| p@) =~= beneath(locs.home, strs_view(parts@)));
            r
        },
        None => {
            let r: Vec<String> = Vec::new();
            assert(r@.map_values(|p: String| p@) =~= beneath(locs.home, strs_view(parts@)));
            r
        },
    }
}

/// The parts joined onto the local data directory: zero or one paths.
pub fn local(locs: &Locations, parts: &[&str]) -> (r: Vec<String>)
    ensures
        r@.map_values(|p: String| p@) == beneath(locs.local_data, strs_view(parts@)),
{
    match &locs.local_data {
        Some(h) => {
            let p = join_all(h.as_str(), parts);
            let r = vec![p];
            assert(r@.map_values(|p: String| p@) =~= beneath(locs.local_data, strs_view(parts@)));
            r
        },
        None => {
            let r: Vec<String> = Vec::new();
            assert(r@.map_values(|p: String| p@) =~= beneath(locs.local_data, strs_view(parts@)));
            r
        },
    }
}

/// A category from its parts.
pub fn cat(
    id: &'static str,
    name: &'static str,
    description: &'static str,
    source: Source,
    risk: Risk,
    default_on: bool,
) -> (c: Category)
    ensures
        c@ == (CategoryView { id: id@, name: name@, description: description@, source: source@, risk, default_on }),
{
    Category { id, name, description, source, risk, default_on }
}

/// Zero or one path: the directory when there is one.
pub open spec fn present_view(dir: Option<String>) -> Seq<Seq<char>> {
    match dir {
        Some(d) => seq![d@],
        None => Seq::empty(),
    }
}

/// Zero or one path: the directory when there is one.
pub fn present(dir: &Option<String>) -> (r: Vec<String>)
    ensures
        r@.map_values(|p: String| p@) == present_view(*dir),
{
    let r = match dir {
        Some(d) => vec![d.clone()],
        None => Vec::new(),
    };
    assert(r@.map_values(|p: String| p@) =~= present_view(*dir));
    r
}

/// The Windows temp directory: `Temp` under the system root, which defaults
/// to `C:\Windows`.
pub open spec fn windows_temp_view(l: Locations) -> Seq<char> {
    std_join(
        match l.system_root {
            Some(r) => r@,
            None => "C:\\Windows"@,
        },
        "Temp"@,
    )
}

/// The Windows temp directory: `Temp` under the system root, which defaults
/// to `C:\Windows`.
pub fn windows_temp(locs: &Locations) -> (r: String)
    ensures
        r@ == windows_temp_view(*locs),
{
    match &locs.system_root {
        Some(root) => path_join(root.as_str(), "Temp"),
        None => path_join("C:\\Windows", "Temp"),
    }
}

/// The macOS categories, as [`mac_categories`] builds them from `l`.
pub open spec fn mac_table(l: Locations) -> Seq<CategoryView> {
    seq![
        CategoryView {
            id: "user_caches"@,
            name: "Application Caches"@,
            description: "~/Library/Caches — app, browser, Homebrew, pip & yarn caches."@,
            source: SourceView::Contents(beneath(l.home, seq!["Library"@, "Caches"@])),
            risk: Risk::Safe,
            default_on: true,
        },
        CategoryView {
            id: "app_logs"@,
            name: "Application Logs"@,
            description: "~/Library/Logs — diagnostic logs written by apps."@,
            source: SourceView::Contents(beneath(l.home, seq!["Library"@, "Logs"@])),
            risk: Risk::Safe,
            default_on: true,
        },
        CategoryView {
            id: "temp_files"@,
            name: "Temporary Files"@,
            description: "Per-user temp directory ($TMPDIR)."@,
            source: SourceView::Contents(present_view(l.temp)),
            risk: Risk::Safe,
            default_on: true,
        },
        CategoryView {
            id: "xcode_derived"@,
            name: "Xcode Derived Data"@,
            description: "Build intermediates & indexes. Rebuilt on next build."@,
            source: SourceView::Contents(beneath(l.home, seq!["Library"@, "Developer"@, "Xcode"@, "DerivedData"@])),
            risk: Risk::Safe,
            default_on: true,
        },
        CategoryView {
            id: "xcode_device_support"@,
            name: "Xcode Device Support"@,
            description: "Symbols cached per connected device/OS. Re-fetched when needed."@,
            source: SourceView::Contents(beneath(l.home, seq!["Library"@, "Developer"@, "Xcode"@, "iOS DeviceSupport"@]) + beneath(l.home, seq!["Library"@, "Developer"@, "Xcode"@, "watchOS DeviceSupport"@]) + beneath(l.home, seq!["Library"@, "Developer"@, "Xcode"@, "tvOS DeviceSupport"@])),
            risk: Risk::Safe,
            default_on: true,
        },
        CategoryView {
            id: "simulator_caches"@,
            name: "iOS Simulator Caches"@,
            description: "CoreSimulator caches."@,
            source: SourceView::Contents(beneath(l.home, seq!["Library"@, "Developer"@, "CoreSimulator"@, "Caches"@])),
            risk: Risk::Safe,
            default_on: true,
        },
        CategoryView {
            id: "npm_cache"@,
            name: "npm Cache"@,
            description: "~/.npm/_cacache — re-downloaded on demand."@,
            source: SourceView::Contents(beneath(l.home, seq![".npm"@, "_cacache"@])),
            risk: Risk::Safe,
            default_on: true,
        },
        CategoryView {
            id: "cargo_cache"@,
            name: "Cargo Registry Cache"@,
            description: "~/.cargo/registry/cache — downloaded crate archives."@,
            source: SourceView::Contents(beneath(l.home, seq![".cargo"@, "registry"@, "cache"@])),
            risk: Risk::Safe,
            default_on: true,
        },
        CategoryView {
            id: "trash"@,
            name: "Trash"@,
            description: "~/.Trash — emptying is irreversible."@,
            source: SourceView::Contents(beneath(l.home, seq![".Trash"@])),
            risk: Risk::Caution,
            default_on: false,
        },
    ]
}

/// The macOS categories.
pub fn mac_categories(locs: &Locations) -> (r: Vec<Category>)
    ensures
        categories_view(r@) == mac_table(*locs),
{
    let mut r: Vec<Category> = Vec::new();
    let ghost l = *locs;
    let parts: &[&str] = &["Library", "Caches"];
    assert(parts@ =~= seq!["Library", "Caches"]);
    let roots = home(locs, parts);
    proof {
        assert(strs_view(seq!["Library", "Caches"]) =~= seq!["Library"@, "Caches"@]);
        assert(roots@.map_values(|p: String| p@) =~= beneath(l.home, seq!["Library"@, "Caches"@]));
    }
    let c = cat(
        "user_caches",
        "Application Caches",
        "~/Library/Caches — app, browser, Homebrew, pip & yarn caches.",
        Source::Contents(roots),
        Risk::Safe,
        true,
    );
    assert(c@ == mac_table(*locs)[0]);
    r.push(c);
    let parts: &[&str] = &["Library", "Logs"];
    assert(parts@ =~= seq!["Library", "Logs"]);
    let roots = home(locs, parts);
    proof {
        assert(strs_view(seq!["Library", "Logs"]) =~= seq!["Library"@, "Logs"@]);
        assert(roots@.map_values(|p: String| p@) =~= beneath(l.home, seq!["Library"@, "Logs"@]));
    }
    let c = cat(
        "app_logs",
        "Application Logs",
        "~/Library/Logs — diagnostic logs written by apps.",
        Source::Contents(roots),
        Risk::Safe,
        true,
    );
    assert(c@ == mac_table(*locs)[1]);
    r.push(c);
    let roots = present(&locs.temp);
    proof {
        assert(roots@.map_values(|p: String| p@) =~= present_view(l.temp));
    }
    let c = cat(
        "temp_files",
        "Temporary Files",
        "Per-user temp directory ($TMPDIR).",
        Source::Contents(roots),
        Risk::Safe,
        true,
    );
    assert(c@ == mac_table(*locs)[2]);
    r.push(c);
    let parts: &[&str] = &["Library", "Developer", "Xcode", "DerivedData"];
    assert(parts@ =~= seq!["Library", "Developer", "Xcode", "DerivedData"]);
    let roots = home(locs, parts);
    proof {
        assert(strs_view(seq!["Library", "Developer", "Xcode", "DerivedData"]) =~= seq!["Library"@, "Developer"@, "Xcode"@, "DerivedData"@]);
        assert(roots@.map_values(|p: String| p@) =~= beneath(l.home, seq!["Library"@, "Developer"@, "Xcode"@, "DerivedData"@]));
    }
    let c = cat(
        "xcode_derived",
        "Xcode Derived Data",
        "Build intermediates & indexes. Rebuilt on next build.",
        Source::Contents(roots),
        Risk::Safe,
        true,
    );
    assert(c@ == mac_table(*locs)[3]);
    r.push(c);
    let parts: &[&str] = &["Library", "Developer", "Xcode", "iOS DeviceSupport"];
    assert(parts@ =~= seq!["Library", "Developer", "Xcode", "iOS DeviceSupport"]);
    let mut roots = home(locs, parts);
    let parts: &[&str] = &["Library", "Developer", "Xcode", "watchOS DeviceSupport"];
    assert(parts@ =~= seq!["Library", "Developer", "Xcode", "watchOS DeviceSupport"]);
    let mut more = home(locs, parts);
    roots.append(&mut more);
    let parts: &[&str] = &["Library", "Developer", "Xcode", "tvOS DeviceSupport"];
    assert(parts@ =~= seq!["Library", "Developer", "Xcode", "tvOS DeviceSupport"]);
    let mut more = home(locs, parts);
    roots.append(&mut more);
    proof {
        assert(strs_view(seq!["Library", "Developer", "Xcode", "iOS DeviceSupport"]) =~= seq!["Library"@, "Developer"@, "Xcode"@, "iOS DeviceSupport"@]);
        assert(strs_view(seq!["Library", "Developer", "Xcode", "watchOS DeviceSupport"]) =~= seq!["Library"@, "Developer"@, "Xcode"@, "watchOS DeviceSupport"@]);
        assert(strs_view(seq!["Library", "Developer", "Xcode", "tvOS DeviceSupport"]) =~= seq!["Library"@, "Developer"@, "Xcode"@, "tvOS DeviceSupport"@]);
        assert(roots@.map_values(|p: String| p@) =~= beneath(l.home, seq!["Library"@, "Developer"@, "Xcode"@, "iOS DeviceSupport"@]) + beneath(l.home, seq!["Library"@, "Developer"@, "Xcode"@, "watchOS DeviceSupport"@]) + beneath(l.home, seq!["Library"@, "Developer"@, "Xcode"@, "tvOS DeviceSupport"@]));
    }
    let c = cat(
        "xcode_device_support",
        "Xcode Device Support",
        "Symbols cached per connected device/OS. Re-fetched when needed.",
        Source::Contents(roots),
        Risk::Safe,
        true,
    );
    assert(c@ == mac_table(*locs)[4]);
    r.push(c);
    let parts: &[&str] = &["Library", "Developer", "CoreSimulator", "Caches"];
    assert(parts@ =~= seq!["Library", "Developer", "CoreSimulator", "Caches"]);
    let roots = home(locs, parts);
    proof {
        assert(strs_view(seq!["Library", "Developer", "CoreSimulator", "Caches"]) =~= seq!["Library"@, "Developer"@, "CoreSimulator"@, "Caches"@]);
        assert(roots@.map_values(|p: String| p@) =~= beneath(l.home, seq!["Library"@, "Developer"@, "CoreSimulator"@, "Caches"@]));
    }
    let c = cat(
        "simulator_caches",
        "iOS Simulator Caches",
        "CoreSimulator caches.",
        Source::Contents(roots),
        Risk::Safe,
        true,
    );
    assert(c@ == mac_table(*locs)[5]);
    r.push(c);
    let parts: &[&str] = &[".npm", "_cacache"];
    assert(parts@ =~= seq![".npm", "_cacache"]);
    let roots = home(locs, parts);
    proof {
        assert(strs_view(seq![".npm", "_cacache"]) =~= seq![".npm"@, "_cacache"@]);
        assert(roots@.map_values(|p: String| p@) =~= beneath(l.home, seq![".npm"@, "_cacache"@]));
    }
    let c = cat(
        "npm_cache",
        "npm Cache",
        "~/.npm/_cacache — re-downloaded on demand.",
        Source::Contents(roots),
        Risk::Safe,
        true,
    );
    assert(c@ == mac_table(*locs)[6]);
    r.push(c);
    let parts: &[&str] = &[".cargo", "registry", "cache"];
    assert(parts@ =~= seq![".cargo", "registry", "cache"]);
    let roots = home(locs, parts);
    proof {
        assert(strs_view(seq![".cargo", "registry", "cache"]) =~= seq![".cargo"@, "registry"@, "cache"@]);
        assert(roots@.map_values(|p: String| p@) =~= beneath(l.home, seq![".cargo"@, "registry"@, "cache"@]));
    }
    let c = cat(
        "cargo_cache",
        "Cargo Registry Cache",
        "~/.cargo/registry/cache — downloaded crate archives.",
        Source::Contents(roots),
        Risk::Safe,
        true,
    );
    assert(c@ == mac_table(*locs)[7]);
    r.push(c);
    let parts: &[&str] = &[".Trash"];
    assert(parts@ =~= seq![".Trash"]);
    let roots = home(locs, parts);
    proof {
        assert(strs_view(seq![".Trash"]) =~= seq![".Trash"@]);
        assert(seq![".Trash"@].drop_last() =~= Seq::<Seq<char>>::empty());
        assert(roots@.map_values(|p: String| p@) =~= beneath(l.home, seq![".Trash"@]));
    }
    let c = cat(
        "trash",
        "Trash",
        "~/.Trash — emptying is irreversible.",
        Source::Contents(roots),
        Risk::Caution,
        false,
    );
    assert(c@ == mac_table(*locs)[8]);
    r.push(c);
    assert(categories_view(r@) =~= mac_table(*locs));
    r
}

/// The Windows categories, as [`windows_categories`] builds them from `l`.
pub open spec fn windows_table(l: Locations) -> Seq<CategoryView> {
    seq![
        CategoryView {
            id: "user_temp"@,
            name: "User Temp Files"@,
            description: "%LOCALAPPDATA%\\Temp — per-user scratch files."@,
            source: SourceView::Contents(beneath(l.local_data, seq!["Temp"@])),
            risk: Risk::Safe,
            default_on: true,
        },
        CategoryView {
            id: "windows_temp"@,
            name: "Windows Temp Files"@,
            description: "C:\\Windows\\Temp — system scratch files (some may be in use)."@,
            source: SourceView::Contents(seq![windows_temp_view(l)]),
            risk: Risk::Safe,
            default_on: true,
        },
        CategoryView {
            id: "crash_dumps"@,
            name: "Crash Dumps"@,
            description: "%LOCALAPPDATA%\\CrashDumps — saved crash reports."@,
            source: SourceView::Contents(beneath(l.local_data, seq!["CrashDumps"@])),
            risk: Risk::Safe,
            default_on: true,
        },
        CategoryView {
            id: "browser_caches"@,
            name: "Browser Caches"@,
            description: "Chrome & Edge on-disk caches. Bookmarks/history untouched."@,
            source: SourceView::Contents(beneath(l.local_data, seq!["Google"@, "Chrome"@, "User Data"@, "Default"@, "Cache"@]) + beneath(l.local_data, seq!["Google"@, "Chrome"@, "User Data"@, "Default"@, "Code Cache"@]) + beneath(l.local_data, seq!["Microsoft"@, "Edge"@, "User Data"@, "Default"@, "Cache"@]) + beneath(l.local_data, seq!["Microsoft"@, "Edge"@, "User Data"@, "Default"@, "Code Cache"@])),
            risk: Risk::Safe,
            default_on: true,
        },
        CategoryView {
            id: "npm_cache"@,
            name: "npm Cache"@,
            description: "%LOCALAPPDATA%\\npm-cache — re-downloaded on demand."@,
            source: SourceView::Contents(beneath(l.local_data, seq!["npm-cache"@])),
            risk: Risk::Safe,
            default_on: true,
        },
        CategoryView {
            id: "pip_cache"@,
            name: "pip Cache"@,
            description: "%LOCALAPPDATA%\\pip\\Cache — downloaded Python wheels."@,
            source: SourceView::Contents(beneath(l.local_data, seq!["pip"@, "Cache"@])),
            risk: Risk::Safe,
            default_on: true,
        },
        CategoryView {
            id: "cargo_cache"@,
            name: "Cargo Registry Cache"@,
            description: "~/.cargo/registry/cache — downloaded crate archives."@,
            source: SourceView::Contents(beneath(l.home, seq![".cargo"@, "registry"@, "cache"@])),
            risk: Risk::Safe,
            default_on: true,
        },
        CategoryView {
            id: "recycle_bin"@,
            name: "Recycle Bin"@,
            description: "C:\\$Recycle.Bin — emptying is irreversible."@,
            source: SourceView::Contents(seq!["C:\\$Recycle.Bin"@]),
            risk: Risk::Caution,
            default_on: false,
        },
    ]
}

/// The Windows categories.
pub fn windows_categories(locs: &Locations) -> (r: Vec<Category>)
    ensures
        categories_view(r@) == windows_table(*locs),
{
    let mut r: Vec<Category> = Vec::new();
    let ghost l = *locs;
    let parts: &[&str] = &["Temp"];
    assert(parts@ =~= seq!["Temp"]);
    let roots = local(locs, parts);
    proof {
        assert(strs_view(seq!["Temp"]) =~= seq!["Temp"@]);
        assert(seq!["Temp"@].drop_last() =~= Seq::<Seq<char>>::empty());
        assert(roots@.map_values(|p: String| p@) =~= beneath(l.local_data, seq!["Temp"@]));
    }
    let c = cat(
        "user_temp",
        "User Temp Files",
        "%LOCALAPPDATA%\\Temp — per-user scratch files.",
        Source::Contents(roots),
        Risk::Safe,
        true,
    );
    assert(c@ == windows_table(*locs)[0]);
    r.push(c);
    let roots = vec![windows_temp(locs)];
    proof {
        assert(roots@.map_values(|p: String| p@) =~= seq![windows_temp_view(l)]);
    }
    let c = cat(
        "windows_temp",
        "Windows Temp Files",
        "C:\\Windows\\Temp — system scratch files (some may be in use).",
        Source::Contents(roots),
        Risk::Safe,
        true,
    );
    assert(c@ == windows_table(*locs)[1]);
    r.push(c);
    let parts: &[&str] = &["CrashDumps"];
    assert(parts@ =~= seq!["CrashDumps"]);
    let roots = local(locs, parts);
    proof {
        assert(strs_view(seq!["CrashDumps"]) =~= seq!["CrashDumps"@]);
        assert(seq!["CrashDumps"@].drop_last() =~= Seq::<Seq<char>>::empty());
        assert(roots@.map_values(|p: String| p@) =~= beneath(l.local_data, seq!["CrashDumps"@]));
    }
    let c = cat(
        "crash_dumps",
        "Crash Dumps",
        "%LOCALAPPDATA%\\CrashDumps — saved crash reports.",
        Source::Contents(roots),
        Risk::Safe,
        true,
    );
    assert(c@ == windows_table(*locs)[2]);
    r.push(c);
    let parts: &[&str] = &["Google", "Chrome", "User Data", "Default", "Cache"];
    assert(parts@ =~= seq!["Google", "Chrome", "User Data", "Default", "Cache"]);
    let mut roots = local(locs, parts);
    let parts: &[&str] = &["Google", "Chrome", "User Data", "Default", "Code Cache"];
    assert(parts@ =~= seq!["Google", "Chrome", "User Data", "Default", "Code Cache"]);
    let mut more = local(locs, parts);
    roots.append(&mut more);
    let parts: &[&str] = &["Microsoft", "Edge", "User Data", "Default", "Cache"];
    assert(parts@ =~= seq!["Microsoft", "Edge", "User Data", "Default", "Cache"]);
    let mut more = local(locs, parts);
    roots.append(&mut more);
    let parts: &[&str] = &["Microsoft", "Edge", "User Data", "Default", "Code Cache"];
    assert(parts@ =~= seq!["Microsoft", "Edge", "User Data", "Default", "Code Cache"]);
    let mut more = local(locs, parts);
    roots.append(&mut more);
    proof {
        assert(strs_view(seq!["Google", "Chrome", "User Data", "Default", "Cache"]) =~= seq!["Google"@, "Chrome"@, "User Data"@, "Default"@, "Cache"@]);
        assert(strs_view(seq!["Google", "Chrome", "User Data", "Default", "Code Cache"]) =~= seq!["Google"@, "Chrome"@, "User Data"@, "Default"@, "Code Cache"@]);
        assert(strs_view(seq!["Microsoft", "Edge", "User Data", "Default", "Cache"]) =~= seq!["Microsoft"@, "Edge"@, "User Data"@, "Default"@, "Cache"@]);
        assert(strs_view(seq!["Microsoft", "Edge", "User Data", "Default", "Code Cache"]) =~= seq!["Microsoft"@, "Edge"@, "User Data"@, "Default"@, "Code Cache"@]);
        assert(roots@.map_values(|p: String| p@) =~= beneath(l.local_data, seq!["Google"@, "Chrome"@, "User Data"@, "Default"@, "Cache"@]) + beneath(l.local_data, seq!["Google"@, "Chrome"@, "User Data"@, "Default"@, "Code Cache"@]) + beneath(l.local_data, seq!["Microsoft"@, "Edge"@, "User Data"@, "Default"@, "Cache"@]) + beneath(l.local_data, seq!["Microsoft"@, "Edge"@, "User Data"@, "Default"@, "Code Cache"@]));
    }
    let c = cat(
        "browser_caches",
        "Browser Caches",
        "Chrome & Edge on-disk caches. Bookmarks/history untouched.",
        Source::Contents(roots),
        Risk::Safe,
        true,
    );
    assert(c@ == windows_table(*locs)[3]);
    r.push(c);
    let parts: &[&str] = &["npm-cache"];
    assert(parts@ =~= seq!["npm-cache"]);
    let roots = local(locs, parts);
    proof {
        assert(strs_view(seq!["npm-cache"]) =~= seq!["npm-cache"@]);
        assert(seq!["npm-cache"@].drop_last() =~= Seq::<Seq<char>>::empty());
        assert(roots@.map_values(|p: String| p@) =~= beneath(l.local_data, seq!["npm-cache"@]));
    }
    let c = cat(
        "npm_cache",
        "npm Cache",
        "%LOCALAPPDATA%\\npm-cache — re-downloaded on demand.",
        Source::Contents(roots),
        Risk::Safe,
        true,
    );
    assert(c@ == windows_table(*locs)[4]);
    r.push(c);
    let parts: &[&str] = &["pip", "Cache"];
    assert(parts@ =~= seq!["pip", "Cache"]);
    let roots = local(locs, parts);
    proof {
        assert(strs_view(seq!["pip", "Cache"]) =~= seq!["pip"@, "Cache"@]);
        assert(roots@.map_values(|p: String| p@) =~= beneath(l.local_data, seq!["pip"@, "Cache"@]));
    }
    let c = cat(
        "pip_cache",
        "pip Cache",
        "%LOCALAPPDATA%\\pip\\Cache — downloaded Python wheels.",
        Source::Contents(roots),
        Risk::Safe,
        true,
    );
    assert(c@ == windows_table(*locs)[5]);
    r.push(c);
    let parts: &[&str] = &[".cargo", "registry", "cache"];
    assert(parts@ =~= seq![".cargo", "registry", "cache"]);
    let roots = home(locs, parts);
    proof {
        assert(strs_view(seq![".cargo", "registry", "cache"]) =~= seq![".cargo"@, "registry"@, "cache"@]);
        assert(roots@.map_values(|p: String| p@) =~= beneath(l.home, seq![".cargo"@, "registry"@, "cache"@]));
    }
    let c = cat(
        "cargo_cache",
        "Cargo Registry Cache",
        "~/.cargo/registry/cache — downloaded crate archives.",
        Source::Contents(roots),
        Risk::Safe,
        true,
    );
    assert(c@ == windows_table(*locs)[6]);
    r.push(c);
    let roots = vec![String::from_str("C:\\$Recycle.Bin")];
    proof {
        assert(roots@.map_values(|p: String| p@) =~= seq!["C:\\$Recycle.Bin"@]);
    }
    let c = cat(
        "recycle_bin",
        "Recycle Bin",
        "C:\\$Recycle.Bin — emptying is irreversible.",
        Source::Contents(roots),
        Risk::Caution,
        false,
    );
    assert(c@ == windows_table(*locs)[7]);
    r.push(c);
    assert(categories_view(r@) =~= windows_table(*locs));
    r
}

/// The Linux (and other platforms') categories, as [`other_categories`] builds them from `l`.
pub open spec fn other_table(l: Locations) -> Seq<CategoryView> {
    seq![
        CategoryView {
            id: "user_caches"@,
            name: "Application Caches"@,
            description: "~/.cache — app caches."@,
            source: SourceView::Contents(present_view(l.cache)),
            risk: Risk::Safe,
            default_on: true,
        },
        CategoryView {
            id: "temp_files"@,
            name: "Temporary Files"@,
            description: "Per-user temp directory."@,
            source: SourceView::Contents(present_view(l.temp)),
            risk: Risk::Safe,
            default_on: true,
        },
        CategoryView {
            id: "npm_cache"@,
            name: "npm Cache"@,
            description: "~/.npm/_cacache — re-downloaded on demand."@,
            source: SourceView::Contents(beneath(l.home, seq![".npm"@, "_cacache"@])),
            risk: Risk::Safe,
            default_on: true,
        },
        CategoryView {
            id: "cargo_cache"@,
            name: "Cargo Registry Cache"@,
            description: "~/.cargo/registry/cache — downloaded crate archives."@,
            source: SourceView::Contents(beneath(l.home, seq![".cargo"@, "registry"@, "cache"@])),
            risk: Risk::Safe,
            default_on: true,
        },
        CategoryView {
            id: "trash"@,
            name: "Trash"@,
            description: "~/.local/share/Trash — emptying is irreversible."@,
            source: SourceView::Contents(beneath(l.home, seq![".local"@, "share"@, "Trash"@, "files"@])),
            risk: Risk::Caution,
            default_on: false,
        },
    ]
}

/// The Linux (and other platforms') categories.
pub fn other_categories(locs: &Locations) -> (r: Vec<Category>)
    ensures
        categories_view(r@) == other_table(*locs),
{
    let mut r: Vec<Category> = Vec::new();
    let ghost l = *locs;
    let roots = present(&locs.cache);
    proof {
        assert(roots@.map_values(|p: String| p@) =~= present_view(l.cache));
    }
    let c = cat(
        "user_caches",
        "Application Caches",
        "~/.cache — app caches.",
        Source::Contents(roots),
        Risk::Safe,
        true,
    );
    assert(c@ == other_table(*locs)[0]);
    r.push(c);
    let roots = present(&locs.temp);
    proof {
        assert(roots@.map_values(|p: String| p@) =~= present_view(l.temp));
    }
    let c = cat(
        "temp_files",
        "Temporary Files",
        "Per-user temp directory.",
        Source::Contents(roots),
        Risk::Safe,
        true,
    );
    assert(c@ == other_table(*locs)[1]);
    r.push(c);
    let parts: &[&str] = &[".npm", "_cacache"];
    assert(parts@ =~= seq![".npm", "_cacache"]);
    let roots = home(locs, parts);
    proof {
        assert(strs_view(seq![".npm", "_cacache"]) =~= seq![".npm"@, "_cacache"@]);
        assert(roots@.map_values(|p: String| p@) =~= beneath(l.home, seq![".npm"@, "_cacache"@]));
    }
    let c = cat(
        "npm_cache",
        "npm Cache",
        "~/.npm/_cacache — re-downloaded on demand.",
        Source::Contents(roots),
        Risk::Safe,
        true,
    );
    assert(c@ == other_table(*locs)[2]);
    r.push(c);
    let parts: &[&str] = &[".cargo", "registry", "cache"];
    assert(parts@ =~= seq![".cargo", "registry", "cache"]);
    let roots = home(locs, parts);
    proof {
        assert(strs_view(seq![".cargo", "registry", "cache"]) =~= seq![".cargo"@, "registry"@, "cache"@]);
        assert(roots@.map_values(|p: String| p@) =~= beneath(l.home, seq![".cargo"@, "registry"@, "cache"@]));
    }
    let c = cat(
        "cargo_cache",
        "Cargo Registry Cache",
        "~/.cargo/registry/cache — downloaded crate archives.",
        Source::Contents(roots),
        Risk::Safe,
        true,
    );
    assert(c@ == other_table(*locs)[3]);
    r.push(c);
    let parts: &[&str] = &[".local", "share", "Trash", "files"];
    assert(parts@ =~= seq![".local", "share", "Trash", "files"]);
    let roots = home(locs, parts);
    proof {
        assert(strs_view(seq![".local", "share", "Trash", "files"]) =~= seq![".local"@, "share"@, "Trash"@, "files"@]);
        assert(roots@.map_values(|p: String| p@) =~= beneath(l.home, seq![".local"@, "share"@, "Trash"@, "files"@]));
    }
    let c = cat(
        "trash",
        "Trash",
        "~/.local/share/Trash — emptying is irreversible.",
        Source::Contents(roots),
        Risk::Caution,
        false,
    );
    assert(c@ == other_table(*locs)[4]);
    r.push(c);
    assert(categories_view(r@) =~= other_table(*locs));
    r
}


/// The cross-platform "scattered developer junk" categories, as
/// [`dev_find_categories`] builds them: none without a home directory.
pub open spec fn dev_find_table(l: Locations) -> Seq<CategoryView> {
    match l.home {
        None => Seq::empty(),
        Some(h) => seq![
            CategoryView {
                id: "node_modules"@,
                name: "node_modules folders"@,
                description: "JavaScript dependencies anywhere under your home. Restore with `npm install`."@,
                source: SourceView::FindDirs { base: h@, name: "node_modules"@, sibling: None, max_depth: 9 },
                risk: Risk::Caution,
                default_on: false,
            },
            CategoryView {
                id: "rust_target"@,
                name: "Rust build output"@,
                description: "`target/` directories next to a Cargo.toml. Rebuild with `cargo build`."@,
                source: SourceView::FindDirs {
                    base: h@,
                    name: "target"@,
                    sibling: Some("Cargo.toml"@),
                    max_depth: 9,
                },
                risk: Risk::Caution,
                default_on: false,
            },
            CategoryView {
                id: "py_cache"@,
                name: "Python __pycache__"@,
                description: "Compiled Python bytecode caches. Regenerated automatically."@,
                source: SourceView::FindDirs { base: h@, name: "__pycache__"@, sibling: None, max_depth: 9 },
                risk: Risk::Caution,
                default_on: false,
            },
        ],
    }
}

/// Cross-platform "find scattered developer junk" categories. Off by default
/// and marked Caution:
/// these remove regenerable project state, not just caches.
pub fn dev_find_categories(locs: &Locations) -> (r: Vec<Category>)
    ensures
        categories_view(r@) == dev_find_table(*locs),
{
    let home = match &locs.home {
        Some(h) => h,
        None => {
            let r: Vec<Category> = Vec::new();
            assert(categories_view(r@) =~= dev_find_table(*locs));
            return r;
        },
    };
    let mut r: Vec<Category> = Vec::new();
    r.push(
        cat(
            "node_modules",
            "node_modules folders",
            "JavaScript dependencies anywhere under your home. Restore with `npm install`.",
            Source::FindDirs { base: home.clone(), name: "node_modules", sibling: None, max_depth: 9 },
            Risk::Caution,
            false,
        ),
    );
    r.push(
        cat(
            "rust_target",
            "Rust build output",
            "`target/` directories next to a Cargo.toml. Rebuild with `cargo build`.",
            Source::FindDirs {
                base: home.clone(),
                name: "target",
                sibling: Some("Cargo.toml"),
                max_depth: 9,
            },
            Risk::Caution,
            false,
        ),
    );
    r.push(
        cat(
            "py_cache",
            "Python __pycache__",
            "Compiled Python bytecode caches. Regenerated automatically.",
            Source::FindDirs { base: home.clone(), name: "__pycache__", sibling: None, max_depth: 9 },
            Risk::Caution,
            false,
        ),
    );
    assert(categories_view(r@) =~= dev_find_table(*locs));
    r
}

/// The platform's own categories, as [`platform_categories`] builds them.
pub open spec fn platform_table(platform: Platform, l: Locations) -> Seq<CategoryView> {
    match platform {
        Platform::MacOs => mac_table(l),
        Platform::Windows => windows_table(l),
        Platform::Other => other_table(l),
    }
}

/// The platform's own categories.
pub fn platform_categories(platform: Platform, locs: &Locations) -> (r: Vec<Category>)
    ensures
        categories_view(r@) == platform_table(platform, *locs),
{
    match platform {
        Platform::MacOs => mac_categories(locs),
        Platform::Windows => windows_categories(locs),
        Platform::Other => other_categories(locs),
    }
}

/// A category can resolve on this machine: a contents category has at least
/// one root, and a directory hunt's base (the home directory) is a directory.
pub open spec fn resolvable(c: CategoryView, home_is_dir: bool) -> bool {
    match c.source {
        SourceView::Contents(roots) => roots.len() > 0,
        SourceView::FindDirs { .. } => home_is_dir,
    }
}

/// Every category of the platform, then the developer-junk hunts.
pub open spec fn all_categories(platform: Platform, l: Locations) -> Seq<CategoryView> {
    platform_table(platform, l) + dev_find_table(l)
}

/// The category list for `platform`, dropping any that can't resolve on this
/// machine (`home_is_dir` tells whether the home directory, where the hunts
/// start, is a directory).
pub fn categories(platform: Platform, locs: &Locations, home_is_dir: bool) -> (r: Vec<Category>)
    ensures
        categories_view(r@) == all_categories(platform, *locs).filter(
            |c: CategoryView| resolvable(c, home_is_dir),
        ),
{
    let ghost pred = |c: CategoryView| resolvable(c, home_is_dir);
    let mut cats = platform_categories(platform, locs);
    let mut more = dev_find_categories(locs);
    cats.append(&mut more);
    let ghost all = categories_view(cats@);
    assert(all =~= all_categories(platform, *locs));
    let n = cats.len();
    let mut out: Vec<Category> = Vec::new();
    let mut k: usize = 0;
    while k < n
        invariant
            k <= n,
            n == all.len(),
            cats@.len() == n - k,
            categories_view(cats@) == all.skip(k as int),
            categories_view(out@) == all.take(k as int).filter(pred),
            pred == (|c: CategoryView| resolvable(c, home_is_dir)),
        decreases n - k,
    {
        let ghost prev = cats@;
        assert(categories_view(prev)[0] == prev[0]@);
        assert(all.skip(k as int)[0] == all[k as int]);
        let c = cats.remove(0);
        assert(c@ == all[k as int]);
        assert(categories_view(cats@) =~= categories_view(prev).subrange(1, prev.len() as int));
        assert(all.take(k + 1) =~= all.take(k as int).push(all[k as int]));
        proof {
            all.take(k as int).lemma_filter_push(all[k as int], pred);
        }
        assert(categories_view(cats@) =~= all.skip(k + 1));
        let keep = match &c.source {
            Source::Contents(roots) => roots.len() > 0,
            Source::FindDirs { .. } => home_is_dir,
        };
        if keep {
            out.push(c);
            assert(categories_view(out@) =~= all.take(k as int).filter(pred).push(all[k as int]));
        }
        k = k + 1;
    }
    assert(all.take(n as int) =~= all);
    out
}

/// Copies a list of paths.
pub fn copy_paths(v: &Vec<String>) -> (r: Vec<String>)
    ensures
        r@.map_values(|p: String| p@) == v@.map_values(|p: String| p@),
{
    let mut r: Vec<String> = Vec::new();
    let mut i: usize = 0;
    while i < v.len()
        invariant
            i <= v.len(),
            r@.map_values(|p: String| p@) == v@.take(i as int).map_values(|p: String| p@),
        decreases v.len() - i,
    {
        r.push(v[i].clone());
        assert(v@.take(i + 1).map_values(|p: String| p@) =~= v@.take(i as int).map_values(
            |p: String| p@,
        ).push(v@[i as int]@));
        i = i + 1;
    }
    assert(v@.take(i as int) =~= v@);
    r
}

/// The search that resolves a category to the concrete paths it would delete:
/// the immediate contents of its roots, or the directories its rule finds.
pub fn start_search(c: &Category) -> (s: TargetSearch)
    ensures
        s@.waiting == WaitView::Idle,
        s@.frames.len() == 0,
        s@.found.len() == 0,
        !s@.started,
        s@.next_root == 0,
        search_wf(s@),
        match c@.source {
            SourceView::Contents(roots) => s@.mode == ModeView::Contents(roots),
            SourceView::FindDirs { base, name, sibling, max_depth } => s@.mode == ModeView::Find(
                base,
                RuleView { name, sibling, max_depth },
            ),
        },
{
    match &c.source {
        Source::Contents(roots) => TargetSearch::contents(copy_paths(roots)),
        Source::FindDirs { base, name, sibling, max_depth } => {
            let rule = FindRule {
                name: String::from_str(name),
                sibling: match sibling {
                    Some(s) => Some(String::from_str(s)),
                    None => None,
                },
                max_depth: *max_depth,
            };
            TargetSearch::find(base.clone(), rule)
        },
    }
}

impl Category {
    /// An independent copy of the category.
    pub fn duplicate(&self) -> (c: Category)
        ensures
            c@ == self@,
    {
        let source = match &self.source {
            Source::Contents(roots) => Source::Contents(copy_paths(roots)),
            Source::FindDirs { base, name, sibling, max_depth } => Source::FindDirs {
                base: base.clone(),
                name: *name,
                sibling: *sibling,
                max_depth: *max_depth,
            },
        };
        Category {
            id: self.id,
            name: self.name,
            description: self.description,
            source,
            risk: self.risk,
            default_on: self.default_on,
        }
    }
}

/// No two categories share an id.
pub open spec fn ids_distinct(s: Seq<CategoryView>) -> bool {
    forall|i: int, j: int| 0 <= i < j < s.len() ==> s[i].id != s[j].id
}

proof fn lemma_filter_from(s: Seq<CategoryView>, pred: spec_fn(CategoryView) -> bool, i: int)
    requires
        0 <= i < s.filter(pred).len(),
    ensures
        exists|j: int| 0 <= j < s.len() && s[j] == s.filter(pred)[i],
{
    assert(s.filter(pred).contains(s.filter(pred)[i]));
    s.lemma_filter_contains_rev(pred, s.filter(pred)[i]);
}

proof fn lemma_filter_ids_distinct(s: Seq<CategoryView>, pred: spec_fn(CategoryView) -> bool)
    requires
        ids_distinct(s),
    ensures
        ids_distinct(s.filter(pred)),
    decreases s.len(),
{
    reveal(Seq::filter);
    if s.len() > 0 {
        let rest = s.drop_last();
        lemma_filter_ids_distinct(rest, pred);
        if pred(s.last()) {
            let f = rest.filter(pred);
            assert forall|i: int| 0 <= i < f.len() implies f[i].id != s.last().id by {
                lemma_filter_from(rest, pred, i);
                let j = choose|j: int| 0 <= j < rest.len() && rest[j] == f[i];
                assert(s[j] == rest[j]);
            }
        }
    }
}

proof fn lemma_table_ids_distinct(platform: Platform, l: Locations)
    ensures
        ids_distinct(all_categories(platform, l)),
{
    reveal_strlit("user_caches");
    reveal_strlit("app_logs");
    reveal_strlit("temp_files");
    reveal_strlit("xcode_derived");
    reveal_strlit("xcode_device_support");
    reveal_strlit("simulator_caches");
    reveal_strlit("npm_cache");
    reveal_strlit("cargo_cache");
    reveal_strlit("trash");
    reveal_strlit("user_temp");
    reveal_strlit("windows_temp");
    reveal_strlit("crash_dumps");
    reveal_strlit("browser_caches");
    reveal_strlit("pip_cache");
    reveal_strlit("recycle_bin");
    reveal_strlit("node_modules");
    reveal_strlit("rust_target");
    reveal_strlit("py_cache");
    let s = all_categories(platform, l);
    assert forall|i: int, j: int| 0 <= i < j < s.len() implies s[i].id != s[j].id by {
        if s[i].id == s[j].id {
            assert(s[i].id.len() == s[j].id.len());
            assert(s[i].id[0] == s[j].id[0]);
            assert(s[i].id[1] == s[j].id[1]);
            assert(s[i].id[2] == s[j].id[2]);
            assert(s[i].id[s[i].id.len() - 1] == s[j].id[s[j].id.len() - 1]);
        }
    }
}

/// No two categories of a list share an id (rows are found again by it).
pub proof fn lemma_category_ids_distinct(platform: Platform, l: Locations, home_is_dir: bool)
    ensures
        ids_distinct(all_categories(platform, l).filter(|c: CategoryView| resolvable(c, home_is_dir))),
{
    lemma_table_ids_distinct(platform, l);
    lemma_filter_ids_distinct(all_categories(platform, l), |c: CategoryView| resolvable(c, home_is_dir));
}

/// A category is off by default whenever it carries a risk, and every
/// category listed can resolve: a contents category has a root, a hunt starts
/// at the home directory (which is a directory) and searches at most nine
/// levels deep. Every hunt removes regenerable project state, so it is
/// marked Caution and off by default.
pub proof fn lemma_listed_categories(platform: Platform, l: Locations, home_is_dir: bool)
    ensures
        ({
            let r = all_categories(platform, l).filter(|c: CategoryView| resolvable(c, home_is_dir));
            forall|i: int|
                0 <= i < r.len() ==> {
                    &&& (#[trigger] r[i]).risk == Risk::Caution ==> !r[i].default_on
                    &&& resolvable(r[i], home_is_dir)
                    &&& (r[i].source matches SourceView::FindDirs { base, max_depth, .. } ==> l.home
                        is Some && base == l.home->0@ && max_depth == 9 && r[i].risk == Risk::Caution
                        && !r[i].default_on)
                }
        }),
{
    let pred = |c: CategoryView| resolvable(c, home_is_dir);
    let s = all_categories(platform, l);
    let r = s.filter(pred);
    assert forall|i: int| 0 <= i < r.len() implies {
        &&& (#[trigger] r[i]).risk == Risk::Caution ==> !r[i].default_on
        &&& resolvable(r[i], home_is_dir)
        &&& (r[i].source matches SourceView::FindDirs { base, max_depth, .. } ==> l.home is Some
            && base == l.home->0@ && max_depth == 9 && r[i].risk == Risk::Caution && !r[i].default_on)
    } by {
        s.lemma_filter_pred(pred, i);
        lemma_filter_from(s, pred, i);
        let j = choose|j: int| 0 <= j < s.len() && s[j] == r[i];
        assert(s[j].risk == Risk::Caution ==> !s[j].default_on);
    }
}

/// Emptying the Trash or the Recycle Bin cannot be undone, so on every
/// platform those categories are marked Caution and are off by default; the
/// Windows list always offers the Recycle Bin, at `C:\$Recycle.Bin`, and the
/// others the Trash.
pub proof fn lemma_irreversible_categories_are_caution(platform: Platform, l: Locations)
    ensures
        forall|i: int|
            0 <= i < all_categories(platform, l).len() && ((#[trigger] all_categories(platform, l)[i]).id
                == "trash"@ || all_categories(platform, l)[i].id == "recycle_bin"@) ==> all_categories(
                platform,
                l,
            )[i].risk == Risk::Caution && !all_categories(platform, l)[i].default_on,
        platform == Platform::Windows ==> exists|i: int|
            0 <= i < all_categories(platform, l).len() && (#[trigger] all_categories(platform, l)[i]).id
                == "recycle_bin"@ && all_categories(platform, l)[i].source == SourceView::Contents(
                seq!["C:\\$Recycle.Bin"@],
            ),
        platform != Platform::Windows ==> exists|i: int|
            0 <= i < all_categories(platform, l).len() && (#[trigger] all_categories(platform, l)[i]).id
                == "trash"@,
{
    reveal_strlit("user_caches");
    reveal_strlit("app_logs");
    reveal_strlit("temp_files");
    reveal_strlit("xcode_derived");
    reveal_strlit("xcode_device_support");
    reveal_strlit("simulator_caches");
    reveal_strlit("npm_cache");
    reveal_strlit("cargo_cache");
    reveal_strlit("trash");
    reveal_strlit("user_temp");
    reveal_strlit("windows_temp");
    reveal_strlit("crash_dumps");
    reveal_strlit("browser_caches");
    reveal_strlit("pip_cache");
    reveal_strlit("recycle_bin");
    reveal_strlit("node_modules");
    reveal_strlit("rust_target");
    reveal_strlit("py_cache");
    let s = all_categories(platform, l);
    assert forall|i: int|
        0 <= i < s.len() && (#[trigger] s[i].id == "trash"@ || s[i].id == "recycle_bin"@) implies s[i].risk
        == Risk::Caution && !s[i].default_on by {
        if !(s[i].risk == Risk::Caution && !s[i].default_on) {
            assert(s[i].id.len() == 5 || s[i].id.len() == 11);
            assert(s[i].id[0] == 't' || s[i].id[0] == 'r');
            assert(s[i].id[1] == 'r' || s[i].id[1] == 'e');
            assert(s[i].id[2] == 'a' || s[i].id[2] == 'c');
        }
    }
    match platform {
        Platform::Windows => {
            assert(s[7].id == "recycle_bin"@);
        },
        Platform::MacOs => {
            assert(s[8].id == "trash"@);
        },
        Platform::Other => {
            assert(s[4].id == "trash"@);
        },
    }
}

} // verus!
