//! The discovery engine: which directories are never searched, which ones seed
//! the search, which entries qualify as interpreter executables, what one visit
//! of a directory yields, and how the per-origin results are merged.
//!
//! Everything here is a function of explicit values: the host's file system is
//! read by the caller, which hands each directory's state to `Traversal::record`.

use vstd::prelude::*;

use crate::texts;

use crate::paths::file_name;
use crate::paths::file_name_spec;
use crate::paths::is_absolute;
use crate::paths::is_absolute_path;
use crate::paths::lemma_join_absolute;
use crate::paths::join;
use crate::paths::join_spec;
use crate::paths::lemma_join_injective;
use crate::paths::split_colon_spec;
use crate::paths::split_search_path;

verus! {

/// The host platforms that the search tells apart.
#[derive(Clone, Copy, PartialEq, Eq, Debug, Structural)]
pub enum Platform {
    MacOs,
    Linux,
    Other,
}

/// The text of an optional path.
pub open spec fn opt_text(o: Option<&str>) -> Option<Seq<char>> {
    match o {
        Some(s) => Some(s@),
        None => None,
    }
}

//------------------------------------------------------------------------------
// Exclusions

/// Names, relative to the home directory, of the directories never searched.
pub open spec fn exclusion_names(platform: Platform) -> Seq<Seq<char>> {
    let common = seq![".cache"@, ".npm"@];
    match platform {
        Platform::MacOs => common + seq!["Library"@, "Photos"@, "Downloads"@, ".Trash"@],
        Platform::Linux => common + seq![".local/share/Trash"@],
        Platform::Other => common,
    }
}

/// The directories never searched: none when the home directory is unknown.
pub open spec fn exclusion_paths(home: Option<Seq<char>>, platform: Platform) -> Seq<Seq<char>> {
    match home {
        Some(h) => exclusion_names(platform).map_values(|n: Seq<char>| join_spec(h, n)),
        None => Seq::empty(),
    }
}

/// The absolute paths of the directories that the search must skip.
pub fn get_search_exclude_paths(home: Option<&str>, platform: Platform) -> (r: Vec<String>)
    ensures
        texts(r@) == exclusion_paths(opt_text(home), platform),
{
    let mut paths: Vec<String> = Vec::new();
    if let Some(h) = home {
        paths.push(join(h, ".cache"));
        paths.push(join(h, ".npm"));
        match platform {
            Platform::MacOs => {
                paths.push(join(h, "Library"));
                paths.push(join(h, "Photos"));
                paths.push(join(h, "Downloads"));
                paths.push(join(h, ".Trash"));
            },
            Platform::Linux => {
                paths.push(join(h, ".local/share/Trash"));
            },
            Platform::Other => {},
        }
        assert(texts(paths@) =~= exclusion_paths(opt_text(home), platform));
    } else {
        assert(texts(paths@) =~= exclusion_paths(opt_text(home), platform));
    }
    paths
}

/// With a home directory, on macOS and on Linux, more than two distinct
/// directories are excluded.
pub proof fn lemma_exclusions_exceed_two(home: Seq<char>, platform: Platform)
    requires
        platform != Platform::Other,
    ensures
        exclusion_paths(Some(home), platform).len() > 2,
        exclusion_paths(Some(home), platform).no_duplicates(),
{
    reveal_strlit(".cache");
    reveal_strlit(".npm");
    reveal_strlit("Library");
    reveal_strlit("Photos");
    reveal_strlit("Downloads");
    reveal_strlit(".Trash");
    reveal_strlit(".local/share/Trash");
    let names = exclusion_names(platform);
    let paths = exclusion_paths(Some(home), platform);
    assert forall|i: int, j: int| 0 <= i < names.len() && 0 <= j < names.len() && i != j implies names[i]
        != names[j] by {
        if names[i] == names[j] {
            assert(names[i].len() == names[j].len());
            assert(names[i][0] == names[j][0]);
            assert(names[i][1] == names[j][1]);
        }
    }
    assert forall|i: int, j: int| 0 <= i < paths.len() && 0 <= j < paths.len() && i != j implies paths[i]
        != paths[j] by {
        if paths[i] == paths[j] {
            lemma_join_injective(home, names[i], names[j]);
        }
    }
}


//------------------------------------------------------------------------------
// Origins

/// A directory that seeds the search, and whether its subtree is searched.
pub struct Origin {
    pub path: String,
    pub recurse: bool,
}

impl View for Origin {
    type V = (Seq<char>, bool);

    open spec fn view(&self) -> (Seq<char>, bool) {
        (self.path@, self.recurse)
    }
}

/// The views of a vector of origins.
pub open spec fn origin_views(v: Seq<Origin>) -> Seq<(Seq<char>, bool)> {
    v.map_values(|o: Origin| o@)
}

/// The system binary directories that every search covers.
pub open spec fn system_dirs() -> Seq<Seq<char>> {
    seq!["/bin"@, "/sbin"@, "/usr/bin"@, "/usr/sbin"@, "/usr/local/bin"@, "/usr/local/sbin"@]
}

/// Every origin that the search is seeded with, in the order of construction
/// and with repeats: the absolute search-path entries, the home directory and each of
/// its subdirectories (those searched recursively), the system directories,
/// and on macOS the Homebrew directory.
pub open spec fn origin_candidates(
    search_path: Option<Seq<char>>,
    home: Option<Seq<char>>,
    home_subdirs: Seq<Seq<char>>,
    platform: Platform,
) -> Seq<(Seq<char>, bool)> {
    let from_path = match search_path {
        Some(sp) => split_colon_spec(sp).filter(|p: Seq<char>| is_absolute(p)).map_values(
            |p: Seq<char>| (p, false),
        ),
        None => Seq::empty(),
    };
    let from_home = match home {
        Some(h) => seq![(h, false)] + home_subdirs.map_values(|n: Seq<char>| (join_spec(h, n), true)),
        None => Seq::empty(),
    };
    let fixed = system_dirs().map_values(|d: Seq<char>| (d, false));
    let extra = if platform == Platform::MacOs {
        seq![("/opt/homebrew/bin"@, false)]
    } else {
        Seq::empty()
    };
    from_path + from_home + fixed + extra
}

fn contains_origin(v: &Vec<Origin>, path: &String, recurse: bool) -> (r: bool)
    ensures
        r == origin_views(v@).contains((path@, recurse)),
{
    let mut i: usize = 0;
    while i < v.len()
        invariant
            0 <= i <= v@.len(),
            forall|k: int| 0 <= k < i ==> v@[k]@ != (path@, recurse),
        decreases v@.len() - i,
    {
        if v[i].recurse == recurse && v[i].path == *path {
            assert(origin_views(v@)[i as int] == (path@, recurse));
            return true;
        }
        i = i + 1;
    }
    proof {
        if origin_views(v@).contains((path@, recurse)) {
            let k = choose|k: int| 0 <= k < origin_views(v@).len() && origin_views(v@)[k] == (path@, recurse);
            assert(v@[k]@ == (path@, recurse));
        }
    }
    false
}

/// Adds an origin unless an equal one is already held.
fn add_origin(v: &mut Vec<Origin>, path: String, recurse: bool)
    requires
        origin_views(old(v)@).no_duplicates(),
    ensures
        origin_views(final(v)@).no_duplicates(),
        forall|o: (Seq<char>, bool)| origin_views(final(v)@).contains(o) <==> (origin_views(old(v)@).contains(o) || o == (path@, recurse)),
{
    if !contains_origin(v, &path, recurse) {
        let ghost before = origin_views(v@);
        let ghost item = (path@, recurse);
        v.push(Origin { path, recurse });
        assert(origin_views(v@) =~= before.push(item));
        assert forall|o: (Seq<char>, bool)| origin_views(v@).contains(o) <==> (before.contains(o) || o == item) by {
            if before.contains(o) {
                let k = choose|k: int| 0 <= k < before.len() && before[k] == o;
                assert(origin_views(v@)[k] == o);
            }
            if o == item {
                assert(origin_views(v@)[before.len() as int] == o);
            }
            if origin_views(v@).contains(o) && o != item {
                let k = choose|k: int| 0 <= k < origin_views(v@).len() && origin_views(v@)[k] == o;
                assert(before[k] == o);
            }
        }
    }
}

proof fn lemma_contains_push<A>(s: Seq<A>, x: A, o: A)
    ensures
        s.push(x).contains(o) <==> (s.contains(o) || o == x),
{
    if s.contains(o) {
        let k = choose|k: int| 0 <= k < s.len() && s[k] == o;
        assert(s.push(x)[k] == o);
    }
    if o == x {
        assert(s.push(x)[s.len() as int] == o);
    }
    if s.push(x).contains(o) && o != x {
        let k = choose|k: int| 0 <= k < s.push(x).len() && s.push(x)[k] == o;
        assert(s[k] == o);
    }
}

/// Adds a directory that is searched without recursion.
fn add_flat(v: &mut Vec<Origin>, dir: &str, Ghost(cand): Ghost<Seq<(Seq<char>, bool)>>) -> (c: Ghost<Seq<(Seq<char>, bool)>>)
    requires
        origin_views(old(v)@).no_duplicates(),
        forall|o: (Seq<char>, bool)| origin_views(old(v)@).contains(o) <==> cand.contains(o),
    ensures
        c@ == cand.push((dir@, false)),
        origin_views(final(v)@).no_duplicates(),
        forall|o: (Seq<char>, bool)| origin_views(final(v)@).contains(o) <==> c@.contains(o),
{
    add_origin(v, String::from_str(dir), false);
    proof {
        assert forall|o: (Seq<char>, bool)| origin_views(v@).contains(o) <==> cand.push((dir@, false)).contains(o) by {
            lemma_contains_push(cand, (dir@, false), o);
        }
    }
    Ghost(cand.push((dir@, false)))
}

/// The origins of the search, each held once and each absolute. A relative
/// search-path entry is no origin. `home_subdirs` names the directories found
/// directly in the home directory; it is read only where a home directory is
/// given, and that directory is absolute.
pub fn get_search_origins(
    search_path: Option<&str>,
    home: Option<&str>,
    home_subdirs: &Vec<String>,
    platform: Platform,
) -> (r: Vec<Origin>)
    requires
        match home {
            Some(h) => is_absolute(h@),
            None => true,
        },
    ensures
        origin_views(r@).no_duplicates(),
        forall|i: int| 0 <= i < r@.len() ==> is_absolute(#[trigger] r@[i].path@),
        forall|o: (Seq<char>, bool)| origin_views(r@).contains(o) <==> origin_candidates(
            opt_text(search_path),
            opt_text(home),
            texts(home_subdirs@),
            platform,
        ).contains(o),
{
    let mut paths: Vec<Origin> = Vec::new();
    let ghost mut cand: Seq<(Seq<char>, bool)> = Seq::empty();
    let ghost from_path: Seq<(Seq<char>, bool)> = Seq::empty();
    if let Some(sp) = search_path {
        let entries = split_search_path(sp);
        let mut i: usize = 0;
        while i < entries.len()
            invariant
                0 <= i <= entries@.len(),
                texts(entries@) == split_colon_spec(sp@),
                cand == texts(entries@).take(i as int).filter(|p: Seq<char>| is_absolute(p)).map_values(
                    |p: Seq<char>| (p, false),
                ),
                origin_views(paths@).no_duplicates(),
                forall|o: (Seq<char>, bool)| origin_views(paths@).contains(o) <==> cand.contains(o),
            decreases entries@.len() - i,
        {
            proof {
                assert(texts(entries@).take(i + 1) =~= texts(entries@).take(i as int).push(entries@[i as int]@));
                texts(entries@).take(i as int).lemma_filter_push(entries@[i as int]@, |p: Seq<char>| is_absolute(p));
            }
            if is_absolute_path(entries[i].as_str()) {
                let c = add_flat(&mut paths, entries[i].as_str(), Ghost(cand));
                proof {
                    assert(c@ =~= texts(entries@).take(i + 1).filter(|p: Seq<char>| is_absolute(p)).map_values(
                        |p: Seq<char>| (p, false),
                    ));
                    cand = c@;
                }
            }
            i = i + 1;
        }
        proof {
            assert(texts(entries@).take(entries@.len() as int) =~= texts(entries@));
            from_path = cand;
        }
    }
    assert(cand == from_path);
    if let Some(h) = home {
        let c = add_flat(&mut paths, h, Ghost(cand));
        proof { cand = c@; }
        let mut i: usize = 0;
        while i < home_subdirs.len()
            invariant
                0 <= i <= home_subdirs@.len(),
                cand == from_path + seq![(h@, false)] + texts(home_subdirs@).take(i as int).map_values(
                    |n: Seq<char>| (join_spec(h@, n), true),
                ),
                origin_views(paths@).no_duplicates(),
                forall|o: (Seq<char>, bool)| origin_views(paths@).contains(o) <==> cand.contains(o),
            decreases home_subdirs@.len() - i,
        {
            let sub = join(h, home_subdirs[i].as_str());
            let ghost item = (sub@, true);
            add_origin(&mut paths, sub, true);
            proof {
                assert forall|o: (Seq<char>, bool)| origin_views(paths@).contains(o) <==> cand.push(item).contains(o) by {
                    lemma_contains_push(cand, item, o);
                }
                assert(cand.push(item) =~= from_path + seq![(h@, false)] + texts(home_subdirs@).take(i + 1).map_values(
                    |n: Seq<char>| (join_spec(h@, n), true),
                ));
                cand = cand.push(item);
            }
            i = i + 1;
        }
        assert(texts(home_subdirs@).take(home_subdirs@.len() as int) =~= texts(home_subdirs@));
    }
    let ghost before_fixed = cand;
    let c = add_flat(&mut paths, "/bin", Ghost(cand));
    let c = add_flat(&mut paths, "/sbin", c);
    let c = add_flat(&mut paths, "/usr/bin", c);
    let c = add_flat(&mut paths, "/usr/sbin", c);
    let c = add_flat(&mut paths, "/usr/local/bin", c);
    let c = add_flat(&mut paths, "/usr/local/sbin", c);
    let mut c = c;
    if platform == Platform::MacOs {
        c = add_flat(&mut paths, "/opt/homebrew/bin", c);
    }
    proof {
        let all = origin_candidates(opt_text(search_path), opt_text(home), texts(home_subdirs@), platform);
        assert(c@ =~= all);
        lemma_origin_candidates_absolute(opt_text(search_path), opt_text(home), texts(home_subdirs@), platform);
        assert forall|i: int| 0 <= i < paths@.len() implies is_absolute(#[trigger] paths@[i].path@) by {
            assert(origin_views(paths@)[i] == paths@[i]@);
            assert(all.contains(paths@[i]@));
        }
    }
    paths
}

/// Every origin candidate is absolute when the home directory is.
proof fn lemma_origin_candidates_absolute(
    search_path: Option<Seq<char>>,
    home: Option<Seq<char>>,
    home_subdirs: Seq<Seq<char>>,
    platform: Platform,
)
    requires
        match home {
            Some(h) => is_absolute(h),
            None => true,
        },
    ensures
        forall|o: (Seq<char>, bool)| #[trigger] origin_candidates(search_path, home, home_subdirs, platform).contains(o) ==> is_absolute(o.0),
{
    reveal_strlit("/bin");
    reveal_strlit("/sbin");
    reveal_strlit("/usr/bin");
    reveal_strlit("/usr/sbin");
    reveal_strlit("/usr/local/bin");
    reveal_strlit("/usr/local/sbin");
    reveal_strlit("/opt/homebrew/bin");
    let cand = origin_candidates(search_path, home, home_subdirs, platform);
    let from_path = match search_path {
        Some(sp) => split_colon_spec(sp).filter(|p: Seq<char>| is_absolute(p)).map_values(
            |p: Seq<char>| (p, false),
        ),
        None => Seq::empty(),
    };
    let from_home = match home {
        Some(h) => seq![(h, false)] + home_subdirs.map_values(|n: Seq<char>| (join_spec(h, n), true)),
        None => Seq::empty(),
    };
    let fixed = system_dirs().map_values(|d: Seq<char>| (d, false));
    assert forall|o: (Seq<char>, bool)| #[trigger] cand.contains(o) implies is_absolute(o.0) by {
        let k = choose|k: int| 0 <= k < cand.len() && cand[k] == o;
        if k < from_path.len() {
            let sp = search_path.unwrap();
            let f = split_colon_spec(sp).filter(|p: Seq<char>| is_absolute(p));
            assert(f.contains(f[k]));
        } else if k < from_path.len() + from_home.len() {
            let h = home.unwrap();
            let j = k - from_path.len();
            if j > 0 {
                lemma_join_absolute(h, home_subdirs[j - 1]);
            }
        } else if k < from_path.len() + from_home.len() + fixed.len() {
            let j = k - from_path.len() - from_home.len();
            assert(system_dirs()[j][0] == '/');
        }
    }
}

/// Whatever the environment holds, the six system directories are origins,
/// each searched without recursion.
pub proof fn lemma_origins_hold_system_dirs(
    search_path: Option<Seq<char>>,
    home: Option<Seq<char>>,
    home_subdirs: Seq<Seq<char>>,
    platform: Platform,
)
    ensures
        forall|i: int| 0 <= i < system_dirs().len() ==> #[trigger] origin_candidates(search_path, home, home_subdirs, platform).contains((system_dirs()[i], false)),
{
    let cand = origin_candidates(search_path, home, home_subdirs, platform);
    let from_path = match search_path {
        Some(sp) => split_colon_spec(sp).filter(|p: Seq<char>| is_absolute(p)).map_values(
            |p: Seq<char>| (p, false),
        ),
        None => Seq::empty(),
    };
    let from_home = match home {
        Some(h) => seq![(h, false)] + home_subdirs.map_values(|n: Seq<char>| (join_spec(h, n), true)),
        None => Seq::empty(),
    };
    let off = from_path.len() + from_home.len();
    assert forall|i: int| 0 <= i < system_dirs().len() implies cand.contains((system_dirs()[i], false)) by {
        assert(cand[off + i] == (system_dirs()[i], false));
    }
}


//------------------------------------------------------------------------------
// Classifier

pub open spec fn is_digit(c: char) -> bool {
    '0' <= c && c <= '9'
}

/// A version suffix: a digit, then digits and dots.
pub open spec fn is_version_text(s: Seq<char>) -> bool {
    s.len() > 0 && is_digit(s[0]) && forall|i: int| 0 <= i < s.len() ==> is_digit(#[trigger] s[i])
        || s[i] == '.'
}

/// An interpreter's file name: `python`, optionally followed by a version.
pub open spec fn is_python_name_spec(name: Seq<char>) -> bool {
    name.len() >= 6 && name.take(6) == "python"@ && (name.len() == 6 || is_version_text(
        name.skip(6),
    ))
}

/// A path qualifies as an interpreter executable when it is marked executable
/// and its file name is an interpreter's.
pub open spec fn qualifies(path: Seq<char>, executable: bool) -> bool {
    executable && is_python_name_spec(file_name_spec(path))
}

/// Whether `name` is an interpreter's file name.
pub fn is_python_name(name: &str) -> (r: bool)
    ensures
        r == is_python_name_spec(name@),
{
    proof { reveal_strlit("python"); }
    let n = name.unicode_len();
    if n < 6 {
        return false;
    }
    let prefix = String::from_str(name.substring_char(0, 6));
    if prefix != String::from_str("python") {
        return false;
    }
    assert(name@.take(6) =~= "python"@);
    if n == 6 {
        return true;
    }
    if !is_digit_char(name.get_char(6)) {
        assert(name@.skip(6)[0] == name@[6]);
        return false;
    }
    let mut i: usize = 6;
    while i < n
        invariant
            n == name@.len(),
            6 <= i <= n,
            forall|j: int| 6 <= j < i ==> is_digit(#[trigger] name@[j]) || name@[j] == '.',
        decreases n - i,
    {
        let c = name.get_char(i);
        if !(is_digit_char(c) || c == '.') {
            assert(name@.skip(6)[i - 6] == c);
            return false;
        }
        i = i + 1;
    }
    assert forall|j: int| 0 <= j < name@.skip(6).len() implies is_digit(#[trigger] name@.skip(6)[j])
        || name@.skip(6)[j] == '.' by {
        assert(name@.skip(6)[j] == name@[j + 6]);
    }
    true
}

fn is_digit_char(c: char) -> (r: bool)
    ensures
        r == is_digit(c),
{
    '0' <= c && c <= '9'
}

/// Whether the entry at `path`, marked executable or not, qualifies as an
/// interpreter executable.
pub fn is_python_exe(path: &str, executable: bool) -> (r: bool)
    ensures
        r == qualifies(path@, executable),
{
    if !executable {
        return false;
    }
    let name = file_name(path);
    is_python_name(name.as_str())
}

//------------------------------------------------------------------------------
// One visit of a directory

/// A direct entry of a directory, as the host reported it: its name within
/// the directory, and what kind of file it is.
pub struct Entry {
    pub name: String,
    pub is_dir: bool,
    pub is_symlink: bool,
    pub is_executable: bool,
}

/// What the host showed of a directory about to be visited.
pub enum Probe {
    /// Not a directory on disk.
    Missing,
    /// A virtual environment root: it holds the marker file. Whether its
    /// interpreter exists and is marked executable.
    Venv { exe_executable: bool },
    /// The direct entries of an ordinary directory.
    Listing { entries: Vec<Entry> },
    /// A directory whose entries could not be read.
    Unreadable,
}

/// The path of the marker file of a virtual environment rooted at `dir`.
pub open spec fn venv_marker_spec(dir: Seq<char>) -> Seq<char> {
    join_spec(dir, "pyvenv.cfg"@)
}

/// The interpreter of a virtual environment rooted at `dir`.
pub open spec fn venv_exe_spec(dir: Seq<char>) -> Seq<char> {
    join_spec(dir, "bin/python3"@)
}

pub fn venv_marker(dir: &str) -> (r: String)
    ensures
        r@ == venv_marker_spec(dir@),
{
    join(dir, "pyvenv.cfg")
}

pub fn venv_exe(dir: &str) -> (r: String)
    ensures
        r@ == venv_exe_spec(dir@),
{
    join(dir, "bin/python3")
}

/// What the host reads of a directory once it knows whether the directory
/// holds the virtual environment marker.
pub enum DirRead {
    /// Only the environment's interpreter, at this path.
    Interpreter { path: String },
    /// The directory's entries.
    Entries,
}

/// A directory that holds the marker is read no further than its
/// interpreter; any other directory is listed.
pub fn read_after_marker(dir: &str, has_marker: bool) -> (r: DirRead)
    ensures
        match r {
            DirRead::Interpreter { path } => has_marker && path@ == venv_exe_spec(dir@),
            DirRead::Entries => !has_marker,
        },
{
    if has_marker {
        DirRead::Interpreter { path: venv_exe(dir) }
    } else {
        DirRead::Entries
    }
}

/// Whether a visit descends into this entry rather than classifying it: only
/// real directories, never symlinks, and only when recursing.
pub open spec fn descends(e: Entry, recurse: bool) -> bool {
    recurse && e.is_dir && !e.is_symlink
}

/// The qualifying entries of a listing of `dir`, in order.
pub open spec fn listing_found(dir: Seq<char>, es: Seq<Entry>, recurse: bool) -> Seq<Seq<char>>
    decreases es.len(),
{
    if es.len() == 0 {
        Seq::empty()
    } else {
        let prev = listing_found(dir, es.drop_last(), recurse);
        let e = es.last();
        if !descends(e, recurse) && qualifies(join_spec(dir, e.name@), e.is_executable) {
            prev.push(join_spec(dir, e.name@))
        } else {
            prev
        }
    }
}

/// The subdirectories of a listing of `dir` that a visit descends into, in
/// order.
pub open spec fn listing_descend(dir: Seq<char>, es: Seq<Entry>, recurse: bool) -> Seq<Seq<char>>
    decreases es.len(),
{
    if es.len() == 0 {
        Seq::empty()
    } else {
        let prev = listing_descend(dir, es.drop_last(), recurse);
        let e = es.last();
        if descends(e, recurse) {
            prev.push(join_spec(dir, e.name@))
        } else {
            prev
        }
    }
}

/// The executables that a visit of `dir` yields.
pub open spec fn visit_found(dir: Seq<char>, recurse: bool, probe: Probe) -> Seq<Seq<char>> {
    match probe {
        Probe::Venv { exe_executable } => if qualifies(venv_exe_spec(dir), exe_executable) {
            seq![venv_exe_spec(dir)]
        } else {
            Seq::empty()
        },
        Probe::Listing { entries } => listing_found(dir, entries@, recurse),
        _ => Seq::empty(),
    }
}

/// The subdirectories that a visit of `dir` descends into.
pub open spec fn visit_descend(dir: Seq<char>, recurse: bool, probe: Probe) -> Seq<Seq<char>> {
    match probe {
        Probe::Listing { entries } => listing_descend(dir, entries@, recurse),
        _ => Seq::empty(),
    }
}

/// Every path bears an interpreter's file name.
pub open spec fn all_interpreter_names(paths: Seq<Seq<char>>) -> bool {
    forall|i: int| 0 <= i < paths.len() ==> is_python_name_spec(file_name_spec(#[trigger] paths[i]))
}

/// Every path is absolute.
pub open spec fn all_absolute(paths: Seq<Seq<char>>) -> bool {
    forall|i: int| 0 <= i < paths.len() ==> is_absolute(#[trigger] paths[i])
}

/// Whether the vector holds the text `s`.
pub fn contains_text(v: &Vec<String>, s: &String) -> (r: bool)
    ensures
        r == texts(v@).contains(s@),
{
    let mut i: usize = 0;
    while i < v.len()
        invariant
            0 <= i <= v@.len(),
            forall|k: int| 0 <= k < i ==> v@[k]@ != s@,
        decreases v@.len() - i,
    {
        if v[i] == *s {
            assert(texts(v@)[i as int] == s@);
            return true;
        }
        i = i + 1;
    }
    proof {
        if texts(v@).contains(s@) {
            let k = choose|k: int| 0 <= k < texts(v@).len() && texts(v@)[k] == s@;
            assert(v@[k]@ == s@);
        }
    }
    false
}

/// Whether `dir` is one of the excluded directories.
pub open spec fn is_excluded_spec(exclusions: Seq<String>, dir: Seq<char>) -> bool {
    texts(exclusions).contains(dir)
}

pub fn is_excluded(exclusions: &Vec<String>, dir: &String) -> (r: bool)
    ensures
        r == is_excluded_spec(exclusions@, dir@),
{
    contains_text(exclusions, dir)
}

/// The subdirectories of `dirs` that are not excluded, in order.
pub open spec fn not_excluded(dirs: Seq<Seq<char>>, exclusions: Seq<String>) -> Seq<Seq<char>> {
    dirs.filter(|d: Seq<char>| !is_excluded_spec(exclusions, d))
}

/// The search of one origin, run as a work list: the caller takes the next
/// directory, reads it on the host, and records what it saw.
pub struct Traversal {
    pub exclusions: Vec<String>,
    pub recurse: bool,
    pub pending: Vec<String>,
    pub found: Vec<String>,
}

impl Traversal {
    /// Every directory waiting to be visited is absolute and not excluded,
    /// and every path found is absolute and bears an interpreter's file name.
    pub open spec fn wf(&self) -> bool {
        &&& forall|i: int| 0 <= i < self.pending@.len() ==> !is_excluded_spec(self.exclusions@, #[trigger] self.pending@[i]@)
        &&& all_absolute(texts(self.pending@))
        &&& all_absolute(texts(self.found@))
        &&& all_interpreter_names(texts(self.found@))
    }

    /// Starts the search of `origin`; an excluded origin leaves nothing to
    /// visit and nothing found.
    pub fn new(origin: Origin, exclusions: Vec<String>) -> (t: Self)
        requires
            is_absolute(origin.path@),
        ensures
            t.wf(),
            t.exclusions@ == exclusions@,
            t.recurse == origin.recurse,
            t.found@.len() == 0,
            texts(t.pending@) == if is_excluded_spec(exclusions@, origin.path@) {
                Seq::<Seq<char>>::empty()
            } else {
                seq![origin.path@]
            },
    {
        let mut pending: Vec<String> = Vec::new();
        let excluded = is_excluded(&exclusions, &origin.path);
        let ghost p = origin.path@;
        if !excluded {
            pending.push(origin.path);
        }
        let t = Traversal { exclusions, recurse: origin.recurse, pending, found: Vec::new() };
        assert(texts(t.pending@) =~= if is_excluded_spec(exclusions@, p) {
            Seq::<Seq<char>>::empty()
        } else {
            seq![p]
        });
        t
    }

    /// Takes the directory to visit next, if any is left.
    pub fn next_dir(&mut self) -> (r: Option<String>)
        requires
            old(self).wf(),
        ensures
            final(self).wf(),
            final(self).exclusions@ == old(self).exclusions@,
            final(self).recurse == old(self).recurse,
            final(self).found@ == old(self).found@,
            match r {
                Some(d) => old(self).pending@.len() > 0 && texts(old(self).pending@) == texts(
                    final(self).pending@,
                ).push(d@) && !is_excluded_spec(old(self).exclusions@, d@) && is_absolute(d@),
                None => old(self).pending@.len() == 0 && final(self).pending@.len() == 0,
            },
    {
        let r = self.pending.pop();
        proof {
            if r.is_some() {
                assert(texts(old(self).pending@) =~= texts(self.pending@).push(r.unwrap()@));
                assert(old(self).pending@[old(self).pending@.len() - 1] == r.unwrap());
                assert(texts(old(self).pending@)[old(self).pending@.len() - 1] == r.unwrap()@);
            }
            assert forall|i: int| 0 <= i < texts(self.pending@).len() implies is_absolute(#[trigger] texts(self.pending@)[i]) by {
                assert(texts(self.pending@)[i] == texts(old(self).pending@)[i]);
            }
        }
        r
    }

    /// Records a visit of `dir`, an absolute directory outside the
    /// exclusions: adds what it found, and queues the subdirectories it
    /// descends into that are not excluded.
    pub fn record(&mut self, dir: &str, probe: &Probe)
        requires
            old(self).wf(),
            is_absolute(dir@),
            !is_excluded_spec(old(self).exclusions@, dir@),
        ensures
            final(self).wf(),
            final(self).exclusions@ == old(self).exclusions@,
            final(self).recurse == old(self).recurse,
            texts(final(self).found@) == texts(old(self).found@) + visit_found(dir@, old(self).recurse, *probe),
            texts(final(self).pending@) == texts(old(self).pending@) + not_excluded(
                visit_descend(dir@, old(self).recurse, *probe),
                old(self).exclusions@,
            ),
    {
        let ghost f0 = texts(self.found@);
        let ghost p0 = texts(self.pending@);
        match probe {
            Probe::Venv { exe_executable } => {
                let exe = venv_exe(dir);
                proof {
                    lemma_join_absolute(dir@, "bin/python3"@);
                }
                if is_python_exe(exe.as_str(), *exe_executable) {
                    self.found.push(exe);
                    assert(texts(self.found@) =~= f0.push(exe@));
                }
                assert(texts(self.found@) =~= f0 + visit_found(dir@, self.recurse, *probe));
                assert(texts(self.pending@) =~= p0 + not_excluded(
                    visit_descend(dir@, self.recurse, *probe),
                    self.exclusions@,
                ));
            },
            Probe::Listing { entries } => {
                let mut i: usize = 0;
                while i < entries.len()
                    invariant
                        self.wf(),
                        is_absolute(dir@),
                        self.exclusions@ == old(self).exclusions@,
                        self.recurse == old(self).recurse,
                        0 <= i <= entries@.len(),
                        texts(self.found@) == f0 + listing_found(dir@, entries@.take(i as int), self.recurse),
                        texts(self.pending@) == p0 + not_excluded(
                            listing_descend(dir@, entries@.take(i as int), self.recurse),
                            self.exclusions@,
                        ),
                    decreases entries@.len() - i,
                {
                    let e = &entries[i];
                    let ghost es = entries@.take(i + 1);
                    assert(es.drop_last() =~= entries@.take(i as int));
                    assert(es.last() == *e);
                    let ghost d0 = listing_descend(dir@, entries@.take(i as int), self.recurse);
                    let ghost q0 = listing_found(dir@, entries@.take(i as int), self.recurse);
                    let path = join(dir, e.name.as_str());
                    proof {
                        lemma_join_absolute(dir@, e.name@);
                    }
                    assert(listing_descend(dir@, es, self.recurse) == if descends(*e, self.recurse) {
                        d0.push(path@)
                    } else {
                        d0
                    });
                    assert(listing_found(dir@, es, self.recurse) == if !descends(*e, self.recurse)
                        && qualifies(path@, e.is_executable) {
                        q0.push(path@)
                    } else {
                        q0
                    });
                    if self.recurse && e.is_dir && !e.is_symlink {
                        let ghost pend = texts(self.pending@);
                        let excluded = is_excluded(&self.exclusions, &path);
                        if !excluded {
                            self.pending.push(path);
                            assert(texts(self.pending@) =~= pend.push(path@));
                        }
                        proof {
                            d0.lemma_filter_push(path@, |d: Seq<char>| !is_excluded_spec(self.exclusions@, d));
                            assert(texts(self.pending@) =~= p0 + not_excluded(listing_descend(dir@, es, self.recurse), self.exclusions@));
                        }
                    } else {
                        let ghost fb = texts(self.found@);
                        if is_python_exe(path.as_str(), e.is_executable) {
                            self.found.push(path);
                            assert(texts(self.found@) =~= fb.push(path@));
                        }
                        assert(texts(self.found@) =~= f0 + listing_found(dir@, es, self.recurse));
                    }
                    i = i + 1;
                }
                assert(entries@.take(entries@.len() as int) =~= entries@);
            },
            _ => {
                assert(texts(self.found@) =~= f0 + visit_found(dir@, self.recurse, *probe));
                assert(texts(self.pending@) =~= p0 + not_excluded(
                    visit_descend(dir@, self.recurse, *probe),
                    self.exclusions@,
                ));
            },
        }
    }
}

/// A virtual environment root with an executable interpreter yields that
/// interpreter alone, and a visit of it descends nowhere, whatever else the
/// directory holds.
pub proof fn lemma_venv_yields_its_interpreter(dir: Seq<char>, recurse: bool)
    ensures
        visit_found(dir, recurse, Probe::Venv { exe_executable: true }) == seq![join_spec(dir, "bin/python3"@)],
        visit_descend(dir, recurse, Probe::Venv { exe_executable: true }).len() == 0,
{
    reveal_strlit("bin/python3");
    reveal_strlit("python");
    let exe = venv_exe_spec(dir);
    let p = crate::paths::join_prefix(dir);
    assert(exe == p + "bin/"@ + "python3"@) by {
        reveal_strlit("bin/");
        reveal_strlit("python3");
        assert(exe =~= p + "bin/"@ + "python3"@);
    }
    reveal_strlit("bin/");
    reveal_strlit("python3");
    crate::paths::lemma_file_name_after_separator(p + "bin"@, "python3"@);
    reveal_strlit("bin");
    assert(p + "bin/"@ + "python3"@ =~= (p + "bin"@).push('/') + "python3"@);
    let name = file_name_spec(exe);
    assert(name == "python3"@);
    assert(name.take(6) =~= "python"@);
    assert(name.skip(6) =~= seq!['3']);
}

/// A visit never descends into a symlink or into anything but a directory,
/// and descends nowhere without recursion.
pub proof fn lemma_descends_only_into_real_dirs(dir: Seq<char>, es: Seq<Entry>, recurse: bool)
    ensures
        forall|d: Seq<char>| #[trigger] listing_descend(dir, es, recurse).contains(d) ==> exists|i: int|
            0 <= i < es.len() && join_spec(dir, es[i].name@) == d && es[i].is_dir && !es[i].is_symlink,
        !recurse ==> listing_descend(dir, es, recurse).len() == 0,
    decreases es.len(),
{
    if es.len() > 0 {
        lemma_descends_only_into_real_dirs(dir, es.drop_last(), recurse);
        let prev = listing_descend(dir, es.drop_last(), recurse);
        assert forall|d: Seq<char>| #[trigger] listing_descend(dir, es, recurse).contains(d) implies exists|i: int|
            0 <= i < es.len() && join_spec(dir, es[i].name@) == d && es[i].is_dir && !es[i].is_symlink by {
            if prev.contains(d) {
                let i = choose|i: int|
                    0 <= i < es.drop_last().len() && join_spec(dir, es.drop_last()[i].name@) == d
                        && es.drop_last()[i].is_dir && !es.drop_last()[i].is_symlink;
                assert(es[i] == es.drop_last()[i]);
            } else {
                lemma_contains_push(prev, join_spec(dir, es.last().name@), d);
                assert(es[es.len() - 1] == es.last());
            }
        }
    }
}

//------------------------------------------------------------------------------
// Merge

fn add_path(v: &mut Vec<String>, path: String)
    requires
        texts(old(v)@).no_duplicates(),
    ensures
        texts(final(v)@).no_duplicates(),
        forall|p: Seq<char>| texts(final(v)@).contains(p) <==> (texts(old(v)@).contains(p) || p == path@),
{
    if !contains_text(v, &path) {
        let ghost before = texts(v@);
        let ghost item = path@;
        v.push(path);
        assert(texts(v@) =~= before.push(item));
        assert forall|p: Seq<char>| texts(v@).contains(p) <==> (before.contains(p) || p == item) by {
            lemma_contains_push(before, item, p);
        }
    }
}

/// Whether `p` was found by one of the per-origin searches.
pub open spec fn found_in(lists: Seq<Vec<String>>, p: Seq<char>) -> bool {
    exists|i: int| 0 <= i < lists.len() && texts(#[trigger] lists[i]@).contains(p)
}

/// Whether `p` is the resolved default interpreter.
pub open spec fn is_default(default: Option<String>, p: Seq<char>) -> bool {
    match default {
        Some(d) => d@ == p,
        None => false,
    }
}

/// Merges the per-origin results into one list that holds each path once,
/// with the default interpreter, if one was resolved. Only absolute paths
/// are kept.
pub fn merge_found(lists: &Vec<Vec<String>>, default: Option<String>) -> (r: Vec<String>)
    ensures
        texts(r@).no_duplicates(),
        all_absolute(texts(r@)),
        forall|p: Seq<char>| #[trigger] texts(r@).contains(p) <==> is_absolute(p) && (found_in(lists@, p) || is_default(default, p)),
        (forall|i: int| 0 <= i < lists@.len() ==> all_interpreter_names(texts(#[trigger] lists@[i]@))) ==> forall|p: Seq<char>|
            #[trigger] texts(r@).contains(p) ==> is_python_name_spec(file_name_spec(p)) || is_default(default, p),
{
    let mut r: Vec<String> = Vec::new();
    let mut i: usize = 0;
    while i < lists.len()
        invariant
            0 <= i <= lists@.len(),
            texts(r@).no_duplicates(),
            forall|p: Seq<char>| #[trigger] texts(r@).contains(p) <==> is_absolute(p) && found_in(lists@.take(i as int), p),
        decreases lists@.len() - i,
    {
        let list = &lists[i];
        let mut j: usize = 0;
        assert(texts(list@.take(0)) =~= Seq::<Seq<char>>::empty());
        while j < list.len()
            invariant
                0 <= i < lists@.len(),
                *list == lists@[i as int],
                0 <= j <= list@.len(),
                texts(r@).no_duplicates(),
                forall|p: Seq<char>| #[trigger] texts(r@).contains(p) <==> is_absolute(p) && (found_in(lists@.take(i as int), p) || texts(list@.take(j as int)).contains(p)),
            decreases list@.len() - j,
        {
            let ghost before = texts(r@);
            let ghost x = list@[j as int]@;
            let abs = is_absolute_path(list[j].as_str());
            if abs {
                add_path(&mut r, list[j].clone());
            }
            proof {
                assert(texts(list@.take(j + 1)) =~= texts(list@.take(j as int)).push(x));
                assert forall|p: Seq<char>| #[trigger] texts(r@).contains(p) <==> is_absolute(p) && (found_in(lists@.take(i as int), p) || texts(list@.take(j + 1)).contains(p)) by {
                    lemma_contains_push(texts(list@.take(j as int)), x, p);
                    assert(before.contains(p) <==> is_absolute(p) && (found_in(lists@.take(i as int), p) || texts(list@.take(j as int)).contains(p)));
                    if !abs {
                        assert(texts(r@) == before);
                    }
                }
            }
            j = j + 1;
        }
        proof {
            assert(list@.take(list@.len() as int) =~= list@);
            assert(texts(list@.take(list@.len() as int)) == texts(list@));
            let next = lists@.take(i + 1);
            assert forall|p: Seq<char>| #[trigger] texts(r@).contains(p) <==> is_absolute(p) && found_in(next, p) by {
                if found_in(next, p) {
                    let k = choose|k: int| 0 <= k < next.len() && texts(#[trigger] next[k]@).contains(p);
                    if k < i {
                        assert(lists@.take(i as int)[k] == next[k]);
                    }
                }
                if found_in(lists@.take(i as int), p) {
                    let k = choose|k: int| 0 <= k < i && texts(#[trigger] lists@.take(i as int)[k]@).contains(p);
                    assert(lists@.take(i as int)[k] == next[k]);
                }
                if texts(list@).contains(p) {
                    assert(next[i as int] == *list);
                }
            }
        }
        i = i + 1;
    }
    assert(lists@.take(lists@.len() as int) =~= lists@);
    if let Some(d) = default {
        if is_absolute_path(d.as_str()) {
            add_path(&mut r, d);
        }
    }
    proof {
        assert forall|k: int| 0 <= k < texts(r@).len() implies is_absolute(#[trigger] texts(r@)[k]) by {
            assert(texts(r@).contains(texts(r@)[k]));
        }
        if forall|i: int| 0 <= i < lists@.len() ==> all_interpreter_names(texts(#[trigger] lists@[i]@)) {
            assert forall|p: Seq<char>| #[trigger] texts(r@).contains(p) implies is_python_name_spec(file_name_spec(p))
                || is_default(default, p) by {
                if found_in(lists@, p) {
                    let k = choose|k: int| 0 <= k < lists@.len() && texts(#[trigger] lists@[k]@).contains(p);
                    let j = choose|j: int| 0 <= j < texts(lists@[k]@).len() && texts(lists@[k]@)[j] == p;
                    assert(all_interpreter_names(texts(lists@[k]@)));
                }
            }
        }
    }
    r
}

} // verus!
