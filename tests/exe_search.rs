use fetter::exe_search::get_search_exclude_paths;
use fetter::exe_search::get_search_origins;
use fetter::exe_search::is_python_exe;
use fetter::exe_search::is_python_name;
use fetter::exe_search::merge_found;
use fetter::exe_search::read_after_marker;
use fetter::exe_search::DirRead;
use fetter::exe_search::venv_exe;
use fetter::exe_search::venv_marker;
use fetter::exe_search::Entry;
use fetter::exe_search::Origin;
use fetter::exe_search::Platform;
use fetter::exe_search::Probe;
use fetter::exe_search::Traversal;
use fetter::paths::file_name;
use fetter::paths::is_absolute_path;
use fetter::paths::join;
use fetter::paths::split_search_path;

fn entry(name: &str, is_dir: bool, is_symlink: bool, is_executable: bool) -> Entry {
    Entry { name: name.to_string(), is_dir, is_symlink, is_executable }
}

#[test]
fn test_get_search_exclude_paths_a() {
    let post = get_search_exclude_paths(Some("/home/u"), Platform::Linux);
    assert_eq!(post.len() > 2, true);
    assert_eq!(post, vec!["/home/u/.cache", "/home/u/.npm", "/home/u/.local/share/Trash"]);
}

#[test]
fn exclusions_on_macos_and_without_home() {
    let post = get_search_exclude_paths(Some("/Users/u/"), Platform::MacOs);
    assert_eq!(
        post,
        vec![
            "/Users/u/.cache",
            "/Users/u/.npm",
            "/Users/u/Library",
            "/Users/u/Photos",
            "/Users/u/Downloads",
            "/Users/u/.Trash"
        ]
    );
    assert!(get_search_exclude_paths(None, Platform::Linux).is_empty());
    assert_eq!(get_search_exclude_paths(Some("/h"), Platform::Other).len(), 2);
}

#[test]
fn test_get_search_origins_a() {
    let subdirs = vec!["proj".to_string()];
    let post = get_search_origins(Some("/usr/bin:/opt/x/bin"), Some("/home/u"), &subdirs, Platform::Linux);
    assert_eq!(post.len() > 6, true);
    let views: Vec<(String, bool)> = post.iter().map(|o| (o.path.clone(), o.recurse)).collect();
    assert!(views.contains(&("/opt/x/bin".to_string(), false)));
    assert!(views.contains(&("/home/u".to_string(), false)));
    assert!(views.contains(&("/home/u/proj".to_string(), true)));
    // "/usr/bin" is both on the search path and a system directory: held once
    assert_eq!(views.iter().filter(|v| v.0 == "/usr/bin").count(), 1);
    assert_eq!(views.len(), 9);
}

#[test]
fn origins_without_environment_hold_system_dirs() {
    let post = get_search_origins(None, None, &vec!["ignored".to_string()], Platform::MacOs);
    let paths: Vec<String> = post.iter().map(|o| o.path.clone()).collect();
    for d in ["/bin", "/sbin", "/usr/bin", "/usr/sbin", "/usr/local/bin", "/usr/local/sbin", "/opt/homebrew/bin"] {
        assert!(paths.contains(&d.to_string()));
    }
    assert_eq!(paths.len(), 7);
    assert!(post.iter().all(|o| !o.recurse));
}

#[test]
fn test_is_exe_a() {
    assert_eq!(is_python_exe("/tmp/d/test.sh", true), false);
}

#[test]
fn test_is_exe_b() {
    assert_eq!(is_python_exe("/tmp/d/python", true), true);
}

#[test]
fn test_is_exe_c() {
    assert_eq!(is_python_exe("/tmp/d/python10.100", true), true);
}

#[test]
fn classifier_edges() {
    assert!(!is_python_exe("/tmp/d/python", false));
    assert!(!is_python_name("python3-config"));
    assert!(!is_python_name("pytho"));
    assert!(!is_python_name("python."));
    assert!(is_python_name("python3.12"));
    assert!(!is_python_name("ipython"));
}

#[test]
fn test_scan_executable_inner_a() {
    let dir = "/tmp/env";
    assert_eq!(venv_marker(dir), "/tmp/env/pyvenv.cfg");
    let mut t = Traversal::new(Origin { path: dir.to_string(), recurse: true }, Vec::new());
    let d = t.next_dir().unwrap();
    assert_eq!(d, dir);
    t.record(&d, &Probe::Venv { exe_executable: true });
    assert!(t.next_dir().is_none());
    assert_eq!(t.found.len(), 1);
    assert!(t.found[0].ends_with("bin/python3"));
    assert_eq!(t.found[0], venv_exe(dir));
}

#[test]
fn excluded_origin_yields_nothing() {
    let excl = vec!["/home/u/.cache".to_string()];
    let mut t = Traversal::new(Origin { path: "/home/u/.cache".to_string(), recurse: true }, excl);
    assert!(t.next_dir().is_none());
    assert!(t.found.is_empty());
}

#[test]
fn symlinked_dirs_are_not_descended() {
    let excl = vec!["/r/skip".to_string()];
    let mut t = Traversal::new(Origin { path: "/r".to_string(), recurse: true }, excl);
    let d = t.next_dir().unwrap();
    let listing = Probe::Listing {
        entries: vec![
            entry("loop", true, true, false),
            entry("sub", true, false, false),
            entry("skip", true, false, false),
            entry("python3", false, false, true),
            entry("python", false, true, true),
            entry("notes.txt", false, false, true),
        ],
    };
    t.record(&d, &listing);
    assert_eq!(t.found, vec!["/r/python3", "/r/python"]);
    assert_eq!(t.pending, vec!["/r/sub"]);
}

#[test]
fn flat_origin_classifies_directories_too() {
    let mut t = Traversal::new(Origin { path: "/b".to_string(), recurse: false }, Vec::new());
    let d = t.next_dir().unwrap();
    t.record(&d, &Probe::Listing { entries: vec![entry("python3.11", false, false, true), entry("sub", true, false, true)] });
    assert_eq!(t.found, vec!["/b/python3.11"]);
    assert!(t.pending.is_empty());
    t.record("/b", &Probe::Unreadable);
    t.record("/b", &Probe::Missing);
    assert_eq!(t.found.len(), 1);
}

#[test]
fn merge_removes_repeats_and_adds_default() {
    let lists = vec![
        vec!["/a/python3".to_string(), "/b/python".to_string()],
        vec!["/a/python3".to_string()],
    ];
    let merged = merge_found(&lists, Some("/usr/bin/python3".to_string()));
    assert_eq!(merged, vec!["/a/python3", "/b/python", "/usr/bin/python3"]);
    let merged = merge_found(&lists, Some("/b/python".to_string()));
    assert_eq!(merged.len(), 2);
    assert!(merge_found(&Vec::new(), None).is_empty());
}

#[test]
fn path_text() {
    assert_eq!(join("/a", "b"), "/a/b");
    assert_eq!(join("/a/", "b"), "/a/b");
    assert_eq!(join("", "b"), "b");
    assert_eq!(file_name("/x/y/python3"), "python3");
    assert_eq!(file_name("python"), "python");
    assert_eq!(split_search_path("/a::/b"), vec!["/a", "", "/b"]);
    assert_eq!(split_search_path(""), vec![""]);
}

#[test]
fn relative_search_path_entries_are_no_origins() {
    let post = get_search_origins(Some("bin:.::/opt/py/bin"), Some("/home/u"), &Vec::new(), Platform::Linux);
    assert!(post.iter().all(|o| o.path.starts_with('/')));
    assert!(post.iter().any(|o| o.path == "/opt/py/bin" && !o.recurse));
    assert_eq!(post.len(), 8);
}

#[test]
fn merge_keeps_only_absolute_paths() {
    let lists = vec![vec!["bin/python3".to_string(), "/x/python".to_string()]];
    assert_eq!(merge_found(&lists, Some("python3".to_string())), vec!["/x/python"]);
    assert!(is_absolute_path("/a"));
    assert!(!is_absolute_path("a/b"));
    assert!(!is_absolute_path(""));
}

#[test]
fn marker_decides_what_is_read() {
    match read_after_marker("/v", true) {
        DirRead::Interpreter { path } => assert_eq!(path, "/v/bin/python3"),
        DirRead::Entries => panic!("a marked directory is not listed"),
    }
    assert!(matches!(read_after_marker("/v", false), DirRead::Entries));
}
