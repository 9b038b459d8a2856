use mcp_guard::fs::edit::{apply_edits, get_diffs, plan_edit, Edit};
use mcp_guard::fs::info::format_permissions;
use mcp_guard::fs::path::{ancestors, file_name, join, parent, starts_with};
use mcp_guard::fs::read::{check_file_metadata, check_read_contents, collect_successes, read_limit, ReadError, MAX_FILE_SIZE};
use mcp_guard::fs::sandbox::{RootProbe, Sandbox, SandboxError};
use mcp_guard::fs::search::{build_patterns, format_listing, DirEntryInfo, PatternError, WalkEntry};
use mcp_guard::fs::write::{destination_parts, plan_create_directory, DirectoryPlan, PathError};
use std::path::Path;

fn probe(root: &str, canonical: Option<&str>, is_dir: Option<bool>) -> RootProbe {
    RootProbe { root: root.to_string(), canonical: canonical.map(|s| s.to_string()), is_dir }
}

fn sandbox(roots: &[&str]) -> Sandbox {
    let probes = roots.iter().map(|r| probe(r, Some(r), Some(true))).collect();
    match Sandbox::new(probes) {
        Ok(s) => s,
        Err(_) => panic!("sandbox"),
    }
}

#[test]
fn path_functions_agree_with_std() {
    let cases = [
        "/a/b/c", "/a/b/", "a/b", "a", "", "/", "./a", ".", "a/./b", "a//b", "a/../b", "/..", "..",
        "../x", "a/b/.", "./", "//a//b//", "a//b/c", "a/./c", "a/b//", ".//a", "/a/./", "a/..",
    ];
    for c in cases {
        let p = Path::new(c);
        assert_eq!(file_name(c), p.file_name().map(|s| s.to_string_lossy().to_string()), "{c}");
        let ours = parent(c);
        let theirs = p.parent();
        assert_eq!(ours.is_some(), theirs.is_some(), "{c}");
        if let (Some(o), Some(t)) = (ours, theirs) {
            assert_eq!(o, t.to_str().unwrap(), "{c}");
        }
        let ours: Vec<String> = ancestors(c);
        let theirs: Vec<&Path> = p.ancestors().collect();
        assert_eq!(ours.len(), theirs.len(), "{c}");
        assert_eq!(ours[0], c);
        for (o, t) in ours.iter().zip(theirs.iter()) {
            assert_eq!(o, t.to_str().unwrap(), "{c}");
        }
    }
    assert_eq!(ancestors("/a/b"), vec!["/a/b", "/a", "/"]);
    assert_eq!(ancestors("a/b"), vec!["a/b", "a", ""]);
    assert_eq!(ancestors("/a//b/./c/"), vec!["/a//b/./c/", "/a//b", "/a", "/"]);
    assert_eq!(parent("a//b/c"), Some("a//b".to_string()));
}

#[test]
fn starts_with_is_by_component() {
    assert!(starts_with("/foo/bar", "/foo"));
    assert!(starts_with("/foo/bar", "/foo/"));
    assert!(!starts_with("/foobar", "/foo"));
    assert!(starts_with("/foo", "/foo"));
    assert!(!starts_with("/foo", "/foo/bar"));
    assert!(starts_with("/x", "/"));
    for (a, b) in [("/a/b", "/a"), ("/ab", "/a"), ("a/b", "a"), ("/a", "a"), ("./a", "a"), ("./a", ".")] {
        assert_eq!(starts_with(a, b), Path::new(a).starts_with(b), "{a} {b}");
    }
}

#[test]
fn join_paths() {
    assert_eq!(join("/a", "b"), "/a/b");
    assert_eq!(join("/", "b"), "/b");
    assert_eq!(join("", "b"), "b");
    assert_eq!(join("/a/", "b"), "/a/b");
}

#[test]
fn sandbox_resolves_only_inside_roots() {
    let s = sandbox(&["/srv/data", "/tmp/work"]);
    assert_eq!(s.get_roots(), vec!["/srv/data".to_string(), "/tmp/work".to_string()]);
    match s.resolve_path("x.txt", Some("/srv/data/x.txt".to_string())) {
        Ok(p) => assert_eq!(p, "/srv/data/x.txt"),
        Err(_) => panic!("inside"),
    }
    match s.resolve_path("../etc/passwd", Some("/srv/etc/passwd".to_string())) {
        Err(e) => assert_eq!(e.message(), "Path '../etc/passwd' is outside sandbox roots"),
        Ok(_) => panic!("outside"),
    }
    match s.resolve_path("/srv/database", Some("/srv/database".to_string())) {
        Err(SandboxError::OutsideRoots(p)) => assert_eq!(p, "/srv/database"),
        _ => panic!("prefix is not containment"),
    }
    match s.resolve_path("nope", None) {
        Err(e) => assert_eq!(e.message(), "Could not canonicalize path 'nope'"),
        Ok(_) => panic!("missing"),
    }
    assert!(s.contains("/tmp/work"));
}

#[test]
fn sandbox_construction_errors() {
    let r = Sandbox::new(vec![probe("a", Some("/a"), Some(true)), probe("b", None, None)]);
    match r {
        Err(e) => assert_eq!(e.message(), "Could use path 'b'. Please check if path is correct"),
        Ok(_) => panic!(),
    }
    let r = Sandbox::new(vec![probe("f", Some("/f"), Some(false)), probe("b", None, None)]);
    match r {
        Err(e) => assert_eq!(e.message(), "Root path 'f' is not a directory"),
        Ok(_) => panic!(),
    }
    let r = Sandbox::new(vec![probe("m", Some("/m"), None)]);
    match r {
        Err(e) => assert_eq!(e.message(), "Could not read metadata for root 'm'"),
        Ok(_) => panic!(),
    }
    assert!(Sandbox::new(vec![]).is_ok());
}

#[test]
fn new_folders_follow_nearest_existing_ancestor() {
    let s = sandbox(&["/srv/data"]);
    assert!(s.check_new_folders(&[None, None, Some("/srv/data/a".to_string())]));
    assert!(!s.check_new_folders(&[None, Some("/etc".to_string()), Some("/srv/data".to_string())]));
    assert!(!s.check_new_folders(&[None, None]));
}

#[test]
fn edits_apply_in_order() {
    let edits = vec![
        Edit { old: "foo".to_string(), new: "bar".to_string() },
        Edit { old: "missing".to_string(), new: "x".to_string() },
        Edit { old: "bar bar".to_string(), new: "baz".to_string() },
    ];
    assert_eq!(apply_edits("foo foo foo".to_string(), edits), "baz bar");
    let e = vec![Edit { old: "".to_string(), new: "-".to_string() }];
    assert_eq!(apply_edits("ab".to_string(), e), "ab".replace("", "-"));
    let e = vec![Edit { old: "aa".to_string(), new: "a".to_string() }];
    assert_eq!(apply_edits("aaaaa".to_string(), e), "aaaaa".replace("aa", "a"));
}

#[test]
fn diffs_render_like_similar() {
    let d = get_diffs("a\nb\n", "a\nc\n");
    assert_eq!(d, vec![" a\n", "-b\n", "+c\n"]);
    let d = get_diffs("x", "y");
    assert_eq!(d, vec!["-x\n", "+y\n"]);
    let (content, result) = plan_edit(
        "one\ntwo\n",
        vec![Edit { old: "two".to_string(), new: "2".to_string() }],
        true,
    );
    assert_eq!(content, "one\n2\n");
    assert_eq!(result.diff, " one\n-two\n+2\n");
    assert!(!result.applied);
    let (_, result) = plan_edit("a", vec![], false);
    assert!(result.applied);
    assert_eq!(result.diff, " a\n");
}

fn read_side(lines: &[String], sign: char) -> String {
    let mut out = String::new();
    for l in lines {
        let mut cs = l.chars();
        if let Some(first) = cs.next() {
            if first == ' ' || first == sign {
                out.push_str(cs.as_str());
            }
        }
    }
    out
}

#[test]
fn diff_lines_give_back_both_texts() {
    let old = "alpha\nbeta\ngamma\r\ndelta\n";
    let new = "alpha\ngamma\r\nepsilon\ndelta\nzeta\n";
    let d = get_diffs(old, new);
    for l in &d {
        assert!(l.starts_with('-') || l.starts_with('+') || l.starts_with(' '));
    }
    assert_eq!(read_side(&d, '-'), old);
    assert_eq!(read_side(&d, '+'), new);
    let d = get_diffs("", "one\ntwo\n");
    assert_eq!(d, vec!["+one\n", "+two\n"]);
    assert_eq!(read_side(&d, '-'), "");
    assert_eq!(read_side(&d, '+'), "one\ntwo\n");
    // Without a final line break the printed diff adds one.
    let d = get_diffs("x\ny", "x\ny");
    assert_eq!(read_side(&d, '-'), "x\ny\n");
}

#[test]
fn listing_is_sorted_with_dir_markers() {
    let l = format_listing(vec![
        DirEntryInfo { name: "b.txt".to_string(), is_dir: false },
        DirEntryInfo { name: "a".to_string(), is_dir: true },
        DirEntryInfo { name: "C".to_string(), is_dir: false },
    ]);
    assert_eq!(l, vec!["C", "a/", "b.txt"]);
}

#[test]
fn search_selects_and_sorts() {
    let p = match build_patterns("*.RS", vec!["*test*".to_string()]) {
        Ok(p) => p,
        Err(_) => panic!("patterns"),
    };
    let entries = vec![
        WalkEntry { is_file: true, file_name: "Main.rs".to_string(), path: "/r/src/Main.rs".to_string(), dirs: vec!["src".to_string()] },
        WalkEntry { is_file: true, file_name: "lib_test.rs".to_string(), path: "/r/lib_test.rs".to_string(), dirs: vec![] },
        WalkEntry { is_file: false, file_name: "dir.rs".to_string(), path: "/r/dir.rs".to_string(), dirs: vec![] },
        WalkEntry { is_file: true, file_name: "a.rs".to_string(), path: "/r/a.rs".to_string(), dirs: vec![] },
        WalkEntry { is_file: true, file_name: "a.txt".to_string(), path: "/r/a.txt".to_string(), dirs: vec![] },
    ];
    assert_eq!(p.select_files(entries), vec!["/r/a.rs", "/r/src/Main.rs"]);
    match build_patterns("[", vec![]) {
        Err(PatternError::InvalidPattern(s)) => assert_eq!(s, "["),
        _ => panic!(),
    }
    match build_patterns("*", vec!["ok".to_string(), "{".to_string()]) {
        Err(PatternError::InvalidExclude(s)) => assert_eq!(s, "{"),
        _ => panic!(),
    }
}

#[test]
fn search_excludes_files_below_excluded_directories() {
    let p = match build_patterns("*.rs", vec!["target".to_string(), "*_test.rs".to_string()]) {
        Ok(p) => p,
        Err(_) => panic!("patterns"),
    };
    let entry = |name: &str, path: &str, dirs: &[&str]| WalkEntry {
        is_file: true,
        file_name: name.to_string(),
        path: path.to_string(),
        dirs: dirs.iter().map(|d| d.to_string()).collect(),
    };
    let entries = vec![
        entry("main.rs", "/r/src/main.rs", &["src"]),
        entry("gen.rs", "/r/target/debug/gen.rs", &["target", "debug"]),
        entry("build.rs", "/r/Target/build.rs", &["Target"]),
        entry("x_test.rs", "/r/src/x_test.rs", &["src"]),
    ];
    assert_eq!(p.select_files(entries), vec!["/r/src/main.rs"]);
    assert!(p.excludes_dir(&vec!["a".to_string(), "TARGET".to_string()]));
    assert!(!p.excludes_dir(&vec!["src".to_string()]));
}

#[test]
fn permissions_in_octal() {
    assert_eq!(format_permissions(0o100644), "644");
    assert_eq!(format_permissions(0o40755), "755");
    assert_eq!(format_permissions(0), "0");
    assert_eq!(format_permissions(0o7), "7");
    assert_eq!(format_permissions(0o1777), "777");
}

#[test]
fn read_checks() {
    assert!(matches!(check_file_metadata(false, 1), Err(ReadError::NotAFile)));
    assert!(matches!(check_file_metadata(true, MAX_FILE_SIZE + 1), Err(ReadError::TooLarge(n)) if n == MAX_FILE_SIZE + 1));
    assert!(check_file_metadata(true, MAX_FILE_SIZE).is_ok());
    assert_eq!(read_limit(), 1024 * 1024 + 1);
    assert!(check_read_contents("x".repeat(1024 * 1024)).is_ok());
    assert!(matches!(check_read_contents("x".repeat(1024 * 1024 + 1)), Err(ReadError::ExceededDuringRead)));
    let kept = collect_successes(vec![Some("a".to_string()), None, Some("c".to_string())]);
    assert_eq!(kept, vec!["a", "c"]);
}

#[test]
fn write_targets_and_directories() {
    match destination_parts("/srv/data/new.txt") {
        Ok((dir, name)) => {
            assert_eq!(dir, "/srv/data");
            assert_eq!(name, "new.txt");
        }
        Err(_) => panic!(),
    }
    assert!(matches!(destination_parts("/srv/.."), Err(PathError::NoFileName)));
    assert!(matches!(destination_parts("/"), Err(PathError::NoFileName)));
    match destination_parts("name") {
        Ok((dir, name)) => {
            assert_eq!(dir, "");
            assert_eq!(name, "name");
        }
        Err(_) => panic!(),
    }
    assert!(matches!(plan_create_directory("/x", false, true), DirectoryPlan::Create));
    match plan_create_directory("/x", true, true) {
        DirectoryPlan::Report(m) => assert_eq!(m, "Path '/x' already exists"),
        _ => panic!(),
    }
    assert!(matches!(plan_create_directory("/x", false, false), DirectoryPlan::Report(_)));
}

#[test]
fn identity_and_absent_edits_change_nothing() {
    let text = "alpha beta alpha".to_string();
    let same = vec![Edit { old: "alpha".to_string(), new: "alpha".to_string() }];
    assert_eq!(apply_edits(text.clone(), same), text);
    let absent = vec![Edit { old: "gamma".to_string(), new: "delta".to_string() }];
    assert_eq!(apply_edits(text.clone(), absent), text);
}

#[test]
fn write_target_stays_below_resolved_parent() {
    let s = sandbox(&["/srv/data"]);
    let (dir, name) = match destination_parts("sub/../file.txt") {
        Ok(parts) => parts,
        Err(_) => panic!(),
    };
    assert_eq!(dir, "sub/..");
    assert_eq!(name, "file.txt");
    let target = join("/srv/data/sub", &name);
    assert!(s.contains(&target));
    assert!(starts_with(&target, "/srv/data/sub"));
}

#[test]
fn ancestors_are_component_prefixes() {
    let all = ancestors("/srv/data/a/b.txt");
    assert_eq!(all, vec!["/srv/data/a/b.txt", "/srv/data/a", "/srv/data", "/srv", "/"]);
    for a in &all {
        assert!(starts_with("/srv/data/a/b.txt", a));
    }
}
