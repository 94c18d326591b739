use rust_scanner::record::render_record;
use rust_scanner::walker::Action;
use rust_scanner::walker::DirEntryInfo;
use rust_scanner::walker::EntryKind;
use rust_scanner::walker::Event;
use rust_scanner::walker::FileMeta;
use rust_scanner::walker::ScanConfig;
use rust_scanner::walker::Walker;

fn dir(name: &str) -> DirEntryInfo {
    DirEntryInfo { name: name.to_string(), kind: EntryKind::Directory, is_symlink: false }
}

fn symdir(name: &str) -> DirEntryInfo {
    DirEntryInfo { name: name.to_string(), kind: EntryKind::Directory, is_symlink: true }
}

fn file(name: &str) -> DirEntryInfo {
    DirEntryInfo { name: name.to_string(), kind: EntryKind::RegularFile, is_symlink: false }
}

fn other(name: &str) -> DirEntryInfo {
    DirEntryInfo { name: name.to_string(), kind: EntryKind::Other, is_symlink: false }
}

fn cfg(root: &str, max_depth: usize, follow_symlinks: bool, excl: &[&str]) -> ScanConfig {
    ScanConfig {
        root: root.to_string(),
        max_depth,
        follow_symlinks,
        exclude_patterns: excl.iter().map(|x| x.to_string()).collect(),
    }
}

/// Drives one whole scan over a synthetic tree: `list` answers the listing
/// requests (an unknown path lists as empty, like a listing failure), `stat`
/// answers the metadata requests, and every emitted line is written with
/// success.
fn run_scan(
    config: ScanConfig,
    list: &dyn Fn(&str) -> Vec<DirEntryInfo>,
    stat: &dyn Fn(&str) -> Option<FileMeta>,
) -> (Vec<String>, bool) {
    let (mut walker, mut action) = Walker::start(config);
    let mut lines: Vec<String> = Vec::new();
    loop {
        let event = match &action {
            Action::List { path } => Event::Listed { entries: list(path) },
            Action::Stat { path } => Event::Statted { meta: stat(path) },
            Action::Emit { line } => {
                lines.push(line.clone());
                Event::Wrote { ok: true }
            },
            Action::Continue => Event::Tick,
            Action::Finished { ok } => return (lines, *ok),
        };
        let stepped = walker.step(event);
        walker = stepped.0;
        action = stepped.1;
    }
}

#[test]
fn excluded_directory_is_pruned() {
    let list = |p: &str| -> Vec<DirEntryInfo> {
        match p {
            "r" => vec![file("a.txt"), dir("build")],
            "r/build" => vec![file("out.o")],
            _ => vec![],
        }
    };
    let stat = |p: &str| -> Option<FileMeta> {
        if p == "r/a.txt" {
            Some(FileMeta { mtime: 100, size: 10 })
        } else {
            Some(FileMeta { mtime: 100, size: 5 })
        }
    };
    let (lines, ok) = run_scan(cfg("r", 64, false, &["build"]), &list, &stat);
    assert!(ok);
    assert_eq!(lines, vec!["r/a.txt\t100\t10\n".to_string()]);
}

#[test]
fn without_exclusion_both_files_appear() {
    let list = |p: &str| -> Vec<DirEntryInfo> {
        match p {
            "r" => vec![file("a.txt"), dir("build")],
            "r/build" => vec![file("out.o")],
            _ => vec![],
        }
    };
    let stat = |_: &str| Some(FileMeta { mtime: 1, size: 2 });
    let (lines, ok) = run_scan(cfg("r", 64, false, &[]), &list, &stat);
    assert!(ok);
    assert_eq!(
        lines,
        vec!["r/a.txt\t1\t2\n".to_string(), "r/build/out.o\t1\t2\n".to_string()]
    );
}

#[test]
fn depth_bound_omits_deep_file() {
    let list = |p: &str| -> Vec<DirEntryInfo> {
        match p {
            "r" => vec![dir("sub")],
            "r/sub" => vec![dir("deep")],
            "r/sub/deep" => vec![file("file.txt")],
            _ => vec![],
        }
    };
    let stat = |_: &str| Some(FileMeta { mtime: 7, size: 3 });
    let (lines, ok) = run_scan(cfg("r", 1, false, &[]), &list, &stat);
    assert!(ok);
    assert!(lines.is_empty());
}

#[test]
fn depth_bound_two_includes_deep_file() {
    let list = |p: &str| -> Vec<DirEntryInfo> {
        match p {
            "r" => vec![dir("sub")],
            "r/sub" => vec![dir("deep")],
            "r/sub/deep" => vec![file("file.txt")],
            _ => vec![],
        }
    };
    let stat = |_: &str| Some(FileMeta { mtime: 7, size: 3 });
    let (lines, ok) = run_scan(cfg("r", 2, false, &[]), &list, &stat);
    assert!(ok);
    assert_eq!(lines, vec!["r/sub/deep/file.txt\t7\t3\n".to_string()]);
}

#[test]
fn max_depth_zero_lists_only_the_root() {
    let list = |p: &str| -> Vec<DirEntryInfo> {
        match p {
            "r" => vec![file("a"), dir("sub")],
            "r/sub" => vec![file("b")],
            _ => vec![],
        }
    };
    let stat = |_: &str| Some(FileMeta { mtime: 0, size: 0 });
    let (lines, ok) = run_scan(cfg("r", 0, false, &[]), &list, &stat);
    assert!(ok);
    assert_eq!(lines, vec!["r/a\t0\t0\n".to_string()]);
}

#[test]
fn symlinked_directory_is_skipped_by_default() {
    let list = |p: &str| -> Vec<DirEntryInfo> {
        match p {
            "r" => vec![symdir("link")],
            "r/link" => vec![file("f")],
            _ => vec![],
        }
    };
    let stat = |_: &str| Some(FileMeta { mtime: 9, size: 9 });
    let (lines, ok) = run_scan(cfg("r", 64, false, &[]), &list, &stat);
    assert!(ok);
    assert!(lines.is_empty());
}

#[test]
fn symlinked_directory_is_entered_when_followed() {
    let list = |p: &str| -> Vec<DirEntryInfo> {
        match p {
            "r" => vec![symdir("link")],
            "r/link" => vec![file("f")],
            _ => vec![],
        }
    };
    let stat = |_: &str| Some(FileMeta { mtime: 9, size: 9 });
    let (lines, ok) = run_scan(cfg("r", 64, true, &[]), &list, &stat);
    assert!(ok);
    assert_eq!(lines, vec!["r/link/f\t9\t9\n".to_string()]);
}

#[test]
fn cyclic_symlinks_are_bounded_by_depth() {
    // A directory that lists itself over and over: the depth bound must end
    // the descent even with symlink-following on.
    let list = |_: &str| -> Vec<DirEntryInfo> { vec![symdir("loop")] };
    let stat = |_: &str| -> Option<FileMeta> { None };
    let (lines, ok) = run_scan(cfg("r", 5, true, &[]), &list, &stat);
    assert!(ok);
    assert!(lines.is_empty());
}

#[test]
fn unreadable_directory_is_skipped_and_siblings_survive() {
    // The caller answers a failed listing with an empty one; the sibling
    // directory must still be fully traversed.
    let list = |p: &str| -> Vec<DirEntryInfo> {
        match p {
            "r" => vec![dir("bad"), dir("good")],
            "r/good" => vec![file("g")],
            _ => vec![],  // "r/bad" is unreadable
        }
    };
    let stat = |_: &str| Some(FileMeta { mtime: 4, size: 8 });
    let (lines, ok) = run_scan(cfg("r", 64, false, &[]), &list, &stat);
    assert!(ok);
    assert_eq!(lines, vec!["r/good/g\t4\t8\n".to_string()]);
}

#[test]
fn unlistable_root_scans_as_empty() {
    let list = |_: &str| -> Vec<DirEntryInfo> { vec![] };
    let stat = |_: &str| -> Option<FileMeta> { None };
    let (lines, ok) = run_scan(cfg("/does/not/exist", 64, false, &[]), &list, &stat);
    assert!(ok);
    assert!(lines.is_empty());
}

#[test]
fn stat_failure_emits_no_record() {
    let list = |p: &str| -> Vec<DirEntryInfo> {
        match p {
            "r" => vec![file("gone"), file("kept")],
            _ => vec![],
        }
    };
    let stat = |p: &str| -> Option<FileMeta> {
        if p == "r/gone" {
            None
        } else {
            Some(FileMeta { mtime: 2, size: 2 })
        }
    };
    let (lines, ok) = run_scan(cfg("r", 64, false, &[]), &list, &stat);
    assert!(ok);
    assert_eq!(lines, vec!["r/kept\t2\t2\n".to_string()]);
}

#[test]
fn other_entries_are_ignored() {
    let list = |p: &str| -> Vec<DirEntryInfo> {
        match p {
            "r" => vec![other("socket"), other("device"), file("f")],
            _ => vec![],
        }
    };
    let stat = |_: &str| Some(FileMeta { mtime: 3, size: 1 });
    let (lines, ok) = run_scan(cfg("r", 64, false, &[]), &list, &stat);
    assert!(ok);
    assert_eq!(lines, vec!["r/f\t3\t1\n".to_string()]);
}

#[test]
fn wildcard_exclusion_does_not_prune() {
    let list = |p: &str| -> Vec<DirEntryInfo> {
        match p {
            "r" => vec![dir("node_modules")],
            "r/node_modules" => vec![file("pkg")],
            _ => vec![],
        }
    };
    let stat = |_: &str| Some(FileMeta { mtime: 6, size: 6 });
    let (lines, ok) = run_scan(cfg("r", 64, false, &["node_*"]), &list, &stat);
    assert!(ok);
    assert_eq!(lines, vec!["r/node_modules/pkg\t6\t6\n".to_string()]);
}

#[test]
fn exclusion_by_relative_path_prunes_only_that_subtree() {
    let list = |p: &str| -> Vec<DirEntryInfo> {
        match p {
            "r" => vec![dir("sub"), dir("deep")],
            "r/sub" => vec![dir("deep")],
            "r/sub/deep" => vec![file("hidden")],
            "r/deep" => vec![file("shown")],
            _ => vec![],
        }
    };
    let stat = |_: &str| Some(FileMeta { mtime: 5, size: 5 });
    let (lines, ok) = run_scan(cfg("r", 64, false, &["sub/deep"]), &list, &stat);
    assert!(ok);
    assert_eq!(lines, vec!["r/deep/shown\t5\t5\n".to_string()]);
}

#[test]
fn root_with_trailing_slash_joins_cleanly() {
    let list = |p: &str| -> Vec<DirEntryInfo> {
        match p {
            "r/" => vec![file("a")],
            _ => vec![],
        }
    };
    let stat = |_: &str| Some(FileMeta { mtime: 1, size: 1 });
    let (lines, ok) = run_scan(cfg("r/", 64, false, &[]), &list, &stat);
    assert!(ok);
    assert_eq!(lines, vec!["r/a\t1\t1\n".to_string()]);
}

#[test]
fn scanning_twice_yields_identical_output() {
    let list = |p: &str| -> Vec<DirEntryInfo> {
        match p {
            "r" => vec![file("a.txt"), dir("sub"), other("dev")],
            "r/sub" => vec![file("b.txt")],
            _ => vec![],
        }
    };
    let stat = |p: &str| -> Option<FileMeta> {
        Some(FileMeta { mtime: 11, size: p.len() as u64 })
    };
    let first = run_scan(cfg("r", 64, false, &[]), &list, &stat);
    let second = run_scan(cfg("r", 64, false, &[]), &list, &stat);
    assert_eq!(first, second);
    assert!(first.1);
    assert_eq!(first.0.len(), 2);
}

#[test]
fn failed_write_aborts_the_scan() {
    let (mut walker, mut action) = Walker::start(cfg("r", 64, false, &[]));
    let mut finished_ok: Option<bool> = None;
    for _ in 0..100 {
        let event = match &action {
            Action::List { path } => {
                assert_eq!(path, "r");
                Event::Listed { entries: vec![file("a"), file("b")] }
            },
            Action::Stat { .. } => Event::Statted { meta: Some(FileMeta { mtime: 0, size: 0 }) },
            Action::Emit { .. } => Event::Wrote { ok: false },
            Action::Continue => Event::Tick,
            Action::Finished { ok } => {
                finished_ok = Some(*ok);
                break;
            },
        };
        let stepped = walker.step(event);
        walker = stepped.0;
        action = stepped.1;
    }
    assert_eq!(finished_ok, Some(false));
}

#[test]
fn record_line_format_is_exact() {
    assert_eq!(render_record("r/a.txt", 100, 10), "r/a.txt\t100\t10\n");
    assert_eq!(render_record("p", 0, 0), "p\t0\t0\n");
    assert_eq!(render_record("p", -5, 7), "p\t-5\t7\n");
    assert_eq!(
        render_record("x", i64::MIN, u64::MAX),
        "x\t-9223372036854775808\t18446744073709551615\n"
    );
}

#[test]
fn emitted_mtime_and_size_come_from_the_stat() {
    let list = |p: &str| -> Vec<DirEntryInfo> {
        match p {
            "r" => vec![file("f")],
            _ => vec![],
        }
    };
    let stat = |_: &str| Some(FileMeta { mtime: 1700000000, size: 4096 });
    let (lines, ok) = run_scan(cfg("r", 64, false, &[]), &list, &stat);
    assert!(ok);
    assert_eq!(lines, vec!["r/f\t1700000000\t4096\n".to_string()]);
}
