use rust_scanner::args::parse_args;
use rust_scanner::args::parse_usize;
use rust_scanner::args::ArgError;
use rust_scanner::args::DEFAULT_MAX_DEPTH;

fn argv(xs: &[&str]) -> Vec<String> {
    xs.iter().map(|x| x.to_string()).collect()
}

#[test]
fn parse_full_command_line() {
    let r = parse_args(&argv(&[
        "--root",
        "/data",
        "--max-depth",
        "3",
        "--follow-symlinks",
        "--exclude-dir",
        "build",
        "--exclude-dir",
        "node_modules",
    ]));
    let cfg = r.unwrap();
    assert_eq!(cfg.root, "/data");
    assert_eq!(cfg.max_depth, 3);
    assert!(cfg.follow_symlinks);
    assert_eq!(cfg.exclude_patterns, vec!["build".to_string(), "node_modules".to_string()]);
}

#[test]
fn parse_defaults() {
    let cfg = parse_args(&argv(&["--root", "/r"])).unwrap();
    assert_eq!(cfg.root, "/r");
    assert_eq!(cfg.max_depth, DEFAULT_MAX_DEPTH);
    assert_eq!(cfg.max_depth, 64);
    assert!(!cfg.follow_symlinks);
    assert!(cfg.exclude_patterns.is_empty());
}

#[test]
fn root_is_required() {
    let r = parse_args(&argv(&["--max-depth", "2"]));
    assert!(matches!(r, Err(ArgError::RootRequired)));
}

#[test]
fn root_required_message() {
    let e = parse_args(&argv(&[])).unwrap_err();
    assert_eq!(e.message(), "--root is required");
}

#[test]
fn unknown_argument_is_rejected() {
    let r = parse_args(&argv(&["--root", "/r", "--bogus"]));
    match r {
        Err(ArgError::UnknownArgument { arg }) => assert_eq!(arg, "--bogus"),
        _ => panic!("expected the unknown argument to be rejected"),
    }
}

#[test]
fn unknown_argument_message() {
    let e = parse_args(&argv(&["oops"])).unwrap_err();
    assert_eq!(e.message(), "unknown argument: oops");
}

#[test]
fn missing_value_for_root() {
    let r = parse_args(&argv(&["--root"]));
    assert!(matches!(r, Err(ArgError::MissingRootValue)));
    assert_eq!(parse_args(&argv(&["--root"])).unwrap_err().message(), "missing value for --root");
}

#[test]
fn missing_value_for_max_depth() {
    let r = parse_args(&argv(&["--root", "/r", "--max-depth"]));
    assert!(matches!(r, Err(ArgError::MissingDepthValue)));
}

#[test]
fn missing_value_for_exclude_dir() {
    let r = parse_args(&argv(&["--root", "/r", "--exclude-dir"]));
    assert!(matches!(r, Err(ArgError::MissingExcludeValue)));
}

#[test]
fn invalid_max_depth_is_rejected() {
    assert!(matches!(
        parse_args(&argv(&["--root", "/r", "--max-depth", "abc"])),
        Err(ArgError::InvalidMaxDepth)
    ));
    assert!(matches!(
        parse_args(&argv(&["--root", "/r", "--max-depth", "-1"])),
        Err(ArgError::InvalidMaxDepth)
    ));
    assert!(matches!(
        parse_args(&argv(&["--root", "/r", "--max-depth", ""])),
        Err(ArgError::InvalidMaxDepth)
    ));
    assert!(matches!(
        parse_args(&argv(&["--root", "/r", "--max-depth", "99999999999999999999999999"])),
        Err(ArgError::InvalidMaxDepth)
    ));
    assert_eq!(
        parse_args(&argv(&["--root", "/r", "--max-depth", "x"])).unwrap_err().message(),
        "invalid max depth"
    );
}

#[test]
fn max_depth_zero_is_accepted() {
    let cfg = parse_args(&argv(&["--root", "/r", "--max-depth", "0"])).unwrap();
    assert_eq!(cfg.max_depth, 0);
}

#[test]
fn blank_exclude_pattern_is_discarded() {
    let cfg = parse_args(&argv(&["--root", "/r", "--exclude-dir", "   "])).unwrap();
    assert!(cfg.exclude_patterns.is_empty());
}

#[test]
fn exclude_pattern_is_trimmed() {
    let cfg = parse_args(&argv(&["--root", "/r", "--exclude-dir", "  build  "])).unwrap();
    assert_eq!(cfg.exclude_patterns, vec!["build".to_string()]);
}

#[test]
fn later_flags_override_earlier_ones() {
    let cfg = parse_args(&argv(&["--root", "/a", "--root", "/b", "--max-depth", "9", "--max-depth", "4"]))
        .unwrap();
    assert_eq!(cfg.root, "/b");
    assert_eq!(cfg.max_depth, 4);
}

#[test]
fn parse_usize_plain_and_plus() {
    assert_eq!(parse_usize("42"), Some(42));
    assert_eq!(parse_usize("+42"), Some(42));
    assert_eq!(parse_usize("0"), Some(0));
}

#[test]
fn parse_usize_rejects_bad_input() {
    assert_eq!(parse_usize(""), None);
    assert_eq!(parse_usize("+"), None);
    assert_eq!(parse_usize("1x"), None);
    assert_eq!(parse_usize(" 1"), None);
    assert_eq!(parse_usize("18446744073709551616"), None);
}

#[test]
fn parse_usize_accepts_max() {
    assert_eq!(parse_usize("18446744073709551615"), Some(usize::MAX));
}
