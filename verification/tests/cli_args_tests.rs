//! Unit tests for CLI argument parsing.

use dua::cli::args::{parse_args, parse_scan_args, parse_view_args, Command};

fn make_args(raw: &[&str]) -> Vec<String> {
    raw.iter().map(|s| s.to_string()).collect()
}

#[test]
fn parse_scan_with_legacy_traversal_flag() {
    let argv = make_args(&[
        "dua",
        "scan",
        "/tmp/work",
        "--snapshot",
        "out.parquet",
        "--legacy-traversal",
    ]);

    let parsed = parse_args(&argv).expect("parse scan args");
    let Command::Scan(scan) = parsed.command else {
        panic!("expected scan command");
    };

    assert!(scan.legacy_traversal);
    assert!(scan.strategy_override.is_none());
}

#[test]
fn parse_scan_with_strategy_override() {
    let argv = make_args(&[
        "dua",
        "scan",
        "/tmp/work",
        "--snapshot",
        "out.parquet",
        "--strategy",
        "posix",
    ]);

    let parsed = parse_args(&argv).expect("parse scan args");
    let Command::Scan(scan) = parsed.command else {
        panic!("expected scan command");
    };

    assert_eq!(scan.strategy_override.as_deref(), Some("posix"));
    assert!(!scan.legacy_traversal);
}

#[test]
fn parse_scan_with_conflicting_strategy_flags() {
    let argv = make_args(&[
        "dua",
        "scan",
        "/tmp/work",
        "--legacy-traversal",
        "--strategy",
        "windows",
    ]);

    let parsed = parse_args(&argv).expect("parse scan args");
    let Command::Scan(scan) = parsed.command else {
        panic!("expected scan command");
    };

    assert!(scan.legacy_traversal);
    assert_eq!(scan.strategy_override.as_deref(), Some("windows"));
}

#[test]
fn strategy_flag_requires_value() {
    let argv = make_args(&["dua", "scan", "/tmp/work", "--strategy"]);
    let err = parse_args(&argv).expect_err("strategy flag without value should fail");
    assert!(err.contains("--strategy requires a value"));
}

#[test]
fn progress_interval_flag_sets_override() {
    let argv = make_args(&["dua", "scan", "/tmp/work", "--progress-interval", "5"]);

    let parsed = parse_args(&argv).expect("parse scan args");
    let Command::Scan(scan) = parsed.command else {
        panic!("expected scan command");
    };

    assert_eq!(scan.progress_interval_secs, Some(5));
}

#[test]
fn progress_interval_requires_positive_value() {
    let argv = make_args(&["dua", "scan", "/tmp/work", "--progress-interval", "0"]);
    let err = parse_args(&argv).expect_err("progress interval of zero should be rejected");
    assert!(err.contains("greater than zero"));

    let missing_value = make_args(&["dua", "scan", "/tmp/work", "--progress-interval"]);
    let err = parse_args(&missing_value)
        .expect_err("progress interval flag without value should fail");
    assert!(err.contains("--progress-interval requires a value"));
}

#[test]
fn scan_defaults_and_every_option() {
    let argv = make_args(&["/data"]);
    let scan = parse_scan_args(&argv).expect("defaults");
    assert_eq!(scan.path, "/data");
    assert_eq!(scan.basis, "physical");
    assert_eq!(scan.snapshot, None);
    assert_eq!(scan.max_depth, None);
    assert!(!scan.quiet);
    assert!(!scan.legacy_traversal);
    assert_eq!(scan.strategy_override, None);
    assert_eq!(scan.progress_interval_secs, None);

    let argv = make_args(&[
        "--basis",
        "logical",
        "--max-depth",
        "+7",
        "/data",
        "--quiet",
        "--snapshot",
        "s.parquet",
    ]);
    let scan = parse_scan_args(&argv).expect("all options");
    assert_eq!(scan.basis, "logical");
    assert_eq!(scan.max_depth, Some(7));
    assert_eq!(scan.path, "/data");
    assert!(scan.quiet);
    assert_eq!(scan.snapshot.as_deref(), Some("s.parquet"));
}

#[test]
fn scan_faults_carry_their_messages() {
    let cases: Vec<(Vec<&str>, &str)> = vec![
        (vec![], "Missing required argument: PATH"),
        (vec!["--quiet"], "Missing required argument: PATH"),
        (vec!["/a", "--basis"], "--basis requires a value"),
        (vec!["/a", "--snapshot"], "--snapshot requires a file path"),
        (vec!["/a", "--max-depth"], "--max-depth requires a value"),
        (vec!["/a", "--max-depth", "x"], "--max-depth must be a number"),
        (vec!["/a", "--max-depth", "65536"], "--max-depth must be a number"),
        (vec!["/a", "--max-depth", "-1"], "--max-depth must be a number"),
        (vec!["/a", "--max-depth", ""], "--max-depth must be a number"),
        (vec!["/a", "--max-depth", "+"], "--max-depth must be a number"),
        (
            vec!["/a", "--progress-interval", "1x"],
            "--progress-interval must be a positive integer",
        ),
        (
            vec!["/a", "--progress-interval", "18446744073709551616"],
            "--progress-interval must be a positive integer",
        ),
        (vec!["/a", "/b"], "Unexpected argument: /b"),
        (vec!["/a", "--frobnicate"], "Unknown option: --frobnicate"),
    ];
    for (raw, message) in cases {
        let argv = make_args(&raw);
        let err = parse_scan_args(&argv).expect_err("fault expected");
        assert_eq!(err, message, "for {raw:?}");
    }
    let argv = make_args(&["/a", "--max-depth", "65535", "--progress-interval", "18446744073709551615"]);
    let scan = parse_scan_args(&argv).expect("largest values");
    assert_eq!(scan.max_depth, Some(65535));
    assert_eq!(scan.progress_interval_secs, Some(u64::MAX));
}

#[test]
fn view_defaults_options_and_faults() {
    let argv = make_args(&["snap.parquet"]);
    let view = parse_view_args(&argv).expect("defaults");
    assert_eq!(view.from_snapshot, "snap.parquet");
    assert_eq!(view.path, None);
    assert_eq!(view.top, 10);
    assert_eq!(view.sort, "size");
    assert!(!view.json);

    let argv = make_args(&[
        "dua", "view", "snap.parquet", "--path", "/usr", "--top", "20", "--sort", "files", "--json",
    ]);
    let parsed = parse_args(&argv).expect("view command");
    let Command::View(view) = parsed.command else {
        panic!("expected view command");
    };
    assert_eq!(view.path.as_deref(), Some("/usr"));
    assert_eq!(view.top, 20);
    assert_eq!(view.sort, "files");
    assert!(view.json);

    let cases: Vec<(Vec<&str>, &str)> = vec![
        (vec![], "Missing required argument: SNAPSHOT_FILE"),
        (vec!["s", "--path"], "--path requires a value"),
        (vec!["s", "--top"], "--top requires a value"),
        (vec!["s", "--top", "many"], "--top must be a number"),
        (vec!["s", "--sort"], "--sort requires a value"),
        (vec!["s", "t"], "Unexpected argument: t"),
        (vec!["s", "--nope"], "Unknown option: --nope"),
    ];
    for (raw, message) in cases {
        let argv = make_args(&raw);
        let err = parse_view_args(&argv).expect_err("fault expected");
        assert_eq!(err, message, "for {raw:?}");
    }
}

#[test]
fn command_line_needs_a_known_command() {
    let err = parse_args(&make_args(&["dua"])).expect_err("no command");
    assert_eq!(err, "No command specified");
    let err = parse_args(&make_args(&["dua", "drill", "x"])).expect_err("unknown command");
    assert_eq!(err, "Unknown command: drill");
}
