use luau_docgen::cli::{error_line, parse_args, usage};

fn argv(items: &[&str]) -> Vec<String> {
    items.iter().map(|s| s.to_string()).collect()
}

#[test]
fn empty_command_line_sets_nothing() {
    let args = parse_args(&argv(&[])).unwrap();
    assert_eq!(args.root_dir, None);
    assert_eq!(args.src_dir, None);
    assert_eq!(args.types_dir, None);
    assert_eq!(args.out_path, None);
    assert_eq!(args.generator_version, None);
    assert!(!args.fail_on_warning);
    assert!(!args.help);
}

#[test]
fn every_flag_is_recorded() {
    let args = parse_args(&argv(&[
        "--root", "/p", "--src", "/p/lib", "--types", "/p/types", "--out", "o.json",
        "--generator-version", "9.9", "--fail-on-warning", "--help",
    ]))
    .unwrap();
    assert_eq!(args.root_dir.as_deref(), Some("/p"));
    assert_eq!(args.src_dir.as_deref(), Some("/p/lib"));
    assert_eq!(args.types_dir.as_deref(), Some("/p/types"));
    assert_eq!(args.out_path.as_deref(), Some("o.json"));
    assert_eq!(args.generator_version.as_deref(), Some("9.9"));
    assert!(args.fail_on_warning);
    assert!(args.help);
}

#[test]
fn short_help_flag_is_accepted() {
    let args = parse_args(&argv(&["-h"])).unwrap();
    assert!(args.help);
}

#[test]
fn later_value_replaces_earlier_one() {
    let args = parse_args(&argv(&["--out", "a.json", "--out", "b.json"])).unwrap();
    assert_eq!(args.out_path.as_deref(), Some("b.json"));
}

#[test]
fn value_may_look_like_a_flag() {
    let args = parse_args(&argv(&["--root", "--help"])).unwrap();
    assert_eq!(args.root_dir.as_deref(), Some("--help"));
    assert!(!args.help);
}

#[test]
fn flag_without_value_is_a_usage_error() {
    for (flag, message) in [
        ("--root", "--root requires a value"),
        ("--src", "--src requires a value"),
        ("--types", "--types requires a value"),
        ("--out", "--out requires a value"),
        ("--generator-version", "--generator-version requires a value"),
    ] {
        match parse_args(&argv(&[flag])) {
            Err(e) => assert_eq!(e, message),
            Ok(_) => panic!("{} was accepted without a value", flag),
        }
    }
}

#[test]
fn unknown_argument_is_a_usage_error() {
    match parse_args(&argv(&["--out", "x", "--verbose"])) {
        Err(e) => assert_eq!(e, "Unknown argument: --verbose"),
        Ok(_) => panic!("--verbose was accepted"),
    }
}

#[test]
fn unknown_argument_after_help_still_fails() {
    assert!(parse_args(&argv(&["--help", "extra"])).is_err());
}

#[test]
fn usage_names_every_option() {
    let text = usage();
    assert!(text.starts_with("luau-docgen\n\nUsage:\n"));
    for flag in ["--root", "--src", "--types", "--out", "--generator-version", "--fail-on-warning"] {
        assert!(text.contains(flag));
    }
    assert_eq!(text.lines().count(), 12);
}

#[test]
fn error_line_carries_the_tool_prefix() {
    assert_eq!(error_line(&"Unknown argument: x".to_string()), "[luau-docgen] Unknown argument: x");
}
