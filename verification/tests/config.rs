use luau_docgen::cli::{parse_args, Args};
use luau_docgen::config::{resolve, Config, ConfigError};
use luau_docgen::model::{Diagnostic, DiagnosticCode, Position, Severity};
use luau_docgen::report::{any_with_severity, exit_status};

fn no_args() -> Args {
    parse_args(&vec![]).unwrap()
}

#[test]
fn defaults_are_filled_in() {
    let config = resolve(no_args(), "/work".to_string(), "0.3.1".to_string()).unwrap();
    assert_eq!(
        config,
        Config {
            root_dir: "/work".to_string(),
            src_dir: "/work/src".to_string(),
            types_dir: None,
            out_path: "reference.json".to_string(),
            generator_version: "0.3.1".to_string(),
            fail_on_warning: false,
        }
    );
}

#[test]
fn source_directory_defaults_to_src_under_the_given_root() {
    let args = parse_args(&vec!["--root".to_string(), "/proj".to_string()]).unwrap();
    let config = resolve(args, "/work".to_string(), "1".to_string()).unwrap();
    assert_eq!(config.root_dir, "/proj");
    assert_eq!(config.src_dir, "/proj/src");
}

#[test]
fn given_values_replace_the_defaults() {
    let argv: Vec<String> = [
        "--root", "r", "--src", "s", "--types", "t", "--out", "o", "--generator-version", "g",
        "--fail-on-warning",
    ]
    .iter()
    .map(|s| s.to_string())
    .collect();
    let config =
        resolve(parse_args(&argv).unwrap(), "/work".to_string(), "1".to_string()).unwrap();
    assert_eq!(
        config,
        Config {
            root_dir: "r".to_string(),
            src_dir: "s".to_string(),
            types_dir: Some("t".to_string()),
            out_path: "o".to_string(),
            generator_version: "g".to_string(),
            fail_on_warning: true,
        }
    );
}

#[test]
fn empty_output_path_is_a_configuration_error() {
    let args = parse_args(&vec!["--out".to_string(), String::new()]).unwrap();
    assert_eq!(
        resolve(args, "/work".to_string(), "1".to_string()),
        Err(ConfigError::MissingOutputPath)
    );
}

fn diagnostic(code: DiagnosticCode) -> Diagnostic {
    Diagnostic::new(code, vec![], vec![], Position { line: 1, column: 1 })
}

#[test]
fn status_is_zero_without_diagnostics() {
    assert_eq!(exit_status(&vec![], false), 0);
    assert_eq!(exit_status(&vec![], true), 0);
}

#[test]
fn warnings_fail_the_run_only_on_request() {
    let warnings = vec![
        diagnostic(DiagnosticCode::OrphanedComment),
        diagnostic(DiagnosticCode::UnresolvedReference),
    ];
    assert_eq!(exit_status(&warnings, false), 0);
    assert_eq!(exit_status(&warnings, true), 3);
    assert!(any_with_severity(&warnings, Severity::Warning));
    assert!(!any_with_severity(&warnings, Severity::Error));
}

#[test]
fn errors_fail_the_run_whatever_the_policy() {
    let mixed = vec![
        diagnostic(DiagnosticCode::MalformedTag),
        diagnostic(DiagnosticCode::TypeError),
    ];
    assert_eq!(exit_status(&mixed, false), 2);
    assert_eq!(exit_status(&mixed, true), 2);
}

#[test]
fn each_code_carries_its_severity() {
    for code in [
        DiagnosticCode::ParseError,
        DiagnosticCode::TypeError,
        DiagnosticCode::NamingCollision,
    ] {
        assert_eq!(diagnostic(code).severity, Severity::Error);
        assert_eq!(code.default_severity(), Severity::Error);
    }
    for code in [
        DiagnosticCode::OrphanedComment,
        DiagnosticCode::MalformedTag,
        DiagnosticCode::DocParameterMismatch,
        DiagnosticCode::UnresolvedReference,
    ] {
        assert_eq!(diagnostic(code).severity, Severity::Warning);
    }
}
