use luau_docgen::declaration::Param;
use luau_docgen::engine::{run, step, Event, RunState};
use luau_docgen::model::{DiagnosticCode, Position, Severity, Span};
use luau_docgen::signature::TypeExpr;
use luau_docgen::syntax::{Analysis, Comment, Issue, Statement, StatementKind};

fn span(l1: u32, c1: u32, l2: u32, c2: u32) -> Span {
    Span { start: Position { line: l1, column: c1 }, end: Position { line: l2, column: c2 } }
}

fn number() -> TypeExpr {
    TypeExpr::Primitive(b"number".to_vec())
}

fn inc(at: Span) -> Statement {
    Statement {
        kind: StatementKind::FunctionDefinition,
        name: b"inc".to_vec(),
        exported: true,
        span: at,
        generics: vec![],
        params: vec![Param { name: b"x".to_vec(), ty: number(), default: None }],
        returns: vec![number()],
        members: vec![],
    }
}

fn type_definition(name: &str, at: Span) -> Statement {
    Statement {
        kind: StatementKind::TypeDefinition,
        name: name.as_bytes().to_vec(),
        exported: true,
        span: at,
        generics: vec![],
        params: vec![],
        returns: vec![number()],
        members: vec![],
    }
}

fn module(path: &str, statements: Vec<Statement>, comments: Vec<Comment>) -> Analysis {
    Analysis {
        path: path.as_bytes().to_vec(),
        file: format!("/project/{}", path).into_bytes(),
        source: b"-- text".to_vec(),
        statements,
        comments,
        issues: vec![],
    }
}

fn doc(text: &str, at: Span) -> Comment {
    Comment { span: at, text: text.as_bytes().to_vec(), attach_next: false }
}

fn text(bytes: &Option<Vec<u8>>) -> String {
    String::from_utf8(bytes.clone().unwrap()).unwrap()
}

#[test]
fn empty_source_tree_gives_an_empty_report() {
    let outcome = run(&vec![], &b"1.0".to_vec(), false);
    assert_eq!(outcome.status, 0);
    assert!(outcome.diagnostics.is_empty());
    assert_eq!(
        text(&outcome.artifact),
        "{\"generatorVersion\":\"1.0\",\"modules\":{},\"diagnostics\":[]}"
    );
}

#[test]
fn documented_function_is_reported_with_its_parameter_tag() {
    let analyses = vec![module(
        "src/m.luau",
        vec![inc(span(3, 1, 5, 4))],
        vec![doc("Adds one.\n@param x the input", span(1, 1, 2, 30))],
    )];
    let outcome = run(&analyses, &b"1.0".to_vec(), false);
    assert_eq!(outcome.status, 0);
    assert!(outcome.diagnostics.is_empty());
    assert_eq!(
        text(&outcome.artifact),
        [
            "{\"generatorVersion\":\"1.0\",\"modules\":{\"src/m.luau\":[",
            "{\"kind\":\"function\",\"name\":\"inc\",\"qualifiedName\":\"inc\",",
            "\"identifier\":\"src/m.luau#inc\",\"visibility\":\"public\",",
            "\"line\":3,\"column\":1,",
            "\"signature\":{\"generics\":[],",
            "\"params\":[{\"name\":\"x\",\"type\":{\"kind\":\"primitive\",\"name\":\"number\"},",
            "\"default\":null}],",
            "\"returns\":[{\"kind\":\"primitive\",\"name\":\"number\"}]},",
            "\"documentation\":{\"summary\":\"Adds one.\",",
            "\"tags\":[{\"kind\":\"param\",\"name\":\"x\",\"text\":\"the input\"}],",
            "\"raw\":\"Adds one.\\n@param x the input\"},",
            "\"children\":[]}]},\"diagnostics\":[]}",
        ]
        .concat()
    );
}

#[test]
fn mismatched_parameter_tag_warns_and_fails_only_on_request() {
    let analyses = vec![module(
        "src/m.luau",
        vec![inc(span(3, 1, 5, 4))],
        vec![doc("@param y the input", span(2, 1, 2, 20))],
    )];
    let lenient = run(&analyses, &b"1.0".to_vec(), false);
    assert_eq!(lenient.status, 0);
    assert_eq!(lenient.diagnostics.len(), 1);
    assert_eq!(lenient.diagnostics[0].code, DiagnosticCode::DocParameterMismatch);
    assert_eq!(lenient.diagnostics[0].severity, Severity::Warning);
    assert!(text(&lenient.artifact).contains(
        "\"diagnostics\":[{\"severity\":\"warning\",\"code\":\"doc-parameter-mismatch\","
    ));
    let strict = run(&analyses, &b"1.0".to_vec(), true);
    assert_eq!(strict.status, 3);
    assert_eq!(strict.artifact, lenient.artifact);
}

#[test]
fn duplicate_qualified_name_under_one_path_is_fatal() {
    let analyses = vec![
        module("src/m.luau", vec![type_definition("Point", span(1, 1, 1, 20))], vec![]),
        module("src/m.luau", vec![type_definition("Point", span(7, 3, 7, 20))], vec![]),
    ];
    let outcome = run(&analyses, &b"1.0".to_vec(), false);
    assert_eq!(outcome.status, 5);
    assert_eq!(outcome.artifact, None);
    assert_eq!(outcome.diagnostics.len(), 1);
    let d = &outcome.diagnostics[0];
    assert_eq!(d.code, DiagnosticCode::NamingCollision);
    assert_eq!(d.severity, Severity::Error);
    assert_eq!(d.message, b"identifier is declared more than once: src/m.luau#Point".to_vec());
    assert_eq!(d.module, b"src/m.luau".to_vec());
    assert_eq!((d.line, d.column), (7, 3));
}

#[test]
fn module_with_a_syntax_error_is_recorded_empty_and_the_rest_goes_on() {
    let mut broken = module("src/a.luau", vec![inc(span(3, 1, 5, 4))], vec![]);
    broken.issues.push(Issue {
        severity: Severity::Error,
        syntax: true,
        message: b"expected 'end'".to_vec(),
        line: 4,
        column: 9,
    });
    let sound = module("src/b.luau", vec![inc(span(1, 1, 2, 4))], vec![]);
    let outcome = run(&vec![broken, sound], &b"1.0".to_vec(), false);
    assert_eq!(outcome.status, 2);
    assert_eq!(outcome.diagnostics.len(), 1);
    let d = &outcome.diagnostics[0];
    assert_eq!(d.code, DiagnosticCode::ParseError);
    assert_eq!(d.severity, Severity::Error);
    assert_eq!(d.module, b"src/a.luau".to_vec());
    assert_eq!((d.line, d.column), (4, 9));
    assert_eq!(d.message, b"expected 'end'".to_vec());
    let artifact = text(&outcome.artifact);
    assert!(artifact.contains("\"src/a.luau\":[],"));
    assert!(artifact.contains("\"src/b.luau\":[{\"kind\":\"function\",\"name\":\"inc\""));
    assert!(artifact.contains("\"code\":\"parse-error\",\"message\":\"expected 'end'\""));
}

#[test]
fn type_error_is_kept_with_its_severity_and_does_not_empty_the_module() {
    let mut m = module("src/a.luau", vec![inc(span(3, 1, 5, 4))], vec![]);
    m.issues.push(Issue {
        severity: Severity::Warning,
        syntax: false,
        message: b"unused".to_vec(),
        line: 1,
        column: 1,
    });
    let outcome = run(&vec![m], &b"1.0".to_vec(), false);
    assert_eq!(outcome.status, 0);
    assert_eq!(outcome.diagnostics[0].code, DiagnosticCode::TypeError);
    assert_eq!(outcome.diagnostics[0].severity, Severity::Warning);
    assert!(text(&outcome.artifact).contains("\"src/a.luau\":[{\"kind\":\"function\""));
}

#[test]
fn a_second_run_gives_the_same_bytes() {
    let build = || {
        vec![
            module("src/b.luau", vec![inc(span(3, 1, 5, 4))], vec![doc("late", span(9, 1, 9, 5))]),
            module("src/a.luau", vec![type_definition("T", span(1, 1, 1, 9))], vec![]),
        ]
    };
    let first = run(&build(), &b"2.1".to_vec(), true);
    let second = run(&build(), &b"2.1".to_vec(), true);
    assert_eq!(first, second);
}

#[test]
fn modules_are_reported_in_path_order_however_they_were_found() {
    let a = || module("src/a.luau", vec![type_definition("T", span(1, 1, 1, 9))], vec![]);
    let b = || module("src/b.luau", vec![inc(span(3, 1, 5, 4))], vec![doc("x", span(9, 1, 9, 3))]);
    let forward = run(&vec![a(), b()], &b"1".to_vec(), false);
    let backward = run(&vec![b(), a()], &b"1".to_vec(), false);
    assert_eq!(forward, backward);
    let artifact = text(&forward.artifact);
    assert!(artifact.find("\"src/a.luau\"").unwrap() < artifact.find("\"src/b.luau\"").unwrap());
}

#[test]
fn a_run_passes_through_its_stages_in_order() {
    let mut state = RunState::Initialized;
    let events = [
        Event::Started,
        Event::Loaded(2),
        Event::ModuleAnalyzed,
        Event::ModuleAnalyzed,
        Event::Extracted,
        Event::Bound,
        Event::GraphBuilt,
        Event::Written(0),
    ];
    let expected = [
        RunState::Loading,
        RunState::Analyzing { index: 0, count: 2 },
        RunState::Analyzing { index: 1, count: 2 },
        RunState::Extracting,
        RunState::Binding,
        RunState::GraphBuilding,
        RunState::Reporting,
        RunState::Terminated(0),
    ];
    for (event, want) in events.iter().zip(expected.iter()) {
        state = step(state, *event).unwrap();
        assert_eq!(state, *want);
    }
    assert_eq!(step(state, Event::Started), None);
}

#[test]
fn a_run_ends_early_on_load_failure_and_on_collision() {
    assert_eq!(step(RunState::Loading, Event::LoadFailed), Some(RunState::Terminated(1)));
    assert_eq!(step(RunState::Loading, Event::Loaded(0)), Some(RunState::Extracting));
    assert_eq!(step(RunState::GraphBuilding, Event::Collided), Some(RunState::Terminated(5)));
    assert_eq!(step(RunState::Reporting, Event::WriteFailed), Some(RunState::Terminated(4)));
    assert_eq!(step(RunState::Binding, Event::Collided), None);
    assert_eq!(step(RunState::Initialized, Event::Loaded(1)), None);
}
