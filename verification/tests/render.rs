use luau_docgen::declaration::{
    DeclKind, Declaration, DocComment, Param, Signature, Tag, TagKind, Visibility,
};
use luau_docgen::graph::{build, Module};
use luau_docgen::model::{Diagnostic, DiagnosticCode, Position, Severity, Span};
use luau_docgen::render::{
    put_diagnostic, put_doc, put_number, put_signature, put_string, put_type, render,
};
use luau_docgen::signature::TypeExpr;

fn written(f: impl FnOnce(&mut Vec<u8>)) -> String {
    let mut out = b"<".to_vec();
    f(&mut out);
    String::from_utf8(out).unwrap()
}

#[test]
fn strings_are_escaped() {
    assert_eq!(written(|o| put_string(o, &b"plain".to_vec())), "<\"plain\"");
    assert_eq!(written(|o| put_string(o, &vec![])), "<\"\"");
    assert_eq!(
        written(|o| put_string(o, &b"a\"b\\c\nd\re\tf".to_vec())),
        "<\"a\\\"b\\\\c\\nd\\re\\tf\""
    );
    assert_eq!(written(|o| put_string(o, &vec![0, 1, 15, 16, 31, 32])), "<\"\\u0000\\u0001\\u000f\\u0010\\u001f \"");
    assert_eq!(written(|o| put_string(o, &"é".as_bytes().to_vec())), "<\"é\"");
}

#[test]
fn numbers_are_written_in_decimal() {
    assert_eq!(written(|o| put_number(o, 0)), "<0");
    assert_eq!(written(|o| put_number(o, 9)), "<9");
    assert_eq!(written(|o| put_number(o, 10)), "<10");
    assert_eq!(written(|o| put_number(o, 4294967295)), "<4294967295");
    assert_eq!(written(|o| put_number(o, u64::MAX)), "<18446744073709551615");
}

#[test]
fn every_kind_of_type_is_an_object_that_names_its_kind() {
    let prim = || TypeExpr::Primitive(b"number".to_vec());
    assert_eq!(written(|o| put_type(o, &prim())), "<{\"kind\":\"primitive\",\"name\":\"number\"}");
    assert_eq!(
        written(|o| put_type(
            o,
            &TypeExpr::Reference { module: b"m".to_vec(), name: b"T".to_vec() }
        )),
        "<{\"kind\":\"reference\",\"module\":\"m\",\"name\":\"T\"}"
    );
    assert_eq!(
        written(|o| put_type(o, &TypeExpr::Resolved(b"m#T".to_vec()))),
        "<{\"kind\":\"resolved\",\"identifier\":\"m#T\"}"
    );
    assert_eq!(
        written(|o| put_type(o, &TypeExpr::External(b"T".to_vec()))),
        "<{\"kind\":\"external\",\"name\":\"T\"}"
    );
    assert_eq!(
        written(|o| put_type(o, &TypeExpr::Optional(Box::new(prim())))),
        "<{\"kind\":\"optional\",\"inner\":{\"kind\":\"primitive\",\"name\":\"number\"}}"
    );
    assert_eq!(
        written(|o| put_type(o, &TypeExpr::Union(vec![]))),
        "<{\"kind\":\"union\",\"members\":[]}"
    );
    assert_eq!(
        written(|o| put_type(o, &TypeExpr::Function(vec![prim(), prim()], vec![prim()]))),
        [
            "<{\"kind\":\"function\",\"params\":[{\"kind\":\"primitive\",\"name\":\"number\"},",
            "{\"kind\":\"primitive\",\"name\":\"number\"}],",
            "\"returns\":[{\"kind\":\"primitive\",\"name\":\"number\"}]}",
        ]
        .concat()
    );
}

#[test]
fn signature_lists_generics_parameters_and_results() {
    let s = Signature {
        generics: vec![b"T".to_vec(), b"U".to_vec()],
        params: vec![
            Param { name: b"a".to_vec(), ty: TypeExpr::External(b"X".to_vec()), default: None },
            Param {
                name: b"b".to_vec(),
                ty: TypeExpr::External(b"Y".to_vec()),
                default: Some(b"\"s\"".to_vec()),
            },
        ],
        returns: vec![],
    };
    assert_eq!(
        written(|o| put_signature(o, &s)),
        [
            "<{\"generics\":[\"T\",\"U\"],\"params\":[",
            "{\"name\":\"a\",\"type\":{\"kind\":\"external\",\"name\":\"X\"},\"default\":null},",
            "{\"name\":\"b\",\"type\":{\"kind\":\"external\",\"name\":\"Y\"},\"default\":\"\\\"s\\\"\"}",
            "],\"returns\":[]}",
        ]
        .concat()
    );
}

#[test]
fn documentation_is_null_or_an_object() {
    assert_eq!(written(|o| put_doc(o, &None)), "<null");
    let doc = DocComment {
        summary: b"S".to_vec(),
        tags: vec![
            Tag { kind: TagKind::Return, name: vec![], text: b"r".to_vec() },
            Tag { kind: TagKind::Deprecated, name: vec![], text: vec![] },
            Tag { kind: TagKind::Custom, name: b"since".to_vec(), text: b"1".to_vec() },
        ],
        raw: b"raw".to_vec(),
    };
    assert_eq!(
        written(|o| put_doc(o, &Some(doc))),
        [
            "<{\"summary\":\"S\",\"tags\":[",
            "{\"kind\":\"return\",\"name\":\"\",\"text\":\"r\"},",
            "{\"kind\":\"deprecated\",\"name\":\"\",\"text\":\"\"},",
            "{\"kind\":\"custom\",\"name\":\"since\",\"text\":\"1\"}",
            "],\"raw\":\"raw\"}",
        ]
        .concat()
    );
}

#[test]
fn every_diagnostic_code_has_its_stable_spelling() {
    let cases = [
        (DiagnosticCode::ParseError, "parse-error"),
        (DiagnosticCode::TypeError, "type-error"),
        (DiagnosticCode::OrphanedComment, "orphaned-comment"),
        (DiagnosticCode::MalformedTag, "malformed-tag"),
        (DiagnosticCode::DocParameterMismatch, "doc-parameter-mismatch"),
        (DiagnosticCode::UnresolvedReference, "unresolved-reference"),
        (DiagnosticCode::NamingCollision, "naming-collision"),
    ];
    for (code, spelling) in cases {
        let d = Diagnostic::new(code, b"m".to_vec(), b"p".to_vec(), Position { line: 12, column: 3 });
        let severity = if d.severity == Severity::Error { "error" } else { "warning" };
        assert_eq!(
            written(|o| put_diagnostic(o, &d)),
            format!(
                "<{{\"severity\":\"{}\",\"code\":\"{}\",\"message\":\"m\",\"module\":\"p\",\"line\":12,\"column\":3}}",
                severity, spelling
            )
        );
    }
}

#[test]
fn members_are_listed_by_identifier_under_their_type() {
    let declaration = |kind, name: &str, qualified: &str, parent| Declaration {
        kind,
        name: name.as_bytes().to_vec(),
        qualified_name: qualified.as_bytes().to_vec(),
        signature: Signature { generics: vec![], params: vec![], returns: vec![] },
        span: Span { start: Position { line: 1, column: 1 }, end: Position { line: 1, column: 2 } },
        visibility: Visibility::Private,
        doc: None,
        parent,
    };
    let modules = vec![Module {
        path: b"m".to_vec(),
        file: b"/m".to_vec(),
        source: vec![],
        declarations: vec![
            declaration(DeclKind::Type, "T", "T", None),
            declaration(DeclKind::Field, "x", "T.x", Some(0)),
            declaration(DeclKind::Export, "E", "E", None),
            declaration(DeclKind::Field, "y", "T.y", Some(0)),
        ],
        diagnostics: vec![],
    }];
    let graph = build(modules, &b"v\"1".to_vec()).unwrap();
    let artifact = String::from_utf8(render(&graph, &graph.diagnostics())).unwrap();
    assert!(artifact.starts_with("{\"generatorVersion\":\"v\\\"1\",\"modules\":{\"m\":[{\"kind\":\"type\","));
    assert!(artifact.contains("\"qualifiedName\":\"T\",\"identifier\":\"m#T\",\"visibility\":\"private\""));
    assert!(artifact.contains("\"documentation\":null,\"children\":[\"m#T.x\",\"m#T.y\"]}"));
    assert!(artifact.contains("{\"kind\":\"field\",\"name\":\"x\",\"qualifiedName\":\"T.x\""));
    assert!(artifact.contains("{\"kind\":\"export\",\"name\":\"E\""));
    assert!(artifact.ends_with("\"children\":[]}]},\"diagnostics\":[]}"));
}
