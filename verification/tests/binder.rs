use luau_docgen::binder::{bind, bindings};
use luau_docgen::declaration::{
    DeclKind, Declaration, Param, Signature, TagKind, Visibility,
};
use luau_docgen::model::{DiagnosticCode, Position, Severity, Span};
use luau_docgen::signature::TypeExpr;
use luau_docgen::syntax::Comment;

fn span(l1: u32, c1: u32, l2: u32, c2: u32) -> Span {
    Span { start: Position { line: l1, column: c1 }, end: Position { line: l2, column: c2 } }
}

fn function(name: &str, params: &[&str], at: Span) -> Declaration {
    Declaration {
        kind: DeclKind::Function,
        name: name.as_bytes().to_vec(),
        qualified_name: name.as_bytes().to_vec(),
        signature: Signature {
            generics: vec![],
            params: params
                .iter()
                .map(|p| Param {
                    name: p.as_bytes().to_vec(),
                    ty: TypeExpr::Primitive(b"number".to_vec()),
                    default: None,
                })
                .collect(),
            returns: vec![],
        },
        span: at,
        visibility: Visibility::Public,
        doc: None,
        parent: None,
    }
}

fn comment(text: &str, at: Span) -> Comment {
    Comment { span: at, text: text.as_bytes().to_vec(), attach_next: false }
}

#[test]
fn comment_with_matching_parameter_binds_without_warning() {
    let comments = vec![comment("Adds one.\n@param x the input", span(1, 1, 2, 30))];
    let decls = vec![function("inc", &["x"], span(3, 1, 5, 4))];
    let bound = bind(&b"m".to_vec(), &comments, decls);
    assert!(bound.diagnostics.is_empty());
    let doc = bound.declarations[0].doc.as_ref().unwrap();
    assert_eq!(doc.summary, b"Adds one.".to_vec());
    assert_eq!(doc.tags.len(), 1);
    assert_eq!(doc.tags[0].kind, TagKind::Param);
    assert_eq!(doc.tags[0].name, b"x".to_vec());
    assert_eq!(doc.tags[0].text, b"the input".to_vec());
    assert_eq!(doc.raw, b"Adds one.\n@param x the input".to_vec());
}

#[test]
fn unknown_parameter_name_is_a_warning() {
    let comments = vec![comment("@param y the input", span(2, 1, 2, 20))];
    let decls = vec![function("inc", &["x"], span(3, 1, 5, 4))];
    let bound = bind(&b"m".to_vec(), &comments, decls);
    assert_eq!(bound.diagnostics.len(), 1);
    let d = &bound.diagnostics[0];
    assert_eq!(d.code, DiagnosticCode::DocParameterMismatch);
    assert_eq!(d.severity, Severity::Warning);
    assert_eq!(d.module, b"m".to_vec());
    assert_eq!((d.line, d.column), (2, 1));
    assert_eq!(
        d.message,
        b"documented parameter is not a parameter of the declaration: y".to_vec()
    );
    assert!(bound.declarations[0].doc.is_some());
}

#[test]
fn nearest_of_two_comments_binds_and_the_other_is_orphaned() {
    let comments = vec![
        comment("first", span(1, 1, 1, 10)),
        comment("second", span(2, 1, 2, 10)),
    ];
    let decls = vec![function("f", &[], span(3, 1, 3, 20))];
    let attach_first = {
        let mut c = comments.clone();
        c[0].attach_next = true;
        c
    };
    assert_eq!(bindings(&attach_first, &decls), vec![None, Some(0)]);
    let bound = bind(&b"m".to_vec(), &attach_first, decls);
    assert_eq!(bound.declarations[0].doc.as_ref().unwrap().summary, b"second".to_vec());
    assert_eq!(bound.diagnostics.len(), 1);
    assert_eq!(bound.diagnostics[0].code, DiagnosticCode::OrphanedComment);
    assert_eq!((bound.diagnostics[0].line, bound.diagnostics[0].column), (1, 1));
    assert_eq!(
        bound.diagnostics[0].message,
        b"documentation comment is not attached to any declaration".to_vec()
    );
}

#[test]
fn comment_behind_a_declaration_on_its_line_never_binds() {
    let comments = vec![comment("inline", span(3, 25, 3, 40))];
    let decls = vec![
        function("f", &[], span(3, 1, 3, 20)),
        function("g", &[], span(4, 1, 4, 20)),
    ];
    assert_eq!(bindings(&comments, &decls), vec![None]);
}

#[test]
fn comment_separated_by_a_blank_line_needs_the_marker() {
    let mut comments = vec![comment("far", span(1, 1, 1, 10))];
    let decls = vec![function("f", &[], span(4, 1, 4, 20))];
    assert_eq!(bindings(&comments, &decls), vec![None]);
    comments[0].attach_next = true;
    assert_eq!(bindings(&comments, &decls), vec![Some(0)]);
}

#[test]
fn comment_after_every_declaration_is_orphaned() {
    let comments = vec![comment("late", span(9, 1, 9, 10))];
    let decls = vec![function("f", &[], span(3, 1, 3, 20))];
    let bound = bind(&b"m".to_vec(), &comments, decls);
    assert!(bound.declarations[0].doc.is_none());
    assert_eq!(bound.diagnostics.len(), 1);
    assert_eq!(bound.diagnostics[0].code, DiagnosticCode::OrphanedComment);
}

#[test]
fn comment_binds_to_the_first_declaration_after_it_whatever_the_list_order() {
    let comments = vec![comment("doc", span(1, 1, 1, 10))];
    let decls = vec![
        function("later", &[], span(5, 1, 5, 20)),
        function("sooner", &[], span(2, 1, 2, 20)),
    ];
    assert_eq!(bindings(&comments, &decls), vec![Some(1)]);
}

#[test]
fn malformed_tags_are_reported_in_order() {
    let comments = vec![comment("@\n@param\n@param x ok\n@since 1.0", span(1, 1, 4, 11))];
    let decls = vec![function("f", &["x"], span(5, 1, 5, 20))];
    let bound = bind(&b"mod/a".to_vec(), &comments, decls);
    let codes: Vec<DiagnosticCode> = bound.diagnostics.iter().map(|d| d.code).collect();
    assert_eq!(codes, vec![DiagnosticCode::MalformedTag, DiagnosticCode::MalformedTag]);
    assert_eq!(bound.diagnostics[0].message, b"malformed documentation tag: @".to_vec());
    assert_eq!(bound.diagnostics[1].message, b"malformed documentation tag: @param".to_vec());
    let doc = bound.declarations[0].doc.as_ref().unwrap();
    assert_eq!(doc.tags.len(), 2);
    assert_eq!(doc.tags[1].kind, TagKind::Custom);
    assert_eq!(doc.tags[1].name, b"since".to_vec());
    assert_eq!(doc.tags[1].text, b"1.0".to_vec());
}
