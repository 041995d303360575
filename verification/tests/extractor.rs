use luau_docgen::declaration::{children_of, DeclKind, Param, Visibility};
use luau_docgen::extractor::{extract, qualified};
use luau_docgen::model::{Position, Span};
use luau_docgen::signature::TypeExpr;
use luau_docgen::syntax::{Statement, StatementKind};

fn span(line: u32) -> Span {
    Span { start: Position { line, column: 1 }, end: Position { line, column: 40 } }
}

fn statement(kind: StatementKind, name: &str, line: u32, members: Vec<Statement>) -> Statement {
    Statement {
        kind,
        name: name.as_bytes().to_vec(),
        exported: name.chars().next().map_or(false, |c| c.is_uppercase()),
        span: span(line),
        generics: vec![],
        params: vec![],
        returns: vec![],
        members,
    }
}

#[test]
fn top_level_forms_are_recognised() {
    let decls = extract(&vec![
        statement(StatementKind::TypeDefinition, "Point", 1, vec![]),
        statement(StatementKind::Other, "ignored", 2, vec![]),
        statement(StatementKind::FunctionDefinition, "helper", 3, vec![]),
        statement(StatementKind::ExportedBinding, "Version", 4, vec![]),
        statement(StatementKind::Field, "stray", 5, vec![]),
    ]);
    let kinds: Vec<DeclKind> = decls.iter().map(|d| d.kind).collect();
    assert_eq!(kinds, vec![DeclKind::Type, DeclKind::Function, DeclKind::Export]);
    assert_eq!(decls[0].visibility, Visibility::Public);
    assert_eq!(decls[1].visibility, Visibility::Private);
    assert_eq!(decls[1].qualified_name, b"helper".to_vec());
    assert!(decls.iter().all(|d| d.parent.is_none() && d.doc.is_none()));
    assert_eq!(decls[2].span, span(4));
}

#[test]
fn members_follow_their_type_and_name_it_as_parent() {
    let decls = extract(&vec![
        statement(StatementKind::FunctionDefinition, "first", 1, vec![]),
        statement(
            StatementKind::TypeDefinition,
            "Outer",
            2,
            vec![
                statement(StatementKind::Field, "x", 3, vec![]),
                statement(StatementKind::ExportedBinding, "skipped", 4, vec![]),
                statement(
                    StatementKind::TypeDefinition,
                    "Inner",
                    5,
                    vec![statement(StatementKind::FunctionDefinition, "get", 6, vec![])],
                ),
                statement(StatementKind::Field, "y", 7, vec![]),
            ],
        ),
        statement(StatementKind::FunctionDefinition, "last", 8, vec![]),
    ]);
    let names: Vec<String> =
        decls.iter().map(|d| String::from_utf8(d.qualified_name.clone()).unwrap()).collect();
    assert_eq!(
        names,
        vec!["first", "Outer", "Outer.x", "Outer.Inner", "Outer.Inner.get", "Outer.y", "last"]
    );
    let parents: Vec<Option<usize>> = decls.iter().map(|d| d.parent).collect();
    assert_eq!(parents, vec![None, None, Some(1), Some(1), Some(3), Some(1), None]);
    assert_eq!(children_of(&decls, 1), vec![2, 3, 5]);
    assert_eq!(children_of(&decls, 3), vec![4]);
    assert_eq!(children_of(&decls, 0), Vec::<usize>::new());
    assert_eq!(decls[4].kind, DeclKind::Function);
    assert_eq!(decls[2].kind, DeclKind::Field);
}

#[test]
fn members_of_a_function_are_not_descended_into() {
    let decls = extract(&vec![statement(
        StatementKind::FunctionDefinition,
        "f",
        1,
        vec![statement(StatementKind::FunctionDefinition, "local_helper", 2, vec![])],
    )]);
    assert_eq!(decls.len(), 1);
}

#[test]
fn signatures_are_brought_into_canonical_form() {
    let mut s = statement(StatementKind::FunctionDefinition, "f", 1, vec![]);
    s.generics = vec![b"T".to_vec()];
    s.params = vec![Param {
        name: b"x".to_vec(),
        ty: TypeExpr::Union(vec![
            TypeExpr::Primitive(b"T".to_vec()),
            TypeExpr::Primitive(b"nil".to_vec()),
        ]),
        default: Some(b"nil".to_vec()),
    }];
    s.returns = vec![TypeExpr::Optional(Box::new(TypeExpr::Optional(Box::new(
        TypeExpr::Primitive(b"T".to_vec()),
    ))))];
    let decls = extract(&vec![s]);
    let optional_t = || TypeExpr::Optional(Box::new(TypeExpr::Primitive(b"T".to_vec())));
    assert_eq!(decls[0].signature.generics, vec![b"T".to_vec()]);
    assert_eq!(decls[0].signature.params[0].ty, optional_t());
    assert_eq!(decls[0].signature.params[0].name, b"x".to_vec());
    assert_eq!(decls[0].signature.params[0].default, Some(b"nil".to_vec()));
    assert_eq!(decls[0].signature.returns, vec![optional_t()]);
}

#[test]
fn qualified_names_are_joined_by_a_dot() {
    assert_eq!(qualified(&vec![], &b"f".to_vec()), b"f".to_vec());
    assert_eq!(qualified(&b"A.B".to_vec(), &b"f".to_vec()), b"A.B.f".to_vec());
}

#[test]
fn no_statements_give_no_declarations() {
    assert!(extract(&vec![]).is_empty());
}
