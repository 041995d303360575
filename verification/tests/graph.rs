use luau_docgen::declaration::{DeclKind, Declaration, Param, Signature, Visibility};
use luau_docgen::graph::{
    build, collect_ids, find_collision, identifier_of, resolve, Module,
};
use luau_docgen::model::{DiagnosticCode, Position, Severity, Span};
use luau_docgen::signature::TypeExpr;

fn declaration(name: &str, line: u32, params: Vec<TypeExpr>, returns: Vec<TypeExpr>) -> Declaration {
    Declaration {
        kind: DeclKind::Type,
        name: name.as_bytes().to_vec(),
        qualified_name: name.as_bytes().to_vec(),
        signature: Signature {
            generics: vec![],
            params: params
                .into_iter()
                .map(|ty| Param { name: b"p".to_vec(), ty, default: None })
                .collect(),
            returns,
        },
        span: Span {
            start: Position { line, column: 2 },
            end: Position { line, column: 30 },
        },
        visibility: Visibility::Public,
        doc: None,
        parent: None,
    }
}

fn module(path: &str, declarations: Vec<Declaration>) -> Module {
    Module {
        path: path.as_bytes().to_vec(),
        file: format!("/p/{}", path).into_bytes(),
        source: vec![],
        declarations,
        diagnostics: vec![],
    }
}

fn reference(module: &str, name: &str) -> TypeExpr {
    TypeExpr::Reference { module: module.as_bytes().to_vec(), name: name.as_bytes().to_vec() }
}

#[test]
fn identifier_is_path_hash_qualified_name() {
    assert_eq!(identifier_of(&b"src/a".to_vec(), &b"T.x".to_vec()), b"src/a#T.x".to_vec());
    assert_eq!(identifier_of(&vec![], &vec![]), b"#".to_vec());
}

#[test]
fn identifiers_are_collected_module_by_module() {
    let modules = vec![
        module("a", vec![declaration("X", 1, vec![], vec![]), declaration("Y", 2, vec![], vec![])]),
        module("empty", vec![]),
        module("b", vec![declaration("X", 1, vec![], vec![])]),
    ];
    assert_eq!(collect_ids(&modules), vec![b"a#X".to_vec(), b"a#Y".to_vec(), b"b#X".to_vec()]);
}

#[test]
fn first_collision_is_the_first_repeat() {
    let ids = |names: &[&str]| names.iter().map(|n| n.as_bytes().to_vec()).collect::<Vec<_>>();
    assert_eq!(find_collision(&ids(&["a", "b", "c"])), None);
    assert_eq!(find_collision(&ids(&[])), None);
    assert_eq!(find_collision(&ids(&["a", "b", "a", "b"])), Some((0, 2)));
    assert_eq!(find_collision(&ids(&["a", "b", "b", "a", "b"])), Some((1, 2)));
}

#[test]
fn references_are_resolved_against_all_modules() {
    let modules = vec![
        module(
            "a",
            vec![declaration(
                "User",
                1,
                vec![reference("b", "Id"), reference("b", "Missing")],
                vec![TypeExpr::Optional(Box::new(reference("a", "User")))],
            )],
        ),
        module("b", vec![declaration("Id", 4, vec![], vec![TypeExpr::Primitive(b"number".to_vec())])]),
    ];
    let graph = build(modules, &b"1.0".to_vec()).unwrap();
    assert_eq!(graph.generator_version, b"1.0".to_vec());
    assert_eq!(graph.identifiers, vec![b"a#User".to_vec(), b"b#Id".to_vec()]);
    let user = &graph.modules[0].declarations[0];
    assert_eq!(user.signature.params[0].ty, TypeExpr::Resolved(b"b#Id".to_vec()));
    assert_eq!(user.signature.params[1].ty, TypeExpr::External(b"Missing".to_vec()));
    assert_eq!(
        user.signature.returns[0],
        TypeExpr::Optional(Box::new(TypeExpr::Resolved(b"a#User".to_vec())))
    );
    let diagnostics = graph.diagnostics();
    assert_eq!(diagnostics.len(), 1);
    assert_eq!(diagnostics[0].code, DiagnosticCode::UnresolvedReference);
    assert_eq!(diagnostics[0].severity, Severity::Warning);
    assert_eq!(diagnostics[0].message, b"unresolved reference: b#Missing".to_vec());
    assert_eq!(diagnostics[0].module, b"a".to_vec());
    assert_eq!((diagnostics[0].line, diagnostics[0].column), (1, 2));
    assert_eq!(graph.find(&b"b#Id".to_vec()), Some((1, 0)));
    assert_eq!(graph.find(&b"b#User".to_vec()), None);
    assert_eq!(graph.find_module(&b"b".to_vec()), Some(1));
    assert_eq!(graph.find_module(&b"c".to_vec()), None);
}

#[test]
fn forward_references_resolve_whatever_the_module_order() {
    let modules = vec![
        module("z", vec![declaration("Late", 1, vec![], vec![])]),
        module("a", vec![declaration("Early", 1, vec![reference("z", "Late")], vec![])]),
    ];
    let graph = build(modules, &vec![]).unwrap();
    assert_eq!(
        graph.modules[1].declarations[0].signature.params[0].ty,
        TypeExpr::Resolved(b"z#Late".to_vec())
    );
    assert!(graph.diagnostics().is_empty());
}

#[test]
fn identifier_already_in_place_is_kept_only_if_known() {
    let ids = vec![b"m#T".to_vec()];
    let mut missing = vec![];
    assert_eq!(
        resolve(&TypeExpr::Resolved(b"m#T".to_vec()), &ids, &mut missing),
        TypeExpr::Resolved(b"m#T".to_vec())
    );
    assert_eq!(
        resolve(&TypeExpr::Resolved(b"m#U".to_vec()), &ids, &mut missing),
        TypeExpr::External(b"m#U".to_vec())
    );
    assert_eq!(missing, vec![b"m#U".to_vec()]);
    let union = TypeExpr::Union(vec![
        TypeExpr::Primitive(b"number".to_vec()),
        TypeExpr::External(b"E".to_vec()),
        TypeExpr::Function(vec![reference("m", "U")], vec![reference("m", "T")]),
    ]);
    assert_eq!(
        resolve(&union, &ids, &mut missing),
        TypeExpr::Union(vec![
            TypeExpr::Primitive(b"number".to_vec()),
            TypeExpr::External(b"E".to_vec()),
            TypeExpr::Function(
                vec![TypeExpr::External(b"U".to_vec())],
                vec![TypeExpr::Resolved(b"m#T".to_vec())]
            ),
        ])
    );
    assert_eq!(missing, vec![b"m#U".to_vec(), b"m#U".to_vec()]);
}

#[test]
fn collision_names_the_declaration_that_claimed_the_identifier_again() {
    let modules = vec![
        module("a", vec![declaration("X", 1, vec![], vec![]), declaration("Y", 2, vec![], vec![])]),
        module("a", vec![declaration("Z", 3, vec![], vec![]), declaration("Y", 9, vec![], vec![])]),
    ];
    let collision = build(modules, &vec![]).unwrap_err();
    assert_eq!(collision.identifier, b"a#Y".to_vec());
    assert_eq!((collision.first, collision.second), (1, 3));
    assert_eq!((collision.module, collision.declaration), (1, 1));
    assert_eq!(collision.path, b"a".to_vec());
    assert_eq!(collision.at, Position { line: 9, column: 2 });
}

#[test]
fn adding_an_unreferenced_declaration_leaves_the_others_as_they_were() {
    let base = || {
        vec![
            declaration("A", 1, vec![reference("m", "B"), reference("m", "Nowhere")], vec![]),
            declaration("B", 5, vec![], vec![reference("m", "A")]),
        ]
    };
    let without = build(vec![module("m", base())], &vec![]).unwrap();
    let mut more = base();
    more.insert(1, declaration("helper", 3, vec![], vec![]));
    let with = build(vec![module("m", more)], &vec![]).unwrap();
    assert_eq!(with.modules[0].declarations[0], without.modules[0].declarations[0]);
    assert_eq!(with.modules[0].declarations[2], without.modules[0].declarations[1]);
    assert_eq!(with.identifiers[0], without.identifiers[0]);
    assert_eq!(with.identifiers[2], without.identifiers[1]);
    assert_eq!(with.diagnostics(), without.diagnostics());
}
