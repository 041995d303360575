use luau_docgen::declaration::{Param, Signature};
use luau_docgen::signature::{copy_type, is_nil_type, normalize, optional_of, TypeExpr};
use luau_docgen::wire::{decode, encode};
use luau_docgen::wire_signature::{parse, serialize};

fn prim(name: &str) -> TypeExpr {
    TypeExpr::Primitive(name.as_bytes().to_vec())
}

fn optional(t: TypeExpr) -> TypeExpr {
    TypeExpr::Optional(Box::new(t))
}

fn sample() -> TypeExpr {
    TypeExpr::Function(
        vec![
            optional(prim("number")),
            TypeExpr::Union(vec![
                TypeExpr::Reference { module: b"src/a".to_vec(), name: b"Point".to_vec() },
                TypeExpr::Resolved(b"src/b#Size".to_vec()),
            ]),
        ],
        vec![TypeExpr::External(b"Vector3".to_vec()), TypeExpr::Union(vec![])],
    )
}

#[test]
fn both_optional_notations_have_one_canonical_form() {
    let question = optional(prim("string"));
    let with_nil = TypeExpr::Union(vec![prim("string"), prim("nil")]);
    let nil_first = TypeExpr::Union(vec![prim("nil"), prim("string")]);
    let expected = optional(prim("string"));
    assert_eq!(normalize(&question), expected);
    assert_eq!(normalize(&with_nil), expected);
    assert_eq!(normalize(&nil_first), expected);
}

#[test]
fn optional_of_optional_is_optional() {
    assert_eq!(normalize(&optional(optional(prim("number")))), optional(prim("number")));
    assert_eq!(optional_of(optional(prim("number"))), optional(prim("number")));
}

#[test]
fn nil_stays_nil_when_made_optional() {
    assert!(is_nil_type(&prim("nil")));
    assert!(!is_nil_type(&prim("nib")));
    assert!(!is_nil_type(&prim("nile")));
    assert_eq!(normalize(&optional(prim("nil"))), prim("nil"));
    assert_eq!(normalize(&TypeExpr::Union(vec![prim("nil"), prim("nil")])), prim("nil"));
}

#[test]
fn union_of_one_member_is_that_member() {
    assert_eq!(normalize(&TypeExpr::Union(vec![prim("number")])), prim("number"));
}

#[test]
fn union_keeps_its_other_members_in_order() {
    let t = TypeExpr::Union(vec![prim("number"), prim("nil"), optional(optional(prim("string")))]);
    assert_eq!(
        normalize(&t),
        optional(TypeExpr::Union(vec![prim("number"), optional(prim("string"))]))
    );
    let plain = TypeExpr::Union(vec![prim("a"), prim("b")]);
    assert_eq!(normalize(&plain), TypeExpr::Union(vec![prim("a"), prim("b")]));
    assert_eq!(normalize(&TypeExpr::Union(vec![])), TypeExpr::Union(vec![]));
}

#[test]
fn function_types_are_normalised_inside() {
    let t = TypeExpr::Function(
        vec![TypeExpr::Union(vec![prim("T"), prim("nil")])],
        vec![optional(optional(prim("U")))],
    );
    assert_eq!(
        normalize(&t),
        TypeExpr::Function(vec![optional(prim("T"))], vec![optional(prim("U"))])
    );
}

#[test]
fn normalising_twice_changes_nothing_more() {
    let once = normalize(&sample());
    assert_eq!(normalize(&once), once);
}

#[test]
fn names_are_left_alone() {
    let r = TypeExpr::Reference { module: b"m".to_vec(), name: b"T".to_vec() };
    assert_eq!(normalize(&r), TypeExpr::Reference { module: b"m".to_vec(), name: b"T".to_vec() });
    assert_eq!(copy_type(&sample()), sample());
}

#[test]
fn written_type_has_the_documented_bytes() {
    let mut expected = vec![4u8, 0u8];
    expected.extend_from_slice(&[2, 0, 0, 0, 0, 0, 0, 0]);
    expected.extend_from_slice(b"ab");
    assert_eq!(encode(&optional(prim("ab"))), expected);
}

#[test]
fn type_survives_writing_and_reading() {
    let bytes = encode(&sample());
    assert_eq!(decode(&bytes), Some(sample()));
}

#[test]
fn truncated_or_extended_bytes_are_no_type() {
    let bytes = encode(&sample());
    assert_eq!(decode(&bytes[..bytes.len() - 1].to_vec()), None);
    let mut longer = bytes.clone();
    longer.push(0);
    assert_eq!(decode(&longer), None);
    assert_eq!(decode(&vec![]), None);
    assert_eq!(decode(&vec![9u8]), None);
    assert_eq!(decode(&vec![5u8, 255, 255, 255, 255, 255, 255, 255, 255]), None);
}

#[test]
fn signature_survives_serialising_and_parsing() {
    let build = || Signature {
        generics: vec![b"T".to_vec(), b"U".to_vec()],
        params: vec![
            Param { name: b"x".to_vec(), ty: sample(), default: None },
            Param { name: b"y".to_vec(), ty: prim("number"), default: Some(b"1 + 2".to_vec()) },
        ],
        returns: vec![optional(prim("T")), prim("U")],
    };
    let bytes = serialize(&build());
    assert_eq!(parse(&bytes), Some(build()));
    let normalised = Signature {
        generics: vec![],
        params: vec![Param { name: vec![], ty: normalize(&sample()), default: Some(vec![]) }],
        returns: vec![],
    };
    let again = parse(&serialize(&normalised)).unwrap();
    assert_eq!(again, normalised);
}

#[test]
fn bytes_that_are_no_signature_do_not_parse() {
    assert_eq!(parse(&vec![]), None);
    assert_eq!(parse(&vec![0u8; 23]), None);
    assert_eq!(
        parse(&vec![0u8; 24]),
        Some(Signature { generics: vec![], params: vec![], returns: vec![] })
    );
    assert_eq!(parse(&vec![0u8; 25]), None);
}
