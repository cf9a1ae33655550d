use zorsh_gen_rs::classify::{classify_enums, classify_structs, classify_type};
use zorsh_gen_rs::{EnumInfo, EnumVariant, FieldInfo, StructInfo, TypeKind, TypeParser};

fn struct_ref(name: &str, path: &str) -> TypeKind {
    TypeKind::Struct(name.to_string(), path.to_string())
}

fn enum_ref(name: &str, path: &str) -> TypeKind {
    TypeKind::Enum(name.to_string(), path.to_string())
}

fn declared() -> (Vec<StructInfo>, Vec<EnumInfo>) {
    (
        vec![
            StructInfo {
                name: "Thing".to_string(),
                module: "m".to_string(),
                fields: vec![],
            },
            StructInfo {
                name: "Both".to_string(),
                module: "m".to_string(),
                fields: vec![],
            },
        ],
        vec![
            EnumInfo {
                name: "Choice".to_string(),
                module: "m".to_string(),
                variants: vec![],
            },
            EnumInfo {
                name: "Both".to_string(),
                module: "m".to_string(),
                variants: vec![],
            },
        ],
    )
}

#[test]
fn references_are_classified_by_what_is_declared() {
    let (_structs, enums) = declared();
    assert_eq!(
        classify_type(&enums, &struct_ref("Choice", "m::Choice")),
        enum_ref("Choice", "m::Choice")
    );
    assert_eq!(
        classify_type(&enums, &enum_ref("Thing", "m::Thing")),
        struct_ref("Thing", "m::Thing")
    );
    // A path that is declared as an enum is an enum, whatever else is
    // declared there.
    assert_eq!(
        classify_type(&enums, &struct_ref("Both", "m::Both")),
        enum_ref("Both", "m::Both")
    );
    assert_eq!(
        classify_type(&enums, &enum_ref("Gone", "m::Gone")),
        struct_ref("Gone", "m::Gone")
    );
    assert_eq!(
        classify_type(&enums, &struct_ref("Choice", "other::Choice")),
        struct_ref("Choice", "other::Choice")
    );
}

#[test]
fn classification_reaches_into_containers() {
    let (_structs, enums) = declared();
    let before = TypeKind::HashMap(
        Box::new(TypeKind::String),
        Box::new(TypeKind::Vec(Box::new(TypeKind::Option(Box::new(
            TypeKind::Array(Box::new(struct_ref("Choice", "m::Choice")), 3),
        ))))),
    );
    let after = TypeKind::HashMap(
        Box::new(TypeKind::String),
        Box::new(TypeKind::Vec(Box::new(TypeKind::Option(Box::new(
            TypeKind::Array(Box::new(enum_ref("Choice", "m::Choice")), 3),
        ))))),
    );
    assert_eq!(classify_type(&enums, &before), after);
    assert_eq!(
        classify_type(&enums, &TypeKind::Primitive("u8".to_string())),
        TypeKind::Primitive("u8".to_string())
    );
}

#[test]
fn enum_declared_after_its_use_is_classified_at_the_end() {
    let mut parser = TypeParser::new("m".to_string(), false);
    parser
        .parse_file("struct Uses { late: Late, list: Vec<Late> } enum Late { A, B(Uses) }")
        .unwrap();
    assert_eq!(
        parser.structs[0].fields[0].type_kind,
        struct_ref("Late", "m::Late")
    );
    let structs = classify_structs(&parser.structs, &parser.enums);
    let enums = classify_enums(&parser.enums);
    assert_eq!(
        structs,
        vec![StructInfo {
            name: "Uses".to_string(),
            module: "m".to_string(),
            fields: vec![
                FieldInfo {
                    name: "late".to_string(),
                    type_kind: enum_ref("Late", "m::Late"),
                },
                FieldInfo {
                    name: "list".to_string(),
                    type_kind: TypeKind::Vec(Box::new(enum_ref("Late", "m::Late"))),
                },
            ],
        }]
    );
    assert_eq!(
        enums,
        vec![EnumInfo {
            name: "Late".to_string(),
            module: "m".to_string(),
            variants: vec![
                EnumVariant {
                    name: "A".to_string(),
                    fields: None,
                },
                EnumVariant {
                    name: "B".to_string(),
                    fields: Some(vec![FieldInfo {
                        name: "".to_string(),
                        type_kind: struct_ref("Uses", "m::Uses"),
                    }]),
                },
            ],
        }]
    );
}
