use zorsh_gen_rs::source::parse_source;
use zorsh_gen_rs::syntax::{
    FieldDecl, FieldList, GenericArgument, PathSegment, SourceAttribute, SourceItem, TypeExpr,
    VariantDecl,
};
use zorsh_gen_rs::type_parser::has_borsh_derive;
use zorsh_gen_rs::{ConvertError, EnumInfo, EnumVariant, FieldInfo, StructInfo, TypeKind, TypeParser};

fn plain(name: &str) -> TypeExpr {
    TypeExpr::Path {
        text: name.to_string(),
        segments: vec![PathSegment {
            ident: name.to_string(),
            arguments: None,
        }],
    }
}

fn generic(name: &str, text: &str, arguments: Vec<GenericArgument>) -> TypeExpr {
    TypeExpr::Path {
        text: text.to_string(),
        segments: vec![PathSegment {
            ident: name.to_string(),
            arguments: Some(arguments),
        }],
    }
}

fn qualified(text: &str, idents: &[&str]) -> TypeExpr {
    TypeExpr::Path {
        text: text.to_string(),
        segments: idents
            .iter()
            .map(|ident| PathSegment {
                ident: ident.to_string(),
                arguments: None,
            })
            .collect(),
    }
}

fn parser() -> TypeParser {
    TypeParser::new("game".to_string(), true)
}

#[test]
fn source_is_read_into_plain_declarations() {
    let text = r#"
        use std::collections::HashMap;

        #[derive(Debug, BorshSerialize)]
        #[repr(C)]
        #[doc = "a struct"]
        pub struct Holder {
            items: Vec<u8>,
            table: std::collections::HashMap<String, [u16; 4]>,
            odd: &'static str,
        }

        enum Choice {
            Unit,
            Tuple(u8, Option<Holder>),
            Named { size: [u8; N] },
        }

        struct Pair(u8, u16);

        type Id = u64;

        fn ignored() {}
    "#;
    let items = parse_source(text).unwrap();
    assert_eq!(items.len(), 6);
    assert_eq!(items[0], SourceItem::Other);

    let vec_u8 = generic(
        "Vec",
        "Vec < u8 >",
        vec![GenericArgument::Type(plain("u8"))],
    );
    let table = TypeExpr::Path {
        text: "std :: collections :: HashMap < String , [u16 ; 4] >".to_string(),
        segments: vec![
            PathSegment {
                ident: "std".to_string(),
                arguments: None,
            },
            PathSegment {
                ident: "collections".to_string(),
                arguments: None,
            },
            PathSegment {
                ident: "HashMap".to_string(),
                arguments: Some(vec![
                    GenericArgument::Type(plain("String")),
                    GenericArgument::Type(TypeExpr::Array {
                        text: "[u16 ; 4]".to_string(),
                        element: Box::new(plain("u16")),
                        length: Some(4),
                    }),
                ]),
            },
        ],
    };
    assert_eq!(
        items[1],
        SourceItem::Struct {
            name: "Holder".to_string(),
            attrs: vec![
                SourceAttribute {
                    name: Some("derive".to_string()),
                    list_tokens: Some("Debug , BorshSerialize".to_string()),
                },
                SourceAttribute {
                    name: Some("repr".to_string()),
                    list_tokens: Some("C".to_string()),
                },
                SourceAttribute {
                    name: Some("doc".to_string()),
                    list_tokens: None,
                },
            ],
            fields: FieldList::Named(vec![
                FieldDecl {
                    name: Some("items".to_string()),
                    ty: vec_u8,
                },
                FieldDecl {
                    name: Some("table".to_string()),
                    ty: table,
                },
                FieldDecl {
                    name: Some("odd".to_string()),
                    ty: TypeExpr::Other {
                        text: "& 'static str".to_string(),
                    },
                },
            ]),
        }
    );
    assert_eq!(
        items[2],
        SourceItem::Enum {
            name: "Choice".to_string(),
            attrs: vec![],
            variants: vec![
                VariantDecl {
                    name: "Unit".to_string(),
                    fields: FieldList::Unit,
                },
                VariantDecl {
                    name: "Tuple".to_string(),
                    fields: FieldList::Unnamed(vec![
                        FieldDecl {
                            name: None,
                            ty: plain("u8"),
                        },
                        FieldDecl {
                            name: None,
                            ty: generic(
                                "Option",
                                "Option < Holder >",
                                vec![GenericArgument::Type(plain("Holder"))],
                            ),
                        },
                    ]),
                },
                VariantDecl {
                    name: "Named".to_string(),
                    fields: FieldList::Named(vec![FieldDecl {
                        name: Some("size".to_string()),
                        ty: TypeExpr::Array {
                            text: "[u8 ; N]".to_string(),
                            element: Box::new(plain("u8")),
                            length: None,
                        },
                    }]),
                },
            ],
        }
    );
    assert_eq!(
        items[3],
        SourceItem::Struct {
            name: "Pair".to_string(),
            attrs: vec![],
            fields: FieldList::Unnamed(vec![
                FieldDecl {
                    name: None,
                    ty: plain("u8"),
                },
                FieldDecl {
                    name: None,
                    ty: plain("u16"),
                },
            ]),
        }
    );
    assert_eq!(
        items[4],
        SourceItem::Alias {
            name: "Id".to_string(),
            target: plain("u64"),
        }
    );
    assert_eq!(items[5], SourceItem::Other);
}

#[test]
fn arguments_that_are_no_types_are_kept_apart() {
    let items = parse_source("type T = Holder<'a, u8, 3>;").unwrap();
    assert_eq!(
        items[0],
        SourceItem::Alias {
            name: "T".to_string(),
            target: generic(
                "Holder",
                "Holder < 'a , u8 , 3 >",
                vec![
                    GenericArgument::Other,
                    GenericArgument::Type(plain("u8")),
                    GenericArgument::Other,
                ],
            ),
        }
    );
}

#[test]
fn array_length_beyond_the_machine_word_is_no_length() {
    let items = parse_source("type T = [u8; 340282366920938463463374607431768211456];").unwrap();
    match &items[0] {
        SourceItem::Alias { target: TypeExpr::Array { length, .. }, .. } => assert_eq!(*length, None),
        other => panic!("unexpected item: {:?}", other),
    }
}

#[test]
fn parse_error_carries_the_parser_message() {
    match parse_source("struct Broken {") {
        Err(ConvertError::Parse(message)) => assert!(!message.is_empty()),
        other => panic!("unexpected result: {:?}", other),
    }
}

#[test]
fn primitives_text_and_containers() {
    let p = parser();
    for name in ["u8", "u16", "u32", "u64", "i8", "i16", "i32", "i64", "f32", "f64"] {
        assert_eq!(
            p.parse_type(&plain(name)),
            Ok(TypeKind::Primitive(name.to_string()))
        );
    }
    assert_eq!(p.parse_type(&plain("String")), Ok(TypeKind::String));
    assert_eq!(
        p.parse_type(&generic("Vec", "Vec < u8 >", vec![GenericArgument::Type(plain("u8"))])),
        Ok(TypeKind::Vec(Box::new(TypeKind::Primitive("u8".to_string()))))
    );
    assert_eq!(
        p.parse_type(&generic(
            "Option",
            "Option < String >",
            vec![GenericArgument::Type(plain("String"))]
        )),
        Ok(TypeKind::Option(Box::new(TypeKind::String)))
    );
    assert_eq!(
        p.parse_type(&TypeExpr::Array {
            text: "[u8 ; 20]".to_string(),
            element: Box::new(plain("u8")),
            length: Some(20),
        }),
        Ok(TypeKind::Array(
            Box::new(TypeKind::Primitive("u8".to_string())),
            20
        ))
    );
}

#[test]
fn map_takes_its_first_two_type_arguments() {
    let p = parser();
    let map = generic(
        "HashMap",
        "HashMap < 'a , String , u32 , S >",
        vec![
            GenericArgument::Other,
            GenericArgument::Type(plain("String")),
            GenericArgument::Type(plain("u32")),
            GenericArgument::Type(plain("S")),
        ],
    );
    assert_eq!(
        p.parse_type(&map),
        Ok(TypeKind::HashMap(
            Box::new(TypeKind::String),
            Box::new(TypeKind::Primitive("u32".to_string()))
        ))
    );
}

#[test]
fn sequence_needs_a_type_as_first_argument() {
    let p = parser();
    let odd = generic(
        "Vec",
        "Vec < 'a , u8 >",
        vec![GenericArgument::Other, GenericArgument::Type(plain("u8"))],
    );
    assert_eq!(
        p.parse_type(&odd),
        Err(ConvertError::UnsupportedType("Vec < 'a , u8 >".to_string()))
    );
    let empty = generic("Option", "Option < >", vec![]);
    assert_eq!(
        p.parse_type(&empty),
        Err(ConvertError::UnsupportedType("Option < >".to_string()))
    );
}

#[test]
fn inner_error_comes_through_the_container() {
    let p = parser();
    let bad = TypeExpr::Other {
        text: "(u8 , u8)".to_string(),
    };
    let vec = generic("Vec", "Vec < (u8 , u8) >", vec![GenericArgument::Type(bad)]);
    assert_eq!(
        p.parse_type(&vec),
        Err(ConvertError::UnsupportedType("(u8 , u8)".to_string()))
    );
}

#[test]
fn references_get_a_fully_qualified_path() {
    let mut p = parser();
    assert_eq!(
        p.parse_type(&plain("Item")),
        Ok(TypeKind::Struct("Item".to_string(), "game::Item".to_string()))
    );
    assert_eq!(
        p.parse_type(&qualified("super :: b :: B", &["super", "b", "B"])),
        Ok(TypeKind::Struct("B".to_string(), "b::B".to_string()))
    );
    assert_eq!(
        p.parse_type(&qualified("a :: b :: C", &["a", "b", "C"])),
        Ok(TypeKind::Struct("C".to_string(), "a::b::C".to_string()))
    );
    assert_eq!(
        p.parse_type(&qualified("a :: super :: C", &["a", "super", "C"])),
        Ok(TypeKind::Struct("C".to_string(), "a::super::C".to_string()))
    );
    assert_eq!(
        p.parse_type(&qualified("super :: C", &["super", "C"])),
        Ok(TypeKind::Struct("C".to_string(), "::C".to_string()))
    );

    p.enums.push(EnumInfo {
        name: "Status".to_string(),
        module: "game".to_string(),
        variants: vec![],
    });
    assert_eq!(
        p.parse_type(&plain("Status")),
        Ok(TypeKind::Enum("Status".to_string(), "game::Status".to_string()))
    );
    // A struct of the same path does not change that.
    p.structs.push(StructInfo {
        name: "Status".to_string(),
        module: "game".to_string(),
        fields: vec![],
    });
    assert_eq!(
        p.parse_type(&plain("Status")),
        Ok(TypeKind::Enum("Status".to_string(), "game::Status".to_string()))
    );
}

#[test]
fn aliases_are_expanded_and_cycles_found() {
    let mut p = parser();
    p.type_aliases.push((
        "Hash".to_string(),
        TypeExpr::Array {
            text: "[u8 ; 32]".to_string(),
            element: Box::new(plain("u8")),
            length: Some(32),
        },
    ));
    p.type_aliases.push(("Digest".to_string(), plain("Hash")));
    p.type_aliases.push(("X".to_string(), plain("Y")));
    p.type_aliases.push(("Y".to_string(), plain("X")));
    let array = TypeKind::Array(Box::new(TypeKind::Primitive("u8".to_string())), 32);
    assert_eq!(p.parse_type(&plain("Hash")), Ok(array.clone()));
    assert_eq!(p.parse_type(&plain("Digest")), Ok(array.clone()));
    // The last identifier of a path decides, whatever stands before it.
    assert_eq!(
        p.parse_type(&qualified("crypto :: Hash", &["crypto", "Hash"])),
        Ok(array)
    );
    assert_eq!(
        p.parse_type(&plain("X")),
        Err(ConvertError::AliasCycle("X -> Y -> X".to_string()))
    );
    assert_eq!(
        p.parse_type(&plain("Y")),
        Err(ConvertError::AliasCycle("Y -> X -> Y".to_string()))
    );
    // What leads into the cycle is not part of its name.
    p.type_aliases.push(("Entry".to_string(), plain("Digest2")));
    p.type_aliases.push(("Digest2".to_string(), plain("Y")));
    assert_eq!(
        p.parse_type(&plain("Entry")),
        Err(ConvertError::AliasCycle("Y -> X -> Y".to_string()))
    );
}

#[test]
fn alias_takes_precedence_over_a_primitive() {
    let mut p = parser();
    p.type_aliases.push(("u8".to_string(), plain("String")));
    assert_eq!(p.parse_type(&plain("u8")), Ok(TypeKind::String));
}

#[test]
fn path_without_segments_is_unsupported() {
    let p = parser();
    let empty = TypeExpr::Path {
        text: "".to_string(),
        segments: vec![],
    };
    assert_eq!(
        p.parse_type(&empty),
        Err(ConvertError::UnsupportedType("".to_string()))
    );
}

#[test]
fn marker_is_a_derive_that_names_borsh() {
    let attr = |name: Option<&str>, tokens: Option<&str>| SourceAttribute {
        name: name.map(|s| s.to_string()),
        list_tokens: tokens.map(|s| s.to_string()),
    };
    assert!(has_borsh_derive(&vec![attr(Some("derive"), Some("BorshSerialize"))]));
    assert!(has_borsh_derive(&vec![
        attr(Some("repr"), Some("C")),
        attr(Some("derive"), Some("Debug , borsh :: BorshDeserialize")),
    ]));
    assert!(!has_borsh_derive(&vec![attr(Some("derive"), Some("Debug , Clone"))]));
    assert!(!has_borsh_derive(&vec![attr(Some("borsh"), Some("BorshSerialize"))]));
    assert!(!has_borsh_derive(&vec![attr(None, Some("BorshSerialize"))]));
    assert!(!has_borsh_derive(&vec![attr(Some("derive"), None)]));
    assert!(!has_borsh_derive(&vec![]));
}

#[test]
fn unit_model_after_parsing_a_file() {
    let mut p = TypeParser::new("shop".to_string(), false);
    p.parse_file(
        r#"
        type Price = u64;
        struct Item { name: String, price: Price }
        struct Marker;
        struct Wrapper(Item);
        enum Order { Empty, One(Item), Many { items: Vec<Item>, note: Option<String> } }
    "#,
    )
    .unwrap();
    let item = TypeKind::Struct("Item".to_string(), "shop::Item".to_string());
    assert_eq!(
        p.structs,
        vec![
            StructInfo {
                name: "Item".to_string(),
                module: "shop".to_string(),
                fields: vec![
                    FieldInfo {
                        name: "name".to_string(),
                        type_kind: TypeKind::String,
                    },
                    FieldInfo {
                        name: "price".to_string(),
                        type_kind: TypeKind::Primitive("u64".to_string()),
                    },
                ],
            },
            StructInfo {
                name: "Marker".to_string(),
                module: "shop".to_string(),
                fields: vec![],
            },
            StructInfo {
                name: "Wrapper".to_string(),
                module: "shop".to_string(),
                fields: vec![],
            },
        ]
    );
    assert_eq!(
        p.enums,
        vec![EnumInfo {
            name: "Order".to_string(),
            module: "shop".to_string(),
            variants: vec![
                EnumVariant {
                    name: "Empty".to_string(),
                    fields: None,
                },
                EnumVariant {
                    name: "One".to_string(),
                    fields: Some(vec![FieldInfo {
                        name: "".to_string(),
                        type_kind: item.clone(),
                    }]),
                },
                EnumVariant {
                    name: "Many".to_string(),
                    fields: Some(vec![
                        FieldInfo {
                            name: "items".to_string(),
                            type_kind: TypeKind::Vec(Box::new(item)),
                        },
                        FieldInfo {
                            name: "note".to_string(),
                            type_kind: TypeKind::Option(Box::new(TypeKind::String)),
                        },
                    ]),
                },
            ],
        }]
    );
    assert_eq!(p.type_aliases.len(), 1);
}

#[test]
fn failing_declaration_leaves_the_earlier_ones() {
    let mut p = TypeParser::new("m".to_string(), false);
    let result = p.parse_file("struct Good { a: u8 } struct Bad { a: fn() } struct Late { a: u8 }");
    assert_eq!(result, Err(ConvertError::UnsupportedType("fn ()".to_string())));
    assert_eq!(p.structs.len(), 1);
    assert_eq!(p.structs[0].name, "Good");
}

#[test]
fn later_enum_is_not_yet_known_as_an_enum() {
    let mut p = TypeParser::new("m".to_string(), false);
    p.parse_file("enum Early { A } struct Uses { early: Early, late: Late } enum Late { B }")
        .unwrap();
    assert_eq!(
        p.structs[0].fields[0].type_kind,
        TypeKind::Enum("Early".to_string(), "m::Early".to_string())
    );
    assert_eq!(
        p.structs[0].fields[1].type_kind,
        TypeKind::Struct("Late".to_string(), "m::Late".to_string())
    );
}

#[test]
fn declarations_given_as_plain_values() {
    let marker = SourceAttribute {
        name: Some("derive".to_string()),
        list_tokens: Some("BorshSerialize".to_string()),
    };
    let items = vec![
        SourceItem::Struct {
            name: "Point".to_string(),
            attrs: vec![marker],
            fields: FieldList::Named(vec![
                FieldDecl {
                    name: Some("x".to_string()),
                    ty: plain("Coord"),
                },
                FieldDecl {
                    name: None,
                    ty: plain("u8"),
                },
            ]),
        },
        SourceItem::Other,
        SourceItem::Enum {
            name: "Skipped".to_string(),
            attrs: vec![],
            variants: vec![VariantDecl {
                name: "A".to_string(),
                fields: FieldList::Unit,
            }],
        },
        SourceItem::Alias {
            name: "Coord".to_string(),
            target: plain("i32"),
        },
    ];
    let mut p = TypeParser::new("geo".to_string(), true);
    assert_eq!(p.parse_items(&items), Ok(()));
    assert_eq!(
        p.structs,
        vec![StructInfo {
            name: "Point".to_string(),
            module: "geo".to_string(),
            fields: vec![FieldInfo {
                name: "x".to_string(),
                type_kind: TypeKind::Primitive("i32".to_string()),
            }],
        }]
    );
    assert_eq!(p.enums, vec![]);
    assert_eq!(p.type_aliases, vec![("Coord".to_string(), plain("i32"))]);
}

#[test]
fn one_declaration_at_a_time() {
    let mut p = TypeParser::new("m".to_string(), true);
    let marked = vec![SourceAttribute {
        name: Some("derive".to_string()),
        list_tokens: Some("Clone , BorshDeserialize".to_string()),
    }];
    let unmarked = vec![SourceAttribute {
        name: Some("derive".to_string()),
        list_tokens: Some("Clone".to_string()),
    }];
    assert!(p.should_process_item(&marked));
    assert!(!p.should_process_item(&unmarked));

    let pair = FieldList::Unnamed(vec![
        FieldDecl {
            name: None,
            ty: plain("u8"),
        },
        FieldDecl {
            name: None,
            ty: plain("String"),
        },
    ]);
    // A tuple struct is recorded without fields.
    assert_eq!(p.visit_item_struct(&"Pair".to_string(), &marked, &pair), Ok(()));
    assert_eq!(p.visit_item_struct(&"Left".to_string(), &unmarked, &pair), Ok(()));
    assert_eq!(p.structs.len(), 1);
    assert_eq!(p.structs[0].fields, vec![]);

    let bad = FieldList::Named(vec![FieldDecl {
        name: Some("f".to_string()),
        ty: TypeExpr::Other {
            text: "dyn Trait".to_string(),
        },
    }]);
    assert_eq!(
        p.visit_item_struct(&"Bad".to_string(), &marked, &bad),
        Err(ConvertError::UnsupportedType("dyn Trait".to_string()))
    );
    assert_eq!(p.structs.len(), 1);

    let variants = vec![
        VariantDecl {
            name: "Both".to_string(),
            fields: pair,
        },
        VariantDecl {
            name: "None".to_string(),
            fields: FieldList::Unit,
        },
    ];
    assert_eq!(p.visit_item_enum(&"Choice".to_string(), &marked, &variants), Ok(()));
    assert_eq!(
        p.enums,
        vec![EnumInfo {
            name: "Choice".to_string(),
            module: "m".to_string(),
            variants: vec![
                EnumVariant {
                    name: "Both".to_string(),
                    fields: Some(vec![
                        FieldInfo {
                            name: "".to_string(),
                            type_kind: TypeKind::Primitive("u8".to_string()),
                        },
                        FieldInfo {
                            name: "".to_string(),
                            type_kind: TypeKind::String,
                        },
                    ]),
                },
                EnumVariant {
                    name: "None".to_string(),
                    fields: None,
                },
            ],
        }]
    );

    let all = TypeParser::new("m".to_string(), false);
    assert!(all.should_process_item(&unmarked));
    assert!(all.should_process_item(&vec![]));
}

#[test]
fn alias_cycle_is_found_without_a_use() {
    let items = vec![
        SourceItem::Alias {
            name: "X".to_string(),
            target: plain("Y"),
        },
        SourceItem::Alias {
            name: "Y".to_string(),
            target: plain("X"),
        },
    ];
    let mut p = TypeParser::new("root".to_string(), false);
    assert_eq!(
        p.parse_items(&items),
        Err(ConvertError::AliasCycle("X -> Y -> X".to_string()))
    );
    assert_eq!(p.structs, vec![]);
    assert_eq!(p.enums, vec![]);
    assert_eq!(
        p.find_alias_cycle(),
        Some("X -> Y -> X".to_string())
    );

    let mut q = TypeParser::new("root".to_string(), false);
    assert_eq!(
        q.parse_file("type X = Y; type Y = X;"),
        Err(ConvertError::AliasCycle("X -> Y -> X".to_string()))
    );
    assert_eq!(q.structs, vec![]);
    assert_eq!(q.enums, vec![]);
}

#[test]
fn unused_alias_that_does_not_resolve_is_no_error() {
    let mut p = TypeParser::new("root".to_string(), false);
    assert_eq!(
        p.parse_file("type Callback = fn(u8) -> u8; type Chain = Vec<Callback>; struct S { a: u8 }"),
        Ok(())
    );
    assert_eq!(p.find_alias_cycle(), None);
    assert_eq!(p.structs.len(), 1);
}
