use zorsh_gen_rs::{convert_str, Config, ConvertError, OutputStructure, ZorshGen};

#[test]
fn test_basic_struct() {
    let input = r#"
            #[derive(BorshSerialize)]
            struct User {
                name: String,
                age: u32,
            }
        "#;

    let output = convert_str(input).unwrap();
    assert!(output.contains("export const UserSchema"));
    assert!(output.contains("b.string()"));
    assert!(output.contains("b.u32()"));
}

#[test]
fn test_complex_types() {
    let input = r#"
            #[derive(BorshSerialize)]
            struct Player {
                inventory: HashMap<String, Vec<Item>>,
                status: Option<PlayerStatus>,
            }

            #[derive(BorshSerialize)]
            struct Item {
                name: String,
                quantity: u32,
            }

            #[derive(BorshSerialize)]
            enum PlayerStatus {
                Idle,
                Fighting,
            }
        "#;

    let output = convert_str(input).unwrap();
    assert!(output.contains("b.hashMap("));
    assert!(output.contains("b.vec("));
    assert!(output.contains("b.option("));
}

#[test]
fn basic_struct_exact_text() {
    let input = "#[derive(BorshSerialize)] struct User { name: String, age: u32 }";
    let expected = "import { b } from '@zorsh/zorsh';\n\
\n\
export const UserSchema = b.struct({\n    name: b.string(),\n    age: b.u32()\n});\n\
\n\
export {\n    UserSchema\n};\n";
    assert_eq!(convert_str(input).unwrap(), expected);
}

#[test]
fn dependency_is_emitted_before_dependent() {
    let input = r#"
        #[derive(BorshSerialize)]
        struct Player { inventory: Inventory }
        #[derive(BorshSerialize)]
        struct Inventory { capacity: u32 }
    "#;
    let output = convert_str(input).unwrap();
    let inventory = output.find("export const InventorySchema").unwrap();
    let player = output.find("export const PlayerSchema").unwrap();
    assert!(inventory < player);
    assert!(!output.contains("import { InventorySchema }"));
}

#[test]
fn independent_types_are_ordered_by_path() {
    let input = r#"
        #[derive(BorshSerialize)]
        struct Zebra { a: u8 }
        #[derive(BorshSerialize)]
        enum Mango { A }
        #[derive(BorshSerialize)]
        struct Apple { a: u8 }
    "#;
    let output = convert_str(input).unwrap();
    let apple = output.find("export const AppleSchema").unwrap();
    let mango = output.find("export const MangoSchema").unwrap();
    let zebra = output.find("export const ZebraSchema").unwrap();
    assert!(apple < mango);
    assert!(mango < zebra);
    assert!(output.ends_with("export {\n    AppleSchema,\n    MangoSchema,\n    ZebraSchema\n};\n"));
}

#[test]
fn conversion_is_deterministic() {
    let input = r#"
        #[derive(BorshSerialize)]
        struct B { a: A, c: Vec<C> }
        #[derive(BorshSerialize)]
        struct A { x: u8 }
        #[derive(BorshSerialize)]
        enum C { One, Two(A) }
    "#;
    let first = convert_str(input).unwrap();
    let second = convert_str(input).unwrap();
    assert_eq!(first, second);
}

#[test]
fn mutual_reference_is_a_dependency_cycle() {
    let input = r#"
        #[derive(BorshSerialize)]
        struct A { b: B }
        #[derive(BorshSerialize)]
        struct B { a: A }
    "#;
    assert_eq!(
        convert_str(input),
        Err(ConvertError::DependencyCycle("root::A".to_string()))
    );
}

#[test]
fn self_reference_through_a_sequence_is_a_dependency_cycle() {
    let input = "#[derive(BorshSerialize)] struct Node { children: Vec<Node> }";
    assert_eq!(
        convert_str(input),
        Err(ConvertError::DependencyCycle("root::Node".to_string()))
    );
}

#[test]
fn type_behind_a_cycle_is_not_emitted() {
    let input = r#"
        #[derive(BorshSerialize)]
        struct A { b: B }
        #[derive(BorshSerialize)]
        struct B { a: A }
        #[derive(BorshSerialize)]
        struct Free { x: u8 }
    "#;
    assert!(matches!(
        convert_str(input),
        Err(ConvertError::DependencyCycle(_))
    ));
}

#[test]
fn alias_cycle_is_rejected() {
    let input = r#"
        type X = Y;
        type Y = X;
        #[derive(BorshSerialize)]
        struct Holder { x: X }
    "#;
    assert_eq!(
        convert_str(input),
        Err(ConvertError::AliasCycle("X -> Y -> X".to_string()))
    );
}

#[test]
fn alias_is_transparent() {
    let through_alias = r#"
        type Hash = [u8; 32];
        #[derive(BorshSerialize)]
        struct Block { hash: Hash }
    "#;
    let direct = r#"
        #[derive(BorshSerialize)]
        struct Block { hash: [u8; 32] }
    "#;
    let a = convert_str(through_alias).unwrap();
    let b = convert_str(direct).unwrap();
    assert_eq!(a, b);
    assert!(a.contains("    hash: b.array(b.u8(), 32)"));
}

#[test]
fn duplicate_declaration_is_rejected() {
    let input = r#"
        #[derive(BorshSerialize)]
        struct Twice { a: u8 }
        #[derive(BorshSerialize)]
        enum Twice { A }
    "#;
    assert_eq!(
        convert_str(input),
        Err(ConvertError::DuplicateType("root::Twice".to_string()))
    );
}

#[test]
fn malformed_text_is_a_parse_error() {
    let result = convert_str("struct { this is not rust");
    assert!(matches!(result, Err(ConvertError::Parse(_))));
}

#[test]
fn unsupported_shapes_are_rejected() {
    let tuple = "#[derive(BorshSerialize)] struct T { pair: (u8, u8) }";
    assert_eq!(
        convert_str(tuple),
        Err(ConvertError::UnsupportedType("(u8 , u8)".to_string()))
    );
    let reference = "#[derive(BorshSerialize)] struct R<'a> { name: &'a str }";
    assert_eq!(
        convert_str(reference),
        Err(ConvertError::UnsupportedType("& 'a str".to_string()))
    );
    let bare_vec = "#[derive(BorshSerialize)] struct V { items: Vec }";
    assert_eq!(
        convert_str(bare_vec),
        Err(ConvertError::UnsupportedType("Vec".to_string()))
    );
    let short_map = "#[derive(BorshSerialize)] struct M { items: HashMap<String> }";
    assert_eq!(
        convert_str(short_map),
        Err(ConvertError::UnsupportedType("HashMap < String >".to_string()))
    );
    let named_length = "#[derive(BorshSerialize)] struct A { items: [u8; N] }";
    assert_eq!(
        convert_str(named_length),
        Err(ConvertError::UnsupportedType("[u8 ; N]".to_string()))
    );
}

#[test]
fn error_messages_name_the_offender() {
    assert_eq!(
        ConvertError::AliasCycle("X -> Y -> X".to_string()).message(),
        "Type alias cycle detected: X -> Y -> X"
    );
    assert_eq!(
        ConvertError::DependencyCycle("root::A".to_string()).message(),
        "Dependency cycle detected: root::A"
    );
    assert_eq!(
        ConvertError::DuplicateType("root::A".to_string()).message(),
        "Duplicate type: root::A"
    );
    assert_eq!(
        ConvertError::UnsupportedType("(u8 , u8)".to_string()).message(),
        "Unsupported type: (u8 , u8)"
    );
    assert_eq!(
        ConvertError::Parse("expected item".to_string()).message(),
        "Parse error: expected item"
    );
}

#[test]
fn unannotated_declarations_are_left_out_by_default() {
    let input = r#"
        #[derive(BorshSerialize)]
        struct Marked { a: u8 }
        #[derive(Debug, BorshDeserialize)]
        struct AlsoMarked { a: u8 }
        #[derive(Debug)]
        struct Plain { a: u8 }
        struct Bare { a: u8 }
    "#;
    let output = convert_str(input).unwrap();
    assert!(output.contains("MarkedSchema"));
    assert!(output.contains("AlsoMarkedSchema"));
    assert!(!output.contains("PlainSchema"));
    assert!(!output.contains("BareSchema"));

    let all = ZorshGen::new(Config {
        only_annotated: false,
        ..Config::default()
    });
    let output = all.convert_str(input).unwrap();
    assert!(output.contains("PlainSchema"));
    assert!(output.contains("BareSchema"));
}

#[test]
fn default_config_values() {
    let config = Config::default();
    assert!(config.only_annotated);
    assert_eq!(
        config.ignored_patterns,
        vec!["tests/".to_string(), "examples/".to_string(), "target/".to_string()]
    );
    assert_eq!(config.output_structure, OutputStructure::Nested);
    let copy = config.clone();
    assert_eq!(copy.ignored_patterns, config.ignored_patterns);
    assert_eq!(copy.only_annotated, config.only_annotated);
    assert_eq!(copy.output_structure, config.output_structure);
}

#[test]
fn empty_source_gives_an_empty_module() {
    assert_eq!(convert_str("").unwrap(), "import { b } from '@zorsh/zorsh';\n\n");
}

#[test]
fn nested_declarations_are_not_top_level() {
    let input = r#"
        mod inner {
            #[derive(BorshSerialize)]
            struct Hidden { a: u8 }
        }
        #[derive(BorshSerialize)]
        struct Shown { a: u8 }
    "#;
    let output = convert_str(input).unwrap();
    assert!(output.contains("ShownSchema"));
    assert!(!output.contains("HiddenSchema"));
}

#[test]
fn two_cyclic_aliases_alone_are_rejected() {
    assert_eq!(
        convert_str("type X = Y; type Y = X;"),
        Err(ConvertError::AliasCycle("X -> Y -> X".to_string()))
    );
}

#[test]
fn single_text_has_no_import_but_the_base_line() {
    let input = r#"
        #[derive(BorshSerialize)]
        struct Holder { far: other::T, farther: a::b::U, near: Near }
        #[derive(BorshSerialize)]
        struct Near { x: u8 }
    "#;
    let output = convert_str(input).unwrap();
    let imports: Vec<&str> = output
        .lines()
        .filter(|line| line.starts_with("import "))
        .collect();
    assert_eq!(imports, vec!["import { b } from '@zorsh/zorsh';"]);
    assert!(output.contains("    far: TSchema,\n    farther: USchema,\n    near: NearSchema\n"));
}
