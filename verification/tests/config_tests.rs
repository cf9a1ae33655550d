use std::collections::HashMap;
use zorsh_gen_rs::converter::join_paths;
use zorsh_gen_rs::{
    Config, ConvertError, OutputFile, OutputStructure, SourceFile, SourceLoader, ZorshConverter,
    ZorshGen,
};

// A project directory held in memory: the files below it, by their path
// from the directory.
struct TestDir {
    root: String,
    files: Vec<(String, String)>,
}

// Stands in for a temporary directory on disk.
fn setup_test_dir() -> TestDir {
    TestDir {
        root: "/tmp/zorsh_test_project".to_string(),
        files: Vec::new(),
    }
}

// Puts the files into the directory and returns the directory's path.
fn setup_test_files(temp_dir: &mut TestDir, files: &[(&str, &str)]) -> String {
    for (path, content) in files {
        println!("Writing file: {}/{}", temp_dir.root, path);
        temp_dir.files.push((path.to_string(), content.to_string()));
    }
    temp_dir.root.clone()
}

// The output directory held in memory: the files written, by their path.
struct OutputDir {
    root: String,
    files: HashMap<String, String>,
}

impl OutputDir {
    fn join(&self, path: &str) -> String {
        format!("{}/{}", self.root, path)
    }

    fn is_file(&self, path: &str) -> bool {
        self.files.contains_key(&self.join(path))
    }

    fn read_to_string(&self, path: &str) -> String {
        self.files.get(&self.join(path)).unwrap().clone()
    }
}

// The source files below the directory as the loader chooses them: hidden
// and ignored entries are passed over, and only source files are read.
fn discover_rust_files(temp_dir: &TestDir, config: &Config) -> Vec<SourceFile> {
    let loader = SourceLoader::new(&temp_dir.root, config.ignored_patterns.clone());
    let mut chosen = Vec::new();
    for (path, content) in &temp_dir.files {
        let components: Vec<String> = path.split('/').map(|part| part.to_string()).collect();
        let mut entry = temp_dir.root.clone();
        let mut passed_over = false;
        for component in &components {
            entry = format!("{}/{}", entry, component);
            if SourceLoader::is_hidden(component) || loader.is_ignored(&entry) {
                passed_over = true;
            }
        }
        if passed_over || !SourceLoader::is_rust_file(&components[components.len() - 1]) {
            continue;
        }
        chosen.push(SourceFile {
            path: entry,
            content: content.clone(),
            module: SourceLoader::calculate_module_path(&components),
        });
    }
    chosen
}

// Runs the conversion of the directory as the command-line tool does, with
// the files in memory: the sources are chosen, converted, and written below
// the output directory.
fn convert(
    temp_dir: &TestDir,
    input_dir: &str,
    output_dir: &str,
    config: Config,
) -> Result<OutputDir, ConvertError> {
    let sources = discover_rust_files(temp_dir, &config);
    let generator = ZorshGen::new(config);
    let outputs: Vec<OutputFile> = generator.convert(input_dir, output_dir, &sources)?;
    let mut files = HashMap::new();
    for output in outputs {
        files.insert(output.path, output.content);
    }
    Ok(OutputDir {
        root: output_dir.to_string(),
        files,
    })
}

#[test]
fn test_only_annotated_config() {
    let mut temp_dir = setup_test_dir();

    let files = vec![(
        "src/lib.rs",
        r#"
            // Has BorshSerialize
            #[derive(BorshSerialize)]
            pub struct Annotated {
                field: String,
            }

            // No BorshSerialize
            pub struct Unannotated {
                field: String,
            }
        "#,
    )];

    let input_dir = setup_test_files(&mut temp_dir, &files);

    // Test with only_annotated = true (default)
    let default_config = Config::default();
    let output_dir = convert(&temp_dir, &input_dir, "generated", default_config).unwrap();

    let content = output_dir.read_to_string("src/lib.ts");
    assert!(content.contains("AnnotatedSchema"));
    assert!(!content.contains("UnannotatedSchema"));

    // Test with only_annotated = false
    let mut config = Config::default();
    config.only_annotated = false;
    let output_dir = convert(&temp_dir, &input_dir, "generated", config).unwrap();

    let content = output_dir.read_to_string("src/lib.ts");
    assert!(content.contains("AnnotatedSchema"));
    assert!(content.contains("UnannotatedSchema"));
}

#[test]
fn test_ignored_patterns_config() {
    let mut temp_dir = setup_test_dir();

    let files = vec![
        (
            "src/lib.rs",
            r#"
                #[derive(BorshSerialize)]
                pub struct MainStruct {
                    field: String,
                }
            "#,
        ),
        (
            "src/generated/types.rs",
            r#"
                #[derive(BorshSerialize)]
                pub struct GeneratedType {
                    field: String,
                }
            "#,
        ),
        (
            "src/test_utils/helpers.rs",
            r#"
                #[derive(BorshSerialize)]
                pub struct TestHelper {
                    field: String,
                }
            "#,
        ),
    ];

    let input_dir = setup_test_files(&mut temp_dir, &files);

    // Test with custom ignored patterns
    let mut config = Config::default();
    config.ignored_patterns = vec!["generated/".to_string(), "test_utils/".to_string()];

    let output_dir = convert(&temp_dir, &input_dir, "output", config).unwrap();

    // MainStruct should be processed
    assert!(output_dir.is_file("src/lib.ts"));
    let main_content = output_dir.read_to_string("src/lib.ts");
    assert!(main_content.contains("MainStructSchema"));

    // GeneratedType and TestHelper should be ignored
    assert!(!output_dir.is_file("src/generated/types.ts"));
    assert!(!output_dir.is_file("src/test_utils/helpers.ts"));
}

#[test]
fn test_output_structure_config() {
    let mut temp_dir = setup_test_dir();

    let files = vec![
        (
            "src/models/user.rs",
            r#"
                #[derive(BorshSerialize)]
                pub struct User {
                    name: String,
                }
            "#,
        ),
        (
            "src/models/post.rs",
            r#"
                #[derive(BorshSerialize)]
                pub struct Post {
                    title: String,
                }
            "#,
        ),
    ];

    let input_dir = setup_test_files(&mut temp_dir, &files);

    // Test nested structure
    {
        let config = Config {
            output_structure: OutputStructure::Nested,
            ..Config::default()
        };

        let output_dir = convert(&temp_dir, &input_dir, "output_nested", config).unwrap();

        // Should maintain directory structure
        assert!(output_dir.is_file("src/models/user.ts"));
        assert!(output_dir.is_file("src/models/post.ts"));
    }

    // Test flat structure
    {
        let config = Config {
            output_structure: OutputStructure::Flat,
            ..Config::default()
        };

        let output_dir = convert(&temp_dir, &input_dir, "output_flat", config).unwrap();

        // Should flatten directory structure
        assert!(output_dir.is_file("src_models_user.ts"));
        assert!(output_dir.is_file("src_models_post.ts"));
    }
}

#[test]
fn output_paths_are_lower_case() {
    let sources = vec![SourceFile {
        path: "Src/Models/User.rs".to_string(),
        content: "#[derive(BorshSerialize)] struct User { name: String }".to_string(),
        module: "Src::Models::User".to_string(),
    }];
    let nested = ZorshGen::new(Config::default())
        .convert("in", "out", &sources)
        .unwrap();
    assert_eq!(nested.len(), 1);
    assert_eq!(nested[0].path, "out/src/models/user.ts");

    let flat = ZorshGen::new(Config {
        output_structure: OutputStructure::Flat,
        ..Config::default()
    })
    .convert("in", "out", &sources)
    .unwrap();
    assert_eq!(flat[0].path, "out/src_models_user.ts");
}

#[test]
fn hidden_and_foreign_files_are_passed_over() {
    let mut temp_dir = setup_test_dir();
    let files = vec![
        ("src/.cache/types.rs", "#[derive(BorshSerialize)] struct Cached { a: u8 }"),
        ("src/notes.txt", "#[derive(BorshSerialize)] struct Note { a: u8 }"),
        ("tests/helper.rs", "#[derive(BorshSerialize)] struct Helper { a: u8 }"),
        ("src/kept.rs", "#[derive(BorshSerialize)] struct Kept { a: u8 }"),
    ];
    let input_dir = setup_test_files(&mut temp_dir, &files);
    let output_dir = convert(&temp_dir, &input_dir, "out", Config::default()).unwrap();
    assert_eq!(output_dir.files.len(), 1);
    assert!(output_dir.is_file("src/kept.ts"));
}

#[test]
fn first_failing_unit_decides_the_error() {
    let sources = vec![
        SourceFile {
            path: "a.rs".to_string(),
            content: "#[derive(BorshSerialize)] struct A { a: u8 }".to_string(),
            module: "a".to_string(),
        },
        SourceFile {
            path: "b.rs".to_string(),
            content: "#[derive(BorshSerialize)] struct B { a: (u8, u8) }".to_string(),
            module: "b".to_string(),
        },
        SourceFile {
            path: "c.rs".to_string(),
            content: "struct {".to_string(),
            module: "c".to_string(),
        },
    ];
    let result = ZorshGen::new(Config::default()).convert("in", "out", &sources);
    assert_eq!(
        result,
        Err(ConvertError::UnsupportedType("(u8 , u8)".to_string()))
    );
}

#[test]
fn same_path_in_two_units_is_a_duplicate() {
    let sources = vec![
        SourceFile {
            path: "one/shared.rs".to_string(),
            content: "#[derive(BorshSerialize)] struct Thing { a: u8 }".to_string(),
            module: "shared".to_string(),
        },
        SourceFile {
            path: "two/shared.rs".to_string(),
            content: "#[derive(BorshSerialize)] struct Thing { b: u8 }".to_string(),
            module: "shared".to_string(),
        },
    ];
    let result = ZorshGen::new(Config::default()).convert("in", "out", &sources);
    assert_eq!(
        result,
        Err(ConvertError::DuplicateType("shared::Thing".to_string()))
    );
}

#[test]
fn enum_of_another_unit_is_classified_once_all_are_known() {
    let sources = vec![
        SourceFile {
            path: "a.rs".to_string(),
            content: "#[derive(BorshSerialize)] struct Uses { kind: kinds::Kind }".to_string(),
            module: "a".to_string(),
        },
        SourceFile {
            path: "kinds.rs".to_string(),
            content: "#[derive(BorshSerialize)] enum Kind { One, Two }".to_string(),
            module: "kinds".to_string(),
        },
    ];
    let outputs = ZorshGen::new(Config::default())
        .convert("in", "out", &sources)
        .unwrap();
    assert_eq!(outputs.len(), 2);
    assert_eq!(outputs[0].path, "out/kinds.ts");
    assert_eq!(outputs[1].path, "out/a.ts");
    assert!(outputs[1].content.contains("import { KindSchema } from './kinds';\n"));
    assert!(outputs[1].content.contains("    kind: KindSchema\n"));
}

#[test]
fn output_path_is_taken_from_the_output_directory() {
    let nested = ZorshConverter::new("in", "out", Config::default());
    assert_eq!(nested.get_output_path("src::models::user"), "out/src/models/user.ts");
    let flat = ZorshConverter::new(
        "in",
        "out",
        Config {
            output_structure: OutputStructure::Flat,
            ..Config::default()
        },
    );
    assert_eq!(flat.get_output_path("src::models::user"), "out/src_models_user.ts");
    assert_eq!(flat.get_output_path("Src::Models::User"), "out/src_models_user.ts");

    assert_eq!(join_paths("out", "a.ts"), "out/a.ts");
    assert_eq!(join_paths("out/", "a.ts"), "out/a.ts");
    assert_eq!(join_paths("", "a.ts"), "a.ts");
    assert_eq!(join_paths("out", "/abs/a.ts"), "/abs/a.ts");
    assert_eq!(join_paths("/", "a.ts"), "/a.ts");
    assert_eq!(join_paths("out/dir", "sub/a.ts"), "out/dir/sub/a.ts");
    assert_eq!(join_paths("out", ""), "out/");
    for (dir, relative) in [("out", "a.ts"), ("out/", "a.ts"), ("", "a"), ("o", "/a"), ("/", "a"), ("a/b", "c/d"), ("out", "")] {
        let expected = std::path::Path::new(dir).join(relative);
        assert_eq!(join_paths(dir, relative), expected.to_str().unwrap());
    }
}

#[test]
fn module_imports_only_what_its_own_types_refer_to() {
    let sources = vec![
        SourceFile {
            path: "a.rs".to_string(),
            content: "#[derive(BorshSerialize)] struct A { b: b::B }".to_string(),
            module: "a".to_string(),
        },
        SourceFile {
            path: "b.rs".to_string(),
            content: "#[derive(BorshSerialize)] struct B { x: u8 }".to_string(),
            module: "b".to_string(),
        },
        SourceFile {
            path: "c.rs".to_string(),
            content: "#[derive(BorshSerialize)] struct C { x: u8 }".to_string(),
            module: "c".to_string(),
        },
    ];
    let outputs = ZorshGen::new(Config::default())
        .convert("in", "out", &sources)
        .unwrap();
    let text_of = |path: &str| {
        outputs
            .iter()
            .find(|output| output.path == path)
            .unwrap()
            .content
            .clone()
    };
    let imports = |text: &str| -> Vec<String> {
        text.lines()
            .filter(|line| line.starts_with("import "))
            .map(|line| line.to_string())
            .collect()
    };
    assert_eq!(
        imports(&text_of("out/a.ts")),
        vec![
            "import { b } from '@zorsh/zorsh';".to_string(),
            "import { BSchema } from './b';".to_string(),
        ]
    );
    assert_eq!(
        imports(&text_of("out/b.ts")),
        vec!["import { b } from '@zorsh/zorsh';".to_string()]
    );
    assert_eq!(
        imports(&text_of("out/c.ts")),
        vec!["import { b } from '@zorsh/zorsh';".to_string()]
    );
}
