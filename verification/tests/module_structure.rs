use std::collections::HashMap;
use zorsh_gen_rs::{Config, ConvertError, OutputFile, SourceFile, SourceLoader, ZorshGen};

// A project directory held in memory: the files below it, by their path
// from the directory.
struct TestDir {
    root: String,
    files: Vec<(String, String)>,
}

// Stands in for a temporary directory on disk.
fn setup_test_dir() -> TestDir {
    TestDir {
        root: "/tmp/zorsh_test_project".to_string(),
        files: Vec::new(),
    }
}

// Puts the files into the directory and returns the directory's path.
fn setup_test_files(temp_dir: &mut TestDir, files: &[(&str, &str)]) -> String {
    for (path, content) in files {
        println!("Writing file: {}/{}", temp_dir.root, path);
        temp_dir.files.push((path.to_string(), content.to_string()));
    }
    temp_dir.root.clone()
}

// The output directory held in memory: the files written, by their path.
struct OutputDir {
    root: String,
    files: HashMap<String, String>,
}

impl OutputDir {
    fn join(&self, path: &str) -> String {
        format!("{}/{}", self.root, path)
    }

    fn is_file(&self, path: &str) -> bool {
        self.files.contains_key(&self.join(path))
    }

    fn read_to_string(&self, path: &str) -> String {
        self.files.get(&self.join(path)).unwrap().clone()
    }
}

// The source files below the directory as the loader chooses them: hidden
// and ignored entries are passed over, and only source files are read.
fn discover_rust_files(temp_dir: &TestDir, config: &Config) -> Vec<SourceFile> {
    let loader = SourceLoader::new(&temp_dir.root, config.ignored_patterns.clone());
    let mut chosen = Vec::new();
    for (path, content) in &temp_dir.files {
        let components: Vec<String> = path.split('/').map(|part| part.to_string()).collect();
        let mut entry = temp_dir.root.clone();
        let mut passed_over = false;
        for component in &components {
            entry = format!("{}/{}", entry, component);
            if SourceLoader::is_hidden(component) || loader.is_ignored(&entry) {
                passed_over = true;
            }
        }
        if passed_over || !SourceLoader::is_rust_file(&components[components.len() - 1]) {
            continue;
        }
        chosen.push(SourceFile {
            path: entry,
            content: content.clone(),
            module: SourceLoader::calculate_module_path(&components),
        });
    }
    chosen
}

// Runs the conversion of the directory as the command-line tool does, with
// the files in memory: the sources are chosen, converted, and written below
// the output directory.
fn convert(
    temp_dir: &TestDir,
    input_dir: &str,
    output_dir: &str,
    config: Config,
) -> Result<OutputDir, ConvertError> {
    let sources = discover_rust_files(temp_dir, &config);
    let generator = ZorshGen::new(config);
    let outputs: Vec<OutputFile> = generator.convert(input_dir, output_dir, &sources)?;
    let mut files = HashMap::new();
    for output in outputs {
        files.insert(output.path, output.content);
    }
    Ok(OutputDir {
        root: output_dir.to_string(),
        files,
    })
}

#[test]
fn test_multiple_files_same_module() {
    let mut temp_dir = setup_test_dir();

    let files = vec![
        (
            "src/models/mod.rs",
            r#"
            pub mod types;
            pub mod data;
        "#,
        ),
        (
            "src/models/types.rs",
            r#"
            #[derive(BorshSerialize)]
            pub struct Type1 {
                field: String,
            }
        "#,
        ),
        (
            "src/models/data.rs",
            r#"
            #[derive(BorshSerialize)]
            pub struct Type2 {
                field: String,
            }
        "#,
        ),
    ];

    let input_dir = setup_test_files(&mut temp_dir, &files);

    let result = convert(&temp_dir, &input_dir, "generated", Config::default());

    // Print any error details
    if let Err(ref e) = result {
        println!("Conversion error: {:?}", e);
    }

    let output_dir = result.unwrap();

    // Both types should be in their respective module files
    assert!(output_dir.is_file("src/models/types.ts"));
    assert!(output_dir.is_file("src/models/data.ts"));
}

#[test]
fn test_visibility_and_derives() {
    let mut temp_dir = setup_test_dir();

    let files = vec![(
        "src/lib.rs",
        r#"
            // Should be included (has BorshSerialize)
            #[derive(BorshSerialize)]
            pub struct Public {
                field: String,
            }

            // Should be ignored (private and no BorshSerialize)
            struct Private {
                field: String,
            }

            // Should be ignored (no BorshSerialize)
            pub struct NoDerive {
                field: String,
            }
        "#,
    )];

    let input_dir = setup_test_files(&mut temp_dir, &files);

    let output_dir = convert(&temp_dir, &input_dir, "generated", Config::default()).unwrap();

    let content = output_dir.read_to_string("src/lib.ts");

    assert!(content.contains("PublicSchema"));
    assert!(!content.contains("PrivateSchema"));
    assert!(!content.contains("NoDeriveSchema"));
}

#[test]
fn test_module_imports() {
    let mut temp_dir = setup_test_dir();

    let files = vec![
        (
            "src/a.rs",
            r#"
            #[derive(BorshSerialize)]
            pub struct A {
                b_field: super::b::B,
                c_field: super::c::C,
            }
        "#,
        ),
        (
            "src/b.rs",
            r#"
            #[derive(BorshSerialize)]
            pub struct B {
                field: String,
            }
        "#,
        ),
        (
            "src/c.rs",
            r#"
            #[derive(BorshSerialize)]
            pub struct C {
                field: String,
            }
        "#,
        ),
    ];

    let input_dir = setup_test_files(&mut temp_dir, &files);

    let output_dir = convert(&temp_dir, &input_dir, "generated", Config::default()).unwrap();

    let a_content = output_dir.read_to_string("src/a.ts");
    println!("{}", a_content);

    assert!(a_content.contains("import { BSchema } from './b'"));
    assert!(a_content.contains("import { CSchema } from './c'"));
}

#[test]
fn sibling_module_reference_is_imported_and_ordered() {
    let sources = vec![
        SourceFile {
            path: "a.rs".to_string(),
            content: "#[derive(BorshSerialize)] struct A { b: b::B, other: Local }\n\
                      #[derive(BorshSerialize)] struct Local { x: u8 }"
                .to_string(),
            module: "a".to_string(),
        },
        SourceFile {
            path: "b.rs".to_string(),
            content: "#[derive(BorshSerialize)] struct B { x: u8 }".to_string(),
            module: "b".to_string(),
        },
    ];
    let outputs = ZorshGen::new(Config::default())
        .convert("in", "out", &sources)
        .unwrap();
    assert_eq!(outputs.len(), 2);
    // `a::Local` is the first type that can be placed, so its module is
    // the first to be rendered.
    assert_eq!(outputs[0].path, "out/a.ts");
    assert_eq!(outputs[1].path, "out/b.ts");
    let a_text = &outputs[0].content;
    assert_eq!(
        a_text,
        "import { b } from '@zorsh/zorsh';\n\
import { BSchema } from './b';\n\
\n\
export const LocalSchema = b.struct({\n\
\x20   x: b.u8()\n\
});\n\
\n\
export const ASchema = b.struct({\n\
\x20   b: BSchema,\n\
\x20   other: LocalSchema\n\
});\n\
\n\
export {\n\
\x20   LocalSchema,\n\
\x20   ASchema\n\
};\n"
    );
    assert!(!a_text.contains("import { LocalSchema }"));
    let b_text = &outputs[1].content;
    assert!(!b_text.contains("import { BSchema }"));
}

#[test]
fn module_path_comes_from_the_path_components() {
    let parts = |items: &[&str]| -> Vec<String> { items.iter().map(|s| s.to_string()).collect() };
    assert_eq!(
        SourceLoader::calculate_module_path(&parts(&["src", "models", "user.rs"])),
        "src::models::user"
    );
    assert_eq!(
        SourceLoader::calculate_module_path(&parts(&["src", "models", "mod.rs"])),
        "src::models"
    );
    assert_eq!(SourceLoader::calculate_module_path(&parts(&["mod.rs"])), "");
    assert_eq!(SourceLoader::calculate_module_path(&parts(&[])), "");
    assert_eq!(
        SourceLoader::calculate_module_path(&parts(&["mod", "a.rs.rs"])),
        "a"
    );
}

#[test]
fn file_name_rules() {
    assert!(SourceLoader::is_rust_file("lib.rs"));
    assert!(SourceLoader::is_rust_file("a.rs"));
    assert!(!SourceLoader::is_rust_file(".rs"));
    assert!(!SourceLoader::is_rust_file("rs"));
    assert!(!SourceLoader::is_rust_file("lib.rs.bak"));
    assert!(!SourceLoader::is_rust_file("lib.ts"));
    assert!(SourceLoader::is_hidden(".git"));
    assert!(!SourceLoader::is_hidden("src"));
    assert!(!SourceLoader::is_hidden(""));
    let loader = SourceLoader::new("/root", vec!["target/".to_string(), "gen".to_string()]);
    assert!(loader.is_ignored("/root/target/debug/x.rs"));
    assert!(loader.is_ignored("/root/src/gen.rs"));
    assert!(!loader.is_ignored("/root/src/target.rs"));
    assert!(!SourceLoader::new("/root", vec![]).is_ignored("/root/src/lib.rs"));
}
