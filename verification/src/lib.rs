//! Converts statically declared record types (structs, enums, type aliases
//! and the usual containers) into schema definitions of a serialization
//! library, one output module for each source module.
pub mod classify;
pub mod code_generator;
pub mod converter;
pub mod dependency_resolver;
pub mod error;
pub mod source;
pub mod source_loader;
pub mod syntax;
pub mod text;
pub mod type_parser;

pub use code_generator::ZorshGenerator;
pub use converter::{OutputFile, ZorshConverter};
pub use dependency_resolver::{DependencyResolver, ImportSource, ModuleImports, TypeDependencies};
pub use error::ConvertError;
pub use source_loader::{SourceFile, SourceLoader};
pub use type_parser::{EnumInfo, EnumVariant, FieldInfo, StructInfo, TypeKind, TypeParser};

use classify::{classify_enums, classify_structs};
use code_generator::{definitions_text, export_lines, exports_text, lemma_no_imports, module_text};
use converter::{convert_spec, merged_model, new_parser, OutputFileView};
use dependency_resolver::{resolve_spec, TypeDependenciesView};
use error::ConvertErrorView;
use type_parser::{clone_enums, clone_structs, parse_file_spec};
use vstd::prelude::*;

verus! {

/// How the output units are laid out below the output directory.
#[derive(Debug, Clone, Copy, PartialEq, Eq)]
pub enum OutputStructure {
    /// One directory level for each module level.
    Nested,
    /// All units in one directory.
    Flat,
}

/// The configuration of a conversion.
#[derive(Debug)]
pub struct Config {
    /// Only declarations that derive `BorshSerialize` or `BorshDeserialize`
    /// are converted.
    pub only_annotated: bool,
    /// Files and directories whose path holds one of these are passed over.
    pub ignored_patterns: Vec<String>,
    /// The layout of the output units.
    pub output_structure: OutputStructure,
}

/// The mathematical value of a [`Config`].
pub struct ConfigView {
    pub only_annotated: bool,
    pub ignored_patterns: Seq<Seq<char>>,
    pub output_structure: OutputStructure,
}

impl View for Config {
    type V = ConfigView;

    open spec fn view(&self) -> ConfigView {
        ConfigView {
            only_annotated: self.only_annotated,
            ignored_patterns: self.ignored_patterns.deep_view(),
            output_structure: self.output_structure,
        }
    }
}

impl Default for Config {
    /// Only annotated declarations, the nested layout, and the directories
    /// `tests/`, `examples/` and `target/` passed over.
    fn default() -> (r: Self)
        ensures
            r@ == (ConfigView {
                only_annotated: true,
                ignored_patterns: seq!["tests/"@, "examples/"@, "target/"@],
                output_structure: OutputStructure::Nested,
            }),
    {
        let mut ignored_patterns: Vec<String> = Vec::new();
        let mut tests = String::new();
        tests.append("tests/");
        let mut examples = String::new();
        examples.append("examples/");
        let mut target = String::new();
        target.append("target/");
        ignored_patterns.push(tests);
        ignored_patterns.push(examples);
        ignored_patterns.push(target);
        assert(ignored_patterns.deep_view() =~= seq!["tests/"@, "examples/"@, "target/"@]);
        Config { only_annotated: true, ignored_patterns, output_structure: OutputStructure::Nested }
    }
}

impl Clone for Config {
    fn clone(&self) -> (r: Self)
        ensures
            r@ == self@,
    {
        let mut ignored_patterns: Vec<String> = Vec::new();
        let mut i: usize = 0;
        while i < self.ignored_patterns.len()
            invariant
                i <= self.ignored_patterns@.len(),
                ignored_patterns@.len() == i,
                forall|k: int| 0 <= k < i ==> ignored_patterns@[k]@ == self.ignored_patterns@[k]@,
            decreases self.ignored_patterns@.len() - i,
        {
            ignored_patterns.push(self.ignored_patterns[i].clone());
            i += 1;
        }
        assert(ignored_patterns.deep_view() =~= self.ignored_patterns.deep_view());
        Config {
            only_annotated: self.only_annotated,
            ignored_patterns,
            output_structure: self.output_structure,
        }
    }
}

/// What converting the single source text `text` gives: the text of the one
/// module `root`, or the first error on the way. There being no other
/// module, the text is rendered without an import manifest: its only import
/// is that of the schema library.
pub open spec fn convert_str_spec(only_annotated: bool, text: Seq<char>) -> Result<
    Seq<char>,
    ConvertErrorView,
> {
    match parse_file_spec(new_parser("root"@, only_annotated), text) {
        Ok(parsed) => {
            let model = merged_model(parsed.structs, parsed.enums);
            match resolve_spec(model.structs, model.enums) {
                Ok(dependencies) => Ok(
                    module_text(
                        model,
                        "root"@,
                        TypeDependenciesView {
                            ordered_types: dependencies.ordered_types,
                            module_imports: Seq::empty(),
                        },
                    ),
                ),
                Err(error) => Err(error),
            }
        },
        Err(error) => Err(error),
    }
}

/// Single text: the text of a single source text has no import but that
/// of the schema library. It is that import, an empty line, the schema
/// bindings of the declarations in emission order, and the export list.
pub proof fn lemma_single_text_imports(only_annotated: bool, text: Seq<char>)
    requires
        convert_str_spec(only_annotated, text) is Ok,
    ensures
        ({
            let parsed = parse_file_spec(new_parser("root"@, only_annotated), text)->Ok_0;
            let model = merged_model(parsed.structs, parsed.enums);
            let order = resolve_spec(model.structs, model.enums)->Ok_0.ordered_types;
            convert_str_spec(only_annotated, text)->Ok_0 == "import { b } from '@zorsh/zorsh';\n"@
                + "\n"@ + definitions_text(model, order, "root"@) + exports_text(
                export_lines(model, order, "root"@),
            )
        }),
{
    let parsed = parse_file_spec(new_parser("root"@, only_annotated), text)->Ok_0;
    let model = merged_model(parsed.structs, parsed.enums);
    let order = resolve_spec(model.structs, model.enums)->Ok_0.ordered_types;
    lemma_no_imports(
        model,
        "root"@,
        TypeDependenciesView { ordered_types: order, module_imports: Seq::empty() },
    );
}

/// The entry point of the library.
pub struct ZorshGen {
    pub config: Config,
}

impl ZorshGen {
    /// A generator with the configuration `config`.
    pub fn new(config: Config) -> (r: Self)
        ensures
            r.config == config,
    {
        ZorshGen { config }
    }

    /// Converts the source units `source_files`, found below `input_path`,
    /// into output units in the directory `output_path`.
    ///
    /// Fails with the first error on the way: that of the first unit that
    /// does not parse, else a duplicate type, else a dependency cycle.
    pub fn convert(&self, input_path: &str, output_path: &str, source_files: &Vec<SourceFile>) -> (r:
        Result<Vec<OutputFile>, ConvertError>)
        ensures
            match r {
                Ok(outputs) => convert_spec(
                    output_path@,
                    self.config.only_annotated,
                    self.config.output_structure,
                    source_files.deep_view(),
                ) == Ok::<Seq<OutputFileView>, ConvertErrorView>(outputs.deep_view()),
                Err(error) => convert_spec(
                    output_path@,
                    self.config.only_annotated,
                    self.config.output_structure,
                    source_files.deep_view(),
                ) == Err::<Seq<OutputFileView>, ConvertErrorView>(error@),
            },
    {
        let converter = ZorshConverter::new(input_path, output_path, self.config.clone());
        converter.convert(source_files)
    }

    /// Converts a single source text, taken as the one module `root`, and
    /// returns that module's text.
    ///
    /// Fails with a parse error where the text is not a well-formed source
    /// file, else with the first unsupported type or alias cycle among its
    /// declarations, else with a duplicate type, else with a dependency
    /// cycle.
    pub fn convert_str(&self, rust_code: &str) -> (r: Result<String, ConvertError>)
        ensures
            match r {
                Ok(text) => convert_str_spec(self.config.only_annotated, rust_code@) == Ok::<
                    Seq<char>,
                    ConvertErrorView,
                >(text@),
                Err(error) => convert_str_spec(self.config.only_annotated, rust_code@) == Err::<
                    Seq<char>,
                    ConvertErrorView,
                >(error@),
            },
    {
        let mut root = String::new();
        root.append("root");
        let mut parser = TypeParser::new(root, self.config.only_annotated);
        match parser.parse_file(rust_code) {
            Ok(_) => {},
            Err(error) => {
                return Err(error);
            },
        }
        let structs = classify_structs(&parser.structs, &parser.enums);
        let enums = classify_enums(&parser.enums);
        let resolver = DependencyResolver::new(clone_structs(&structs), clone_enums(&enums));
        let dependencies = match resolver.resolve() {
            Ok(dependencies) => dependencies,
            Err(error) => {
                return Err(error);
            },
        };
        let generator = ZorshGenerator::new(structs, enums);
        let alone = TypeDependencies {
            ordered_types: dependencies.ordered_types,
            module_imports: Vec::new(),
        };
        assert(alone@.module_imports =~= Seq::empty());
        generator.generate_module("root", &alone)
    }
}

/// Converts a single source text with the default configuration: only the
/// declarations that carry the serialization marker are converted.
pub fn convert_str(rust_code: &str) -> (r: Result<String, ConvertError>)
    ensures
        match r {
            Ok(text) => convert_str_spec(true, rust_code@) == Ok::<Seq<char>, ConvertErrorView>(text@),
            Err(error) => convert_str_spec(true, rust_code@) == Err::<Seq<char>, ConvertErrorView>(
                error@,
            ),
        },
{
    ZorshGen::new(Config::default()).convert_str(rust_code)
}

} // verus!
