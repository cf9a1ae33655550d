//! The whole conversion: from the source units of a project to the text of
//! each output module.
use crate::classify::{classified_enums, classified_structs, classify_enums, classify_structs};
use crate::code_generator::{module_text, type_module, ZorshGenerator, ZorshGeneratorView};
use crate::dependency_resolver::{resolve_spec, DependencyResolver, TypeDependenciesView};
use crate::error::{ConvertError, ConvertErrorView};
use crate::source_loader::{SourceFile, SourceFileView, SourceLoader};
use crate::text::{
    chars_match_at, ends_with, lowercase, replace_path_separators, replace_separators, starts_with,
    str_eq, str_starts_with, to_chars, to_lowercase,
};
use crate::type_parser::{
    clone_enums, clone_structs, parse_file_spec, EnumInfo, EnumInfoView, StructInfo,
    StructInfoView, TypeParser, TypeParserView,
};
use crate::{Config, OutputStructure};
use vstd::prelude::*;

verus! {

/// One generated unit: its path, in the output directory, and its text.
#[derive(Debug, PartialEq, Eq)]
pub struct OutputFile {
    pub path: String,
    pub content: String,
}

/// The mathematical value of an [`OutputFile`].
pub struct OutputFileView {
    pub path: Seq<char>,
    pub content: Seq<char>,
}

impl View for OutputFile {
    type V = OutputFileView;

    open spec fn view(&self) -> OutputFileView {
        OutputFileView { path: self.path@, content: self.content@ }
    }
}

impl DeepView for OutputFile {
    type V = OutputFileView;

    open spec fn deep_view(&self) -> OutputFileView {
        self.view()
    }
}

/// The state of a parser that has seen nothing of its unit yet.
pub open spec fn new_parser(module: Seq<char>, only_annotated: bool) -> TypeParserView {
    TypeParserView {
        module,
        only_annotated,
        structs: Seq::empty(),
        enums: Seq::empty(),
        type_aliases: Seq::empty(),
    }
}

/// The structs and enums of all units: each unit is parsed by itself, and
/// what it declares is added behind `structs` and `enums`. The first unit
/// that fails decides the error.
pub open spec fn parse_units(
    files: Seq<SourceFileView>,
    only_annotated: bool,
    structs: Seq<StructInfoView>,
    enums: Seq<EnumInfoView>,
) -> Result<(Seq<StructInfoView>, Seq<EnumInfoView>), ConvertErrorView>
    decreases files.len(),
{
    if files.len() == 0 {
        Ok((structs, enums))
    } else {
        match parse_file_spec(new_parser(files[0].module, only_annotated), files[0].content) {
            Ok(parsed) => parse_units(
                files.skip(1),
                only_annotated,
                structs + parsed.structs,
                enums + parsed.enums,
            ),
            Err(error) => Err(error),
        }
    }
}

/// The modules of the types of `order`, each once, in the order in which
/// they first occur.
pub open spec fn output_modules(model: ZorshGeneratorView, order: Seq<Seq<char>>) -> Seq<Seq<char>>
    decreases order.len(),
{
    if order.len() == 0 {
        Seq::empty()
    } else {
        let before = output_modules(model, order.drop_last());
        let module = type_module(model, order.last());
        if before.contains(module) {
            before
        } else {
            before.push(module)
        }
    }
}

/// The name of the output unit of `module`, from the output directory: the
/// module's pieces in lower case, separated by `/` in the nested layout and
/// by `_` in the flat one, with the extension `.ts`.
pub open spec fn output_name(structure: OutputStructure, module: Seq<char>) -> Seq<char> {
    match structure {
        OutputStructure::Nested => lowercase(replace_separators(module, "/"@) + ".ts"@),
        OutputStructure::Flat => lowercase(replace_separators(module, "_"@) + ".ts"@),
    }
}

/// The path `relative` taken from the directory `dir`, in paths whose parts
/// are separated by `/`: a path that begins with `/` stands for itself;
/// otherwise it follows the directory, after a `/` unless the directory is
/// empty or ends in one.
pub open spec fn join_path(dir: Seq<char>, relative: Seq<char>) -> Seq<char> {
    if starts_with(relative, "/"@) {
        relative
    } else if dir.len() == 0 || ends_with(dir, "/"@) {
        dir + relative
    } else {
        dir + "/"@ + relative
    }
}

/// The path of the output unit of `module`: its name, taken from the output
/// directory.
pub open spec fn output_path(dir: Seq<char>, structure: OutputStructure, module: Seq<char>) -> Seq<
    char,
> {
    join_path(dir, output_name(structure, module))
}

/// The output unit of `module`.
pub open spec fn output_file(
    dir: Seq<char>,
    structure: OutputStructure,
    model: ZorshGeneratorView,
    dependencies: TypeDependenciesView,
    module: Seq<char>,
) -> OutputFileView {
    OutputFileView {
        path: output_path(dir, structure, module),
        content: module_text(model, module, dependencies),
    }
}

/// Takes the path `relative` from the directory `dir`.
pub fn join_paths(dir: &str, relative: &str) -> (r: String)
    ensures
        r@ == join_path(dir@, relative@),
{
    let slash = to_chars("/");
    let d = to_chars(dir);
    let mut out = String::new();
    if str_starts_with(relative, "/") {
        out.append(relative);
        assert(out@ =~= relative@);
        return out;
    }
    out.append(dir);
    let closed = slash.len() <= d.len() && chars_match_at(&d, &slash, d.len() - slash.len());
    if d.len() > 0 && !closed {
        out.append("/");
    }
    out.append(relative);
    assert(out@ =~= join_path(dir@, relative@));
    out
}

/// The model of a conversion: the declarations of all units put together,
/// with every reference classified against the whole.
pub open spec fn merged_model(structs: Seq<StructInfoView>, enums: Seq<EnumInfoView>) -> ZorshGeneratorView {
    ZorshGeneratorView {
        structs: classified_structs(structs, enums),
        enums: classified_enums(enums),
    }
}

/// What converting the units `files` gives: one output unit for each module
/// that declares a type, or the first error on the way.
pub open spec fn convert_spec(
    dir: Seq<char>,
    only_annotated: bool,
    structure: OutputStructure,
    files: Seq<SourceFileView>,
) -> Result<Seq<OutputFileView>, ConvertErrorView> {
    match parse_units(files, only_annotated, Seq::empty(), Seq::empty()) {
        Ok((structs, enums)) => {
            let model = merged_model(structs, enums);
            match resolve_spec(model.structs, model.enums) {
                Ok(dependencies) => Ok(
                    output_modules(model, dependencies.ordered_types).map_values(
                        |module: Seq<char>| output_file(dir, structure, model, dependencies, module),
                    ),
                ),
                Err(error) => Err(error),
            }
        },
        Err(error) => Err(error),
    }
}

/// Whether `module` is among `modules`.
fn has_module(modules: &Vec<String>, module: &str) -> (r: bool)
    ensures
        r == modules.deep_view().contains(module@),
{
    let ghost all = modules.deep_view();
    let mut i: usize = 0;
    while i < modules.len()
        invariant
            i <= modules@.len(),
            all == modules.deep_view(),
            forall|k: int| 0 <= k < i ==> all[k] != module@,
        decreases modules@.len() - i,
    {
        if str_eq(modules[i].as_str(), module) {
            assert(all[i as int] == module@);
            return true;
        }
        i += 1;
    }
    false
}

/// Runs the conversion of a project.
pub struct ZorshConverter {
    /// Chooses the source files below the input directory.
    pub source_loader: SourceLoader,
    /// The directory that the output units belong under.
    pub output_dir: String,
    /// The configuration of the run.
    pub config: Config,
}

impl ZorshConverter {
    /// A converter from the files below `input_path` to output units below
    /// `output_path`.
    pub fn new(input_path: &str, output_path: &str, config: Config) -> (r: Self)
        ensures
            r.source_loader.root_path@ == input_path@,
            r.source_loader.ignored_patterns.deep_view() == config.ignored_patterns.deep_view(),
            r.output_dir@ == output_path@,
            r.config@ == config@,
    {
        let copy = config.clone();
        let mut output_dir = String::new();
        output_dir.append(output_path);
        ZorshConverter {
            source_loader: SourceLoader::new(input_path, copy.ignored_patterns),
            output_dir,
            config,
        }
    }

    /// The path of the output unit of `module`, in the output directory.
    pub fn get_output_path(&self, module: &str) -> (r: String)
        ensures
            r@ == output_path(self.output_dir@, self.config.output_structure, module@),
    {
        let mut name = match self.config.output_structure {
            OutputStructure::Nested => replace_path_separators(module, "/"),
            OutputStructure::Flat => replace_path_separators(module, "_"),
        };
        name.append(".ts");
        join_paths(self.output_dir.as_str(), to_lowercase(name.as_str()).as_str())
    }

    /// Converts the source units `source_files`: parses each unit by itself,
    /// puts their declarations together, orders them, and renders one
    /// output unit for each module that declares a type.
    ///
    /// Fails with the first error on the way: that of the first unit that
    /// does not parse, else a duplicate type, else a dependency cycle.
    pub fn convert(&self, source_files: &Vec<SourceFile>) -> (r: Result<Vec<OutputFile>, ConvertError>)
        ensures
            match r {
                Ok(outputs) => convert_spec(
                    self.output_dir@,
                    self.config.only_annotated,
                    self.config.output_structure,
                    source_files.deep_view(),
                ) == Ok::<Seq<OutputFileView>, ConvertErrorView>(outputs.deep_view()),
                Err(error) => convert_spec(
                    self.output_dir@,
                    self.config.only_annotated,
                    self.config.output_structure,
                    source_files.deep_view(),
                ) == Err::<Seq<OutputFileView>, ConvertErrorView>(error@),
            },
    {
        let ghost files = source_files.deep_view();
        let only_annotated = self.config.only_annotated;
        let ghost goal = parse_units(files, only_annotated, Seq::empty(), Seq::empty());
        let mut all_structs: Vec<StructInfo> = Vec::new();
        let mut all_enums: Vec<EnumInfo> = Vec::new();
        let mut i: usize = 0;
        assert(files.skip(0) =~= files);
        assert(all_structs.deep_view() =~= Seq::empty());
        assert(all_enums.deep_view() =~= Seq::empty());
        while i < source_files.len()
            invariant
                i <= source_files@.len(),
                files == source_files.deep_view(),
                only_annotated == self.config.only_annotated,
                goal == parse_units(files, only_annotated, Seq::empty(), Seq::empty()),
                parse_units(
                    files.skip(i as int),
                    only_annotated,
                    all_structs.deep_view(),
                    all_enums.deep_view(),
                ) == goal,
            decreases source_files@.len() - i,
        {
            assert(files.skip(i as int).skip(1) =~= files.skip(i + 1));
            let mut parser = TypeParser::new(source_files[i].module.clone(), only_annotated);
            match parser.parse_file(source_files[i].content.as_str()) {
                Ok(_) => {},
                Err(error) => {
                    return Err(error);
                },
            }
            let ghost structs_before = all_structs.deep_view();
            let ghost enums_before = all_enums.deep_view();
            let ghost parsed = parser@;
            all_structs.append(&mut parser.structs);
            all_enums.append(&mut parser.enums);
            assert(all_structs.deep_view() =~= structs_before + parsed.structs);
            assert(all_enums.deep_view() =~= enums_before + parsed.enums);
            i += 1;
        }
        let structs = classify_structs(&all_structs, &all_enums);
        let enums = classify_enums(&all_enums);
        let resolver = DependencyResolver::new(clone_structs(&structs), clone_enums(&enums));
        let dependencies = match resolver.resolve() {
            Ok(dependencies) => dependencies,
            Err(error) => {
                return Err(error);
            },
        };
        let generator = ZorshGenerator::new(structs, enums);
        let ghost model = generator@;
        let ghost order = dependencies@.ordered_types;
        let mut modules: Vec<String> = Vec::new();
        let mut p: usize = 0;
        while p < dependencies.ordered_types.len()
            invariant
                p <= dependencies.ordered_types@.len(),
                model == generator@,
                order == dependencies@.ordered_types,
                modules.deep_view() == output_modules(model, order.take(p as int)),
            decreases dependencies.ordered_types@.len() - p,
        {
            assert(order.take(p + 1).drop_last() =~= order.take(p as int));
            let module = generator.get_type_module(dependencies.ordered_types[p].as_str());
            if !has_module(&modules, module.as_str()) {
                modules.push(module);
            }
            p += 1;
        }
        assert(order.take(dependencies.ordered_types@.len() as int) =~= order);
        let mut outputs: Vec<OutputFile> = Vec::new();
        let mut m: usize = 0;
        while m < modules.len()
            invariant
                m <= modules@.len(),
                model == generator@,
                outputs@.len() == m,
                forall|k: int|
                    0 <= k < m ==> outputs@[k]@ == output_file(
                        self.output_dir@,
                        self.config.output_structure,
                        model,
                        dependencies@,
                        modules@[k]@,
                    ),
            decreases modules@.len() - m,
        {
            let module = modules[m].as_str();
            let content = match generator.generate_module(module, &dependencies) {
                Ok(content) => content,
                Err(error) => {
                    return Err(error);
                },
            };
            outputs.push(OutputFile { path: self.get_output_path(module), content });
            m += 1;
        }
        assert(outputs.deep_view() =~= modules.deep_view().map_values(
            |module: Seq<char>|
                output_file(
                    self.output_dir@,
                    self.config.output_structure,
                    model,
                    dependencies@,
                    module,
                ),
        ));
        Ok(outputs)
    }
}

} // verus!
