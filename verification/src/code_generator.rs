//! Rendering the type model as schema text, one module at a time.
use crate::dependency_resolver::{
    find_module, ImportSource, ImportSourceView, ModuleImports, ModuleImportsView, TypeDependencies,
    TypeDependenciesView,
};
use crate::error::ConvertError;
use crate::text::{
    contains, decimal, join_strings, joined, lemma_contains_grows, lemma_contains_part,
    lemma_occurs_shifted, occurs_at, last_segment, lowercase, module_prefix, path_last_segment,
    path_module_prefix, push_decimal, replace_path_separators, replace_separators, str_eq,
    to_lowercase,
};
use crate::type_parser::{
    full_path, make_full_path, EnumInfo, EnumInfoView, EnumVariant, EnumVariantView, FieldInfo,
    FieldInfoView, StructInfo, StructInfoView, TypeKind, TypeKindView,
};
use vstd::prelude::*;

verus! {

/// The schema expression of a type: a constructor of the schema library for
/// primitives, text and containers, and the schema identifier of the
/// referenced type, never its definition, for a struct or an enum.
pub open spec fn type_schema(kind: TypeKindView) -> Seq<char>
    decreases kind,
{
    match kind {
        TypeKindView::Primitive(name) => "b."@ + name + "()"@,
        TypeKindView::String => "b.string()"@,
        TypeKindView::Struct(name, _) => name + "Schema"@,
        TypeKindView::Enum(name, _) => name + "Schema"@,
        TypeKindView::Vec(inner) => "b.vec("@ + type_schema(*inner) + ")"@,
        TypeKindView::HashMap(key, value) => "b.hashMap("@ + type_schema(*key) + ", "@ + type_schema(
            *value,
        ) + ")"@,
        TypeKindView::Option(inner) => "b.option("@ + type_schema(*inner) + ")"@,
        TypeKindView::Array(inner, length) => "b.array("@ + type_schema(*inner) + ", "@ + decimal(
            length as nat,
        ) + ")"@,
    }
}

/// One line of a record body: the indent, the field's name, and its schema
/// expression.
pub open spec fn field_line(field: FieldInfoView, indent: Seq<char>) -> Seq<char> {
    indent + field.name + ": "@ + type_schema(field.type_kind)
}

/// The lines of a record body, one per field, in declaration order.
pub open spec fn field_lines(fields: Seq<FieldInfoView>, indent: Seq<char>) -> Seq<Seq<char>> {
    fields.map_values(|f: FieldInfoView| field_line(f, indent))
}

/// The schema binding of a struct.
pub open spec fn struct_schema(info: StructInfoView) -> Seq<char> {
    "export const "@ + info.name + "Schema = b.struct({\n"@ + joined(
        field_lines(info.fields, "    "@),
        ",\n"@,
    ) + "\n});"@
}

/// The variant has exactly one field, and that field is positional.
pub open spec fn is_single_positional(fields: Seq<FieldInfoView>) -> bool {
    fields.len() == 1 && fields[0].name.len() == 0
}

/// The schema expression of an enum variant: the empty marker for a unit
/// variant, the field's own schema for a single positional field, and a
/// nested record for every other variant.
pub open spec fn variant_schema(variant: EnumVariantView) -> Seq<char> {
    match variant.fields {
        None => "b.unit()"@,
        Some(fields) => if is_single_positional(fields) {
            type_schema(fields[0].type_kind)
        } else {
            "b.struct({\n"@ + joined(field_lines(fields, "        "@), ",\n"@) + "\n    })"@
        },
    }
}

/// One line of an enum body.
pub open spec fn variant_line(variant: EnumVariantView) -> Seq<char> {
    "    "@ + variant.name + ": "@ + variant_schema(variant)
}

/// The schema binding of an enum.
pub open spec fn enum_schema(info: EnumInfoView) -> Seq<char> {
    "export const "@ + info.name + "Schema = b.enum({\n"@ + joined(
        info.variants.map_values(|v: EnumVariantView| variant_line(v)),
        ",\n"@,
    ) + "\n});"@
}

/// The position of the first struct from `from` on with the path `path`.
pub open spec fn find_struct(structs: Seq<StructInfoView>, path: Seq<char>, from: int) -> Option<int>
    decreases structs.len() - from,
{
    if from < 0 || from >= structs.len() {
        None
    } else if full_path(structs[from].module, structs[from].name) == path {
        Some(from)
    } else {
        find_struct(structs, path, from + 1)
    }
}

/// The position of the first enum from `from` on with the path `path`.
pub open spec fn find_enum(enums: Seq<EnumInfoView>, path: Seq<char>, from: int) -> Option<int>
    decreases enums.len() - from,
{
    if from < 0 || from >= enums.len() {
        None
    } else if full_path(enums[from].module, enums[from].name) == path {
        Some(from)
    } else {
        find_enum(enums, path, from + 1)
    }
}

/// The mathematical value of a [`ZorshGenerator`].
pub struct ZorshGeneratorView {
    pub structs: Seq<StructInfoView>,
    pub enums: Seq<EnumInfoView>,
}

/// The module of the type at `path`: that of the struct declared there, or
/// else of the enum, or else what stands before the path's last `::`.
pub open spec fn type_module(model: ZorshGeneratorView, path: Seq<char>) -> Seq<char> {
    match find_struct(model.structs, path, 0) {
        Some(i) => model.structs[i].module,
        None => match find_enum(model.enums, path, 0) {
            Some(i) => model.enums[i].module,
            None => module_prefix(path),
        },
    }
}

/// The schema identifiers of the names `names`.
pub open spec fn schema_names(names: Seq<Seq<char>>) -> Seq<Seq<char>> {
    names.map_values(|n: Seq<char>| n + "Schema"@)
}

/// The import statement for the names imported from one module.
pub open spec fn import_line(source: ImportSourceView) -> Seq<char> {
    "import { "@ + joined(schema_names(source.type_names), ", "@) + " } from './"@ + lowercase(
        replace_separators(source.module, "/"@),
    ) + "';\n"@
}

/// The import statements for the sources `sources`, in their order.
pub open spec fn sources_text(sources: Seq<ImportSourceView>) -> Seq<char>
    decreases sources.len(),
{
    if sources.len() == 0 {
        Seq::empty()
    } else {
        sources_text(sources.drop_last()) + import_line(sources.last())
    }
}

/// The import statements of the module `current`: one for each module that
/// the manifest has it import from; none where the manifest has no entry
/// for it.
pub open spec fn imports_text(manifest: Seq<ModuleImportsView>, current: Seq<char>) -> Seq<char> {
    match find_module(manifest, current, 0) {
        Some(k) => sources_text(manifest[k].sources),
        None => Seq::empty(),
    }
}

/// The schema binding declared at `path`, followed by an empty line; nothing
/// where the model declares no type there.
pub open spec fn definition_text(model: ZorshGeneratorView, path: Seq<char>) -> Seq<char> {
    match find_struct(model.structs, path, 0) {
        Some(i) => struct_schema(model.structs[i]) + "\n\n"@,
        None => match find_enum(model.enums, path, 0) {
            Some(i) => enum_schema(model.enums[i]) + "\n\n"@,
            None => Seq::empty(),
        },
    }
}

/// The schema bindings of the types of `order` that belong to `current`, in
/// the order of `order`.
pub open spec fn definitions_text(
    model: ZorshGeneratorView,
    order: Seq<Seq<char>>,
    current: Seq<char>,
) -> Seq<char>
    decreases order.len(),
{
    if order.len() == 0 {
        Seq::empty()
    } else {
        definitions_text(model, order.drop_last(), current) + if type_module(model, order.last())
            == current {
            definition_text(model, order.last())
        } else {
            Seq::empty()
        }
    }
}

/// The lines of the export list: one for each type of `order` that belongs
/// to `current`.
pub open spec fn export_lines(
    model: ZorshGeneratorView,
    order: Seq<Seq<char>>,
    current: Seq<char>,
) -> Seq<Seq<char>>
    decreases order.len(),
{
    if order.len() == 0 {
        Seq::empty()
    } else {
        let before = export_lines(model, order.drop_last(), current);
        if type_module(model, order.last()) == current {
            before.push("    "@ + last_segment(order.last()) + "Schema"@)
        } else {
            before
        }
    }
}

/// The export list; nothing where the module exports no type.
pub open spec fn exports_text(lines: Seq<Seq<char>>) -> Seq<char> {
    if lines.len() == 0 {
        Seq::empty()
    } else {
        "export {\n"@ + joined(lines, ",\n"@) + "\n};\n"@
    }
}

/// The text of the module `current`: the import of the schema library, the
/// imports from other modules, an empty line, the schema bindings of the
/// module's types in emission order, and the export list.
pub open spec fn module_text(
    model: ZorshGeneratorView,
    current: Seq<char>,
    dependencies: TypeDependenciesView,
) -> Seq<char> {
    "import { b } from '@zorsh/zorsh';\n"@ + imports_text(dependencies.module_imports, current)
        + "\n"@ + definitions_text(model, dependencies.ordered_types, current) + exports_text(
        export_lines(model, dependencies.ordered_types, current),
    )
}

/// The schema identifiers of the structs, then of the enums, that belong to
/// `module`.
pub open spec fn module_export_names(model: ZorshGeneratorView, module: Seq<char>) -> Seq<Seq<char>> {
    struct_export_names(model.structs, module) + enum_export_names(model.enums, module)
}

/// The schema identifiers of the structs that belong to `module`.
pub open spec fn struct_export_names(structs: Seq<StructInfoView>, module: Seq<char>) -> Seq<
    Seq<char>,
>
    decreases structs.len(),
{
    if structs.len() == 0 {
        Seq::empty()
    } else {
        let before = struct_export_names(structs.drop_last(), module);
        if structs.last().module == module {
            before.push(structs.last().name + "Schema"@)
        } else {
            before
        }
    }
}

/// The schema identifiers of the enums that belong to `module`.
pub open spec fn enum_export_names(enums: Seq<EnumInfoView>, module: Seq<char>) -> Seq<Seq<char>>
    decreases enums.len(),
{
    if enums.len() == 0 {
        Seq::empty()
    } else {
        let before = enum_export_names(enums.drop_last(), module);
        if enums.last().module == module {
            before.push(enums.last().name + "Schema"@)
        } else {
            before
        }
    }
}

/// Renders schema text from a type model.
pub struct ZorshGenerator {
    pub structs: Vec<StructInfo>,
    pub enums: Vec<EnumInfo>,
}

impl View for ZorshGenerator {
    type V = ZorshGeneratorView;

    open spec fn view(&self) -> ZorshGeneratorView {
        ZorshGeneratorView { structs: self.structs.deep_view(), enums: self.enums.deep_view() }
    }
}

impl ZorshGenerator {
    /// A generator for the given structs and enums.
    pub fn new(structs: Vec<StructInfo>, enums: Vec<EnumInfo>) -> (r: Self)
        ensures
            r.structs == structs,
            r.enums == enums,
    {
        ZorshGenerator { structs, enums }
    }

    /// The schema expression of a type.
    pub fn type_to_zorsh(&self, type_kind: &TypeKind) -> (r: String)
        ensures
            r@ == type_schema(type_kind@),
        decreases type_kind,
    {
        let mut out = String::new();
        match type_kind {
            TypeKind::Primitive(name) => {
                out.append("b.");
                out.append(name.as_str());
                out.append("()");
            },
            TypeKind::String => {
                out.append("b.string()");
            },
            TypeKind::Struct(name, _) => {
                out.append(name.as_str());
                out.append("Schema");
            },
            TypeKind::Enum(name, _) => {
                out.append(name.as_str());
                out.append("Schema");
            },
            TypeKind::Vec(inner) => {
                out.append("b.vec(");
                out.append(self.type_to_zorsh(&**inner).as_str());
                out.append(")");
            },
            TypeKind::HashMap(key, value) => {
                out.append("b.hashMap(");
                out.append(self.type_to_zorsh(&**key).as_str());
                out.append(", ");
                out.append(self.type_to_zorsh(&**value).as_str());
                out.append(")");
            },
            TypeKind::Option(inner) => {
                out.append("b.option(");
                out.append(self.type_to_zorsh(&**inner).as_str());
                out.append(")");
            },
            TypeKind::Array(inner, size) => {
                out.append("b.array(");
                out.append(self.type_to_zorsh(&**inner).as_str());
                out.append(", ");
                push_decimal(&mut out, *size);
                out.append(")");
            },
        }
        out
    }

    /// The lines of a record body.
    fn record_lines(&self, fields: &Vec<FieldInfo>, indent: &str) -> (r: Vec<String>)
        ensures
            r.deep_view() == field_lines(fields.deep_view(), indent@),
    {
        let mut lines: Vec<String> = Vec::new();
        let mut i: usize = 0;
        while i < fields.len()
            invariant
                i <= fields@.len(),
                lines@.len() == i,
                forall|k: int| 0 <= k < i ==> lines@[k]@ == field_line(fields@[k]@, indent@),
            decreases fields@.len() - i,
        {
            let mut line = String::new();
            line.append(indent);
            line.append(fields[i].name.as_str());
            line.append(": ");
            line.append(self.type_to_zorsh(&fields[i].type_kind).as_str());
            lines.push(line);
            i += 1;
        }
        lines
    }

    /// The schema binding of a struct.
    pub fn generate_struct(&self, struct_info: &StructInfo) -> (r: String)
        ensures
            r@ == struct_schema(struct_info@),
    {
        let lines = self.record_lines(&struct_info.fields, "    ");
        let mut out = String::new();
        out.append("export const ");
        out.append(struct_info.name.as_str());
        out.append("Schema = b.struct({\n");
        out.append(join_strings(&lines, ",\n").as_str());
        out.append("\n});");
        out
    }

    /// The schema expression of an enum variant.
    fn generate_variant(&self, variant: &EnumVariant) -> (r: String)
        ensures
            r@ == variant_schema(variant@),
    {
        match &variant.fields {
            None => {
                let mut out = String::new();
                out.append("b.unit()");
                out
            },
            Some(fields) => {
                if fields.len() == 1 && fields[0].name.as_str().unicode_len() == 0 {
                    self.type_to_zorsh(&fields[0].type_kind)
                } else {
                    let lines = self.record_lines(fields, "        ");
                    let mut out = String::new();
                    out.append("b.struct({\n");
                    out.append(join_strings(&lines, ",\n").as_str());
                    out.append("\n    })");
                    out
                }
            },
        }
    }

    /// The schema binding of an enum.
    pub fn generate_enum(&self, enum_info: &EnumInfo) -> (r: String)
        ensures
            r@ == enum_schema(enum_info@),
    {
        let mut lines: Vec<String> = Vec::new();
        let mut i: usize = 0;
        while i < enum_info.variants.len()
            invariant
                i <= enum_info.variants@.len(),
                lines@.len() == i,
                forall|k: int| 0 <= k < i ==> lines@[k]@ == variant_line(enum_info.variants@[k]@),
            decreases enum_info.variants@.len() - i,
        {
            let variant = &enum_info.variants[i];
            let mut line = String::new();
            line.append("    ");
            line.append(variant.name.as_str());
            line.append(": ");
            line.append(self.generate_variant(variant).as_str());
            lines.push(line);
            i += 1;
        }
        assert(lines.deep_view() =~= enum_info@.variants.map_values(
            |v: EnumVariantView| variant_line(v),
        ));
        let mut out = String::new();
        out.append("export const ");
        out.append(enum_info.name.as_str());
        out.append("Schema = b.enum({\n");
        out.append(join_strings(&lines, ",\n").as_str());
        out.append("\n});");
        out
    }

    /// The position of the struct declared at `path`.
    fn struct_position(&self, path: &str) -> (r: Option<usize>)
        ensures
            match r {
                Some(i) => find_struct(self@.structs, path@, 0) == Some(i as int) && i
                    < self.structs@.len(),
                None => find_struct(self@.structs, path@, 0) is None,
            },
    {
        let mut i: usize = 0;
        while i < self.structs.len()
            invariant
                i <= self.structs@.len(),
                find_struct(self@.structs, path@, 0) == find_struct(self@.structs, path@, i as int),
            decreases self.structs@.len() - i,
        {
            let candidate = make_full_path(
                self.structs[i].module.as_str(),
                self.structs[i].name.as_str(),
            );
            if str_eq(candidate.as_str(), path) {
                return Some(i);
            }
            i += 1;
        }
        None
    }

    /// The position of the enum declared at `path`.
    fn enum_position(&self, path: &str) -> (r: Option<usize>)
        ensures
            match r {
                Some(i) => find_enum(self@.enums, path@, 0) == Some(i as int) && i
                    < self.enums@.len(),
                None => find_enum(self@.enums, path@, 0) is None,
            },
    {
        let mut i: usize = 0;
        while i < self.enums.len()
            invariant
                i <= self.enums@.len(),
                find_enum(self@.enums, path@, 0) == find_enum(self@.enums, path@, i as int),
            decreases self.enums@.len() - i,
        {
            let candidate = make_full_path(
                self.enums[i].module.as_str(),
                self.enums[i].name.as_str(),
            );
            if str_eq(candidate.as_str(), path) {
                return Some(i);
            }
            i += 1;
        }
        None
    }

    /// The module of the type at `type_path`.
    pub fn get_type_module(&self, type_path: &str) -> (r: String)
        ensures
            r@ == type_module(self@, type_path@),
    {
        match self.struct_position(type_path) {
            Some(i) => self.structs[i].module.clone(),
            None => match self.enum_position(type_path) {
                Some(i) => self.enums[i].module.clone(),
                None => path_module_prefix(type_path),
            },
        }
    }

    /// The schema identifiers that the module `module` exports, separated by
    /// `, `: those of its structs, then those of its enums.
    pub fn get_module_exports(&self, module: &str) -> (r: String)
        ensures
            r@ == joined(module_export_names(self@, module@), ", "@),
    {
        let ghost structs = self@.structs;
        let ghost enums = self@.enums;
        let mut names: Vec<String> = Vec::new();
        let mut i: usize = 0;
        while i < self.structs.len()
            invariant
                i <= self.structs@.len(),
                structs == self@.structs,
                names.deep_view() == struct_export_names(structs.take(i as int), module@),
            decreases self.structs@.len() - i,
        {
            assert(structs.take(i + 1).drop_last() =~= structs.take(i as int));
            if str_eq(self.structs[i].module.as_str(), module) {
                let mut name = self.structs[i].name.clone();
                name.append("Schema");
                names.push(name);
            }
            i += 1;
        }
        assert(structs.take(self.structs@.len() as int) =~= structs);
        let mut j: usize = 0;
        while j < self.enums.len()
            invariant
                j <= self.enums@.len(),
                structs == self@.structs,
                enums == self@.enums,
                names.deep_view() == struct_export_names(structs, module@) + enum_export_names(
                    enums.take(j as int),
                    module@,
                ),
            decreases self.enums@.len() - j,
        {
            assert(enums.take(j + 1).drop_last() =~= enums.take(j as int));
            if str_eq(self.enums[j].module.as_str(), module) {
                let ghost before = names.deep_view();
                let mut name = self.enums[j].name.clone();
                name.append("Schema");
                names.push(name);
                assert(names.deep_view() =~= before.push(name@));
            }
            j += 1;
        }
        assert(enums.take(self.enums@.len() as int) =~= enums);
        join_strings(&names, ", ")
    }

    /// The import statement for the names imported from one module.
    fn generate_import(source: &ImportSource) -> (r: String)
        ensures
            r@ == import_line(source@),
    {
        let mut names: Vec<String> = Vec::new();
        let mut i: usize = 0;
        while i < source.type_names.len()
            invariant
                i <= source.type_names@.len(),
                names@.len() == i,
                forall|k: int| 0 <= k < i ==> names@[k]@ == source.type_names@[k]@ + "Schema"@,
            decreases source.type_names@.len() - i,
        {
            let mut name = source.type_names[i].clone();
            name.append("Schema");
            names.push(name);
            i += 1;
        }
        assert(names.deep_view() =~= schema_names(source@.type_names));
        let location = to_lowercase(replace_path_separators(source.module.as_str(), "/").as_str());
        let mut out = String::new();
        out.append("import { ");
        out.append(join_strings(&names, ", ").as_str());
        out.append(" } from './");
        out.append(location.as_str());
        out.append("';\n");
        assert(out@ =~= import_line(source@));
        out
    }

    /// The import statements of the module `current_module`.
    fn generate_imports(manifest: &Vec<ModuleImports>, current_module: &str) -> (r: String)
        ensures
            r@ == imports_text(manifest.deep_view(), current_module@),
    {
        let ghost all = manifest.deep_view();
        let mut out = String::new();
        let mut k: usize = 0;
        while k < manifest.len()
            invariant
                k <= manifest@.len(),
                all == manifest.deep_view(),
                out@ == Seq::<char>::empty(),
                find_module(all, current_module@, 0) == find_module(all, current_module@, k as int),
            decreases manifest@.len() - k,
        {
            if str_eq(manifest[k].module.as_str(), current_module) {
                let sources = &manifest[k].sources;
                let ghost listed = sources.deep_view();
                let mut s: usize = 0;
                assert(out@ =~= sources_text(listed.take(0)));
                while s < sources.len()
                    invariant
                        s <= sources@.len(),
                        listed == sources.deep_view(),
                        out@ == sources_text(listed.take(s as int)),
                    decreases sources@.len() - s,
                {
                    assert(listed.take(s + 1).drop_last() =~= listed.take(s as int));
                    out.append(Self::generate_import(&sources[s]).as_str());
                    s += 1;
                }
                assert(listed.take(sources@.len() as int) =~= listed);
                return out;
            }
            k += 1;
        }
        out
    }

    /// The text of the module `current_module`.
    pub fn generate_module(&self, current_module: &str, dependencies: &TypeDependencies) -> (r: Result<
        String,
        ConvertError,
    >)
        ensures
            r is Ok,
            r->Ok_0@ == module_text(self@, current_module@, dependencies@),
    {
        let ghost manifest = dependencies@.module_imports;
        let ghost order = dependencies@.ordered_types;
        let ghost header = "import { b } from '@zorsh/zorsh';\n"@;
        let mut output = String::new();
        output.append("import { b } from '@zorsh/zorsh';\n");
        output.append(Self::generate_imports(&dependencies.module_imports, current_module).as_str());
        output.append("\n");
        let ghost top = header + imports_text(manifest, current_module@) + "\n"@;
        let mut exports: Vec<String> = Vec::new();
        let mut p: usize = 0;
        while p < dependencies.ordered_types.len()
            invariant
                p <= dependencies.ordered_types@.len(),
                order == dependencies@.ordered_types,
                output@ == top + definitions_text(self@, order.take(p as int), current_module@),
                exports.deep_view() == export_lines(self@, order.take(p as int), current_module@),
            decreases dependencies.ordered_types@.len() - p,
        {
            assert(order.take(p + 1).drop_last() =~= order.take(p as int));
            let type_path = dependencies.ordered_types[p].as_str();
            let module = self.get_type_module(type_path);
            if str_eq(module.as_str(), current_module) {
                match self.struct_position(type_path) {
                    Some(i) => {
                        output.append(self.generate_struct(&self.structs[i]).as_str());
                        output.append("\n\n");
                    },
                    None => match self.enum_position(type_path) {
                        Some(i) => {
                            output.append(self.generate_enum(&self.enums[i]).as_str());
                            output.append("\n\n");
                        },
                        None => {},
                    },
                }
                let mut line = String::new();
                line.append("    ");
                line.append(path_last_segment(type_path).as_str());
                line.append("Schema");
                exports.push(line);
            }
            p += 1;
        }
        assert(order.take(dependencies.ordered_types@.len() as int) =~= order);
        if exports.len() > 0 {
            output.append("export {\n");
            output.append(join_strings(&exports, ",\n").as_str());
            output.append("\n};\n");
        }
        Ok(output)
    }
}


/// The import statements for a list of sources hold the statement of each
/// of them.
pub proof fn lemma_source_written(sources: Seq<ImportSourceView>, s: int)
    requires
        0 <= s < sources.len(),
    ensures
        contains(sources_text(sources), import_line(sources[s])),
    decreases sources.len(),
{
    let before = sources_text(sources.drop_last());
    let empty = Seq::<char>::empty();
    if s == sources.len() - 1 {
        lemma_contains_part(before, import_line(sources[s]), empty);
        assert(before + import_line(sources[s]) + empty =~= sources_text(sources));
    } else {
        lemma_source_written(sources.drop_last(), s);
        lemma_contains_grows(empty, before, import_line(sources.last()), import_line(sources[s]));
        assert(empty + before + import_line(sources.last()) =~= sources_text(sources));
    }
}

/// The schema bindings of a module hold the binding of every type of the
/// order that belongs to the module.
pub proof fn lemma_definition_written(
    model: ZorshGeneratorView,
    order: Seq<Seq<char>>,
    current: Seq<char>,
    p: int,
)
    requires
        0 <= p < order.len(),
        type_module(model, order[p]) == current,
    ensures
        contains(definitions_text(model, order, current), definition_text(model, order[p])),
    decreases order.len(),
{
    let before = definitions_text(model, order.drop_last(), current);
    let empty = Seq::<char>::empty();
    if p == order.len() - 1 {
        lemma_contains_part(before, definition_text(model, order[p]), empty);
        assert(before + definition_text(model, order[p]) + empty =~= definitions_text(
            model,
            order,
            current,
        ));
    } else {
        lemma_definition_written(model, order.drop_last(), current, p);
        let last = if type_module(model, order.last()) == current {
            definition_text(model, order.last())
        } else {
            empty
        };
        lemma_contains_grows(empty, before, last, definition_text(model, order[p]));
        assert(empty + before + last =~= definitions_text(model, order, current));
    }
}

/// Where the schema bindings of a module hold, one after the other, the
/// bindings of two types of the order that belong to the module: the
/// binding of the type that comes first in the order begins at the first
/// position returned, and the binding of the other at the second, after the
/// first binding has ended.
pub proof fn lemma_definitions_in_order(
    model: ZorshGeneratorView,
    order: Seq<Seq<char>>,
    current: Seq<char>,
    p: int,
    q: int,
) -> (at: (int, int))
    requires
        0 <= p < q < order.len(),
        type_module(model, order[p]) == current,
        type_module(model, order[q]) == current,
    ensures
        occurs_at(definitions_text(model, order, current), definition_text(model, order[p]), at.0),
        occurs_at(definitions_text(model, order, current), definition_text(model, order[q]), at.1),
        at.0 + definition_text(model, order[p]).len() <= at.1,
    decreases order.len(),
{
    let shorter = order.drop_last();
    let before = definitions_text(model, shorter, current);
    let empty = Seq::<char>::empty();
    let first = definition_text(model, order[p]);
    let second = definition_text(model, order[q]);
    if q == order.len() - 1 {
        lemma_definition_written(model, shorter, current, p);
        let at = choose|i: int| occurs_at(before, first, i);
        lemma_occurs_shifted(empty, before, second, first, at);
        assert(empty + before + second =~= definitions_text(model, order, current));
        let end = before.len() as int;
        assert(definitions_text(model, order, current).subrange(end, end + second.len()) =~= second);
        (at, end)
    } else {
        let at = lemma_definitions_in_order(model, shorter, current, p, q);
        let last = if type_module(model, order.last()) == current {
            definition_text(model, order.last())
        } else {
            empty
        };
        lemma_occurs_shifted(empty, before, last, first, at.0);
        lemma_occurs_shifted(empty, before, last, second, at.1);
        assert(empty + before + last =~= definitions_text(model, order, current));
        at
    }
}

/// Bindings follow the order: in a module's text, the schema binding of a
/// type of the module stands, as a whole, before the binding of every type
/// of the module that comes later in the order.
pub proof fn lemma_module_text_in_order(
    model: ZorshGeneratorView,
    current: Seq<char>,
    dependencies: TypeDependenciesView,
    p: int,
    q: int,
) -> (at: (int, int))
    requires
        0 <= p < q < dependencies.ordered_types.len(),
        type_module(model, dependencies.ordered_types[p]) == current,
        type_module(model, dependencies.ordered_types[q]) == current,
    ensures
        occurs_at(
            module_text(model, current, dependencies),
            definition_text(model, dependencies.ordered_types[p]),
            at.0,
        ),
        occurs_at(
            module_text(model, current, dependencies),
            definition_text(model, dependencies.ordered_types[q]),
            at.1,
        ),
        at.0 + definition_text(model, dependencies.ordered_types[p]).len() <= at.1,
{
    let order = dependencies.ordered_types;
    let top = "import { b } from '@zorsh/zorsh';\n"@ + imports_text(
        dependencies.module_imports,
        current,
    ) + "\n"@;
    let definitions = definitions_text(model, order, current);
    let exports = exports_text(export_lines(model, order, current));
    let inner = lemma_definitions_in_order(model, order, current, p, q);
    lemma_occurs_shifted(top, definitions, exports, definition_text(model, order[p]), inner.0);
    lemma_occurs_shifted(top, definitions, exports, definition_text(model, order[q]), inner.1);
    assert(top + definitions + exports =~= module_text(model, current, dependencies));
    (top.len() + inner.0, top.len() + inner.1)
}

/// The position of the manifest's entry for the module `current`, where
/// the manifest has one.
pub open spec fn entry_of(manifest: Seq<ModuleImportsView>, current: Seq<char>) -> Option<int> {
    find_module(manifest, current, 0)
}

/// What a module's text holds: the import statement for every module that
/// the manifest has it import from, and the schema binding of every type
/// of the order that belongs to the module.
pub proof fn lemma_module_text_holds(
    model: ZorshGeneratorView,
    current: Seq<char>,
    dependencies: TypeDependenciesView,
)
    ensures
        entry_of(dependencies.module_imports, current) matches Some(k) ==> forall|s: int|
            0 <= s < dependencies.module_imports[k].sources.len() ==> contains(
                module_text(model, current, dependencies),
                import_line(#[trigger] dependencies.module_imports[k].sources[s]),
            ),
        forall|p: int|
            0 <= p < dependencies.ordered_types.len() && type_module(
                model,
                dependencies.ordered_types[p],
            ) == current ==> contains(
                module_text(model, current, dependencies),
                definition_text(model, #[trigger] dependencies.ordered_types[p]),
            ),
{
    let header = "import { b } from '@zorsh/zorsh';\n"@;
    let imports = imports_text(dependencies.module_imports, current);
    let definitions = definitions_text(model, dependencies.ordered_types, current);
    let exports = exports_text(export_lines(model, dependencies.ordered_types, current));
    let text = module_text(model, current, dependencies);
    match entry_of(dependencies.module_imports, current) {
        Some(k) => {
            let sources = dependencies.module_imports[k].sources;
            assert forall|s: int| 0 <= s < sources.len() implies contains(
                text,
                import_line(#[trigger] sources[s]),
            ) by {
                lemma_source_written(sources, s);
                lemma_contains_grows(
                    header,
                    imports,
                    "\n"@ + definitions + exports,
                    import_line(sources[s]),
                );
                assert(header + imports + ("\n"@ + definitions + exports) =~= text);
            }
        },
        None => {},
    }
    assert forall|p: int|
        0 <= p < dependencies.ordered_types.len() && type_module(
            model,
            dependencies.ordered_types[p],
        ) == current implies contains(
        text,
        definition_text(model, #[trigger] dependencies.ordered_types[p]),
    ) by {
        lemma_definition_written(model, dependencies.ordered_types, current, p);
        lemma_contains_grows(
            header + imports + "\n"@,
            definitions,
            exports,
            definition_text(model, dependencies.ordered_types[p]),
        );
        assert(header + imports + "\n"@ + definitions + exports =~= text);
    }
}

/// A module that the manifest has no entry for has no import but that of
/// the schema library: its text is that import, an empty line, its schema
/// bindings and its export list.
pub proof fn lemma_no_imports(
    model: ZorshGeneratorView,
    current: Seq<char>,
    dependencies: TypeDependenciesView,
)
    requires
        entry_of(dependencies.module_imports, current) is None,
    ensures
        module_text(model, current, dependencies) == "import { b } from '@zorsh/zorsh';\n"@ + "\n"@
            + definitions_text(model, dependencies.ordered_types, current) + exports_text(
            export_lines(model, dependencies.ordered_types, current),
        ),
{
    let header = "import { b } from '@zorsh/zorsh';\n"@;
    assert(header + Seq::<char>::empty() =~= header);
}

} // verus!
