//! Settling, once all units have been put together, whether each reference
//! is to a struct or to an enum.
//!
//! A parser sees one unit, and in it only the declarations that stand
//! before the reference, so the kind it gives a reference is provisional:
//! a reference to a type that is declared later in the unit, or in another
//! unit, is taken for a struct. Here every reference is classified again,
//! against the declarations of all units. A reference to a path that
//! nothing declares stays a struct reference and is not an error: the
//! sources may well refer to types that are declared outside them.
use crate::code_generator::type_schema;
use crate::dependency_resolver::kind_dependencies;
use crate::type_parser::{
    declares_enum, has_enum, EnumInfo, EnumInfoView, EnumVariant,
    EnumVariantView, FieldInfo, FieldInfoView, StructInfo, StructInfoView, TypeKind, TypeKindView,
};
use vstd::prelude::*;

verus! {

/// The type `kind` with every reference in it classified against the
/// declared enums `enums`: a reference is to an enum where an
/// enum is declared at its path, and to a struct otherwise.
pub open spec fn classify_kind(
    enums: Seq<EnumInfoView>,
    kind: TypeKindView,
) -> TypeKindView
    decreases kind,
{
    match kind {
        TypeKindView::Struct(name, path) => classify_reference(enums, name, path),
        TypeKindView::Enum(name, path) => classify_reference(enums, name, path),
        TypeKindView::Vec(inner) => TypeKindView::Vec(
            Box::new(classify_kind(enums, *inner)),
        ),
        TypeKindView::Option(inner) => TypeKindView::Option(
            Box::new(classify_kind(enums, *inner)),
        ),
        TypeKindView::Array(inner, length) => TypeKindView::Array(
            Box::new(classify_kind(enums, *inner)),
            length,
        ),
        TypeKindView::HashMap(key, value) => TypeKindView::HashMap(
            Box::new(classify_kind(enums, *key)),
            Box::new(classify_kind(enums, *value)),
        ),
        TypeKindView::Primitive(name) => TypeKindView::Primitive(name),
        TypeKindView::String => TypeKindView::String,
    }
}

/// The reference to the type `name` at `path`, as a reference to an enum
/// where an enum is declared there, and to a struct otherwise.
pub open spec fn classify_reference(
    enums: Seq<EnumInfoView>,
    name: Seq<char>,
    path: Seq<char>,
) -> TypeKindView {
    if declares_enum(enums, path) {
        TypeKindView::Enum(name, path)
    } else {
        TypeKindView::Struct(name, path)
    }
}

/// The field with its type classified.
pub open spec fn classify_field(
    enums: Seq<EnumInfoView>,
    field: FieldInfoView,
) -> FieldInfoView {
    FieldInfoView { name: field.name, type_kind: classify_kind(enums, field.type_kind) }
}

/// The fields with their types classified.
pub open spec fn classify_fields(
    enums: Seq<EnumInfoView>,
    fields: Seq<FieldInfoView>,
) -> Seq<FieldInfoView> {
    fields.map_values(|f: FieldInfoView| classify_field(enums, f))
}

/// The struct with the types of its fields classified.
pub open spec fn classify_struct(
    enums: Seq<EnumInfoView>,
    info: StructInfoView,
) -> StructInfoView {
    StructInfoView { fields: classify_fields(enums, info.fields), ..info }
}

/// The variant with the types of its fields classified.
pub open spec fn classify_variant(
    enums: Seq<EnumInfoView>,
    variant: EnumVariantView,
) -> EnumVariantView {
    EnumVariantView {
        name: variant.name,
        fields: match variant.fields {
            Some(fields) => Some(classify_fields(enums, fields)),
            None => None,
        },
    }
}

/// The enum with the types of its variants' fields classified.
pub open spec fn classify_enum(
    enums: Seq<EnumInfoView>,
    info: EnumInfoView,
) -> EnumInfoView {
    EnumInfoView {
        variants: info.variants.map_values(|v: EnumVariantView| classify_variant(enums, v)),
        ..info
    }
}

/// All structs, with every reference classified against the whole model.
pub open spec fn classified_structs(structs: Seq<StructInfoView>, enums: Seq<EnumInfoView>) -> Seq<
    StructInfoView,
> {
    structs.map_values(|s: StructInfoView| classify_struct(enums, s))
}

/// All enums, with every reference classified against the whole model.
pub open spec fn classified_enums(enums: Seq<EnumInfoView>) -> Seq<
    EnumInfoView,
> {
    enums.map_values(|e: EnumInfoView| classify_enum(enums, e))
}

/// Classifying a type leaves its schema expression as it is.
pub proof fn lemma_classify_keeps_schema(
    enums: Seq<EnumInfoView>,
    kind: TypeKindView,
)
    ensures
        type_schema(classify_kind(enums, kind)) == type_schema(kind),
    decreases kind,
{
    match kind {
        TypeKindView::Vec(inner) => lemma_classify_keeps_schema(enums, *inner),
        TypeKindView::Option(inner) => lemma_classify_keeps_schema(enums, *inner),
        TypeKindView::Array(inner, _) => lemma_classify_keeps_schema(enums, *inner),
        TypeKindView::HashMap(key, value) => {
            lemma_classify_keeps_schema(enums, *key);
            lemma_classify_keeps_schema(enums, *value);
        },
        _ => {},
    }
}

/// Classifying a type leaves the paths it refers to as they are.
pub proof fn lemma_classify_keeps_dependencies(
    enums: Seq<EnumInfoView>,
    kind: TypeKindView,
)
    ensures
        kind_dependencies(classify_kind(enums, kind)) == kind_dependencies(kind),
    decreases kind,
{
    match kind {
        TypeKindView::Vec(inner) => lemma_classify_keeps_dependencies(enums, *inner),
        TypeKindView::Option(inner) => lemma_classify_keeps_dependencies(enums, *inner),
        TypeKindView::Array(inner, _) => lemma_classify_keeps_dependencies(enums, *inner),
        TypeKindView::HashMap(key, value) => {
            lemma_classify_keeps_dependencies(enums, *key);
            lemma_classify_keeps_dependencies(enums, *value);
        },
        _ => {},
    }
}

/// Classifies every reference in `kind` against the declarations.
pub fn classify_type(enums: &Vec<EnumInfo>, kind: &TypeKind) -> (r:
    TypeKind)
    ensures
        r@ == classify_kind(enums.deep_view(), kind@),
    decreases kind,
{
    match kind {
        TypeKind::Struct(name, path) => classify_path(enums, name, path),
        TypeKind::Enum(name, path) => classify_path(enums, name, path),
        TypeKind::Vec(inner) => TypeKind::Vec(Box::new(classify_type(enums, &**inner))),
        TypeKind::Option(inner) => TypeKind::Option(
            Box::new(classify_type(enums, &**inner)),
        ),
        TypeKind::Array(inner, length) => TypeKind::Array(
            Box::new(classify_type(enums, &**inner)),
            *length,
        ),
        TypeKind::HashMap(key, value) => TypeKind::HashMap(
            Box::new(classify_type(enums, &**key)),
            Box::new(classify_type(enums, &**value)),
        ),
        TypeKind::Primitive(name) => TypeKind::Primitive(name.clone()),
        TypeKind::String => TypeKind::String,
    }
}

/// The reference to the type `name` at `path`, classified.
fn classify_path(enums: &Vec<EnumInfo>, name: &String, path: &String) -> (r:
    TypeKind)
    ensures
        r@ == classify_reference(enums.deep_view(), name@, path@),
{
    if has_enum(enums, path.as_str()) {
        TypeKind::Enum(name.clone(), path.clone())
    } else {
        TypeKind::Struct(name.clone(), path.clone())
    }
}

/// Classifies the types of a list of fields.
fn classify_field_list(enums: &Vec<EnumInfo>, fields: &Vec<FieldInfo>) -> (r:
    Vec<FieldInfo>)
    ensures
        r.deep_view() == classify_fields(enums.deep_view(),
            fields.deep_view(),
        ),
{
    let mut out: Vec<FieldInfo> = Vec::new();
    let mut i: usize = 0;
    while i < fields.len()
        invariant
            i <= fields@.len(),
            out@.len() == i,
            forall|k: int|
                0 <= k < i ==> out@[k]@ == classify_field(enums.deep_view(),
                    fields@[k]@,
                ),
        decreases fields@.len() - i,
    {
        out.push(
            FieldInfo {
                name: fields[i].name.clone(),
                type_kind: classify_type(enums, &fields[i].type_kind),
            },
        );
        i += 1;
    }
    out
}

/// All structs, with every reference classified against the whole model.
pub fn classify_structs(structs: &Vec<StructInfo>, enums: &Vec<EnumInfo>) -> (r: Vec<StructInfo>)
    ensures
        r.deep_view() == classified_structs(structs.deep_view(), enums.deep_view()),
{
    let mut out: Vec<StructInfo> = Vec::new();
    let mut i: usize = 0;
    while i < structs.len()
        invariant
            i <= structs@.len(),
            out@.len() == i,
            forall|k: int|
                0 <= k < i ==> out@[k]@ == classify_struct(enums.deep_view(),
                    structs@[k]@,
                ),
        decreases structs@.len() - i,
    {
        out.push(
            StructInfo {
                name: structs[i].name.clone(),
                module: structs[i].module.clone(),
                fields: classify_field_list(enums, &structs[i].fields),
            },
        );
        i += 1;
    }
    out
}

/// Classifies the types of the fields of one enum.
fn classify_enum_info(enums: &Vec<EnumInfo>, info: &EnumInfo) -> (r:
    EnumInfo)
    ensures
        r@ == classify_enum(enums.deep_view(), info@),
{
    let mut variants: Vec<EnumVariant> = Vec::new();
    let mut i: usize = 0;
    while i < info.variants.len()
        invariant
            i <= info.variants@.len(),
            variants@.len() == i,
            forall|k: int|
                0 <= k < i ==> variants@[k]@ == classify_variant(enums.deep_view(),
                    info.variants@[k]@,
                ),
        decreases info.variants@.len() - i,
    {
        let fields = match &info.variants[i].fields {
            Some(fields) => Some(classify_field_list(enums, fields)),
            None => None,
        };
        variants.push(EnumVariant { name: info.variants[i].name.clone(), fields });
        i += 1;
    }
    assert(variants.deep_view() =~= info@.variants.map_values(
        |v: EnumVariantView| classify_variant(enums.deep_view(), v),
    ));
    EnumInfo { name: info.name.clone(), module: info.module.clone(), variants }
}

/// All enums, with every reference classified against the whole model.
pub fn classify_enums(enums: &Vec<EnumInfo>) -> (r: Vec<EnumInfo>)
    ensures
        r.deep_view() == classified_enums(enums.deep_view()),
{
    let mut out: Vec<EnumInfo> = Vec::new();
    let mut i: usize = 0;
    while i < enums.len()
        invariant
            i <= enums@.len(),
            out@.len() == i,
            forall|k: int|
                0 <= k < i ==> out@[k]@ == classify_enum(enums.deep_view(),
                    enums@[k]@,
                ),
        decreases enums@.len() - i,
    {
        out.push(classify_enum_info(enums, &enums[i]));
        i += 1;
    }
    out
}

} // verus!
