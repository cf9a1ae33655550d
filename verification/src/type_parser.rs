//! The type model built from the declarations of one source unit, and the
//! parser that builds it.
use crate::error::{ConvertError, ConvertErrorView};
use crate::source::{parse_source, source_syntax};
use crate::syntax::{
    lemma_arguments_view, lemma_segments_view, FieldDecl, FieldDeclView, FieldList, FieldListView,
    GenericArgument, GenericArgumentView, PathSegment, PathSegmentView, SourceAttribute,
    SourceAttributeView, SourceItem, SourceItemView, TypeExpr, TypeExprView, VariantDecl,
    VariantDeclView,
};
use crate::text::{contains, join_strings, joined, str_contains, str_eq};
use vstd::prelude::*;

verus! {

/// The shape of a field's type.
#[derive(Debug, PartialEq, Eq)]
pub enum TypeKind {
    /// A numeric primitive, by its keyword (`u8`, `i64`, `f32`, ...).
    Primitive(String),
    /// A reference to a struct: its name and its fully-qualified path.
    Struct(String, String),
    /// A reference to an enum: its name and its fully-qualified path.
    Enum(String, String),
    /// A sequence of the inner type.
    Vec(Box<TypeKind>),
    /// An associative map from the first type to the second.
    HashMap(Box<TypeKind>, Box<TypeKind>),
    /// An optional value of the inner type.
    Option(Box<TypeKind>),
    /// A fixed-length array of the inner type.
    Array(Box<TypeKind>, usize),
    /// Text.
    String,
}

/// The mathematical value of a [`TypeKind`].
pub enum TypeKindView {
    Primitive(Seq<char>),
    Struct(Seq<char>, Seq<char>),
    Enum(Seq<char>, Seq<char>),
    Vec(Box<TypeKindView>),
    HashMap(Box<TypeKindView>, Box<TypeKindView>),
    Option(Box<TypeKindView>),
    Array(Box<TypeKindView>, usize),
    String,
}

/// The value of a [`TypeKind`], by recursion on its structure.
pub open spec fn type_kind_view(t: TypeKind) -> TypeKindView
    decreases t,
{
    match t {
        TypeKind::Primitive(n) => TypeKindView::Primitive(n@),
        TypeKind::Struct(n, p) => TypeKindView::Struct(n@, p@),
        TypeKind::Enum(n, p) => TypeKindView::Enum(n@, p@),
        TypeKind::Vec(inner) => TypeKindView::Vec(Box::new(type_kind_view(*inner))),
        TypeKind::HashMap(k, v) => TypeKindView::HashMap(
            Box::new(type_kind_view(*k)),
            Box::new(type_kind_view(*v)),
        ),
        TypeKind::Option(inner) => TypeKindView::Option(Box::new(type_kind_view(*inner))),
        TypeKind::Array(inner, n) => TypeKindView::Array(Box::new(type_kind_view(*inner)), n),
        TypeKind::String => TypeKindView::String,
    }
}

impl View for TypeKind {
    type V = TypeKindView;

    open spec fn view(&self) -> TypeKindView {
        type_kind_view(*self)
    }
}

impl DeepView for TypeKind {
    type V = TypeKindView;

    open spec fn deep_view(&self) -> TypeKindView {
        type_kind_view(*self)
    }
}

impl Clone for TypeKind {
    fn clone(&self) -> (r: Self)
        ensures
            r@ == self@,
        decreases self,
    {
        match self {
            TypeKind::Primitive(n) => TypeKind::Primitive(n.clone()),
            TypeKind::Struct(n, p) => TypeKind::Struct(n.clone(), p.clone()),
            TypeKind::Enum(n, p) => TypeKind::Enum(n.clone(), p.clone()),
            TypeKind::Vec(inner) => TypeKind::Vec(Box::new((&**inner).clone())),
            TypeKind::HashMap(k, v) => TypeKind::HashMap(
                Box::new((&**k).clone()),
                Box::new((&**v).clone()),
            ),
            TypeKind::Option(inner) => TypeKind::Option(Box::new((&**inner).clone())),
            TypeKind::Array(inner, n) => TypeKind::Array(Box::new((&**inner).clone()), *n),
            TypeKind::String => TypeKind::String,
        }
    }
}

/// One field of a struct or of an enum variant. An empty name stands for a
/// positional field.
#[derive(Debug, PartialEq, Eq)]
pub struct FieldInfo {
    pub name: String,
    pub type_kind: TypeKind,
}

/// The mathematical value of a [`FieldInfo`].
pub struct FieldInfoView {
    pub name: Seq<char>,
    pub type_kind: TypeKindView,
}

impl View for FieldInfo {
    type V = FieldInfoView;

    open spec fn view(&self) -> FieldInfoView {
        FieldInfoView { name: self.name@, type_kind: self.type_kind@ }
    }
}

impl DeepView for FieldInfo {
    type V = FieldInfoView;

    open spec fn deep_view(&self) -> FieldInfoView {
        self.view()
    }
}

impl Clone for FieldInfo {
    fn clone(&self) -> (r: Self)
        ensures
            r@ == self@,
    {
        FieldInfo { name: self.name.clone(), type_kind: self.type_kind.clone() }
    }
}

/// A copy of a list of fields.
pub fn clone_fields(fields: &Vec<FieldInfo>) -> (r: Vec<FieldInfo>)
    ensures
        r.deep_view() == fields.deep_view(),
{
    let mut out: Vec<FieldInfo> = Vec::new();
    let mut i: usize = 0;
    while i < fields.len()
        invariant
            i <= fields@.len(),
            out@.len() == i,
            forall|k: int| 0 <= k < i ==> out@[k]@ == fields@[k]@,
        decreases fields@.len() - i,
    {
        out.push(fields[i].clone());
        i += 1;
    }
    out
}

/// A declared struct: its name, its module and its fields in declaration
/// order.
#[derive(Debug, PartialEq, Eq)]
pub struct StructInfo {
    pub name: String,
    pub module: String,
    pub fields: Vec<FieldInfo>,
}

/// The mathematical value of a [`StructInfo`].
pub struct StructInfoView {
    pub name: Seq<char>,
    pub module: Seq<char>,
    pub fields: Seq<FieldInfoView>,
}

impl View for StructInfo {
    type V = StructInfoView;

    open spec fn view(&self) -> StructInfoView {
        StructInfoView {
            name: self.name@,
            module: self.module@,
            fields: self.fields.deep_view(),
        }
    }
}

impl DeepView for StructInfo {
    type V = StructInfoView;

    open spec fn deep_view(&self) -> StructInfoView {
        self.view()
    }
}

impl Clone for StructInfo {
    fn clone(&self) -> (r: Self)
        ensures
            r@ == self@,
    {
        StructInfo {
            name: self.name.clone(),
            module: self.module.clone(),
            fields: clone_fields(&self.fields),
        }
    }
}

/// One variant of an enum. `fields` is `None` for a unit variant.
#[derive(Debug, PartialEq, Eq)]
pub struct EnumVariant {
    pub name: String,
    pub fields: Option<Vec<FieldInfo>>,
}

/// The mathematical value of an [`EnumVariant`].
pub struct EnumVariantView {
    pub name: Seq<char>,
    pub fields: Option<Seq<FieldInfoView>>,
}

impl View for EnumVariant {
    type V = EnumVariantView;

    open spec fn view(&self) -> EnumVariantView {
        EnumVariantView { name: self.name@, fields: self.fields.deep_view() }
    }
}

impl DeepView for EnumVariant {
    type V = EnumVariantView;

    open spec fn deep_view(&self) -> EnumVariantView {
        self.view()
    }
}

impl Clone for EnumVariant {
    fn clone(&self) -> (r: Self)
        ensures
            r@ == self@,
    {
        let fields = match &self.fields {
            Some(list) => Some(clone_fields(list)),
            None => None,
        };
        EnumVariant { name: self.name.clone(), fields }
    }
}

/// A declared enum: its name, its module and its variants in declaration
/// order.
#[derive(Debug, PartialEq, Eq)]
pub struct EnumInfo {
    pub name: String,
    pub module: String,
    pub variants: Vec<EnumVariant>,
}

/// The mathematical value of an [`EnumInfo`].
pub struct EnumInfoView {
    pub name: Seq<char>,
    pub module: Seq<char>,
    pub variants: Seq<EnumVariantView>,
}

impl View for EnumInfo {
    type V = EnumInfoView;

    open spec fn view(&self) -> EnumInfoView {
        EnumInfoView {
            name: self.name@,
            module: self.module@,
            variants: self.variants.deep_view(),
        }
    }
}

impl DeepView for EnumInfo {
    type V = EnumInfoView;

    open spec fn deep_view(&self) -> EnumInfoView {
        self.view()
    }
}

impl Clone for EnumInfo {
    fn clone(&self) -> (r: Self)
        ensures
            r@ == self@,
    {
        let mut variants: Vec<EnumVariant> = Vec::new();
        let mut i: usize = 0;
        while i < self.variants.len()
            invariant
                i <= self.variants@.len(),
                variants@.len() == i,
                forall|k: int| 0 <= k < i ==> variants@[k]@ == self.variants@[k]@,
            decreases self.variants@.len() - i,
        {
            variants.push(self.variants[i].clone());
            i += 1;
        }
        assert(variants.deep_view() =~= self.variants.deep_view());
        EnumInfo { name: self.name.clone(), module: self.module.clone(), variants }
    }
}


/// A copy of a list of structs.
pub fn clone_structs(structs: &Vec<StructInfo>) -> (r: Vec<StructInfo>)
    ensures
        r.deep_view() == structs.deep_view(),
{
    let mut out: Vec<StructInfo> = Vec::new();
    let mut i: usize = 0;
    while i < structs.len()
        invariant
            i <= structs@.len(),
            out@.len() == i,
            forall|k: int| 0 <= k < i ==> out@[k]@ == structs@[k]@,
        decreases structs@.len() - i,
    {
        out.push(structs[i].clone());
        i += 1;
    }
    out
}

/// A copy of a list of enums.
pub fn clone_enums(enums: &Vec<EnumInfo>) -> (r: Vec<EnumInfo>)
    ensures
        r.deep_view() == enums.deep_view(),
{
    let mut out: Vec<EnumInfo> = Vec::new();
    let mut i: usize = 0;
    while i < enums.len()
        invariant
            i <= enums@.len(),
            out@.len() == i,
            forall|k: int| 0 <= k < i ==> out@[k]@ == enums@[k]@,
        decreases enums@.len() - i,
    {
        out.push(enums[i].clone());
        i += 1;
    }
    out
}

/// The value of a result whose error is a [`ConvertError`].
pub open spec fn result_view<T: View>(r: Result<T, ConvertError>) -> Result<T::V, ConvertErrorView> {
    match r {
        Ok(value) => Ok(value@),
        Err(error) => Err(error@),
    }
}

/// The fully-qualified path of the type `name` declared in `module`.
pub open spec fn full_path(module: Seq<char>, name: Seq<char>) -> Seq<char> {
    module + "::"@ + name
}

/// Builds the fully-qualified path of the type `name` declared in `module`.
pub fn make_full_path(module: &str, name: &str) -> (r: String)
    ensures
        r@ == full_path(module@, name@),
{
    let mut path = String::new();
    path.append(module);
    path.append("::");
    path.append(name);
    path
}

/// Some enum of `enums` has the fully-qualified path `path`.
pub open spec fn declares_enum(enums: Seq<EnumInfoView>, path: Seq<char>) -> bool {
    exists|i: int| 0 <= i < enums.len() && full_path(enums[i].module, enums[i].name) == path
}

/// Whether some enum of `enums` has the fully-qualified path `path`.
pub fn has_enum(enums: &Vec<EnumInfo>, path: &str) -> (r: bool)
    ensures
        r == declares_enum(enums.deep_view(), path@),
{
    let mut i: usize = 0;
    while i < enums.len()
        invariant
            i <= enums@.len(),
            forall|k: int| 0 <= k < i ==> full_path(enums@[k]@.module, enums@[k]@.name) != path@,
        decreases enums@.len() - i,
    {
        let candidate = make_full_path(enums[i].module.as_str(), enums[i].name.as_str());
        if str_eq(candidate.as_str(), path) {
            assert(full_path(enums.deep_view()[i as int].module, enums.deep_view()[i as int].name)
                == path@);
            return true;
        }
        i += 1;
    }
    false
}

/// The attribute is a `derive` list that names the serialization marker.
pub open spec fn is_marker(attr: SourceAttributeView) -> bool {
    &&& attr.name == Some("derive"@)
    &&& attr.list_tokens is Some
    &&& (contains(attr.list_tokens->0, "BorshSerialize"@) || contains(
        attr.list_tokens->0,
        "BorshDeserialize"@,
    ))
}

/// Some attribute of the declaration is the serialization marker.
pub open spec fn has_marker(attrs: Seq<SourceAttributeView>) -> bool {
    exists|i: int| 0 <= i < attrs.len() && is_marker(attrs[i])
}

/// Whether a declaration with these attributes derives `BorshSerialize` or
/// `BorshDeserialize`.
pub fn has_borsh_derive(attrs: &Vec<SourceAttribute>) -> (r: bool)
    ensures
        r == has_marker(attrs.deep_view()),
{
    let mut i: usize = 0;
    while i < attrs.len()
        invariant
            i <= attrs@.len(),
            forall|k: int| 0 <= k < i ==> !is_marker(attrs@[k]@),
        decreases attrs@.len() - i,
    {
        let attr = &attrs[i];
        let found = match (&attr.name, &attr.list_tokens) {
            (Some(name), Some(tokens)) => str_eq(name.as_str(), "derive") && (str_contains(
                tokens.as_str(),
                "BorshSerialize",
            ) || str_contains(tokens.as_str(), "BorshDeserialize")),
            _ => false,
        };
        if found {
            assert(is_marker(attrs.deep_view()[i as int]));
            return true;
        }
        i += 1;
    }
    false
}

/// The keyword names a numeric primitive.
pub open spec fn is_primitive(name: Seq<char>) -> bool {
    name == "u8"@ || name == "u16"@ || name == "u32"@ || name == "u64"@ || name == "i8"@ || name
        == "i16"@ || name == "i32"@ || name == "i64"@ || name == "f32"@ || name == "f64"@
}

/// Whether `name` is the keyword of a numeric primitive.
pub fn is_primitive_name(name: &str) -> (r: bool)
    ensures
        r == is_primitive(name@),
{
    str_eq(name, "u8") || str_eq(name, "u16") || str_eq(name, "u32") || str_eq(name, "u64")
        || str_eq(name, "i8") || str_eq(name, "i16") || str_eq(name, "i32") || str_eq(name, "i64")
        || str_eq(name, "f32") || str_eq(name, "f64")
}

/// The number of aliases that are not being expanded.
pub open spec fn unvisited(visiting: Seq<bool>) -> nat
    decreases visiting.len(),
{
    if visiting.len() == 0 {
        0
    } else {
        unvisited(visiting.drop_last()) + if visiting.last() {
            0nat
        } else {
            1nat
        }
    }
}

/// Entering an alias that was not being expanded leaves one fewer.
pub proof fn lemma_visit_decreases(visiting: Seq<bool>, i: int)
    requires
        0 <= i < visiting.len(),
        !visiting[i],
    ensures
        unvisited(visiting.update(i, true)) + 1 == unvisited(visiting),
    decreases visiting.len(),
{
    let after = visiting.update(i, true);
    if i == visiting.len() - 1 {
        assert(after.drop_last() =~= visiting.drop_last());
    } else {
        assert(after.drop_last() =~= visiting.drop_last().update(i, true));
        lemma_visit_decreases(visiting.drop_last(), i);
    }
}

/// The position of the alias named `name`: the last one declared under that
/// name.
pub open spec fn find_alias(aliases: Seq<(Seq<char>, TypeExprView)>, name: Seq<char>) -> Option<int>
    decreases aliases.len(),
{
    if aliases.len() == 0 {
        None
    } else if aliases.last().0 == name {
        Some(aliases.len() - 1)
    } else {
        find_alias(aliases.drop_last(), name)
    }
}

/// Where `find_alias` finds a position, an alias of that name stands there.
pub proof fn lemma_find_alias(aliases: Seq<(Seq<char>, TypeExprView)>, name: Seq<char>)
    ensures
        find_alias(aliases, name) matches Some(i) ==> 0 <= i < aliases.len() && aliases[i].0 == name,
    decreases aliases.len(),
{
    if aliases.len() > 0 && aliases.last().0 != name {
        lemma_find_alias(aliases.drop_last(), name);
    }
}

/// The position of the first type among `args[from..]`.
pub open spec fn next_type_argument(args: Seq<GenericArgumentView>, from: int) -> Option<int>
    decreases args.len() - from,
{
    if from < 0 || from >= args.len() {
        None
    } else if args[from] is Type {
        Some(from)
    } else {
        next_type_argument(args, from + 1)
    }
}

/// Where `next_type_argument` finds a position, a type stands there.
pub proof fn lemma_next_type_argument(args: Seq<GenericArgumentView>, from: int)
    ensures
        next_type_argument(args, from) matches Some(i) ==> from <= i < args.len() && args[i] is Type,
    decreases args.len() - from,
{
    if 0 <= from < args.len() && !(args[from] is Type) {
        lemma_next_type_argument(args, from + 1);
    }
}

/// The module that a path's leading segments name: their identifiers
/// joined by `::`, without a leading `super`.
pub open spec fn qualifier_module(segments: Seq<PathSegmentView>) -> Seq<char> {
    let idents = segments.drop_last().map_values(|s: PathSegmentView| s.ident);
    if idents.len() > 0 && idents[0] == "super"@ {
        joined(idents.drop_first(), "::"@)
    } else {
        joined(idents, "::"@)
    }
}

/// The mathematical value of a [`TypeParser`].
pub struct TypeParserView {
    pub module: Seq<char>,
    pub only_annotated: bool,
    pub structs: Seq<StructInfoView>,
    pub enums: Seq<EnumInfoView>,
    pub type_aliases: Seq<(Seq<char>, TypeExprView)>,
}

/// The reference that a path which names no alias, primitive or container
/// stands for: a struct or an enum, in the module its leading segments name
/// or else in the parser's own. It counts as an enum where the parser has
/// seen an enum of that path, and as a struct otherwise. A type that is declared
/// further down, or in another unit, is therefore taken for a struct: the
/// kind given here is provisional, and is settled once all units have been
/// put together.
pub open spec fn resolve_reference(ctx: TypeParserView, segments: Seq<PathSegmentView>) -> TypeKindView
    recommends
        segments.len() > 0,
{
    let name = segments.last().ident;
    let module = if segments.len() > 1 {
        qualifier_module(segments)
    } else {
        ctx.module
    };
    let path = full_path(module, name);
    if declares_enum(ctx.enums, path) {
        TypeKindView::Enum(name, path)
    } else {
        TypeKindView::Struct(name, path)
    }
}

/// The part of `chain` from the first `name` in it on; nothing where `name`
/// is not in it.
pub open spec fn cycle_from(chain: Seq<Seq<char>>, name: Seq<char>) -> Seq<Seq<char>>
    decreases chain.len(),
{
    if chain.len() == 0 {
        chain
    } else if chain[0] == name {
        chain
    } else {
        cycle_from(chain.skip(1), name)
    }
}

/// How an alias cycle is named: the aliases from `name` on that are being
/// expanded, in the order in which they were entered, and `name` once
/// more, with ` -> ` between them.
pub open spec fn cycle_text(chain: Seq<Seq<char>>, name: Seq<char>) -> Seq<char> {
    joined(cycle_from(chain, name).push(name), " -> "@)
}

/// The type that the expression `e` stands for in the parser state `ctx`,
/// while the aliases marked in `visiting` are being expanded; `chain` holds
/// their names in the order in which they were entered.
///
/// An alias is looked up by the last identifier of a path, before anything
/// else. Expanding an alias that is already being expanded is an alias
/// cycle. A container without the type arguments it needs, an array whose
/// length is no literal, and every shape that is neither path nor array are
/// unsupported.
pub open spec fn resolve_type(
    ctx: TypeParserView,
    e: TypeExprView,
    visiting: Seq<bool>,
    chain: Seq<Seq<char>>,
) -> Result<TypeKindView, ConvertErrorView>
    decreases unvisited(visiting), e,
{
    match e {
        TypeExprView::Path { text, segments } => {
            if segments.len() == 0 {
                Err(ConvertErrorView::UnsupportedType(text))
            } else {
                let last = segments.last();
                let alias = find_alias(ctx.type_aliases, last.ident);
                if alias is Some {
                    let i = alias->0;
                    if 0 <= i < visiting.len() && !visiting[i] {
                        proof {
                            lemma_visit_decreases(visiting, i);
                        }
                        resolve_type(
                            ctx,
                            ctx.type_aliases[i].1,
                            visiting.update(i, true),
                            chain.push(last.ident),
                        )
                    } else {
                        Err(ConvertErrorView::AliasCycle(cycle_text(chain, last.ident)))
                    }
                } else if is_primitive(last.ident) {
                    Ok(TypeKindView::Primitive(last.ident))
                } else if last.ident == "String"@ {
                    Ok(TypeKindView::String)
                } else if last.ident == "Vec"@ || last.ident == "Option"@ {
                    if last.arguments is Some && last.arguments->0.len() > 0
                        && last.arguments->0[0] is Type {
                        match resolve_type(ctx, last.arguments->0[0]->Type_0, visiting, chain) {
                            Ok(inner) => Ok(
                                if last.ident == "Vec"@ {
                                    TypeKindView::Vec(Box::new(inner))
                                } else {
                                    TypeKindView::Option(Box::new(inner))
                                },
                            ),
                            Err(error) => Err(error),
                        }
                    } else {
                        Err(ConvertErrorView::UnsupportedType(text))
                    }
                } else if last.ident == "HashMap"@ {
                    if last.arguments is Some {
                        let args = last.arguments->0;
                        let first = next_type_argument(args, 0);
                        if first is Some {
                            let second = next_type_argument(args, first->0 + 1);
                            if second is Some {
                                proof {
                                    lemma_next_type_argument(args, 0);
                                    lemma_next_type_argument(args, first->0 + 1);
                                }
                                match resolve_type(ctx, args[first->0]->Type_0, visiting, chain) {
                                    Ok(key) => match resolve_type(
                                        ctx,
                                        args[second->0]->Type_0,
                                        visiting,
                                        chain,
                                    ) {
                                        Ok(value) => Ok(
                                            TypeKindView::HashMap(Box::new(key), Box::new(value)),
                                        ),
                                        Err(error) => Err(error),
                                    },
                                    Err(error) => Err(error),
                                }
                            } else {
                                Err(ConvertErrorView::UnsupportedType(text))
                            }
                        } else {
                            Err(ConvertErrorView::UnsupportedType(text))
                        }
                    } else {
                        Err(ConvertErrorView::UnsupportedType(text))
                    }
                } else {
                    Ok(resolve_reference(ctx, segments))
                }
            }
        },
        TypeExprView::Array { text, element, length } => {
            match length {
                Some(n) => match resolve_type(ctx, *element, visiting, chain) {
                    Ok(inner) => Ok(TypeKindView::Array(Box::new(inner), n)),
                    Err(error) => Err(error),
                },
                None => Err(ConvertErrorView::UnsupportedType(text)),
            }
        },
        TypeExprView::Other { text } => Err(ConvertErrorView::UnsupportedType(text)),
    }
}

/// The type that `e` stands for when no alias is being expanded.
pub open spec fn parse_type_spec(ctx: TypeParserView, e: TypeExprView) -> Result<
    TypeKindView,
    ConvertErrorView,
> {
    resolve_type(ctx, e, Seq::new(ctx.type_aliases.len(), |i: int| false), Seq::empty())
}


/// The alias table `aliases` after the aliases that `items` declare have
/// been added in order.
pub open spec fn collect_aliases(
    aliases: Seq<(Seq<char>, TypeExprView)>,
    items: Seq<SourceItemView>,
) -> Seq<(Seq<char>, TypeExprView)>
    decreases items.len(),
{
    if items.len() == 0 {
        aliases
    } else {
        let next = match items[0] {
            SourceItemView::Alias { name, target } => aliases.push((name, target)),
            _ => aliases,
        };
        collect_aliases(next, items.skip(1))
    }
}

/// The fields `done`, followed by what the declared fields `list` resolve
/// to, in order. A positional list gives every field the empty name; a named
/// list passes over fields that have no name. The first field whose type
/// does not resolve decides the error.
pub open spec fn resolve_fields(
    ctx: TypeParserView,
    list: Seq<FieldDeclView>,
    positional: bool,
    done: Seq<FieldInfoView>,
) -> Result<Seq<FieldInfoView>, ConvertErrorView>
    decreases list.len(),
{
    if list.len() == 0 {
        Ok(done)
    } else if !positional && list[0].name is None {
        resolve_fields(ctx, list.skip(1), positional, done)
    } else {
        match parse_type_spec(ctx, list[0].ty) {
            Ok(kind) => resolve_fields(
                ctx,
                list.skip(1),
                positional,
                done.push(
                    FieldInfoView {
                        name: if positional {
                            Seq::empty()
                        } else {
                            list[0].name->0
                        },
                        type_kind: kind,
                    },
                ),
            ),
            Err(error) => Err(error),
        }
    }
}

/// The fields recorded for a struct: those of a named field list, and none
/// for a tuple struct or a unit struct.
pub open spec fn struct_fields(ctx: TypeParserView, fields: FieldListView) -> Result<
    Seq<FieldInfoView>,
    ConvertErrorView,
> {
    match fields {
        FieldListView::Named(list) => resolve_fields(ctx, list, false, Seq::empty()),
        _ => Ok(Seq::empty()),
    }
}

/// The fields recorded for an enum variant: `None` for a unit variant.
pub open spec fn variant_fields(ctx: TypeParserView, fields: FieldListView) -> Result<
    Option<Seq<FieldInfoView>>,
    ConvertErrorView,
> {
    match fields {
        FieldListView::Named(list) => match resolve_fields(ctx, list, false, Seq::empty()) {
            Ok(resolved) => Ok(Some(resolved)),
            Err(error) => Err(error),
        },
        FieldListView::Unnamed(list) => match resolve_fields(ctx, list, true, Seq::empty()) {
            Ok(resolved) => Ok(Some(resolved)),
            Err(error) => Err(error),
        },
        FieldListView::Unit => Ok(None),
    }
}

/// The variants `done`, followed by what the declared variants `list`
/// resolve to, in order.
pub open spec fn resolve_variants(
    ctx: TypeParserView,
    list: Seq<VariantDeclView>,
    done: Seq<EnumVariantView>,
) -> Result<Seq<EnumVariantView>, ConvertErrorView>
    decreases list.len(),
{
    if list.len() == 0 {
        Ok(done)
    } else {
        match variant_fields(ctx, list[0].fields) {
            Ok(fields) => resolve_variants(
                ctx,
                list.skip(1),
                done.push(EnumVariantView { name: list[0].name, fields }),
            ),
            Err(error) => Err(error),
        }
    }
}

/// A declaration with these attributes is taken into the model.
pub open spec fn should_process(ctx: TypeParserView, attrs: Seq<SourceAttributeView>) -> bool {
    !ctx.only_annotated || has_marker(attrs)
}

/// The parser state after one top-level item. A struct or an enum that is
/// taken into the model is added behind those already there; every other
/// item leaves the state as it is.
pub open spec fn visit_item(ctx: TypeParserView, item: SourceItemView) -> Result<
    TypeParserView,
    ConvertErrorView,
> {
    match item {
        SourceItemView::Struct { name, attrs, fields } => {
            if should_process(ctx, attrs) {
                match struct_fields(ctx, fields) {
                    Ok(resolved) => Ok(
                        TypeParserView {
                            structs: ctx.structs.push(
                                StructInfoView { name, module: ctx.module, fields: resolved },
                            ),
                            ..ctx
                        },
                    ),
                    Err(error) => Err(error),
                }
            } else {
                Ok(ctx)
            }
        },
        SourceItemView::Enum { name, attrs, variants } => {
            if should_process(ctx, attrs) {
                match resolve_variants(ctx, variants, Seq::empty()) {
                    Ok(resolved) => Ok(
                        TypeParserView {
                            enums: ctx.enums.push(
                                EnumInfoView { name, module: ctx.module, variants: resolved },
                            ),
                            ..ctx
                        },
                    ),
                    Err(error) => Err(error),
                }
            } else {
                Ok(ctx)
            }
        },
        _ => Ok(ctx),
    }
}

/// The parser state after the items `items`, visited in order; the first
/// item that fails decides the error.
pub open spec fn visit_items(ctx: TypeParserView, items: Seq<SourceItemView>) -> Result<
    TypeParserView,
    ConvertErrorView,
>
    decreases items.len(),
{
    if items.len() == 0 {
        Ok(ctx)
    } else {
        match visit_item(ctx, items[0]) {
            Ok(next) => visit_items(next, items.skip(1)),
            Err(error) => Err(error),
        }
    }
}

/// The parser state in which visiting the items `items` ends: after the
/// last item, or before the first one that fails.
pub open spec fn visit_items_state(ctx: TypeParserView, items: Seq<SourceItemView>) -> TypeParserView
    decreases items.len(),
{
    if items.len() == 0 {
        ctx
    } else {
        match visit_item(ctx, items[0]) {
            Ok(next) => visit_items_state(next, items.skip(1)),
            Err(_) => ctx,
        }
    }
}

/// The path that names the alias `name` and nothing else.
pub open spec fn alias_path(name: Seq<char>) -> TypeExprView {
    TypeExprView::Path { text: name, segments: seq![PathSegmentView { ident: name, arguments: None }] }
}

/// The name of the first alias cycle in the alias table, going through the
/// aliases from position `from` on: the cycle that expanding one of them
/// runs into. An alias whose expansion fails otherwise, or that nothing
/// uses, is no cycle.
pub open spec fn first_alias_cycle(ctx: TypeParserView, from: int) -> Option<Seq<char>>
    decreases ctx.type_aliases.len() - from,
{
    if from < 0 || from >= ctx.type_aliases.len() {
        None
    } else {
        match parse_type_spec(ctx, alias_path(ctx.type_aliases[from].0)) {
            Err(ConvertErrorView::AliasCycle(cycle)) => Some(cycle),
            _ => first_alias_cycle(ctx, from + 1),
        }
    }
}

/// The parser state with the aliases that `items` declare collected.
pub open spec fn with_aliases(ctx: TypeParserView, items: Seq<SourceItemView>) -> TypeParserView {
    TypeParserView { type_aliases: collect_aliases(ctx.type_aliases, items), ..ctx }
}

/// The parser state after a whole unit: first every alias of the unit is
/// collected; a cycle among the aliases, whether anything uses them or
/// not, is an alias cycle; otherwise the items are visited in order.
pub open spec fn parse_items_spec(ctx: TypeParserView, items: Seq<SourceItemView>) -> Result<
    TypeParserView,
    ConvertErrorView,
> {
    match first_alias_cycle(with_aliases(ctx, items), 0) {
        Some(cycle) => Err(ConvertErrorView::AliasCycle(cycle)),
        None => visit_items(with_aliases(ctx, items), items),
    }
}

/// The parser state in which taking in a whole unit ends: with the unit's
/// aliases collected, and, unless they hold a cycle, its items visited up
/// to the first one that fails.
pub open spec fn parse_items_state(ctx: TypeParserView, items: Seq<SourceItemView>) -> TypeParserView {
    match first_alias_cycle(with_aliases(ctx, items), 0) {
        Some(_) => with_aliases(ctx, items),
        None => visit_items_state(with_aliases(ctx, items), items),
    }
}

/// The parser state in which parsing the source text `text` ends: as it
/// was where the text is not a well-formed source file.
pub open spec fn parse_file_state(ctx: TypeParserView, text: Seq<char>) -> TypeParserView {
    match source_syntax(text) {
        Ok(items) => parse_items_state(ctx, items),
        Err(_) => ctx,
    }
}

/// The parser state after the source text `text`.
pub open spec fn parse_file_spec(ctx: TypeParserView, text: Seq<char>) -> Result<
    TypeParserView,
    ConvertErrorView,
> {
    match source_syntax(text) {
        Ok(items) => parse_items_spec(ctx, items),
        Err(message) => Err(ConvertErrorView::Parse(message)),
    }
}

/// Builds the type model of one source unit: its structs and enums, with
/// every field type resolved through the unit's type aliases.
pub struct TypeParser {
    /// The module that the unit's declarations belong to.
    pub module: String,
    /// Whether only declarations that carry the serialization marker count.
    pub only_annotated: bool,
    /// The structs found so far, in declaration order.
    pub structs: Vec<StructInfo>,
    /// The enums found so far, in declaration order.
    pub enums: Vec<EnumInfo>,
    /// The aliases collected so far: name and target.
    pub type_aliases: Vec<(String, TypeExpr)>,
}

impl View for TypeParser {
    type V = TypeParserView;

    open spec fn view(&self) -> TypeParserView {
        TypeParserView {
            module: self.module@,
            only_annotated: self.only_annotated,
            structs: self.structs.deep_view(),
            enums: self.enums.deep_view(),
            type_aliases: self.type_aliases.deep_view(),
        }
    }
}

impl TypeParser {
    /// A parser for the unit of module `module`, with nothing declared yet.
    pub fn new(module: String, only_annotated: bool) -> (r: Self)
        ensures
            r@ == (TypeParserView {
                module: module@,
                only_annotated,
                structs: Seq::empty(),
                enums: Seq::empty(),
                type_aliases: Seq::empty(),
            }),
    {
        let r = TypeParser {
            module,
            only_annotated,
            structs: Vec::new(),
            enums: Vec::new(),
            type_aliases: Vec::new(),
        };
        assert(r@.structs =~= Seq::empty());
        assert(r@.enums =~= Seq::empty());
        assert(r@.type_aliases =~= Seq::empty());
        r
    }

    /// Whether a declaration with these attributes is taken into the model.
    pub fn should_process_item(&self, attrs: &Vec<SourceAttribute>) -> (r: bool)
        ensures
            r == (!self.only_annotated || has_marker(attrs.deep_view())),
    {
        !self.only_annotated || has_borsh_derive(attrs)
    }

    /// The position of the alias named `name`, if there is one.
    fn alias_position(&self, name: &str) -> (r: Option<usize>)
        ensures
            match r {
                Some(i) => find_alias(self@.type_aliases, name@) == Some(i as int) && i
                    < self.type_aliases@.len(),
                None => find_alias(self@.type_aliases, name@) is None,
            },
    {
        let ghost aliases = self@.type_aliases;
        let mut i: usize = self.type_aliases.len();
        assert(aliases.take(i as int) =~= aliases);
        while i > 0
            invariant
                i <= self.type_aliases@.len(),
                aliases == self@.type_aliases,
                find_alias(aliases, name@) == find_alias(aliases.take(i as int), name@),
            decreases i,
        {
            assert(aliases.take(i as int).drop_last() =~= aliases.take(i - 1));
            if str_eq(self.type_aliases[i - 1].0.as_str(), name) {
                return Some(i - 1);
            }
            i -= 1;
        }
        None
    }

    /// The module named by the leading segments of a path.
    fn qualifier(segments: &Vec<PathSegment>) -> (r: String)
        requires
            segments@.len() > 0,
        ensures
            r@ == qualifier_module(segments.deep_view()),
    {
        let ghost idents = segments.deep_view().drop_last().map_values(|s: PathSegmentView| s.ident);
        let count: usize = segments.len() - 1;
        let start: usize = if count > 0 && str_eq(segments[0].ident.as_str(), "super") {
            1
        } else {
            0
        };
        let mut parts: Vec<String> = Vec::new();
        let mut i: usize = start;
        while i < count
            invariant
                start <= i <= count,
                count == segments@.len() - 1,
                parts@.len() == i - start,
                forall|k: int| 0 <= k < parts@.len() ==> parts@[k]@ == segments@[k + start]@.ident,
            decreases count - i,
        {
            parts.push(segments[i].ident.clone());
            i += 1;
        }
        proof {
            if start == 1 {
                assert(parts.deep_view() =~= idents.drop_first());
            } else {
                assert(parts.deep_view() =~= idents);
            }
        }
        join_strings(&parts, "::")
    }

    /// The struct or enum that a path refers to.
    fn reference(&self, segments: &Vec<PathSegment>) -> (r: TypeKind)
        requires
            segments@.len() > 0,
        ensures
            r@ == resolve_reference(self@, segments.deep_view()),
    {
        let name = &segments[segments.len() - 1].ident;
        let module = if segments.len() > 1 {
            Self::qualifier(segments)
        } else {
            self.module.clone()
        };
        let path = make_full_path(module.as_str(), name.as_str());
        if has_enum(&self.enums, path.as_str()) {
            TypeKind::Enum(name.clone(), path)
        } else {
            TypeKind::Struct(name.clone(), path)
        }
    }

    /// The name of the alias cycle that is closed by coming to `name` again.
    fn cycle_message(chain: &Vec<String>, name: &str) -> (r: String)
        ensures
            r@ == cycle_text(chain.deep_view(), name@),
    {
        let ghost all = chain.deep_view();
        let mut k: usize = 0;
        assert(all.skip(0) =~= all);
        while k < chain.len() && !str_eq(chain[k].as_str(), name)
            invariant
                k <= chain@.len(),
                all == chain.deep_view(),
                cycle_from(all, name@) == cycle_from(all.skip(k as int), name@),
            decreases chain@.len() - k,
        {
            assert(all.skip(k as int).skip(1) =~= all.skip(k + 1));
            k += 1;
        }
        let mut parts: Vec<String> = Vec::new();
        let mut i: usize = k;
        while i < chain.len()
            invariant
                k <= i <= chain@.len(),
                all == chain.deep_view(),
                parts@.len() == i - k,
                forall|j: int| 0 <= j < parts@.len() ==> parts@[j]@ == all[k + j],
            decreases chain@.len() - i,
        {
            parts.push(chain[i].clone());
            i += 1;
        }
        let mut last = String::new();
        last.append(name);
        parts.push(last);
        assert(parts.deep_view() =~= all.skip(k as int).push(name@));
        join_strings(&parts, " -> ")
    }

    /// Resolves `e` while the aliases marked in `visiting` are being
    /// expanded; `chain` holds their names in the order in which they were
    /// entered. Both are left as they were found.
    fn resolve(&self, e: &TypeExpr, visiting: &mut Vec<bool>, chain: &mut Vec<String>) -> (r: Result<
        TypeKind,
        ConvertError,
    >)
        requires
            old(visiting)@.len() == self.type_aliases@.len(),
        ensures
            final(visiting)@ == old(visiting)@,
            final(chain).deep_view() == old(chain).deep_view(),
            result_view(r) == resolve_type(self@, e@, old(visiting)@, old(chain).deep_view()),
        decreases unvisited(old(visiting)@), e,
    {
        match e {
            TypeExpr::Path { text, segments } => {
                proof {
                    lemma_segments_view(*text, *segments);
                }
                if segments.len() == 0 {
                    return Err(ConvertError::UnsupportedType(text.clone()));
                }
                let last = &segments[segments.len() - 1];
                let name = last.ident.as_str();
                proof {
                    lemma_arguments_view(*last);
                }
                match self.alias_position(name) {
                    Some(i) => {
                        if visiting[i] {
                            return Err(ConvertError::AliasCycle(Self::cycle_message(chain, name)));
                        }
                        visiting.set(i, true);
                        chain.push(last.ident.clone());
                        let ghost entered = chain.deep_view();
                        proof {
                            lemma_visit_decreases(old(visiting)@, i as int);
                            assert(entered =~= old(chain).deep_view().push(last.ident@));
                        }
                        let r = self.resolve(&self.type_aliases[i].1, visiting, chain);
                        visiting.set(i, false);
                        chain.pop();
                        assert(visiting@ =~= old(visiting)@);
                        assert(chain.deep_view() =~= entered.drop_last());
                        assert(entered.drop_last() =~= old(chain).deep_view());
                        return r;
                    },
                    None => {},
                }
                if is_primitive_name(name) {
                    return Ok(TypeKind::Primitive(last.ident.clone()));
                }
                if str_eq(name, "String") {
                    return Ok(TypeKind::String);
                }
                if str_eq(name, "Vec") || str_eq(name, "Option") {
                    let args = match &last.arguments {
                        Some(args) => args,
                        None => {
                            return Err(ConvertError::UnsupportedType(text.clone()));
                        },
                    };
                    if args.len() == 0 {
                        return Err(ConvertError::UnsupportedType(text.clone()));
                    }
                    let inner = match &args[0] {
                        GenericArgument::Type(ty) => self.resolve(ty, visiting, chain),
                        GenericArgument::Other => Err(ConvertError::UnsupportedType(text.clone())),
                    };
                    return match inner {
                        Ok(kind) => if str_eq(name, "Vec") {
                            Ok(TypeKind::Vec(Box::new(kind)))
                        } else {
                            Ok(TypeKind::Option(Box::new(kind)))
                        },
                        Err(error) => Err(error),
                    };
                }
                if str_eq(name, "HashMap") {
                    let args = match &last.arguments {
                        Some(args) => args,
                        None => {
                            return Err(ConvertError::UnsupportedType(text.clone()));
                        },
                    };
                    let first = match Self::type_argument_from(args, 0) {
                        Some(first) => first,
                        None => {
                            return Err(ConvertError::UnsupportedType(text.clone()));
                        },
                    };
                    let second = match Self::type_argument_from(args, first + 1) {
                        Some(second) => second,
                        None => {
                            return Err(ConvertError::UnsupportedType(text.clone()));
                        },
                    };
                    let key = match &args[first] {
                        GenericArgument::Type(ty) => self.resolve(ty, visiting, chain),
                        GenericArgument::Other => Err(ConvertError::UnsupportedType(text.clone())),
                    };
                    let key = match key {
                        Ok(key) => key,
                        Err(error) => {
                            return Err(error);
                        },
                    };
                    let value = match &args[second] {
                        GenericArgument::Type(ty) => self.resolve(ty, visiting, chain),
                        GenericArgument::Other => Err(ConvertError::UnsupportedType(text.clone())),
                    };
                    return match value {
                        Ok(value) => Ok(TypeKind::HashMap(Box::new(key), Box::new(value))),
                        Err(error) => Err(error),
                    };
                }
                Ok(self.reference(segments))
            },
            TypeExpr::Array { text, element, length } => {
                match length {
                    Some(n) => match self.resolve(&**element, visiting, chain) {
                        Ok(inner) => Ok(TypeKind::Array(Box::new(inner), *n)),
                        Err(error) => Err(error),
                    },
                    None => Err(ConvertError::UnsupportedType(text.clone())),
                }
            },
            TypeExpr::Other { text } => Err(ConvertError::UnsupportedType(text.clone())),
        }
    }

    /// The position of the first type among `args[from..]`.
    fn type_argument_from(args: &Vec<GenericArgument>, from: usize) -> (r: Option<usize>)
        ensures
            match r {
                Some(i) => next_type_argument(args.deep_view(), from as int) == Some(i as int)
                    && from <= i < args@.len() && i < usize::MAX && args@[i as int] is Type,
                None => next_type_argument(args.deep_view(), from as int) is None,
            },
    {
        let ghost all = args.deep_view();
        let mut i: usize = from;
        while i < args.len()
            invariant
                from <= i,
                all == args.deep_view(),
                next_type_argument(all, from as int) == next_type_argument(all, i as int),
            decreases args@.len() - i,
        {
            match &args[i] {
                GenericArgument::Type(_) => {
                    return Some(i);
                },
                GenericArgument::Other => {},
            }
            i += 1;
        }
        None
    }

    /// The type that a type expression stands for.
    ///
    /// Fails with [`ConvertError::AliasCycle`] where an alias expands to
    /// itself, and with [`ConvertError::UnsupportedType`] where the
    /// expression, or one it contains, has no schema.
    pub fn parse_type(&self, ty: &TypeExpr) -> (r: Result<TypeKind, ConvertError>)
        ensures
            result_view(r) == parse_type_spec(self@, ty@),
    {
        let mut visiting: Vec<bool> = Vec::new();
        let mut i: usize = 0;
        while i < self.type_aliases.len()
            invariant
                i <= self.type_aliases@.len(),
                visiting@.len() == i,
                forall|k: int| 0 <= k < i ==> !visiting@[k],
            decreases self.type_aliases@.len() - i,
        {
            visiting.push(false);
            i += 1;
        }
        assert(visiting@ =~= Seq::new(self@.type_aliases.len(), |i: int| false));
        let mut chain: Vec<String> = Vec::new();
        assert(chain.deep_view() =~= Seq::<Seq<char>>::empty());
        self.resolve(ty, &mut visiting, &mut chain)
    }
}


impl TypeParser {
    /// Adds the aliases that `items` declare to the alias table, in order.
    pub fn collect_type_aliases(&mut self, items: &Vec<SourceItem>)
        ensures
            final(self)@ == (TypeParserView {
                type_aliases: collect_aliases(old(self)@.type_aliases, items.deep_view()),
                ..old(self)@
            }),
    {
        let ghost all = items.deep_view();
        let ghost start = self@;
        let mut i: usize = 0;
        assert(all.skip(0) =~= all);
        while i < items.len()
            invariant
                i <= items@.len(),
                all == items.deep_view(),
                self@ == (TypeParserView { type_aliases: self@.type_aliases, ..start }),
                collect_aliases(self@.type_aliases, all.skip(i as int)) == collect_aliases(
                    start.type_aliases,
                    all,
                ),
            decreases items@.len() - i,
        {
            assert(all.skip(i as int).skip(1) =~= all.skip(i + 1));
            let ghost before = self@.type_aliases;
            match &items[i] {
                SourceItem::Alias { name, target } => {
                    self.type_aliases.push((name.clone(), target.clone()));
                    assert(self@.type_aliases =~= before.push((name@, target@)));
                },
                _ => {},
            }
            i += 1;
        }
    }

    /// Resolves the fields of a field list, in order.
    fn resolve_field_list(&self, list: &Vec<FieldDecl>, positional: bool) -> (r: Result<
        Vec<FieldInfo>,
        ConvertError,
    >)
        ensures
            match r {
                Ok(fields) => resolve_fields(self@, list.deep_view(), positional, Seq::empty())
                    == Ok::<Seq<FieldInfoView>, ConvertErrorView>(fields.deep_view()),
                Err(error) => resolve_fields(self@, list.deep_view(), positional, Seq::empty())
                    == Err::<Seq<FieldInfoView>, ConvertErrorView>(error@),
            },
    {
        let ghost all = list.deep_view();
        let ghost goal = resolve_fields(self@, all, positional, Seq::empty());
        let mut out: Vec<FieldInfo> = Vec::new();
        let mut i: usize = 0;
        assert(all.skip(0) =~= all);
        assert(out.deep_view() =~= Seq::empty());
        while i < list.len()
            invariant
                i <= list@.len(),
                all == list.deep_view(),
                goal == resolve_fields(self@, all, positional, Seq::empty()),
                resolve_fields(self@, all.skip(i as int), positional, out.deep_view()) == goal,
            decreases list@.len() - i,
        {
            assert(all.skip(i as int).skip(1) =~= all.skip(i + 1));
            let field = &list[i];
            let name = if positional {
                Some(String::new())
            } else {
                match &field.name {
                    Some(n) => Some(n.clone()),
                    None => None,
                }
            };
            match name {
                Some(name) => {
                    match self.parse_type(&field.ty) {
                        Ok(kind) => {
                            let ghost before = out.deep_view();
                            let info = FieldInfo { name, type_kind: kind };
                            out.push(info);
                            assert(out.deep_view() =~= before.push(info@));
                        },
                        Err(error) => {
                            return Err(error);
                        },
                    }
                },
                None => {},
            }
            i += 1;
        }
        Ok(out)
    }

    /// Takes a struct declaration into the model, unless the inclusion
    /// policy leaves it out. On an error the model is left as it was.
    pub fn visit_item_struct(
        &mut self,
        name: &String,
        attrs: &Vec<SourceAttribute>,
        fields: &FieldList,
    ) -> (r: Result<(), ConvertError>)
        ensures
            match r {
                Ok(_) => visit_item(
                    old(self)@,
                    SourceItemView::Struct {
                        name: name@,
                        attrs: attrs.deep_view(),
                        fields: fields@,
                    },
                ) == Ok::<TypeParserView, ConvertErrorView>(final(self)@),
                Err(error) => final(self)@ == old(self)@ && visit_item(
                    old(self)@,
                    SourceItemView::Struct {
                        name: name@,
                        attrs: attrs.deep_view(),
                        fields: fields@,
                    },
                ) == Err::<TypeParserView, ConvertErrorView>(error@),
            },
    {
        if !self.should_process_item(attrs) {
            return Ok(());
        }
        let resolved = match fields {
            FieldList::Named(list) => match self.resolve_field_list(list, false) {
                Ok(resolved) => resolved,
                Err(error) => {
                    return Err(error);
                },
            },
            _ => {
                let none: Vec<FieldInfo> = Vec::new();
                assert(none.deep_view() =~= Seq::empty());
                none
            },
        };
        let ghost before = self@.structs;
        let info = StructInfo { name: name.clone(), module: self.module.clone(), fields: resolved };
        self.structs.push(info);
        assert(self@.structs =~= before.push(info@));
        Ok(())
    }

    /// Resolves the fields of one enum variant.
    fn resolve_variant_fields(&self, fields: &FieldList) -> (r: Result<
        Option<Vec<FieldInfo>>,
        ConvertError,
    >)
        ensures
            match r {
                Ok(resolved) => variant_fields(self@, fields@) == Ok::<
                    Option<Seq<FieldInfoView>>,
                    ConvertErrorView,
                >(resolved.deep_view()),
                Err(error) => variant_fields(self@, fields@) == Err::<
                    Option<Seq<FieldInfoView>>,
                    ConvertErrorView,
                >(error@),
            },
    {
        match fields {
            FieldList::Named(list) => match self.resolve_field_list(list, false) {
                Ok(resolved) => Ok(Some(resolved)),
                Err(error) => Err(error),
            },
            FieldList::Unnamed(list) => match self.resolve_field_list(list, true) {
                Ok(resolved) => Ok(Some(resolved)),
                Err(error) => Err(error),
            },
            FieldList::Unit => Ok(None),
        }
    }

    /// Takes an enum declaration into the model, unless the inclusion policy
    /// leaves it out. On an error the model is left as it was.
    pub fn visit_item_enum(
        &mut self,
        name: &String,
        attrs: &Vec<SourceAttribute>,
        variants: &Vec<VariantDecl>,
    ) -> (r: Result<(), ConvertError>)
        ensures
            match r {
                Ok(_) => visit_item(
                    old(self)@,
                    SourceItemView::Enum {
                        name: name@,
                        attrs: attrs.deep_view(),
                        variants: variants.deep_view(),
                    },
                ) == Ok::<TypeParserView, ConvertErrorView>(final(self)@),
                Err(error) => final(self)@ == old(self)@ && visit_item(
                    old(self)@,
                    SourceItemView::Enum {
                        name: name@,
                        attrs: attrs.deep_view(),
                        variants: variants.deep_view(),
                    },
                ) == Err::<TypeParserView, ConvertErrorView>(error@),
            },
    {
        if !self.should_process_item(attrs) {
            return Ok(());
        }
        let ghost all = variants.deep_view();
        let ghost goal = resolve_variants(self@, all, Seq::empty());
        let mut resolved: Vec<EnumVariant> = Vec::new();
        let mut i: usize = 0;
        assert(all.skip(0) =~= all);
        assert(resolved.deep_view() =~= Seq::empty());
        while i < variants.len()
            invariant
                i <= variants@.len(),
                all == variants.deep_view(),
                self@ == old(self)@,
                should_process(self@, attrs.deep_view()),
                goal == resolve_variants(self@, all, Seq::empty()),
                resolve_variants(self@, all.skip(i as int), resolved.deep_view()) == goal,
            decreases variants@.len() - i,
        {
            assert(all.skip(i as int).skip(1) =~= all.skip(i + 1));
            match self.resolve_variant_fields(&variants[i].fields) {
                Ok(fields) => {
                    let ghost before = resolved.deep_view();
                    let variant = EnumVariant { name: variants[i].name.clone(), fields };
                    resolved.push(variant);
                    assert(resolved.deep_view() =~= before.push(variant@));
                },
                Err(error) => {
                    return Err(error);
                },
            }
            i += 1;
        }
        let ghost before = self@.enums;
        let info = EnumInfo { name: name.clone(), module: self.module.clone(), variants: resolved };
        self.enums.push(info);
        assert(self@.enums =~= before.push(info@));
        Ok(())
    }

    /// The name of the first alias cycle in the alias table, if the table
    /// holds one.
    pub fn find_alias_cycle(&self) -> (r: Option<String>)
        ensures
            r.deep_view() == first_alias_cycle(self@, 0),
    {
        let ghost aliases = self@.type_aliases;
        let mut k: usize = 0;
        while k < self.type_aliases.len()
            invariant
                k <= self.type_aliases@.len(),
                first_alias_cycle(self@, 0) == first_alias_cycle(self@, k as int),
            decreases self.type_aliases@.len() - k,
        {
            let name = &self.type_aliases[k].0;
            let mut segments: Vec<PathSegment> = Vec::new();
            let segment = PathSegment { ident: name.clone(), arguments: None };
            proof {
                lemma_arguments_view(segment);
            }
            segments.push(segment);
            let text = name.clone();
            proof {
                lemma_segments_view(text, segments);
                assert(segments.deep_view() =~= seq![
                    PathSegmentView { ident: name@, arguments: None },
                ]);
            }
            let path = TypeExpr::Path { text, segments };
            assert(path@ == alias_path(self@.type_aliases[k as int].0));
            match self.parse_type(&path) {
                Err(ConvertError::AliasCycle(cycle)) => {
                    return Some(cycle);
                },
                _ => {},
            }
            k += 1;
        }
        None
    }

    /// Takes the declarations of a whole unit into the model: first every
    /// alias is collected; where the aliases hold a cycle, that is the
    /// error, whether anything uses them or not; otherwise the items are
    /// visited in order. After an error the model holds the unit's aliases
    /// and the declarations that came before the one that failed.
    pub fn parse_items(&mut self, items: &Vec<SourceItem>) -> (r: Result<(), ConvertError>)
        ensures
            final(self)@ == parse_items_state(old(self)@, items.deep_view()),
            match r {
                Ok(_) => parse_items_spec(old(self)@, items.deep_view()) == Ok::<
                    TypeParserView,
                    ConvertErrorView,
                >(final(self)@),
                Err(error) => parse_items_spec(old(self)@, items.deep_view()) == Err::<
                    TypeParserView,
                    ConvertErrorView,
                >(error@),
            },
    {
        self.collect_type_aliases(items);
        let ghost all = items.deep_view();
        let ghost goal = parse_items_spec(old(self)@, all);
        let ghost end = parse_items_state(old(self)@, all);
        assert(self@ == with_aliases(old(self)@, all));
        match self.find_alias_cycle() {
            Some(cycle) => {
                return Err(ConvertError::AliasCycle(cycle));
            },
            None => {},
        }
        let mut i: usize = 0;
        assert(all.skip(0) =~= all);
        while i < items.len()
            invariant
                i <= items@.len(),
                all == items.deep_view(),
                goal == parse_items_spec(old(self)@, all),
                end == parse_items_state(old(self)@, all),
                visit_items(self@, all.skip(i as int)) == goal,
                visit_items_state(self@, all.skip(i as int)) == end,
            decreases items@.len() - i,
        {
            assert(all.skip(i as int).skip(1) =~= all.skip(i + 1));
            let visited = match &items[i] {
                SourceItem::Struct { name, attrs, fields } => self.visit_item_struct(
                    name,
                    attrs,
                    fields,
                ),
                SourceItem::Enum { name, attrs, variants } => self.visit_item_enum(
                    name,
                    attrs,
                    variants,
                ),
                _ => Ok(()),
            };
            match visited {
                Ok(_) => {},
                Err(error) => {
                    return Err(error);
                },
            }
            i += 1;
        }
        Ok(())
    }

    /// Parses the source text of a unit and takes its declarations into the
    /// model.
    ///
    /// Fails with [`ConvertError::Parse`] exactly when the text is not a
    /// well-formed source file, and otherwise as [`TypeParser::parse_items`]
    /// does on the file's items.
    pub fn parse_file(&mut self, content: &str) -> (r: Result<(), ConvertError>)
        ensures
            final(self)@ == parse_file_state(old(self)@, content@),
            match r {
                Ok(_) => parse_file_spec(old(self)@, content@) == Ok::<
                    TypeParserView,
                    ConvertErrorView,
                >(final(self)@),
                Err(error) => parse_file_spec(old(self)@, content@) == Err::<
                    TypeParserView,
                    ConvertErrorView,
                >(error@),
            },
    {
        match parse_source(content) {
            Ok(items) => self.parse_items(&items),
            Err(error) => Err(error),
        }
    }
}


/// A type that resolves while some aliases are being expanded resolves to
/// the same type while fewer of them are, whatever their names.
pub proof fn lemma_fewer_marks(
    ctx: TypeParserView,
    e: TypeExprView,
    more: Seq<bool>,
    fewer: Seq<bool>,
    chain: Seq<Seq<char>>,
    other: Seq<Seq<char>>,
)
    requires
        more.len() == fewer.len(),
        forall|j: int| 0 <= j < fewer.len() && fewer[j] ==> more[j],
        resolve_type(ctx, e, more, chain) is Ok,
    ensures
        resolve_type(ctx, e, fewer, other) == resolve_type(ctx, e, more, chain),
    decreases unvisited(more), e,
{
    match e {
        TypeExprView::Path { text, segments } => {
            if segments.len() > 0 {
                let last = segments.last();
                let alias = find_alias(ctx.type_aliases, last.ident);
                if alias is Some {
                    let i = alias->0;
                    lemma_find_alias(ctx.type_aliases, last.ident);
                    lemma_visit_decreases(more, i);
                    lemma_fewer_marks(
                        ctx,
                        ctx.type_aliases[i].1,
                        more.update(i, true),
                        fewer.update(i, true),
                        chain.push(last.ident),
                        other.push(last.ident),
                    );
                } else if is_primitive(last.ident) || last.ident == "String"@ {
                    // Resolved without a look at the marks.
                } else if last.ident == "Vec"@ || last.ident == "Option"@ {
                    lemma_fewer_marks(ctx, last.arguments->0[0]->Type_0, more, fewer, chain, other);
                } else if last.ident == "HashMap"@ {
                    let args = last.arguments->0;
                    let first = next_type_argument(args, 0);
                    let second = next_type_argument(args, first->0 + 1);
                    lemma_next_type_argument(args, 0);
                    lemma_next_type_argument(args, first->0 + 1);
                    lemma_fewer_marks(ctx, args[first->0]->Type_0, more, fewer, chain, other);
                    lemma_fewer_marks(ctx, args[second->0]->Type_0, more, fewer, chain, other);
                }
            }
        },
        TypeExprView::Array { text, element, length } => {
            lemma_fewer_marks(ctx, *element, more, fewer, chain, other);
        },
        TypeExprView::Other { text } => {},
    }
}

/// Alias transparency: a path that names an alias and resolves stands for
/// the type that the alias's target stands for.
pub proof fn lemma_alias_transparent(
    ctx: TypeParserView,
    text: Seq<char>,
    segments: Seq<PathSegmentView>,
)
    requires
        segments.len() > 0,
        find_alias(ctx.type_aliases, segments.last().ident) is Some,
        parse_type_spec(ctx, TypeExprView::Path { text, segments }) is Ok,
    ensures
        parse_type_spec(ctx, TypeExprView::Path { text, segments }) == parse_type_spec(
            ctx,
            ctx.type_aliases[find_alias(ctx.type_aliases, segments.last().ident)->0].1,
        ),
{
    let i = find_alias(ctx.type_aliases, segments.last().ident)->0;
    lemma_find_alias(ctx.type_aliases, segments.last().ident);
    let unmarked = Seq::new(ctx.type_aliases.len(), |i: int| false);
    lemma_fewer_marks(
        ctx,
        ctx.type_aliases[i].1,
        unmarked.update(i, true),
        unmarked,
        Seq::<Seq<char>>::empty().push(segments.last().ident),
        Seq::empty(),
    );
}

/// Filtering: while only annotated declarations count, a struct or an enum
/// without the marker leaves the model as it is.
pub proof fn lemma_unannotated_left_out(ctx: TypeParserView, item: SourceItemView)
    requires
        ctx.only_annotated,
        match item {
            SourceItemView::Struct { attrs, .. } => !has_marker(attrs),
            SourceItemView::Enum { attrs, .. } => !has_marker(attrs),
            _ => true,
        },
    ensures
        visit_item(ctx, item) == Ok::<TypeParserView, ConvertErrorView>(ctx),
{
}

/// Filtering: a struct that carries the marker, or any struct while all
/// declarations count, is added to the model under its name and the unit's
/// module, unless one of its field types fails to resolve.
pub proof fn lemma_struct_taken_in(
    ctx: TypeParserView,
    name: Seq<char>,
    attrs: Seq<SourceAttributeView>,
    fields: FieldListView,
)
    requires
        !ctx.only_annotated || has_marker(attrs),
    ensures
        match visit_item(ctx, SourceItemView::Struct { name, attrs, fields }) {
            Ok(after) => after.structs.len() == ctx.structs.len() + 1 && after.structs.last().name
                == name && after.structs.last().module == ctx.module && after.structs.drop_last()
                == ctx.structs && after.enums == ctx.enums,
            Err(error) => struct_fields(ctx, fields) == Err::<Seq<FieldInfoView>, ConvertErrorView>(
                error,
            ),
        },
{
    match struct_fields(ctx, fields) {
        Ok(resolved) => {
        },
        Err(_) => {},
    }
}

/// Filtering: an enum that carries the marker, or any enum while all
/// declarations count, is added to the model under its name and the unit's
/// module, unless one of its field types fails to resolve.
pub proof fn lemma_enum_taken_in(
    ctx: TypeParserView,
    name: Seq<char>,
    attrs: Seq<SourceAttributeView>,
    variants: Seq<VariantDeclView>,
)
    requires
        !ctx.only_annotated || has_marker(attrs),
    ensures
        match visit_item(ctx, SourceItemView::Enum { name, attrs, variants }) {
            Ok(after) => after.enums.len() == ctx.enums.len() + 1 && after.enums.last().name == name
                && after.enums.last().module == ctx.module && after.enums.drop_last() == ctx.enums
                && after.structs == ctx.structs,
            Err(error) => resolve_variants(ctx, variants, Seq::empty()) == Err::<
                Seq<EnumVariantView>,
                ConvertErrorView,
            >(error),
        },
{
    match resolve_variants(ctx, variants, Seq::empty()) {
        Ok(resolved) => {
        },
        Err(_) => {},
    }
}

/// Where expanding some alias from `from` on runs into a cycle, the table
/// has a first alias cycle.
proof fn lemma_first_alias_cycle(ctx: TypeParserView, from: int, k: int)
    requires
        0 <= from <= k < ctx.type_aliases.len(),
        parse_type_spec(ctx, alias_path(ctx.type_aliases[k].0)) matches Err(
            ConvertErrorView::AliasCycle(_),
        ),
    ensures
        first_alias_cycle(ctx, from) is Some,
    decreases k - from,
{
    if from < k {
        lemma_first_alias_cycle(ctx, from + 1, k);
    }
}

/// Alias cycles: a unit whose aliases, together with those the parser
/// already holds, include one whose expansion comes back to an alias that
/// is being expanded fails with an alias cycle, whether or not a
/// declaration uses the alias.
pub proof fn lemma_alias_cycle_rejected(ctx: TypeParserView, items: Seq<SourceItemView>, k: int)
    requires
        0 <= k < with_aliases(ctx, items).type_aliases.len(),
        parse_type_spec(
            with_aliases(ctx, items),
            alias_path(with_aliases(ctx, items).type_aliases[k].0),
        ) matches Err(ConvertErrorView::AliasCycle(_)),
    ensures
        parse_items_spec(ctx, items) matches Err(ConvertErrorView::AliasCycle(_)),
{
    lemma_first_alias_cycle(with_aliases(ctx, items), 0, k);
}

} // verus!
