//! Reading a source file: the text goes through the `syn` parser, and the
//! syntax tree it yields is copied, node by node, into the plain
//! declarations of [`crate::syntax`].
//!
//! What is taken on trust here is the parser itself and the reading of one
//! node of its tree at a time. The walk over the tree is verified.
use crate::error::ConvertError;
use crate::syntax::{
    lemma_arguments_view, lemma_segments_view, FieldDecl, FieldDeclView, FieldList, FieldListView,
    GenericArgument, GenericArgumentView, PathSegment, PathSegmentView, SourceAttribute,
    SourceAttributeView, SourceItem, SourceItemView, TypeExpr, TypeExprView, VariantDecl,
    VariantDeclView,
};
use vstd::prelude::*;

verus! {

/// `syn::Item`: one item of a source file, in the parser's form.
#[verifier::external_type_specification]
#[verifier::external_body]
pub struct ExSynItem(syn::Item);

/// `syn::Attribute`: one attribute of an item, in the parser's form.
#[verifier::external_type_specification]
#[verifier::external_body]
pub struct ExSynAttribute(syn::Attribute);

/// `syn::Fields`: the fields of a struct or of a variant, in the parser's
/// form.
#[verifier::external_type_specification]
#[verifier::external_body]
pub struct ExSynFields(syn::Fields);

/// `syn::Type`: a type expression, in the parser's form.
#[verifier::external_type_specification]
#[verifier::external_body]
pub struct ExSynType(syn::Type);

/// `syn::PathArguments`: what follows the identifier of a path segment, in
/// the parser's form.
#[verifier::external_type_specification]
#[verifier::external_body]
pub struct ExSynPathArguments(syn::PathArguments);

/// What `syn::parse_str::<syn::File>` makes of a text: the top-level items
/// of the file, or the parser's message where the text is no source file.
pub uninterp spec fn parsed_source(text: Seq<char>) -> Result<Seq<syn::Item>, Seq<char>>;

/// The declaration that a `syn::Item` holds.
pub uninterp spec fn item_syntax(item: syn::Item) -> SourceItemView;

/// The name and list tokens that a `syn::Attribute` holds.
pub uninterp spec fn attribute_syntax(attr: syn::Attribute) -> SourceAttributeView;

/// The field list that a `syn::Fields` holds.
pub uninterp spec fn fields_syntax(fields: syn::Fields) -> FieldListView;

/// The type expression that a `syn::Type` holds.
pub uninterp spec fn type_syntax(ty: syn::Type) -> TypeExprView;

/// The angle-bracketed arguments that a `syn::PathArguments` holds, if any.
pub uninterp spec fn arguments_syntax(args: syn::PathArguments) -> Option<
    Seq<GenericArgumentView>,
>;

/// One level of a `syn::Item`: its own data, with the nodes below it still
/// in the parser's form.
pub(crate) enum RawItem {
    Struct(String, Vec<syn::Attribute>, syn::Fields),
    Enum(String, Vec<syn::Attribute>, Vec<(String, syn::Fields)>),
    Alias(String, syn::Type),
    Other,
}

/// One level of a `syn::Fields`.
pub(crate) enum RawFields {
    Named(Vec<(Option<String>, syn::Type)>),
    Unnamed(Vec<(Option<String>, syn::Type)>),
    Unit,
}

/// One level of a `syn::Type`.
pub(crate) enum RawType {
    Path(String, Vec<(String, syn::PathArguments)>),
    Array(String, syn::Type, Option<usize>),
    Other(String),
}

/// What a list of attributes in the parser's form holds.
pub(crate) open spec fn raw_attributes_view(attrs: Seq<syn::Attribute>) -> Seq<SourceAttributeView> {
    attrs.map_values(|a: syn::Attribute| attribute_syntax(a))
}

/// What a variant read off an enum holds: its name, and the field list
/// that its fields, still in the parser's form, hold.
pub(crate) open spec fn raw_variant_view(v: (String, syn::Fields)) -> VariantDeclView {
    VariantDeclView { name: v.0@, fields: fields_syntax(v.1) }
}

/// What an item read off the tree holds: its own data as it is, and for
/// the nodes below it what those hold.
pub(crate) open spec fn raw_item_view(r: RawItem) -> SourceItemView {
    match r {
        RawItem::Struct(name, attrs, fields) => SourceItemView::Struct {
            name: name@,
            attrs: raw_attributes_view(attrs@),
            fields: fields_syntax(fields),
        },
        RawItem::Enum(name, attrs, variants) => SourceItemView::Enum {
            name: name@,
            attrs: raw_attributes_view(attrs@),
            variants: variants@.map_values(|v: (String, syn::Fields)| raw_variant_view(v)),
        },
        RawItem::Alias(name, target) => SourceItemView::Alias { name: name@, target: type_syntax(target) },
        RawItem::Other => SourceItemView::Other,
    }
}

/// What a field read off a field list holds: its name, and the type
/// expression that its type, still in the parser's form, holds.
pub(crate) open spec fn raw_field_view(f: (Option<String>, syn::Type)) -> FieldDeclView {
    FieldDeclView { name: f.0.deep_view(), ty: type_syntax(f.1) }
}

/// What a field list read off the tree holds.
pub(crate) open spec fn raw_fields_view(r: RawFields) -> FieldListView {
    match r {
        RawFields::Named(list) => FieldListView::Named(
            list@.map_values(|f: (Option<String>, syn::Type)| raw_field_view(f)),
        ),
        RawFields::Unnamed(list) => FieldListView::Unnamed(
            list@.map_values(|f: (Option<String>, syn::Type)| raw_field_view(f)),
        ),
        RawFields::Unit => FieldListView::Unit,
    }
}

/// What a segment read off a path holds: its identifier, and the
/// arguments that its arguments, still in the parser's form, hold.
pub(crate) open spec fn raw_segment_view(s: (String, syn::PathArguments)) -> PathSegmentView {
    PathSegmentView { ident: s.0@, arguments: arguments_syntax(s.1) }
}

/// What a type expression read off the tree holds: its text, and for a
/// path its segments, for an array its element type and length.
pub(crate) open spec fn raw_type_view(r: RawType) -> TypeExprView {
    match r {
        RawType::Path(text, segments) => TypeExprView::Path {
            text: text@,
            segments: segments@.map_values(|s: (String, syn::PathArguments)| raw_segment_view(s)),
        },
        RawType::Array(text, element, length) => TypeExprView::Array {
            text: text@,
            element: Box::new(type_syntax(element)),
            length,
        },
        RawType::Other(text) => TypeExprView::Other { text: text@ },
    }
}

/// What an argument read off a segment holds: the type expression of its
/// type, or that it is no type.
pub(crate) open spec fn raw_argument_view(a: Option<syn::Type>) -> GenericArgumentView {
    match a {
        Some(ty) => GenericArgumentView::Type(type_syntax(ty)),
        None => GenericArgumentView::Other,
    }
}

/// What the arguments read off a segment hold; `None` where the segment
/// has no angle-bracketed arguments.
pub(crate) open spec fn raw_arguments_view(r: Option<Vec<Option<syn::Type>>>) -> Option<
    Seq<GenericArgumentView>,
> {
    match r {
        Some(list) => Some(list@.map_values(|a: Option<syn::Type>| raw_argument_view(a))),
        None => None,
    }
}

/// What the parser's answer holds: the items of the file, or the message.
pub(crate) open spec fn raw_source_view(r: Result<Vec<syn::Item>, String>) -> Result<
    Seq<syn::Item>,
    Seq<char>,
> {
    match r {
        Ok(items) => Ok(items@),
        Err(message) => Err(message@),
    }
}

/// `syn::parse_str::<syn::File>`: parses `text` as a whole source file and
/// hands out the file's top-level items, or the parser's error message. The
/// outcome depends on the text alone.
#[verifier::external_body]
fn parse_file_items(text: &str) -> (r: Result<Vec<syn::Item>, String>)
    ensures
        raw_source_view(r) == parsed_source(text@),
{
    match syn::parse_str::<syn::File>(text) {
        Ok(file) => Ok(file.items),
        Err(error) => Err(error.to_string()),
    }
}

/// Reads one `syn::Item`: for a struct, an enum or a type alias its
/// identifier and what it declares; every other kind of item is `Other`.
#[verifier::external_body]
fn item_parts(item: &syn::Item) -> (r: RawItem)
    ensures
        raw_item_view(r) == item_syntax(*item),
{
    match item {
        syn::Item::Struct(s) => RawItem::Struct(s.ident.to_string(), s.attrs.clone(), s.fields.clone()),
        syn::Item::Enum(e) => RawItem::Enum(
            e.ident.to_string(),
            e.attrs.clone(),
            e.variants.iter().map(|v| (v.ident.to_string(), v.fields.clone())).collect(),
        ),
        syn::Item::Type(t) => RawItem::Alias(t.ident.to_string(), (*t.ty).clone()),
        _ => RawItem::Other,
    }
}

/// Reads one `syn::Attribute`: the identifier that `Path::get_ident` gives
/// for its path, and for `Meta::List` the text of its tokens.
#[verifier::external_body]
fn attribute_parts(attr: &syn::Attribute) -> (r: SourceAttribute)
    ensures
        r@ == attribute_syntax(*attr),
{
    SourceAttribute {
        name: attr.path().get_ident().map(|ident| ident.to_string()),
        list_tokens: match &attr.meta {
            syn::Meta::List(list) => Some(list.tokens.to_string()),
            _ => None,
        },
    }
}

/// Reads one `syn::Fields`: which of its three forms it has, and for each
/// field its identifier, if it has one, and its type.
#[verifier::external_body]
fn fields_parts(fields: &syn::Fields) -> (r: RawFields)
    ensures
        raw_fields_view(r) == fields_syntax(*fields),
{
    match fields {
        syn::Fields::Named(n) => RawFields::Named(
            n.named.iter().map(|f| (f.ident.as_ref().map(|i| i.to_string()), f.ty.clone())).collect(),
        ),
        syn::Fields::Unnamed(u) => RawFields::Unnamed(
            u.unnamed.iter().map(|f| (f.ident.as_ref().map(|i| i.to_string()), f.ty.clone())).collect(),
        ),
        syn::Fields::Unit => RawFields::Unit,
    }
}

/// Reads one `syn::Type`: the text of the tokens that
/// `ToTokens::to_token_stream` gives for it, and for a path its segments,
/// for an array its element type and, where the length is an integer
/// literal that `LitInt::base10_parse` reads as a `usize`, that length.
#[verifier::external_body]
fn type_parts(ty: &syn::Type) -> (r: RawType)
    ensures
        raw_type_view(r) == type_syntax(*ty),
{
    let text = quote::ToTokens::to_token_stream(ty).to_string();
    match ty {
        syn::Type::Path(p) => RawType::Path(
            text,
            p.path.segments.iter().map(|s| (s.ident.to_string(), s.arguments.clone())).collect(),
        ),
        syn::Type::Array(a) => RawType::Array(text, (*a.elem).clone(), match &a.len {
            syn::Expr::Lit(syn::ExprLit { lit: syn::Lit::Int(n), .. }) => n.base10_parse().ok(),
            _ => None,
        }),
        _ => RawType::Other(text),
    }
}

/// Reads one `syn::PathArguments`: for the angle-bracketed form its
/// arguments in order, each as its type where it is a type.
#[verifier::external_body]
fn arguments_parts(args: &syn::PathArguments) -> (r: Option<Vec<Option<syn::Type>>>)
    ensures
        raw_arguments_view(r) == arguments_syntax(*args),
{
    match args {
        syn::PathArguments::AngleBracketed(a) => Some(
            a.args.iter().map(|g| match g {
                syn::GenericArgument::Type(ty) => Some(ty.clone()),
                _ => None,
            }).collect(),
        ),
        _ => None,
    }
}

/// Copies a type expression out of the parser's tree.
fn lift_type(ty: &syn::Type) -> (e: TypeExpr)
    ensures
        e@ == type_syntax(*ty),
    decreases type_syntax(*ty),
{
    let ghost model = type_syntax(*ty);
    match type_parts(ty) {
        RawType::Path(text, raw_segments) => {
            let mut segments: Vec<PathSegment> = Vec::new();
            let mut i: usize = 0;
            while i < raw_segments.len()
                invariant
                    model == type_syntax(*ty),
                    model == raw_type_view(RawType::Path(text, raw_segments)),
                    i <= raw_segments@.len(),
                    segments@.len() == i,
                    forall|k: int| 0 <= k < i ==> segments@[k]@ == raw_segment_view(raw_segments@[k]),
                decreases raw_segments@.len() - i,
            {
                proof {
                    let all = model->Path_segments;
                    assert(decreases_to!(all[i as int] => all[i as int].arguments));
                }
                let arguments = lift_arguments(&raw_segments[i].1);
                let segment = PathSegment { ident: raw_segments[i].0.clone(), arguments };
                proof {
                    lemma_arguments_view(segment);
                }
                segments.push(segment);
                i += 1;
            }
            proof {
                lemma_segments_view(text, segments);
                assert(segments.deep_view() =~= model->Path_segments);
            }
            TypeExpr::Path { text, segments }
        },
        RawType::Array(text, raw_element, length) => {
            proof {
                assert(decreases_to!(model => model->Array_element));
            }
            let element = lift_type(&raw_element);
            TypeExpr::Array { text, element: Box::new(element), length }
        },
        RawType::Other(text) => TypeExpr::Other { text },
    }
}

/// Copies the angle-bracketed arguments of a path segment out of the
/// parser's tree.
fn lift_arguments(args: &syn::PathArguments) -> (r: Option<Vec<GenericArgument>>)
    ensures
        r.deep_view() == arguments_syntax(*args),
    decreases arguments_syntax(*args),
{
    let ghost model = arguments_syntax(*args);
    match arguments_parts(args) {
        Some(raw) => {
            let mut arguments: Vec<GenericArgument> = Vec::new();
            let mut i: usize = 0;
            while i < raw.len()
                invariant
                    model == arguments_syntax(*args),
                    model == raw_arguments_view(Some(raw)),
                    i <= raw@.len(),
                    arguments@.len() == i,
                    forall|k: int| 0 <= k < i ==> arguments@[k]@ == raw_argument_view(raw@[k]),
                decreases raw@.len() - i,
            {
                let argument = match &raw[i] {
                    Some(ty) => {
                        proof {
                            let all = model->0;
                            assert(decreases_to!(all[i as int] => all[i as int]->Type_0));
                        }
                        GenericArgument::Type(lift_type(ty))
                    },
                    None => GenericArgument::Other,
                };
                arguments.push(argument);
                i += 1;
            }
            Some(arguments)
        },
        None => None,
    }
}

/// Copies a list of fields, each with its type.
fn lift_field_list(raw: &Vec<(Option<String>, syn::Type)>) -> (r: Vec<FieldDecl>)
    ensures
        r.deep_view() == raw@.map_values(|f: (Option<String>, syn::Type)| raw_field_view(f)),
{
    let mut fields: Vec<FieldDecl> = Vec::new();
    let mut i: usize = 0;
    while i < raw.len()
        invariant
            i <= raw@.len(),
            fields@.len() == i,
            forall|k: int| 0 <= k < i ==> fields@[k]@ == raw_field_view(raw@[k]),
        decreases raw@.len() - i,
    {
        let name = match &raw[i].0 {
            Some(ident) => Some(ident.clone()),
            None => None,
        };
        fields.push(FieldDecl { name, ty: lift_type(&raw[i].1) });
        i += 1;
    }
    fields
}

/// Copies the fields of a struct or of a variant out of the parser's tree.
fn lift_fields(fields: &syn::Fields) -> (r: FieldList)
    ensures
        r@ == fields_syntax(*fields),
{
    match fields_parts(fields) {
        RawFields::Named(raw) => FieldList::Named(lift_field_list(&raw)),
        RawFields::Unnamed(raw) => FieldList::Unnamed(lift_field_list(&raw)),
        RawFields::Unit => FieldList::Unit,
    }
}

/// Copies the attributes of a declaration out of the parser's tree.
fn lift_attributes(raw: &Vec<syn::Attribute>) -> (r: Vec<SourceAttribute>)
    ensures
        r.deep_view() == raw_attributes_view(raw@),
{
    let mut attrs: Vec<SourceAttribute> = Vec::new();
    let mut i: usize = 0;
    while i < raw.len()
        invariant
            i <= raw@.len(),
            attrs@.len() == i,
            forall|k: int| 0 <= k < i ==> attrs@[k]@ == attribute_syntax(raw@[k]),
        decreases raw@.len() - i,
    {
        attrs.push(attribute_parts(&raw[i]));
        i += 1;
    }
    attrs
}

/// Copies one top-level item out of the parser's tree.
fn lift_item(item: &syn::Item) -> (r: SourceItem)
    ensures
        r@ == item_syntax(*item),
{
    match item_parts(item) {
        RawItem::Struct(name, raw_attrs, raw_fields) => SourceItem::Struct {
            name,
            attrs: lift_attributes(&raw_attrs),
            fields: lift_fields(&raw_fields),
        },
        RawItem::Enum(name, raw_attrs, raw_variants) => {
            let mut variants: Vec<VariantDecl> = Vec::new();
            let mut i: usize = 0;
            while i < raw_variants.len()
                invariant
                    i <= raw_variants@.len(),
                    variants@.len() == i,
                    forall|k: int| 0 <= k < i ==> variants@[k]@ == raw_variant_view(raw_variants@[k]),
                decreases raw_variants@.len() - i,
            {
                variants.push(
                    VariantDecl {
                        name: raw_variants[i].0.clone(),
                        fields: lift_fields(&raw_variants[i].1),
                    },
                );
                i += 1;
            }
            assert(variants.deep_view() =~= raw_variants@.map_values(
                |v: (String, syn::Fields)| raw_variant_view(v),
            ));
            SourceItem::Enum { name, attrs: lift_attributes(&raw_attrs), variants }
        },
        RawItem::Alias(name, raw_target) => SourceItem::Alias { name, target: lift_type(&raw_target) },
        RawItem::Other => SourceItem::Other,
    }
}

/// What a source text declares: its top-level items in order, or the
/// parser's message where the text is not a well-formed source file.
pub open spec fn source_syntax(text: Seq<char>) -> Result<Seq<SourceItemView>, Seq<char>> {
    match parsed_source(text) {
        Ok(items) => Ok(items.map_values(|item: syn::Item| item_syntax(item))),
        Err(message) => Err(message),
    }
}

/// Parses a source file into its top-level items.
///
/// Fails with [`ConvertError::Parse`] exactly when the parser rejects the
/// text.
pub fn parse_source(text: &str) -> (r: Result<Vec<SourceItem>, ConvertError>)
    ensures
        match r {
            Ok(items) => source_syntax(text@) == Ok::<Seq<SourceItemView>, Seq<char>>(
                items.deep_view(),
            ),
            Err(error) => error@ is Parse && source_syntax(text@) == Err::<
                Seq<SourceItemView>,
                Seq<char>,
            >(error@->Parse_0),
        },
{
    match parse_file_items(text) {
        Ok(raw) => {
            let mut items: Vec<SourceItem> = Vec::new();
            let mut i: usize = 0;
            while i < raw.len()
                invariant
                    i <= raw@.len(),
                    items@.len() == i,
                    forall|k: int| 0 <= k < i ==> items@[k]@ == item_syntax(raw@[k]),
                decreases raw@.len() - i,
            {
                items.push(lift_item(&raw[i]));
                i += 1;
            }
            assert(items.deep_view() =~= raw@.map_values(|item: syn::Item| item_syntax(item)));
            Ok(items)
        },
        Err(message) => Err(ConvertError::Parse(message)),
    }
}

} // verus!
