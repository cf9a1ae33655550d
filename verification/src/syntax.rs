//! The declarations of one source file, as plain data: what the type parser
//! reads of a file's syntax tree.
use vstd::prelude::*;

verus! {

/// A type expression as written in a field or an alias.
#[derive(Debug, PartialEq, Eq)]
pub enum TypeExpr {
    /// A path such as `u8`, `Vec<T>` or `a::b::C`.
    Path { text: String, segments: Vec<PathSegment> },
    /// A fixed-length array `[T; N]`. `length` is `None` unless `N` is an
    /// integer literal that fits in `usize`.
    Array { text: String, element: Box<TypeExpr>, length: Option<usize> },
    /// Any other shape: a reference, a tuple, a trait object, ...
    Other { text: String },
}

/// One segment of a path. `arguments` is `None` unless the segment carries
/// angle-bracketed arguments.
#[derive(Debug, PartialEq, Eq)]
pub struct PathSegment {
    pub ident: String,
    pub arguments: Option<Vec<GenericArgument>>,
}

/// One argument between angle brackets: a type, or anything else (a
/// lifetime, a constant, a binding).
#[derive(Debug, PartialEq, Eq)]
pub enum GenericArgument {
    Type(TypeExpr),
    Other,
}

/// The mathematical value of a [`TypeExpr`].
pub enum TypeExprView {
    Path { text: Seq<char>, segments: Seq<PathSegmentView> },
    Array { text: Seq<char>, element: Box<TypeExprView>, length: Option<usize> },
    Other { text: Seq<char> },
}

/// The mathematical value of a [`PathSegment`].
pub struct PathSegmentView {
    pub ident: Seq<char>,
    pub arguments: Option<Seq<GenericArgumentView>>,
}

/// The mathematical value of a [`GenericArgument`].
pub enum GenericArgumentView {
    Type(TypeExprView),
    Other,
}

/// The value of a [`TypeExpr`], by recursion on its structure.
pub open spec fn type_expr_view(e: TypeExpr) -> TypeExprView
    decreases e,
{
    match e {
        TypeExpr::Path { text, segments } => TypeExprView::Path {
            text: text@,
            segments: Seq::new(
                segments@.len(),
                |i: int|
                    if 0 <= i < segments@.len() {
                        segment_view(segments@[i])
                    } else {
                        arbitrary()
                    },
            ),
        },
        TypeExpr::Array { text, element, length } => TypeExprView::Array {
            text: text@,
            element: Box::new(type_expr_view(*element)),
            length: length,
        },
        TypeExpr::Other { text } => TypeExprView::Other { text: text@ },
    }
}

/// The value of a [`PathSegment`].
pub open spec fn segment_view(s: PathSegment) -> PathSegmentView
    decreases s,
{
    PathSegmentView {
        ident: s.ident@,
        arguments: match s.arguments {
            Some(args) => Some(
                Seq::new(
                    args@.len(),
                    |i: int|
                        if 0 <= i < args@.len() {
                            argument_view(args@[i])
                        } else {
                            arbitrary()
                        },
                ),
            ),
            None => None,
        },
    }
}

/// The value of a [`GenericArgument`].
pub open spec fn argument_view(a: GenericArgument) -> GenericArgumentView
    decreases a,
{
    match a {
        GenericArgument::Type(t) => GenericArgumentView::Type(type_expr_view(t)),
        GenericArgument::Other => GenericArgumentView::Other,
    }
}

impl View for TypeExpr {
    type V = TypeExprView;

    open spec fn view(&self) -> TypeExprView {
        type_expr_view(*self)
    }
}

impl DeepView for TypeExpr {
    type V = TypeExprView;

    open spec fn deep_view(&self) -> TypeExprView {
        type_expr_view(*self)
    }
}

impl View for PathSegment {
    type V = PathSegmentView;

    open spec fn view(&self) -> PathSegmentView {
        segment_view(*self)
    }
}

impl DeepView for PathSegment {
    type V = PathSegmentView;

    open spec fn deep_view(&self) -> PathSegmentView {
        segment_view(*self)
    }
}

impl View for GenericArgument {
    type V = GenericArgumentView;

    open spec fn view(&self) -> GenericArgumentView {
        argument_view(*self)
    }
}

impl DeepView for GenericArgument {
    type V = GenericArgumentView;

    open spec fn deep_view(&self) -> GenericArgumentView {
        argument_view(*self)
    }
}

/// The view of a path's segments is the sequence of the segments' views.
pub proof fn lemma_segments_view(text: String, segments: Vec<PathSegment>)
    ensures
        (TypeExpr::Path { text, segments })@ == (TypeExprView::Path {
            text: text@,
            segments: segments.deep_view(),
        }),
{
    let e = TypeExpr::Path { text, segments };
    assert(e@->Path_segments =~= segments.deep_view());
}

/// The view of a segment's arguments is the sequence of the arguments' views.
pub proof fn lemma_arguments_view(s: PathSegment)
    ensures
        s@.arguments == s.arguments.deep_view(),
{
    match s.arguments {
        Some(args) => {},
        None => {},
    }
}


impl Clone for GenericArgument {
    fn clone(&self) -> (r: Self)
        ensures
            r@ == self@,
        decreases self,
    {
        match self {
            GenericArgument::Type(t) => GenericArgument::Type(t.clone()),
            GenericArgument::Other => GenericArgument::Other,
        }
    }
}

impl Clone for PathSegment {
    fn clone(&self) -> (r: Self)
        ensures
            r@ == self@,
        decreases self,
    {
        let arguments = match &self.arguments {
            Some(args) => {
                let mut out: Vec<GenericArgument> = Vec::new();
                let mut i: usize = 0;
                while i < args.len()
                    invariant
                        self.arguments == Some(*args),
                        i <= args@.len(),
                        out@.len() == i,
                        forall|k: int| 0 <= k < i ==> out@[k]@ == args@[k]@,
                    decreases args@.len() - i,
                {
                    assert(decreases_to!(self.arguments => self.arguments->0));
                    out.push(args[i].clone());
                    i += 1;
                }
                assert(out.deep_view() =~= args.deep_view());
                Some(out)
            },
            None => None,
        };
        let r = PathSegment { ident: self.ident.clone(), arguments };
        proof {
            lemma_arguments_view(r);
            lemma_arguments_view(*self);
        }
        r
    }
}

impl Clone for TypeExpr {
    fn clone(&self) -> (r: Self)
        ensures
            r@ == self@,
        decreases self,
    {
        match self {
            TypeExpr::Path { text, segments } => {
                let mut out: Vec<PathSegment> = Vec::new();
                let mut i: usize = 0;
                while i < segments.len()
                    invariant
                        *self == (TypeExpr::Path { text: *text, segments: *segments }),
                        i <= segments@.len(),
                        out@.len() == i,
                        forall|k: int| 0 <= k < i ==> out@[k]@ == segments@[k]@,
                    decreases segments@.len() - i,
                {
                    assert(decreases_to!(*self => self->Path_segments));
                    out.push(segments[i].clone());
                    i += 1;
                }
                assert(out.deep_view() =~= segments.deep_view());
                let copy = text.clone();
                proof {
                    lemma_segments_view(copy, out);
                    lemma_segments_view(*text, *segments);
                }
                TypeExpr::Path { text: copy, segments: out }
            },
            TypeExpr::Array { text, element, length } => TypeExpr::Array {
                text: text.clone(),
                element: Box::new((&**element).clone()),
                length: *length,
            },
            TypeExpr::Other { text } => TypeExpr::Other { text: text.clone() },
        }
    }
}

/// An attribute on a declaration, such as `#[derive(Clone)]`.
#[derive(Debug, PartialEq, Eq)]
pub struct SourceAttribute {
    /// The attribute's path, where the path is one plain identifier
    /// (`derive` in `#[derive(Clone)]`).
    pub name: Option<String>,
    /// Where the attribute is a list, the text of what stands between its
    /// delimiters (`Clone` in `#[derive(Clone)]`).
    pub list_tokens: Option<String>,
}

/// The mathematical value of an [`SourceAttribute`].
pub struct SourceAttributeView {
    pub name: Option<Seq<char>>,
    pub list_tokens: Option<Seq<char>>,
}

impl View for SourceAttribute {
    type V = SourceAttributeView;

    open spec fn view(&self) -> SourceAttributeView {
        SourceAttributeView {
            name: self.name.deep_view(),
            list_tokens: self.list_tokens.deep_view(),
        }
    }
}

impl DeepView for SourceAttribute {
    type V = SourceAttributeView;

    open spec fn deep_view(&self) -> SourceAttributeView {
        self.view()
    }
}

/// A field of a struct or of an enum variant. Positional fields have no
/// name.
#[derive(Debug, PartialEq, Eq)]
pub struct FieldDecl {
    pub name: Option<String>,
    pub ty: TypeExpr,
}

/// The mathematical value of a [`FieldDecl`].
pub struct FieldDeclView {
    pub name: Option<Seq<char>>,
    pub ty: TypeExprView,
}

impl View for FieldDecl {
    type V = FieldDeclView;

    open spec fn view(&self) -> FieldDeclView {
        FieldDeclView { name: self.name.deep_view(), ty: self.ty@ }
    }
}

impl DeepView for FieldDecl {
    type V = FieldDeclView;

    open spec fn deep_view(&self) -> FieldDeclView {
        self.view()
    }
}

/// The fields of a struct or of an enum variant.
#[derive(Debug, PartialEq, Eq)]
pub enum FieldList {
    /// `{ a: A, b: B }`
    Named(Vec<FieldDecl>),
    /// `(A, B)`
    Unnamed(Vec<FieldDecl>),
    /// No field list at all.
    Unit,
}

/// The mathematical value of a [`FieldList`].
pub enum FieldListView {
    Named(Seq<FieldDeclView>),
    Unnamed(Seq<FieldDeclView>),
    Unit,
}

impl View for FieldList {
    type V = FieldListView;

    open spec fn view(&self) -> FieldListView {
        match self {
            FieldList::Named(list) => FieldListView::Named(list.deep_view()),
            FieldList::Unnamed(list) => FieldListView::Unnamed(list.deep_view()),
            FieldList::Unit => FieldListView::Unit,
        }
    }
}

impl DeepView for FieldList {
    type V = FieldListView;

    open spec fn deep_view(&self) -> FieldListView {
        self.view()
    }
}

/// One variant of an enum declaration.
#[derive(Debug, PartialEq, Eq)]
pub struct VariantDecl {
    pub name: String,
    pub fields: FieldList,
}

/// The mathematical value of a [`VariantDecl`].
pub struct VariantDeclView {
    pub name: Seq<char>,
    pub fields: FieldListView,
}

impl View for VariantDecl {
    type V = VariantDeclView;

    open spec fn view(&self) -> VariantDeclView {
        VariantDeclView { name: self.name@, fields: self.fields@ }
    }
}

impl DeepView for VariantDecl {
    type V = VariantDeclView;

    open spec fn deep_view(&self) -> VariantDeclView {
        self.view()
    }
}

/// A top-level item of a source file.
#[derive(Debug, PartialEq, Eq)]
pub enum SourceItem {
    /// `struct Name { .. }`, `struct Name(..);` or `struct Name;`
    Struct { name: String, attrs: Vec<SourceAttribute>, fields: FieldList },
    /// `enum Name { .. }`
    Enum { name: String, attrs: Vec<SourceAttribute>, variants: Vec<VariantDecl> },
    /// `type Name = Target;`
    Alias { name: String, target: TypeExpr },
    /// Anything else: a function, an impl, a module, ...
    Other,
}

/// The mathematical value of an [`SourceItem`].
pub enum SourceItemView {
    Struct { name: Seq<char>, attrs: Seq<SourceAttributeView>, fields: FieldListView },
    Enum { name: Seq<char>, attrs: Seq<SourceAttributeView>, variants: Seq<VariantDeclView> },
    Alias { name: Seq<char>, target: TypeExprView },
    Other,
}

impl View for SourceItem {
    type V = SourceItemView;

    open spec fn view(&self) -> SourceItemView {
        match self {
            SourceItem::Struct { name, attrs, fields } => SourceItemView::Struct {
                name: name@,
                attrs: attrs.deep_view(),
                fields: fields@,
            },
            SourceItem::Enum { name, attrs, variants } => SourceItemView::Enum {
                name: name@,
                attrs: attrs.deep_view(),
                variants: variants.deep_view(),
            },
            SourceItem::Alias { name, target } => SourceItemView::Alias { name: name@, target: target@ },
            SourceItem::Other => SourceItemView::Other,
        }
    }
}

impl DeepView for SourceItem {
    type V = SourceItemView;

    open spec fn deep_view(&self) -> SourceItemView {
        self.view()
    }
}

} // verus!
