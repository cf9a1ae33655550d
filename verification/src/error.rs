//! The ways a conversion can fail.
use vstd::prelude::*;

verus! {

/// A fatal conversion error. Each variant carries the text that names the
/// offender.
#[derive(Debug, PartialEq, Eq)]
pub enum ConvertError {
    /// The source text is not a well-formed source file; carries the
    /// parser's message.
    Parse(String),
    /// A type expression of a shape that has no schema; carries the
    /// expression.
    UnsupportedType(String),
    /// A type alias that expands to itself; carries the aliases of the
    /// cycle in the order in which they expand, as in `X -> Y -> X`.
    AliasCycle(String),
    /// Two declarations with one fully-qualified path; carries the path.
    DuplicateType(String),
    /// The declared types cannot be ordered dependencies-first; carries the
    /// path of a type that lies on a cycle of references.
    DependencyCycle(String),
}

/// The mathematical value of a [`ConvertError`].
pub enum ConvertErrorView {
    Parse(Seq<char>),
    UnsupportedType(Seq<char>),
    AliasCycle(Seq<char>),
    DuplicateType(Seq<char>),
    DependencyCycle(Seq<char>),
}

impl View for ConvertError {
    type V = ConvertErrorView;

    open spec fn view(&self) -> ConvertErrorView {
        match self {
            ConvertError::Parse(m) => ConvertErrorView::Parse(m@),
            ConvertError::UnsupportedType(m) => ConvertErrorView::UnsupportedType(m@),
            ConvertError::AliasCycle(m) => ConvertErrorView::AliasCycle(m@),
            ConvertError::DuplicateType(m) => ConvertErrorView::DuplicateType(m@),
            ConvertError::DependencyCycle(m) => ConvertErrorView::DependencyCycle(m@),
        }
    }
}

impl Clone for ConvertError {
    fn clone(&self) -> (r: Self)
        ensures
            r@ == self@,
    {
        match self {
            ConvertError::Parse(m) => ConvertError::Parse(m.clone()),
            ConvertError::UnsupportedType(m) => ConvertError::UnsupportedType(m.clone()),
            ConvertError::AliasCycle(m) => ConvertError::AliasCycle(m.clone()),
            ConvertError::DuplicateType(m) => ConvertError::DuplicateType(m.clone()),
            ConvertError::DependencyCycle(m) => ConvertError::DependencyCycle(m.clone()),
        }
    }
}

impl ConvertErrorView {
    /// The text the error carries.
    pub open spec fn subject(self) -> Seq<char> {
        match self {
            ConvertErrorView::Parse(m) => m,
            ConvertErrorView::UnsupportedType(m) => m,
            ConvertErrorView::AliasCycle(m) => m,
            ConvertErrorView::DuplicateType(m) => m,
            ConvertErrorView::DependencyCycle(m) => m,
        }
    }

    /// The fixed words that introduce the error in a message.
    pub open spec fn label(self) -> Seq<char> {
        match self {
            ConvertErrorView::Parse(_) => "Parse error: "@,
            ConvertErrorView::UnsupportedType(_) => "Unsupported type: "@,
            ConvertErrorView::AliasCycle(_) => "Type alias cycle detected: "@,
            ConvertErrorView::DuplicateType(_) => "Duplicate type: "@,
            ConvertErrorView::DependencyCycle(_) => "Dependency cycle detected: "@,
        }
    }
}

impl ConvertError {
    /// A one-line message: the label of the error kind, then its subject.
    pub fn message(&self) -> (m: String)
        ensures
            m@ == self@.label() + self@.subject(),
    {
        let mut out = String::new();
        match self {
            ConvertError::Parse(s) => {
                out.append("Parse error: ");
                out.append(s.as_str());
            },
            ConvertError::UnsupportedType(s) => {
                out.append("Unsupported type: ");
                out.append(s.as_str());
            },
            ConvertError::AliasCycle(s) => {
                out.append("Type alias cycle detected: ");
                out.append(s.as_str());
            },
            ConvertError::DuplicateType(s) => {
                out.append("Duplicate type: ");
                out.append(s.as_str());
            },
            ConvertError::DependencyCycle(s) => {
                out.append("Dependency cycle detected: ");
                out.append(s.as_str());
            },
        }
        out
    }
}

} // verus!
