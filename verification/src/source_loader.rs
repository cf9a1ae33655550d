//! Source units and the rules by which files are chosen and named: which
//! files count as source files, which paths are passed over, and which
//! module a file stands for.
use crate::text::{
    chars_match_at, contains, ends_with, join_strings, joined, starts_with, str_contains, str_eq,
    str_starts_with, str_trim_end, to_chars, trim_end,
};
use vstd::prelude::*;

verus! {

/// One source unit: where it was found, its text, and the module it stands
/// for.
#[derive(Debug, PartialEq, Eq)]
pub struct SourceFile {
    pub path: String,
    pub content: String,
    pub module: String,
}

/// The mathematical value of a [`SourceFile`].
pub struct SourceFileView {
    pub path: Seq<char>,
    pub content: Seq<char>,
    pub module: Seq<char>,
}

impl View for SourceFile {
    type V = SourceFileView;

    open spec fn view(&self) -> SourceFileView {
        SourceFileView { path: self.path@, content: self.content@, module: self.module@ }
    }
}

impl DeepView for SourceFile {
    type V = SourceFileView;

    open spec fn deep_view(&self) -> SourceFileView {
        self.view()
    }
}

/// Some pattern of `patterns` occurs in `path`.
pub open spec fn matches_pattern(path: Seq<char>, patterns: Seq<Seq<char>>) -> bool {
    exists|i: int| 0 <= i < patterns.len() && contains(path, patterns[i])
}

/// A file name that ends in `.rs` and has something before it.
pub open spec fn is_rust_name(name: Seq<char>) -> bool {
    name.len() > 3 && ends_with(name, ".rs"@)
}

/// The components `parts` without those from `from` on that are `mod`.
pub open spec fn without_mod(parts: Seq<Seq<char>>, from: int) -> Seq<Seq<char>>
    decreases parts.len() - from,
{
    if from < 0 || from >= parts.len() {
        Seq::empty()
    } else if parts[from] == "mod"@ {
        without_mod(parts, from + 1)
    } else {
        seq![parts[from]] + without_mod(parts, from + 1)
    }
}

/// The module that the file with the path components `parts`, counted from
/// the root, stands for: the last component loses every trailing `.rs`,
/// components that are then `mod` are left out, and the rest is joined by
/// `::`.
pub open spec fn module_of_components(parts: Seq<Seq<char>>) -> Seq<char> {
    if parts.len() == 0 {
        Seq::empty()
    } else {
        joined(
            without_mod(parts.update(parts.len() - 1, trim_end(parts.last(), ".rs"@)), 0),
            "::"@,
        )
    }
}

/// Chooses the source files below a root directory.
pub struct SourceLoader {
    pub root_path: String,
    pub ignored_patterns: Vec<String>,
}

impl SourceLoader {
    /// A loader for the files below `root_path` whose paths hold none of
    /// `ignored_patterns`.
    pub fn new(root_path: &str, ignored_patterns: Vec<String>) -> (r: Self)
        ensures
            r.root_path@ == root_path@,
            r.ignored_patterns == ignored_patterns,
    {
        let mut root = String::new();
        root.append(root_path);
        SourceLoader { root_path: root, ignored_patterns }
    }

    /// Whether `path` holds one of the ignored patterns.
    pub fn is_ignored(&self, path: &str) -> (r: bool)
        ensures
            r == matches_pattern(path@, self.ignored_patterns.deep_view()),
    {
        let ghost patterns = self.ignored_patterns.deep_view();
        let mut i: usize = 0;
        while i < self.ignored_patterns.len()
            invariant
                i <= self.ignored_patterns@.len(),
                patterns == self.ignored_patterns.deep_view(),
                forall|k: int| 0 <= k < i ==> !contains(path@, patterns[k]),
            decreases self.ignored_patterns@.len() - i,
        {
            if str_contains(path, self.ignored_patterns[i].as_str()) {
                assert(contains(path@, patterns[i as int]));
                return true;
            }
            i += 1;
        }
        false
    }

    /// Whether a file or directory of this name is hidden: its name begins
    /// with a dot.
    pub fn is_hidden(file_name: &str) -> (r: bool)
        ensures
            r == starts_with(file_name@, "."@),
    {
        str_starts_with(file_name, ".")
    }

    /// Whether a file of this name is a source file: the name ends in `.rs`
    /// and has something before it.
    pub fn is_rust_file(file_name: &str) -> (r: bool)
        ensures
            r == is_rust_name(file_name@),
    {
        let name = to_chars(file_name);
        let suffix = to_chars(".rs");
        proof {
            reveal_strlit(".rs");
        }
        name.len() > 3 && chars_match_at(&name, &suffix, name.len() - 3)
    }

    /// The module that a file stands for, from the components of its path
    /// below the root.
    pub fn calculate_module_path(components: &Vec<String>) -> (r: String)
        ensures
            r@ == module_of_components(components.deep_view()),
    {
        let ghost parts = components.deep_view();
        let n: usize = components.len();
        if n == 0 {
            return String::new();
        }
        let ghost trimmed = parts.update(n - 1, trim_end(parts.last(), ".rs"@));
        let mut kept: Vec<String> = Vec::new();
        let mut i: usize = 0;
        while i < n
            invariant
                i <= n,
                n == components@.len(),
                n > 0,
                parts == components.deep_view(),
                trimmed == parts.update(n - 1, trim_end(parts.last(), ".rs"@)),
                kept.deep_view() + without_mod(trimmed, i as int) == without_mod(trimmed, 0),
            decreases n - i,
        {
            let part = if i == n - 1 {
                str_trim_end(components[i].as_str(), ".rs")
            } else {
                components[i].clone()
            };
            if !str_eq(part.as_str(), "mod") {
                kept.push(part);
            }
            i += 1;
        }
        join_strings(&kept, "::")
    }
}

} // verus!
