//! The target of a deployed file: where it goes and how it gets there.

use vstd::prelude::*;

verus! {

/// A template target: the rendered output lands at `target`, optionally
/// wrapped in literal text.
#[derive(Debug, PartialEq, Eq, PartialOrd, Ord)]
pub struct TemplateTarget {
    pub target: String,
    pub append: Option<String>,
    pub prepend: Option<String>,
}

/// Where a source file is deployed to, and in which manner.
#[derive(Debug, PartialEq, Eq, PartialOrd, Ord)]
pub enum FileTarget {
    /// Copy or link at the path; which of the two is decided at deployment.
    Automatic(String),
    /// Always a symbolic link at the path.
    Symbolic(String),
    /// Render as a template.
    ComplexTemplate(TemplateTarget),
}

/// Which of the three manners of deployment a target asks for.
pub enum TargetKind {
    Automatic,
    Symbolic,
    Template,
}

/// The mathematical content of a [`FileTarget`].
pub struct TargetView {
    pub kind: TargetKind,
    pub path: Seq<char>,
    pub append: Option<Seq<char>>,
    pub prepend: Option<Seq<char>>,
}

/// The view of an optional string.
pub open spec fn text_view(s: Option<String>) -> Option<Seq<char>> {
    match s {
        Some(t) => Some(t@),
        None => None,
    }
}

impl TargetView {
    /// A plain target at `path`.
    pub open spec fn automatic(path: Seq<char>) -> TargetView {
        TargetView { kind: TargetKind::Automatic, path, append: None, prepend: None }
    }

    /// A symbolic link at `path`.
    pub open spec fn symbolic(path: Seq<char>) -> TargetView {
        TargetView { kind: TargetKind::Symbolic, path, append: None, prepend: None }
    }

    /// A template rendered to `path`.
    pub open spec fn template(
        path: Seq<char>,
        append: Option<Seq<char>>,
        prepend: Option<Seq<char>>,
    ) -> TargetView {
        TargetView { kind: TargetKind::Template, path, append, prepend }
    }

    /// The same target at another path.
    pub open spec fn with_path(self, path: Seq<char>) -> TargetView {
        TargetView { path, ..self }
    }

    /// Only a template carries text to put before or after the output.
    pub open spec fn well_formed(self) -> bool {
        self.kind is Template || (self.append is None && self.prepend is None)
    }
}

impl View for TemplateTarget {
    type V = TargetView;

    open spec fn view(&self) -> TargetView {
        TargetView::template(self.target@, text_view(self.append), text_view(self.prepend))
    }
}

impl View for FileTarget {
    type V = TargetView;

    open spec fn view(&self) -> TargetView {
        match *self {
            FileTarget::Automatic(path) => TargetView::automatic(path@),
            FileTarget::Symbolic(path) => TargetView::symbolic(path@),
            FileTarget::ComplexTemplate(t) => t@,
        }
    }
}

/// A copy of an optional string.
fn clone_text(text: &Option<String>) -> (out: Option<String>)
    ensures
        out == *text,
{
    match text {
        Some(t) => Some(t.clone()),
        None => None,
    }
}

impl Clone for TemplateTarget {
    fn clone(&self) -> (out: Self)
        ensures
            out == *self,
    {
        TemplateTarget {
            target: self.target.clone(),
            append: clone_text(&self.append),
            prepend: clone_text(&self.prepend),
        }
    }
}

impl Clone for FileTarget {
    fn clone(&self) -> (out: Self)
        ensures
            out == *self,
    {
        match self {
            FileTarget::Automatic(path) => FileTarget::Automatic(path.clone()),
            FileTarget::Symbolic(path) => FileTarget::Symbolic(path.clone()),
            FileTarget::ComplexTemplate(t) => FileTarget::ComplexTemplate(t.clone()),
        }
    }
}

impl FileTarget {
    /// The string that holds the target path.
    pub open spec fn path_text(self) -> String {
        match self {
            FileTarget::Automatic(path) => path,
            FileTarget::Symbolic(path) => path,
            FileTarget::ComplexTemplate(t) => t.target,
        }
    }

    /// The target path, whatever the manner of deployment.
    pub fn path(&self) -> (p: &str)
        ensures
            p@ == self@.path,
    {
        match self {
            FileTarget::Automatic(path) => path.as_str(),
            FileTarget::Symbolic(path) => path.as_str(),
            FileTarget::ComplexTemplate(t) => t.target.as_str(),
        }
    }

    /// Rewrites the target path with `func` and keeps everything else.
    pub fn map<F: FnOnce(String) -> String>(self, func: F) -> (out: Self)
        requires
            func.requires((self.path_text(),)),
        ensures
            func.ensures((self.path_text(),), out.path_text()),
            out@ == self@.with_path(out.path_text()@),
    {
        match self {
            FileTarget::Automatic(path) => FileTarget::Automatic(func(path)),
            FileTarget::Symbolic(path) => FileTarget::Symbolic(func(path)),
            FileTarget::ComplexTemplate(t) => {
                let TemplateTarget { target, append, prepend } = t;
                FileTarget::ComplexTemplate(TemplateTarget { target: func(target), append, prepend })
            },
        }
    }

    /// Whether the target path is empty, which marks the file as removed.
    pub fn is_tombstone(&self) -> (b: bool)
        ensures
            b == (self@.path.len() == 0),
    {
        self.path().is_empty()
    }
}

impl From<String> for FileTarget {
    fn from(input: String) -> (out: FileTarget) {
        FileTarget::Automatic(input)
    }
}

impl vstd::std_specs::convert::FromSpecImpl<String> for FileTarget {
    open spec fn obeys_from_spec() -> bool {
        true
    }

    open spec fn from_spec(input: String) -> FileTarget {
        FileTarget::Automatic(input)
    }
}

} // verus!
