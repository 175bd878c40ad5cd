//! Why a configuration could not be loaded.

use crate::config::Cache;
use crate::expand::{ExpandError, ExpandErrorView};
use crate::merge::{ConflictView, MergeConflict};
use vstd::prelude::*;
use vstd::string::StringExecFns;

verus! {

/// How reading a document failed.
#[derive(Debug, Clone, PartialEq, Eq)]
pub enum LoadFailure {
    /// The file could not be opened.
    Open,
    /// The file was opened and what it holds is no document of the kind
    /// asked for; the string says why.
    Invalid(String),
}

/// Why no configuration was loaded.
#[derive(Debug, Clone, PartialEq, Eq)]
pub enum LoadConfigFailType {
    /// The global configuration is not there.
    Find,
    /// A document could not be read.
    Parse { file: String, reason: String },
    /// A source of the plan cannot be deployed from.
    InvalidSourceTree { source: ExpandError },
    /// The layers of the configuration contradict one another.
    MergeConflict { conflict: MergeConflict },
}

/// The content of a [`LoadConfigFailType`].
pub enum LoadFailView {
    Find,
    Parse { file: Seq<char>, reason: Seq<char> },
    InvalidSourceTree { source: ExpandErrorView },
    MergeConflict { conflict: ConflictView },
}

impl View for LoadConfigFailType {
    type V = LoadFailView;

    open spec fn view(&self) -> LoadFailView {
        match *self {
            LoadConfigFailType::Find => LoadFailView::Find,
            LoadConfigFailType::Parse { file, reason } => LoadFailView::Parse {
                file: file@,
                reason: reason@,
            },
            LoadConfigFailType::InvalidSourceTree { source } => LoadFailView::InvalidSourceTree {
                source: source@,
            },
            LoadConfigFailType::MergeConflict { conflict } => LoadFailView::MergeConflict {
                conflict: conflict@,
            },
        }
    }
}

impl LoadFailView {
    /// The failure in words.
    pub open spec fn message(self) -> Seq<char> {
        match self {
            LoadFailView::Find => "find config files"@,
            LoadFailView::Parse { file, reason } => "parse config file "@ + file,
            LoadFailView::InvalidSourceTree { source } => "inspect source files"@,
            LoadFailView::MergeConflict { conflict } => "merge packages"@,
        }
    }

    /// What reading the global configuration at `file` failed with: a file
    /// that cannot be opened means that the configuration is not here.
    pub open spec fn of_global(file: Seq<char>, failure: LoadFailure) -> LoadFailView {
        match failure {
            LoadFailure::Open => LoadFailView::Find,
            LoadFailure::Invalid(reason) => LoadFailView::Parse { file, reason: reason@ },
        }
    }

    /// What reading any other document at `file` failed with.
    pub open spec fn of_document(file: Seq<char>, failure: LoadFailure) -> LoadFailView {
        match failure {
            LoadFailure::Open => LoadFailView::Parse { file, reason: "open file"@ },
            LoadFailure::Invalid(reason) => LoadFailView::Parse { file, reason: reason@ },
        }
    }
}

/// What loading the cache came to: a cache that cannot be opened means
/// that nothing was deployed before, any other failure stands.
pub fn cache_outcome(loaded: Result<Cache, LoadFailure>) -> (r: Result<Option<Cache>, String>)
    ensures
        match loaded {
            Ok(cache) => r == Ok::<Option<Cache>, String>(Some(cache)),
            Err(LoadFailure::Open) => r == Ok::<Option<Cache>, String>(None),
            Err(LoadFailure::Invalid(reason)) => r == Err::<Option<Cache>, String>(reason),
        },
{
    match loaded {
        Ok(cache) => Ok(Some(cache)),
        Err(LoadFailure::Open) => Ok(None),
        Err(LoadFailure::Invalid(reason)) => Err(reason),
    }
}

impl LoadConfigFailType {
    /// The failure in words.
    pub fn message(&self) -> (text: String)
        ensures
            text@ == self@.message(),
    {
        match self {
            LoadConfigFailType::Find => String::from_str("find config files"),
            LoadConfigFailType::Parse { file, reason: _ } => String::from_str(
                "parse config file ",
            ).concat(file.as_str()),
            LoadConfigFailType::InvalidSourceTree { source: _ } => String::from_str(
                "inspect source files",
            ),
            LoadConfigFailType::MergeConflict { conflict: _ } => String::from_str("merge packages"),
        }
    }

    /// The failure to load the global configuration at `file`.
    pub fn of_global(file: String, failure: LoadFailure) -> (e: LoadConfigFailType)
        ensures
            e@ == LoadFailView::of_global(file@, failure),
    {
        match failure {
            LoadFailure::Open => LoadConfigFailType::Find,
            LoadFailure::Invalid(reason) => LoadConfigFailType::Parse { file, reason },
        }
    }

    /// The failure to load the local configuration or a patch document at
    /// `file`.
    pub fn of_document(file: String, failure: LoadFailure) -> (e: LoadConfigFailType)
        ensures
            e@ == LoadFailView::of_document(file@, failure),
    {
        match failure {
            LoadFailure::Open => LoadConfigFailType::Parse {
                file,
                reason: String::from_str("open file"),
            },
            LoadFailure::Invalid(reason) => LoadConfigFailType::Parse { file, reason },
        }
    }
}

} // verus!
