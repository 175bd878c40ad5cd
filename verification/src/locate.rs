//! Looking for the configuration in the working directory and above it.

use crate::error::LoadConfigFailType;
use vstd::prelude::*;

verus! {

/// Where the search stands: the directory to try, as its components below
/// the root of the filesystem. The root itself has none.
#[derive(Debug, Clone, PartialEq, Eq)]
pub struct Search {
    pub directory: Vec<String>,
}

/// What to do after an attempt.
#[derive(Debug, PartialEq)]
pub enum Step<T> {
    /// Go up to this directory and try again.
    Retry(Search),
    /// The search is over, with this result.
    Done(Result<T, LoadConfigFailType>),
}

/// Whether a search at `depth` below the root goes on after an attempt:
/// it does where the configuration was missing and there is a directory
/// further up.
pub open spec fn goes_on(depth: nat, missing: bool) -> bool {
    missing && depth > 0
}

impl Search {
    /// How far below the root the directory lies.
    pub open spec fn depth(self) -> nat {
        self.directory@.len()
    }

    /// The search one directory further up.
    pub open spec fn parent(self, up: Search) -> bool {
        self.depth() > 0 && up.directory@ == self.directory@.drop_last()
    }

    /// Starts the search in the directory with these components.
    pub fn start(directory: Vec<String>) -> (s: Search)
        ensures
            s.directory == directory,
    {
        Search { directory }
    }

    /// Decides what follows an attempt. A configuration that was loaded and
    /// a failure other than a missing configuration end the search. A
    /// missing configuration sends it one directory up, and ends it at the
    /// root.
    pub fn next_step<T>(self, outcome: Result<T, LoadConfigFailType>) -> (step: Step<T>)
        ensures
            match outcome {
                Ok(loaded) => step == Step::Done(Ok::<T, LoadConfigFailType>(loaded)),
                Err(e) => if goes_on(self.depth(), e@ is Find) {
                    step matches Step::Retry(up) && self.parent(up)
                } else {
                    step == Step::Done(Err::<T, LoadConfigFailType>(e))
                },
            },
    {
        match outcome {
            Ok(loaded) => Step::Done(Ok(loaded)),
            Err(LoadConfigFailType::Find) => {
                let Search { mut directory } = self;
                match directory.pop() {
                    Some(_) => Step::Retry(Search { directory }),
                    None => Step::Done(Err(LoadConfigFailType::Find)),
                }
            },
            Err(e) => Step::Done(Err(e)),
        }
    }
}

/// The attempts that a search from `depth` below the root makes when its
/// attempts end as `misses` says, in that order: `true` for a configuration
/// that is missing, `false` for any other end. A search that runs out of
/// outcomes stops.
pub open spec fn attempts(depth: nat, misses: Seq<bool>) -> nat
    decreases misses.len(),
{
    if misses.len() == 0 {
        0
    } else if goes_on(depth, misses[0]) {
        1 + attempts((depth - 1) as nat, misses.skip(1))
    } else {
        1
    }
}

/// Whether a search from `depth` ends with nothing found after all of
/// `misses`.
pub open spec fn exhausted(depth: nat, misses: Seq<bool>) -> bool
    decreases misses.len(),
{
    if misses.len() == 0 {
        false
    } else if goes_on(depth, misses[0]) {
        exhausted((depth - 1) as nat, misses.skip(1))
    } else {
        misses[0] && misses.len() == 1
    }
}

/// The search is bounded: from depth `depth` it makes `depth + 1` attempts
/// at most, whatever their outcomes.
pub proof fn search_is_bounded(depth: nat, misses: Seq<bool>)
    ensures
        attempts(depth, misses) <= depth + 1,
        attempts(depth, misses) <= misses.len(),
        exhausted(depth, misses) ==> misses.len() == depth + 1 && attempts(depth, misses) == depth
            + 1,
    decreases misses.len(),
{
    if misses.len() > 0 && misses[0] && depth > 0 {
        search_is_bounded((depth - 1) as nat, misses.skip(1));
    }
}

} // verus!
