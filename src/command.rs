//! The operations offered to the operator, and the checks that guard the
//! creation of a new mirrored pair.
use vstd::prelude::*;
use crate::report::{failure_message, text_of, TraversalFailure};

verus! {

/// An operation requested by the operator.
#[derive(Debug)]
pub enum Commands {
    /// Creates the state record of a new pair and runs its first pass.
    Init { source_directory: String, mirror_directory: String, filters: Vec<String> },
    /// Runs a pass for each named state record, or for those found in the
    /// current directory (and below it, when `recursive`).
    Sync { databases: Vec<String>, recursive: bool },
    /// Shows a sample filter program.
    ExampleFilter,
}

/// Why a new pair cannot be created.
#[derive(Debug, Clone, Copy, PartialEq, Eq, Structural)]
pub enum InitError {
    /// The source directory does not exist.
    MissingSource,
    /// A state record already exists for the mirror directory.
    DatabaseExists,
    /// The mirror directory holds entries that mirroring would erase.
    MirrorNotEmpty,
}

/// The outcome of the checks before a new pair is created, in the order in
/// which they are made.
pub open spec fn init_outcome(source_exists: bool, database_exists: bool, mirror_has_entries: bool) -> Result<
    (),
    InitError,
> {
    if !source_exists {
        Err(InitError::MissingSource)
    } else if database_exists {
        Err(InitError::DatabaseExists)
    } else if mirror_has_entries {
        Err(InitError::MirrorNotEmpty)
    } else {
        Ok(())
    }
}

/// Checks that a new pair may be created: its source exists, it has no
/// state record yet, and its mirror directory is absent or empty.
pub fn check_init(source_exists: bool, database_exists: bool, mirror_has_entries: bool) -> (r: Result<
    (),
    InitError,
>)
    ensures
        r == init_outcome(source_exists, database_exists, mirror_has_entries),
{
    if !source_exists {
        Err(InitError::MissingSource)
    } else if database_exists {
        Err(InitError::DatabaseExists)
    } else if mirror_has_entries {
        Err(InitError::MirrorNotEmpty)
    } else {
        Ok(())
    }
}

#[verifier::external_type_specification]
#[verifier::external_body]
pub struct ExWalkdirError(walkdir::Error);

/// Relies on `walkdir::Error::depth`: how deep below the root the walk was.
#[verifier::external_body]
fn walk_error_depth(e: &walkdir::Error) -> usize {
    e.depth()
}

/// Relies on `walkdir::Error::path`: the path at which the walk failed, if any.
#[verifier::external_body]
fn walk_error_path(e: &walkdir::Error) -> Option<String> {
    e.path().map(|p| p.display().to_string())
}

/// Relies on `walkdir::Error::io_error`: the underlying I/O error, if any,
/// as its text.
#[verifier::external_body]
fn walk_error_cause(e: &walkdir::Error) -> Option<String> {
    e.io_error().map(|io| io.to_string())
}

/// The failure that a walk error describes.
pub fn traversal_failure(e: &walkdir::Error) -> TraversalFailure {
    TraversalFailure {
        path: walk_error_path(e),
        depth: walk_error_depth(e),
        cause: walk_error_cause(e),
    }
}

/// Turns the error of a walk step into the text that describes it.
pub trait WalkdirResultExtension<T>: Sized {
    /// The value of a successful step; none for a failed one.
    spec fn walked(&self) -> Option<T>;

    /// A successful step's value comes back unchanged; a failure becomes
    /// the description of where and why the walk stopped.
    fn handle_to_string(self) -> (r: Result<T, String>)
        ensures
            match self.walked() {
                Some(v) => r == Ok::<T, String>(v),
                None => r is Err && exists|path: Option<Seq<char>>, depth: nat, cause: Option<Seq<char>>|
                    r->Err_0@ == failure_message(path, depth, cause),
            },
    ;
}

impl<T> WalkdirResultExtension<T> for Result<T, walkdir::Error> {
    open spec fn walked(&self) -> Option<T> {
        match self {
            Ok(v) => Some(*v),
            Err(_) => None,
        }
    }

    fn handle_to_string(self) -> (r: Result<T, String>) {
        match self {
            Ok(v) => Ok(v),
            Err(e) => {
                let failure = traversal_failure(&e);
                let text = failure.message();
                assert(text@ == failure_message(
                    text_of(failure.path),
                    failure.depth as nat,
                    text_of(failure.cause),
                ));
                Err(text)
            },
        }
    }
}

} // verus!
