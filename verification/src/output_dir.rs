//! Preparing an empty output directory for the routes.
//!
//! A missing directory is created; an existing empty directory is reused; an
//! existing directory with anything in it, or a path that is not a
//! directory, is refused. The file system work is the caller's: it performs
//! each `OutputDirAction` and reports what it found as the next
//! `OutputDirEvent`, until the action is `Finish`.

use vstd::prelude::*;

verus! {

/// Why the output path cannot be used, with the file system's message where
/// there is one.
#[derive(Clone, Debug, PartialEq, Eq)]
pub enum OutputDirInvalid {
    MetadataUnreadable(String),
    NotADirectory,
    DirectoryUnreadable(String),
    ContentsUnreadable(String),
}

/// Why the output directory could not be prepared.
#[derive(Clone, Debug, PartialEq, Eq)]
pub enum OutputDirProblem {
    /// Creating the missing directory failed.
    Create,
    /// The path exists but cannot serve as the output directory.
    Invalid(OutputDirInvalid),
    /// The directory exists and has something in it.
    NotEmpty,
}

/// What the last step found.
#[derive(Debug, PartialEq, Eq)]
pub enum OutputDirEvent {
    /// Nothing was done yet.
    Started,
    /// Whether the path exists.
    Exists(bool),
    /// Whether the path is a directory, or why its metadata could not be read.
    Metadata(Result<bool, String>),
    /// Whether the directory could be opened for listing.
    Listing(Result<(), String>),
    /// Whether the directory has a first entry, or why it could not be read.
    FirstEntry(Result<bool, String>),
    /// Whether creating the directory (with its parents) succeeded.
    Created(bool),
}

/// The next step.
#[derive(Debug, PartialEq, Eq)]
pub enum OutputDirAction {
    CheckExists,
    ReadMetadata,
    OpenListing,
    ReadFirstEntry,
    CreateAll,
    Finish(Result<(), OutputDirProblem>),
}

/// The step that follows what was found.
pub open spec fn output_dir_step(event: OutputDirEvent) -> OutputDirAction {
    match event {
        OutputDirEvent::Started => OutputDirAction::CheckExists,
        OutputDirEvent::Exists(true) => OutputDirAction::ReadMetadata,
        OutputDirEvent::Exists(false) => OutputDirAction::CreateAll,
        OutputDirEvent::Metadata(Ok(true)) => OutputDirAction::OpenListing,
        OutputDirEvent::Metadata(Ok(false)) => OutputDirAction::Finish(
            Err(OutputDirProblem::Invalid(OutputDirInvalid::NotADirectory)),
        ),
        OutputDirEvent::Metadata(Err(m)) => OutputDirAction::Finish(
            Err(OutputDirProblem::Invalid(OutputDirInvalid::MetadataUnreadable(m))),
        ),
        OutputDirEvent::Listing(Ok(())) => OutputDirAction::ReadFirstEntry,
        OutputDirEvent::Listing(Err(m)) => OutputDirAction::Finish(
            Err(OutputDirProblem::Invalid(OutputDirInvalid::DirectoryUnreadable(m))),
        ),
        OutputDirEvent::FirstEntry(Ok(true)) => OutputDirAction::Finish(Err(OutputDirProblem::NotEmpty)),
        OutputDirEvent::FirstEntry(Ok(false)) => OutputDirAction::Finish(Ok(())),
        OutputDirEvent::FirstEntry(Err(m)) => OutputDirAction::Finish(
            Err(OutputDirProblem::Invalid(OutputDirInvalid::ContentsUnreadable(m))),
        ),
        OutputDirEvent::Created(true) => OutputDirAction::Finish(Ok(())),
        OutputDirEvent::Created(false) => OutputDirAction::Finish(Err(OutputDirProblem::Create)),
    }
}

/// The step that follows what was found (see `output_dir_step`).
pub fn next_output_dir_action(event: OutputDirEvent) -> (action: OutputDirAction)
    ensures
        action == output_dir_step(event),
{
    match event {
        OutputDirEvent::Started => OutputDirAction::CheckExists,
        OutputDirEvent::Exists(exists) => {
            if exists {
                OutputDirAction::ReadMetadata
            } else {
                OutputDirAction::CreateAll
            }
        },
        OutputDirEvent::Metadata(Ok(is_dir)) => {
            if is_dir {
                OutputDirAction::OpenListing
            } else {
                OutputDirAction::Finish(Err(OutputDirProblem::Invalid(OutputDirInvalid::NotADirectory)))
            }
        },
        OutputDirEvent::Metadata(Err(m)) => OutputDirAction::Finish(
            Err(OutputDirProblem::Invalid(OutputDirInvalid::MetadataUnreadable(m))),
        ),
        OutputDirEvent::Listing(Ok(())) => OutputDirAction::ReadFirstEntry,
        OutputDirEvent::Listing(Err(m)) => OutputDirAction::Finish(
            Err(OutputDirProblem::Invalid(OutputDirInvalid::DirectoryUnreadable(m))),
        ),
        OutputDirEvent::FirstEntry(Ok(has_entry)) => {
            if has_entry {
                OutputDirAction::Finish(Err(OutputDirProblem::NotEmpty))
            } else {
                OutputDirAction::Finish(Ok(()))
            }
        },
        OutputDirEvent::FirstEntry(Err(m)) => OutputDirAction::Finish(
            Err(OutputDirProblem::Invalid(OutputDirInvalid::ContentsUnreadable(m))),
        ),
        OutputDirEvent::Created(ok) => {
            if ok {
                OutputDirAction::Finish(Ok(()))
            } else {
                OutputDirAction::Finish(Err(OutputDirProblem::Create))
            }
        },
    }
}

/// How preparing the directory ends, from what the file system reports at
/// each step: whether the path exists, its metadata, the listing, its first
/// entry, and whether creating it succeeded (each asked only when needed).
pub open spec fn output_dir_outcome(
    exists: bool,
    metadata: Result<bool, String>,
    listing: Result<(), String>,
    first_entry: Result<bool, String>,
    created: bool,
) -> Result<(), OutputDirProblem> {
    let a1 = output_dir_step(OutputDirEvent::Exists(exists));
    if a1 is CreateAll {
        output_dir_step(OutputDirEvent::Created(created))->Finish_0
    } else {
        let a2 = output_dir_step(OutputDirEvent::Metadata(metadata));
        if a2 is Finish {
            a2->Finish_0
        } else {
            let a3 = output_dir_step(OutputDirEvent::Listing(listing));
            if a3 is Finish {
                a3->Finish_0
            } else {
                output_dir_step(OutputDirEvent::FirstEntry(first_entry))->Finish_0
            }
        }
    }
}

/// What preparing the output directory promises: a missing directory is
/// created (and the run fails only if creating it fails), an existing empty
/// directory is reused, an existing directory with an entry is refused as not
/// empty, and a path that is not a directory is refused as invalid.
pub proof fn lemma_output_dir_policy(
    exists: bool,
    metadata: Result<bool, String>,
    listing: Result<(), String>,
    first_entry: Result<bool, String>,
    created: bool,
)
    ensures
        output_dir_step(OutputDirEvent::Started) == OutputDirAction::CheckExists,
        !exists ==> (output_dir_outcome(exists, metadata, listing, first_entry, created) is Ok <==> created),
        exists && metadata == Ok::<bool, String>(true) && listing == Ok::<(), String>(()) ==> (
        output_dir_outcome(exists, metadata, listing, first_entry, created) == match first_entry {
            Ok(true) => Err(OutputDirProblem::NotEmpty),
            Ok(false) => Ok(()),
            Err(m) => Err(OutputDirProblem::Invalid(OutputDirInvalid::ContentsUnreadable(m))),
        }),
        exists && metadata == Ok::<bool, String>(false) ==> output_dir_outcome(
            exists,
            metadata,
            listing,
            first_entry,
            created,
        ) == Err::<(), OutputDirProblem>(OutputDirProblem::Invalid(OutputDirInvalid::NotADirectory)),
        exists ==> output_dir_outcome(exists, metadata, listing, first_entry, created) != Err::<
            (),
            OutputDirProblem,
        >(OutputDirProblem::Create),
{
}

} // verus!
