//! The upload of the files of a snapshot.
use crate::metadata::{is_plain_segment, path_in, FileMetadata};
use vstd::prelude::*;

verus! {

/// What an attempt to upload a file waits for.
#[derive(Clone, Copy, Debug, PartialEq, Eq, Structural)]
pub enum UploadPhase {
    /// For a further attempt.
    Waiting,
    /// For the file to be copied to the remote store.
    Copy,
    /// For the place of the local file in the file system.
    Locate,
    /// For an answer whether the local file is there.
    Check,
    /// For the local file to be removed.
    Remove,
    /// For nothing: the file is uploaded.
    Uploaded,
}

/// How what the attempt asked for came out.
#[derive(Clone, Copy, Debug, PartialEq, Eq, Structural)]
pub enum UploadEvent {
    /// It was done.
    Done,
    /// The file is there, or not.
    Exists(bool),
    /// It could not be done.
    Failed,
}

/// What the attempt asks for.
#[derive(Debug, PartialEq, Eq)]
pub enum UploadAction {
    /// Copy this file from the local store to the remote one.
    Copy { path: String },
    /// Find this file of the local store in the file system.
    Locate { path: String },
    /// Find out whether the local file is there.
    Check,
    /// Remove the local file.
    Remove,
    /// The file is uploaded: nothing to do.
    Uploaded,
    /// The attempt failed when this was asked for, and may be made again.
    Retry(UploadPhase),
}

/// The view of an [`UploadAction`].
#[verifier::ext_equal]
pub enum UploadActionView {
    Copy { path: Seq<char> },
    Locate { path: Seq<char> },
    Check,
    Remove,
    Uploaded,
    Retry(UploadPhase),
}

impl View for UploadAction {
    type V = UploadActionView;

    open spec fn view(&self) -> UploadActionView {
        match *self {
            UploadAction::Copy { path } => UploadActionView::Copy { path: path@ },
            UploadAction::Locate { path } => UploadActionView::Locate { path: path@ },
            UploadAction::Check => UploadActionView::Check,
            UploadAction::Remove => UploadActionView::Remove,
            UploadAction::Uploaded => UploadActionView::Uploaded,
            UploadAction::Retry(phase) => UploadActionView::Retry(phase),
        }
    }
}

/// The view of an [`Upload`].
#[verifier::ext_equal]
pub struct UploadView {
    /// The path of the file, in the local store and in the remote one.
    pub path: Seq<char>,
    pub phase: UploadPhase,
}

impl UploadView {
    /// An attempt starts with the copy, also after one that had copied the file.
    pub open spec fn on_attempt(self) -> (UploadView, UploadActionView) {
        (
            UploadView { phase: UploadPhase::Copy, ..self },
            UploadActionView::Copy { path: self.path },
        )
    }

    pub open spec fn uploaded(self) -> (UploadView, UploadActionView) {
        (UploadView { phase: UploadPhase::Uploaded, ..self }, UploadActionView::Uploaded)
    }

    /// What is done on `event`: the file is copied, and then removed where it came from if it
    /// still is there. Whatever fails, the attempt may be made again.
    pub open spec fn on_event(self, event: UploadEvent) -> (UploadView, UploadActionView) {
        match (self.phase, event) {
            (UploadPhase::Copy, UploadEvent::Done) => (
                UploadView { phase: UploadPhase::Locate, ..self },
                UploadActionView::Locate { path: self.path },
            ),
            (UploadPhase::Locate, UploadEvent::Done) => (
                UploadView { phase: UploadPhase::Check, ..self },
                UploadActionView::Check,
            ),
            (UploadPhase::Check, UploadEvent::Exists(exists)) => if exists {
                (UploadView { phase: UploadPhase::Remove, ..self }, UploadActionView::Remove)
            } else {
                self.uploaded()
            },
            (UploadPhase::Remove, UploadEvent::Done) => self.uploaded(),
            _ => (
                UploadView { phase: UploadPhase::Waiting, ..self },
                UploadActionView::Retry(self.phase),
            ),
        }
    }
}

/// The upload of one file.
#[derive(Debug)]
pub struct Upload {
    path: String,
    phase: UploadPhase,
}

impl View for Upload {
    type V = UploadView;

    closed spec fn view(&self) -> UploadView {
        UploadView { path: self.path@, phase: self.phase }
    }
}

impl Upload {
    /// The upload of the file `file_metadata` in the directory `epoch_dir`.
    pub fn new(file_metadata: &FileMetadata, epoch_dir: &String) -> (upload: Self)
        requires
            is_plain_segment(epoch_dir@),
        ensures
            upload@ == (UploadView {
                path: path_in(epoch_dir@, file_metadata.name()),
                phase: UploadPhase::Waiting,
            }),
    {
        Upload { path: file_metadata.file_path(epoch_dir), phase: UploadPhase::Waiting }
    }

    /// Makes an attempt.
    pub fn attempt(&mut self) -> (action: UploadAction)
        ensures
            final(self)@ == old(self)@.on_attempt().0,
            action@ == old(self)@.on_attempt().1,
    {
        self.phase = UploadPhase::Copy;
        UploadAction::Copy { path: self.path.clone() }
    }

    /// Goes on with the attempt, after `event`.
    pub fn resume(&mut self, event: UploadEvent) -> (action: UploadAction)
        ensures
            final(self)@ == old(self)@.on_event(event).0,
            action@ == old(self)@.on_event(event).1,
    {
        match (self.phase, event) {
            (UploadPhase::Copy, UploadEvent::Done) => {
                self.phase = UploadPhase::Locate;
                UploadAction::Locate { path: self.path.clone() }
            },
            (UploadPhase::Locate, UploadEvent::Done) => {
                self.phase = UploadPhase::Check;
                UploadAction::Check
            },
            (UploadPhase::Check, UploadEvent::Exists(exists)) => {
                if exists {
                    self.phase = UploadPhase::Remove;
                    UploadAction::Remove
                } else {
                    self.phase = UploadPhase::Uploaded;
                    UploadAction::Uploaded
                }
            },
            (UploadPhase::Remove, UploadEvent::Done) => {
                self.phase = UploadPhase::Uploaded;
                UploadAction::Uploaded
            },
            (phase, _) => {
                self.phase = UploadPhase::Waiting;
                UploadAction::Retry(phase)
            },
        }
    }
}

/// What comes of the uploads: the first error among `results`, or, where there is none, that all
/// files are uploaded.
pub fn collect_results<E>(results: Vec<Result<(), E>>) -> (collected: Result<Vec<()>, E>)
    ensures
        match collected {
            Ok(units) => units@.len() == results@.len() && forall|i: int|
                0 <= i < results@.len() ==> (#[trigger] results@[i]) is Ok,
            Err(error) => exists|i: int|
                {
                    &&& 0 <= i < results@.len()
                    &&& #[trigger] results@[i] == Err::<(), E>(error)
                    &&& forall|j: int| 0 <= j < i ==> (#[trigger] results@[j]) is Ok
                },
        },
{
    let ghost all = results@;
    let mut units: Vec<()> = Vec::new();
    for result in it: results
        invariant
            it.seq() == all,
            units@.len() == it.index(),
            forall|j: int| 0 <= j < it.index() ==> (#[trigger] all[j]) is Ok,
    {
        match result {
            Ok(unit) => units.push(unit),
            Err(error) => {
                assert(all[it.index()] == Err::<(), E>(error));
                return Err(error);
            },
        }
    }
    Ok(units)
}

} // verus!
