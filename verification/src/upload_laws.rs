//! What holds of the upload of a file, over all its attempts.
use crate::upload::{UploadActionView, UploadEvent, UploadPhase, UploadView};
use vstd::prelude::*;

verus! {

/// What is done with an upload: an attempt is made, or told how what it asked for came out.
pub enum UploadInput {
    Attempt,
    Event(UploadEvent),
}

/// The upload of a file that is in the local store at first.
pub struct UploadRun {
    pub upload: UploadView,
    /// What the upload asked for last, if an attempt has been made.
    pub action: Option<UploadActionView>,
    /// The bytes of the file in the local store, if it is there.
    pub local: Option<Seq<u8>>,
    /// The bytes of the file in the remote store, if it is there.
    pub remote: Option<Seq<u8>>,
}

impl UploadRun {
    /// The upload of the file `path` that has the bytes `bytes`.
    pub open spec fn start(path: Seq<char>, bytes: Seq<u8>) -> Self {
        UploadRun {
            upload: UploadView { path, phase: UploadPhase::Waiting },
            action: None,
            local: Some(bytes),
            remote: None,
        }
    }

    pub open spec fn next(self, input: UploadInput) -> Self {
        match input {
            UploadInput::Attempt => {
                let (upload, action) = self.upload.on_attempt();
                UploadRun { upload, action: Some(action), ..self }
            },
            UploadInput::Event(event) => {
                let (upload, action) = self.upload.on_event(event);
                UploadRun {
                    upload,
                    action: Some(action),
                    local: if event is Done && self.upload.phase is Remove {
                        None
                    } else {
                        self.local
                    },
                    remote: if event is Done && self.upload.phase is Copy {
                        self.local
                    } else {
                        self.remote
                    },
                }
            },
        }
    }

    /// What was asked for has been carried out or has failed, or a further attempt is made.
    pub open spec fn admits(self, input: UploadInput) -> bool {
        match input {
            UploadInput::Attempt => self.upload.phase is Waiting,
            UploadInput::Event(event) => match self.upload.phase {
                UploadPhase::Waiting | UploadPhase::Uploaded => false,
                UploadPhase::Check => event == UploadEvent::Exists(self.local is Some)
                    || event is Failed,
                _ => event is Done || event is Failed,
            },
        }
    }
}

/// The run of an upload over `inputs`.
pub open spec fn upload_run(path: Seq<char>, bytes: Seq<u8>, inputs: Seq<UploadInput>) -> UploadRun
    decreases inputs.len(),
{
    if inputs.len() == 0 {
        UploadRun::start(path, bytes)
    } else {
        upload_run(path, bytes, inputs.drop_last()).next(inputs.last())
    }
}

/// In the run over `inputs` everything that was asked for has been carried out or has failed.
pub open spec fn upload_possible(
    path: Seq<char>,
    bytes: Seq<u8>,
    inputs: Seq<UploadInput>,
) -> bool
    decreases inputs.len(),
{
    inputs.len() > 0 ==> {
        &&& upload_possible(path, bytes, inputs.drop_last())
        &&& upload_run(path, bytes, inputs.drop_last()).admits(inputs.last())
    }
}

/// A file is never lost, however many attempts fail. At every moment the local store has its bytes,
/// or it is gone there and the remote store has them; the remote store never has other bytes under
/// its name. It is not to be removed before it is copied, and once it is uploaded it is in the
/// remote store only. What is copied and looked up is always this file.
pub proof fn law_upload_keeps_file(path: Seq<char>, bytes: Seq<u8>, inputs: Seq<UploadInput>)
    requires
        upload_possible(path, bytes, inputs),
    ensures
        ({
            let r = upload_run(path, bytes, inputs);
            &&& r.upload.path == path
            &&& r.local == Some(bytes) || r.local is None && r.remote == Some(bytes)
            &&& r.remote is None || r.remote == Some(bytes)
            &&& r.action == Some(UploadActionView::Remove) ==> r.remote == Some(bytes)
            &&& r.action == Some(UploadActionView::Uploaded) ==> r.remote == Some(bytes)
                && r.local is None
            &&& r.action matches Some(UploadActionView::Copy { path: p }) ==> p == path
            &&& r.action matches Some(UploadActionView::Locate { path: p }) ==> p == path
        }),
{
    lemma_upload_run(path, bytes, inputs);
}

proof fn lemma_upload_run(path: Seq<char>, bytes: Seq<u8>, inputs: Seq<UploadInput>)
    requires
        upload_possible(path, bytes, inputs),
    ensures
        ({
            let r = upload_run(path, bytes, inputs);
            let here = r.local == Some(bytes);
            let there = r.remote == Some(bytes);
            &&& r.upload.path == path
            &&& r.remote is None || there
            &&& match r.upload.phase {
                UploadPhase::Waiting => here && (r.action matches Some(action) ==> action is Retry),
                UploadPhase::Copy => here && r.action == Some(UploadActionView::Copy { path }),
                UploadPhase::Locate => here && there && r.action == Some(
                    UploadActionView::Locate { path },
                ),
                UploadPhase::Check => here && there && r.action == Some(UploadActionView::Check),
                UploadPhase::Remove => here && there && r.action == Some(UploadActionView::Remove),
                UploadPhase::Uploaded => r.local is None && there && r.action == Some(
                    UploadActionView::Uploaded,
                ),
            }
        }),
    decreases inputs.len(),
{
    if inputs.len() > 0 {
        lemma_upload_run(path, bytes, inputs.drop_last());
    }
}

/// Whatever fails, the attempt may be made again, and then starts with the copy.
pub proof fn law_failed_upload_is_retried(upload: UploadView)
    ensures
        ({
            let (failed, action) = upload.on_event(UploadEvent::Failed);
            &&& action == UploadActionView::Retry(upload.phase)
            &&& failed == (UploadView { phase: UploadPhase::Waiting, ..upload })
            &&& failed.on_attempt().1 == (UploadActionView::Copy { path: upload.path })
        }),
{
}

/// A file that is no longer in the local store once it is copied is uploaded without being
/// removed.
pub proof fn law_missing_file_is_uploaded(path: Seq<char>)
    ensures
        ({
            let (u1, a1) = UploadView { path, phase: UploadPhase::Waiting }.on_attempt();
            let (u2, a2) = u1.on_event(UploadEvent::Done);
            let (u3, a3) = u2.on_event(UploadEvent::Done);
            let (u4, a4) = u3.on_event(UploadEvent::Exists(false));
            &&& a1 == (UploadActionView::Copy { path })
            &&& a2 == (UploadActionView::Locate { path })
            &&& a3 is Check
            &&& a4 is Uploaded
            &&& u4.phase is Uploaded
        }),
{
}

} // verus!
